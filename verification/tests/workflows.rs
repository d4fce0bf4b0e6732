use food_market::catalog::{
    add_to_cart, delete_from_cart, delete_user, make_menu, register_restaurant, view_menu,
    view_orders, view_restaurants, view_users, CartRemoval, CartUpdate, MenuUpdate, MenuView,
    OrdersView, RestaurantRegistration, RestaurantsView, UserDeletion, UsersView,
};
use food_market::model::{Admin, FoodMenu, Owner, Restaurant, ShoppingCart, User};
use food_market::registrar::{
    gen_security_code, register_admin, register_owner, register_user, AdminRegistration,
    OwnerRegistration, UserRegistration,
};

fn luigis() -> Vec<Restaurant> {
    vec![Restaurant {
        restaurant_name: "Luigi's".to_string(),
        restaurant_category: "Italian".to_string(),
    }]
}

#[test]
fn scenario_register_alice_in_empty_file() {
    let users: Vec<User> = Vec::new();
    match register_user(users, "alice\n", "42\n", 1234, "1234\n") {
        UserRegistration::Registered(us) => {
            assert_eq!(us.len(), 1);
            assert_eq!(us[0].name, "alice");
            assert_eq!(us[0].password, 42);
        },
        _ => panic!("registration must succeed"),
    }
}

#[test]
fn scenario_make_menu_then_duplicate_rejected() {
    let restaurants = luigis();
    let foods: Vec<FoodMenu> = Vec::new();
    let foods = match make_menu(foods, &restaurants, "Luigi's\n", "Pizza\n", "12.5\n") {
        MenuUpdate::Added(fs) => fs,
        _ => panic!("adding a new menu row must succeed"),
    };
    assert_eq!(foods.len(), 1);
    assert_eq!(foods[0].restaurant_name, "Luigi's");
    assert_eq!(foods[0].food_name, "Pizza");
    assert_eq!(foods[0].price_cents, 1250);
    assert!(matches!(
        make_menu(foods, &restaurants, "Luigi's\n", "Pizza\n", "12.5\n"),
        MenuUpdate::DuplicateFood
    ));
}

#[test]
fn scenario_cart_gains_and_loses_pizza() {
    let foods = vec![FoodMenu {
        restaurant_name: "Luigi's".to_string(),
        food_name: "Pizza".to_string(),
        price_cents: 1250,
    }];
    let cart: Vec<ShoppingCart> = Vec::new();
    let cart = match add_to_cart(cart, &foods, "Pizza\n") {
        CartUpdate::Added(c) => c,
        _ => panic!("a catalog hit must be added"),
    };
    assert_eq!(cart.len(), 1);
    assert_eq!(cart[0].food_name, "Pizza");
    assert_eq!(cart[0].price_cents, 1250);
    match delete_from_cart(cart, "Pizza\n") {
        CartRemoval::Removed(c) => assert!(c.is_empty()),
        _ => panic!("the item just added must be removable"),
    }
}

#[test]
fn scenario_admin_with_wrong_id_sees_no_users() {
    let users = vec![User { name: "alice".to_string(), password: 42 }];
    let admins = vec![Admin { admin_name: "root".to_string(), admin_id: 1 }];
    assert!(matches!(
        view_users(users, &admins, "root\n", "2\n"),
        UsersView::AuthenticationFailed
    ));
}

#[test]
fn security_codes_stay_in_the_four_digit_band() {
    for _ in 0..200 {
        let code = gen_security_code();
        assert!((1000..=9999).contains(&code));
    }
}

#[test]
fn boundary_codes_never_match() {
    let code = gen_security_code();
    let users: Vec<User> = Vec::new();
    assert!(matches!(
        register_user(users, "alice", "42", code, "999"),
        UserRegistration::CodeMismatch
    ));
    let users: Vec<User> = Vec::new();
    assert!(matches!(
        register_user(users, "alice", "42", code, "10000"),
        UserRegistration::CodeMismatch
    ));
}

#[test]
fn user_registration_abort_paths() {
    let users = vec![User { name: "alice".to_string(), password: 42 }];
    assert!(matches!(
        register_user(users, "bob", "not-a-number", 1234, "1234"),
        UserRegistration::InvalidPassword
    ));
    let users = vec![User { name: "alice".to_string(), password: 42 }];
    assert!(matches!(
        register_user(users, "bob", "7", 1234, "12 34"),
        UserRegistration::InvalidCode
    ));
    let users = vec![User { name: "alice".to_string(), password: 42 }];
    assert!(matches!(
        register_user(users, "bob", "7", 1234, "4321"),
        UserRegistration::CodeMismatch
    ));
    let users = vec![User { name: "alice".to_string(), password: 42 }];
    assert!(matches!(
        register_user(users, " alice ", "7", 1234, "1234"),
        UserRegistration::DuplicateName
    ));
}

#[test]
fn owner_uniqueness_is_name_or_id() {
    let owners = vec![Owner { owner_name: "gina".to_string(), owner_id: 5 }];
    assert!(matches!(
        register_owner(owners, "gina", "6", 1234, "1234"),
        OwnerRegistration::Duplicate
    ));
    let owners = vec![Owner { owner_name: "gina".to_string(), owner_id: 5 }];
    assert!(matches!(
        register_owner(owners, "paolo", "5", 1234, "1234"),
        OwnerRegistration::Duplicate
    ));
    let owners = vec![Owner { owner_name: "gina".to_string(), owner_id: 5 }];
    match register_owner(owners, "paolo", "6", 1234, "1234") {
        OwnerRegistration::Registered(os) => {
            assert_eq!(os.len(), 2);
            assert_eq!(os[1].owner_name, "paolo");
            assert_eq!(os[1].owner_id, 6);
        },
        _ => panic!("a fresh name and id must register"),
    }
}

#[test]
fn admin_registration_mirrors_owner_rules() {
    let admins = vec![Admin { admin_name: "root".to_string(), admin_id: 1 }];
    assert!(matches!(
        register_admin(admins, "root", "2", 1234, "1234"),
        AdminRegistration::Duplicate
    ));
    let admins = vec![Admin { admin_name: "root".to_string(), admin_id: 1 }];
    assert!(matches!(
        register_admin(admins, "ops", "bad-id", 1234, "1234"),
        AdminRegistration::InvalidId
    ));
    let admins = vec![Admin { admin_name: "root".to_string(), admin_id: 1 }];
    match register_admin(admins, "ops", "2", 1234, "1234") {
        AdminRegistration::Registered(ads) => assert_eq!(ads.len(), 2),
        _ => panic!("a fresh name and id must register"),
    }
}

#[test]
fn restaurant_names_are_unique() {
    let restaurants = luigis();
    assert!(matches!(
        register_restaurant(restaurants, "Luigi's", "Pizzeria"),
        RestaurantRegistration::DuplicateName
    ));
    let restaurants = luigis();
    match register_restaurant(restaurants, "Mario's", "Pizzeria") {
        RestaurantRegistration::Added(rs) => {
            assert_eq!(rs.len(), 2);
            assert_eq!(rs[1].restaurant_name, "Mario's");
            assert_eq!(rs[1].restaurant_category, "Pizzeria");
        },
        _ => panic!("a new name must be accepted"),
    }
}

#[test]
fn menu_views_are_pure_reads() {
    let restaurants = luigis();
    let foods = vec![
        FoodMenu {
            restaurant_name: "Luigi's".to_string(),
            food_name: "Pizza".to_string(),
            price_cents: 1250,
        },
        FoodMenu {
            restaurant_name: "Mario's".to_string(),
            food_name: "Pasta".to_string(),
            price_cents: 900,
        },
    ];
    match view_menu(&restaurants, &foods, "Luigi's\n") {
        MenuView::Menu(rows) => {
            assert_eq!(rows.len(), 1);
            assert_eq!(rows[0].food_name, "Pizza");
        },
        _ => panic!("a stocked menu must list"),
    }
    assert!(matches!(view_menu(&restaurants, &foods, "Nowhere"), MenuView::RestaurantNotFound));
    let no_rows: Vec<FoodMenu> = Vec::new();
    assert!(matches!(view_menu(&restaurants, &no_rows, "Luigi's"), MenuView::EmptyMenu));

    match view_restaurants(luigis()) {
        RestaurantsView::Table(rs) => assert_eq!(rs.len(), 1),
        _ => panic!("a stocked catalog must list"),
    }
    assert!(matches!(view_restaurants(Vec::new()), RestaurantsView::NoRestaurants));
}

#[test]
fn orders_listing_checks_restaurant_then_lists_global_cart() {
    let restaurants = luigis();
    let cart = vec![ShoppingCart { food_name: "Pizza".to_string(), price_cents: 1250 }];
    assert!(matches!(
        view_orders(cart, &restaurants, "Nowhere"),
        OrdersView::RestaurantNotFound
    ));
    let cart = vec![ShoppingCart { food_name: "Pizza".to_string(), price_cents: 1250 }];
    match view_orders(cart, &restaurants, "Luigi's") {
        OrdersView::Orders(items) => assert_eq!(items.len(), 1),
        _ => panic!("a stocked cart must list"),
    }
    let empty: Vec<ShoppingCart> = Vec::new();
    assert!(matches!(view_orders(empty, &restaurants, "Luigi's"), OrdersView::NoOrders));
}

#[test]
fn cart_misses_and_empty_cart_are_reported() {
    let foods: Vec<FoodMenu> = Vec::new();
    assert!(matches!(
        add_to_cart(Vec::new(), &foods, "Pizza"),
        CartUpdate::FoodNotFound
    ));
    assert!(matches!(delete_from_cart(Vec::new(), "Pizza"), CartRemoval::EmptyCart));
    let cart = vec![ShoppingCart { food_name: "Pasta".to_string(), price_cents: 900 }];
    assert!(matches!(delete_from_cart(cart, "Pizza"), CartRemoval::ItemNotFound));
}

#[test]
fn delete_user_removes_first_exact_match() {
    let admins = vec![Admin { admin_name: "root".to_string(), admin_id: 1 }];
    let users = vec![
        User { name: "alice".to_string(), password: 42 },
        User { name: "bob".to_string(), password: 7 },
    ];
    match delete_user(users, &admins, "root", "1", "alice") {
        UserDeletion::Deleted(us) => {
            assert_eq!(us.len(), 1);
            assert_eq!(us[0].name, "bob");
        },
        _ => panic!("an authenticated exact match must delete"),
    }
    let users = vec![User { name: "alice".to_string(), password: 42 }];
    assert!(matches!(
        delete_user(users, &admins, "root", "1", "carol"),
        UserDeletion::UserNotFound
    ));
    let users = vec![User { name: "alice".to_string(), password: 42 }];
    assert!(matches!(
        delete_user(users, &admins, "root", "x", "alice"),
        UserDeletion::InvalidAdminId
    ));
    let users = vec![User { name: "alice".to_string(), password: 42 }];
    assert!(matches!(
        delete_user(users, &admins, "intruder", "1", "alice"),
        UserDeletion::AuthenticationFailed
    ));
}

#[test]
fn authenticated_admin_sees_users() {
    let admins = vec![Admin { admin_name: "root".to_string(), admin_id: 1 }];
    let users = vec![User { name: "alice".to_string(), password: 42 }];
    match view_users(users, &admins, "root", "1") {
        UsersView::Users(us) => {
            assert_eq!(us.len(), 1);
            assert_eq!(us[0].name, "alice");
            assert_eq!(us[0].password, 42);
        },
        _ => panic!("exact credentials must authenticate"),
    }
}
