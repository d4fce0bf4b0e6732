//! Catalog and ordering workflows: restaurant registration, menu building
//! and browsing, the single global cart, order listing, and admin user
//! management.
//!
//! Every workflow is a pure function over freshly loaded collections; a
//! rejection returns no replacement collection, so the caller leaves the
//! backing file untouched.

use vstd::prelude::*;

use crate::model::{
    admin_matches, any_admin_matching, any_menu_pair, any_restaurant_named, menu_pair_taken,
    restaurant_name_taken, Admin, FoodMenu, Restaurant, ShoppingCart, User,
};
use crate::text::{parse_price_cents, parse_u32, parse_u32_spec, price_cents_spec, trim,
    trim_spec};

verus! {

/// The menu rows of one restaurant, in catalog order.
pub open spec fn menu_of(foods: Seq<FoodMenu>, name: Seq<char>) -> Seq<FoodMenu> {
    foods.filter(|f: FoodMenu| f.restaurant_name@ == name)
}

/// `foods[k]` is the first row whose food name is `name`.
pub open spec fn first_food_match(foods: Seq<FoodMenu>, name: Seq<char>, k: int) -> bool {
    &&& 0 <= k < foods.len()
    &&& foods[k].food_name@ == name
    &&& forall|j: int| 0 <= j < k ==> (#[trigger] foods[j]).food_name@ != name
}

/// `cart[k]` is the first item whose food name is `name`.
pub open spec fn first_cart_match(cart: Seq<ShoppingCart>, name: Seq<char>, k: int) -> bool {
    &&& 0 <= k < cart.len()
    &&& cart[k].food_name@ == name
    &&& forall|j: int| 0 <= j < k ==> (#[trigger] cart[j]).food_name@ != name
}

/// `users[k]` is the first user whose name is `name`.
pub open spec fn first_user_match(users: Seq<User>, name: Seq<char>, k: int) -> bool {
    &&& 0 <= k < users.len()
    &&& users[k].name@ == name
    &&& forall|j: int| 0 <= j < k ==> (#[trigger] users[j]).name@ != name
}

pub enum RestaurantRegistration {
    DuplicateName,
    Added(Vec<Restaurant>),
}

/// Register a restaurant: reject a taken name, otherwise append
/// `{name, category}`.
pub fn register_restaurant(
    restaurants: Vec<Restaurant>,
    name_line: &str,
    category_line: &str,
) -> (r: RestaurantRegistration)
    ensures
        ({
            let name = trim_spec(name_line@);
            let category = trim_spec(category_line@);
            if restaurant_name_taken(restaurants@, name) {
                r == RestaurantRegistration::DuplicateName
            } else {
                r matches RestaurantRegistration::Added(rs)
                    && rs@.len() == restaurants@.len() + 1
                    && (forall|i: int| 0 <= i < restaurants@.len() ==> rs@[i] == restaurants@[i])
                    && rs@.last().restaurant_name@ == name
                    && rs@.last().restaurant_category@ == category
            }
        }),
{
    let name = trim(name_line);
    if any_restaurant_named(&restaurants, &name) {
        return RestaurantRegistration::DuplicateName;
    }
    let category = trim(category_line);
    let mut rs = restaurants;
    rs.push(Restaurant { restaurant_name: name, restaurant_category: category });
    RestaurantRegistration::Added(rs)
}

pub enum MenuUpdate {
    RestaurantNotFound,
    DuplicateFood,
    InvalidPrice,
    Added(Vec<FoodMenu>),
}

/// Add a food item to a restaurant's menu: the restaurant must exist, the
/// (restaurant, food) pair must be new, and the price must parse as a
/// decimal (held in hundredths).
pub fn make_menu(
    foods: Vec<FoodMenu>,
    restaurants: &Vec<Restaurant>,
    restaurant_line: &str,
    food_line: &str,
    price_line: &str,
) -> (r: MenuUpdate)
    ensures
        ({
            let restaurant = trim_spec(restaurant_line@);
            let food = trim_spec(food_line@);
            if !restaurant_name_taken(restaurants@, restaurant) {
                r == MenuUpdate::RestaurantNotFound
            } else if menu_pair_taken(foods@, restaurant, food) {
                r == MenuUpdate::DuplicateFood
            } else {
                match price_cents_spec(trim_spec(price_line@)) {
                    None => r == MenuUpdate::InvalidPrice,
                    Some(cents) => r matches MenuUpdate::Added(fs)
                        && fs@.len() == foods@.len() + 1
                        && (forall|i: int| 0 <= i < foods@.len() ==> fs@[i] == foods@[i])
                        && fs@.last().restaurant_name@ == restaurant
                        && fs@.last().food_name@ == food
                        && fs@.last().price_cents == cents,
                }
            }
        }),
{
    let restaurant = trim(restaurant_line);
    if !any_restaurant_named(restaurants, &restaurant) {
        return MenuUpdate::RestaurantNotFound;
    }
    let food = trim(food_line);
    if any_menu_pair(&foods, &restaurant, &food) {
        return MenuUpdate::DuplicateFood;
    }
    let price_cents = match parse_price_cents(trim(price_line).as_str()) {
        Some(c) => c,
        None => {
            return MenuUpdate::InvalidPrice;
        },
    };
    let mut fs = foods;
    fs.push(FoodMenu { restaurant_name: restaurant, food_name: food, price_cents });
    MenuUpdate::Added(fs)
}

pub enum RestaurantsView {
    NoRestaurants,
    Table(Vec<Restaurant>),
}

/// List the catalog: a pure read, handing the loaded collection back for
/// display, unchanged and in order.
pub fn view_restaurants(restaurants: Vec<Restaurant>) -> (r: RestaurantsView)
    ensures
        restaurants@.len() == 0 ==> r == RestaurantsView::NoRestaurants,
        restaurants@.len() > 0 ==> r == RestaurantsView::Table(restaurants),
{
    if restaurants.len() == 0 {
        RestaurantsView::NoRestaurants
    } else {
        RestaurantsView::Table(restaurants)
    }
}

pub enum MenuView {
    RestaurantNotFound,
    EmptyMenu,
    Menu(Vec<FoodMenu>),
}

/// Browse one restaurant's menu: a pure read; unknown restaurants are
/// reported apart from known ones with no rows.
pub fn view_menu(
    restaurants: &Vec<Restaurant>,
    foods: &Vec<FoodMenu>,
    restaurant_line: &str,
) -> (r: MenuView)
    ensures
        ({
            let restaurant = trim_spec(restaurant_line@);
            if !restaurant_name_taken(restaurants@, restaurant) {
                r == MenuView::RestaurantNotFound
            } else if menu_of(foods@, restaurant).len() == 0 {
                r == MenuView::EmptyMenu
            } else {
                r matches MenuView::Menu(m) && m@ == menu_of(foods@, restaurant)
            }
        }),
{
    let restaurant = trim(restaurant_line);
    if !any_restaurant_named(restaurants, &restaurant) {
        return MenuView::RestaurantNotFound;
    }
    let rows = foods_of_restaurant(foods, &restaurant);
    if rows.len() == 0 {
        MenuView::EmptyMenu
    } else {
        MenuView::Menu(rows)
    }
}

fn foods_of_restaurant(foods: &Vec<FoodMenu>, name: &String) -> (r: Vec<FoodMenu>)
    ensures
        r@ == menu_of(foods@, name@),
{
    let mut out: Vec<FoodMenu> = Vec::new();
    let mut i: usize = 0;
    proof {
        reveal(Seq::filter);
        assert(foods@.take(0) =~= Seq::<FoodMenu>::empty());
        assert(out@ == menu_of(foods@.take(0), name@));
    }
    while i < foods.len()
        invariant
            i <= foods@.len(),
            out@ == menu_of(foods@.take(i as int), name@),
        decreases foods@.len() - i,
    {
        if foods[i].restaurant_name == *name {
            out.push(foods[i].clone());
        }
        i = i + 1;
        proof {
            reveal(Seq::filter);
            let pre = foods@.take(i - 1);
            let ext = foods@.take(i as int);
            assert(ext.drop_last() =~= pre);
            assert(ext.last() == foods@[i - 1]);
            assert(out@ == menu_of(ext, name@));
        }
    }
    proof {
        assert(foods@.take(foods@.len() as int) =~= foods@);
    }
    out
}

pub enum CartUpdate {
    FoodNotFound,
    Added(Vec<ShoppingCart>),
}

/// Add the first food of that name, searched across the whole catalog, to
/// the single global cart.
pub fn add_to_cart(
    cart: Vec<ShoppingCart>,
    foods: &Vec<FoodMenu>,
    food_line: &str,
) -> (r: CartUpdate)
    ensures
        ({
            let food = trim_spec(food_line@);
            if !(exists|k: int|
                0 <= k < foods@.len() && (#[trigger] foods@[k]).food_name@ == food) {
                r == CartUpdate::FoodNotFound
            } else {
                exists|k: int|
                    {
                        &&& #[trigger] first_food_match(foods@, food, k)
                        &&& r matches CartUpdate::Added(c)
                        &&& c@.len() == cart@.len() + 1
                        &&& (forall|i: int| 0 <= i < cart@.len() ==> c@[i] == cart@[i])
                        &&& c@.last().food_name@ == food
                        &&& c@.last().price_cents == foods@[k].price_cents
                    }
            }
        }),
{
    let food = trim(food_line);
    match find_food_index(foods, &food) {
        None => CartUpdate::FoodNotFound,
        Some(k) => {
            let item = ShoppingCart {
                food_name: foods[k].food_name.clone(),
                price_cents: foods[k].price_cents,
            };
            let mut c = cart;
            c.push(item);
            CartUpdate::Added(c)
        },
    }
}

fn find_food_index(foods: &Vec<FoodMenu>, name: &String) -> (r: Option<usize>)
    ensures
        match r {
            Some(k) => first_food_match(foods@, name@, k as int),
            None => forall|j: int| 0 <= j < foods@.len()
                ==> (#[trigger] foods@[j]).food_name@ != name@,
        },
{
    let mut i: usize = 0;
    while i < foods.len()
        invariant
            i <= foods@.len(),
            forall|j: int| 0 <= j < i ==> (#[trigger] foods@[j]).food_name@ != name@,
        decreases foods@.len() - i,
    {
        if foods[i].food_name == *name {
            return Some(i);
        }
        i = i + 1;
    }
    None
}

pub enum CartRemoval {
    EmptyCart,
    ItemNotFound,
    Removed(Vec<ShoppingCart>),
}

/// Remove the first cart item whose food name matches exactly.
pub fn delete_from_cart(cart: Vec<ShoppingCart>, food_line: &str) -> (r: CartRemoval)
    ensures
        ({
            let food = trim_spec(food_line@);
            if cart@.len() == 0 {
                r == CartRemoval::EmptyCart
            } else if !(exists|k: int|
                0 <= k < cart@.len() && (#[trigger] cart@[k]).food_name@ == food) {
                r == CartRemoval::ItemNotFound
            } else {
                exists|k: int|
                    {
                        &&& #[trigger] first_cart_match(cart@, food, k)
                        &&& r matches CartRemoval::Removed(c)
                        &&& c@ == cart@.remove(k)
                    }
            }
        }),
{
    if cart.len() == 0 {
        return CartRemoval::EmptyCart;
    }
    let food = trim(food_line);
    let mut i: usize = 0;
    while i < cart.len()
        invariant
            i <= cart@.len(),
            food@ == trim_spec(food_line@),
            forall|j: int| 0 <= j < i ==> (#[trigger] cart@[j]).food_name@ != food@,
        decreases cart@.len() - i,
    {
        if cart[i].food_name == food {
            proof {
                assert(first_cart_match(cart@, food@, i as int));
            }
            let mut c = cart;
            c.remove(i);
            return CartRemoval::Removed(c);
        }
        i = i + 1;
    }
    CartRemoval::ItemNotFound
}

pub enum OrdersView {
    RestaurantNotFound,
    NoOrders,
    Orders(Vec<ShoppingCart>),
}

/// List "orders" for a restaurant. As the workflows stand, this checks that
/// the restaurant exists and then lists the entire global cart; the Order
/// collection itself is never filed.
pub fn view_orders(
    cart: Vec<ShoppingCart>,
    restaurants: &Vec<Restaurant>,
    restaurant_line: &str,
) -> (r: OrdersView)
    ensures
        ({
            let restaurant = trim_spec(restaurant_line@);
            if !restaurant_name_taken(restaurants@, restaurant) {
                r == OrdersView::RestaurantNotFound
            } else if cart@.len() == 0 {
                r == OrdersView::NoOrders
            } else {
                r == OrdersView::Orders(cart)
            }
        }),
{
    let restaurant = trim(restaurant_line);
    if !any_restaurant_named(restaurants, &restaurant) {
        return OrdersView::RestaurantNotFound;
    }
    if cart.len() == 0 {
        OrdersView::NoOrders
    } else {
        OrdersView::Orders(cart)
    }
}

pub enum UsersView {
    InvalidAdminId,
    AuthenticationFailed,
    Users(Vec<User>),
}

/// List all users, gated by exact admin name/id authentication: a pure read.
pub fn view_users(
    users: Vec<User>,
    admins: &Vec<Admin>,
    admin_name_line: &str,
    admin_id_line: &str,
) -> (r: UsersView)
    ensures
        ({
            let admin_name = trim_spec(admin_name_line@);
            match parse_u32_spec(trim_spec(admin_id_line@)) {
                None => r == UsersView::InvalidAdminId,
                Some(id) => if !admin_matches(admins@, admin_name, id) {
                    r == UsersView::AuthenticationFailed
                } else {
                    r == UsersView::Users(users)
                },
            }
        }),
{
    let admin_name = trim(admin_name_line);
    let admin_id = match parse_u32(trim(admin_id_line).as_str()) {
        Some(n) => n,
        None => {
            return UsersView::InvalidAdminId;
        },
    };
    if !any_admin_matching(admins, &admin_name, admin_id) {
        return UsersView::AuthenticationFailed;
    }
    UsersView::Users(users)
}

pub enum UserDeletion {
    InvalidAdminId,
    AuthenticationFailed,
    UserNotFound,
    Deleted(Vec<User>),
}

/// Remove the first user of that exact name, gated by admin authentication.
pub fn delete_user(
    users: Vec<User>,
    admins: &Vec<Admin>,
    admin_name_line: &str,
    admin_id_line: &str,
    username_line: &str,
) -> (r: UserDeletion)
    ensures
        ({
            let admin_name = trim_spec(admin_name_line@);
            let username = trim_spec(username_line@);
            match parse_u32_spec(trim_spec(admin_id_line@)) {
                None => r == UserDeletion::InvalidAdminId,
                Some(id) => if !admin_matches(admins@, admin_name, id) {
                    r == UserDeletion::AuthenticationFailed
                } else if !(exists|k: int|
                    0 <= k < users@.len() && (#[trigger] users@[k]).name@ == username) {
                    r == UserDeletion::UserNotFound
                } else {
                    exists|k: int|
                        {
                            &&& #[trigger] first_user_match(users@, username, k)
                            &&& r matches UserDeletion::Deleted(us)
                            &&& us@ == users@.remove(k)
                        }
                },
            }
        }),
{
    let admin_name = trim(admin_name_line);
    let admin_id = match parse_u32(trim(admin_id_line).as_str()) {
        Some(n) => n,
        None => {
            return UserDeletion::InvalidAdminId;
        },
    };
    if !any_admin_matching(admins, &admin_name, admin_id) {
        return UserDeletion::AuthenticationFailed;
    }
    let username = trim(username_line);
    let mut i: usize = 0;
    while i < users.len()
        invariant
            i <= users@.len(),
            username@ == trim_spec(username_line@),
            parse_u32_spec(trim_spec(admin_id_line@)) == Some(admin_id),
            admin_matches(admins@, trim_spec(admin_name_line@), admin_id),
            forall|j: int| 0 <= j < i ==> (#[trigger] users@[j]).name@ != username@,
        decreases users@.len() - i,
    {
        if users[i].name == username {
            proof {
                assert(first_user_match(users@, username@, i as int));
            }
            let mut us = users;
            us.remove(i);
            return UserDeletion::Deleted(us);
        }
        i = i + 1;
    }
    UserDeletion::UserNotFound
}

} // verus!
