//! Conversions between the typed collections and the record store's generic
//! field records. Loading rejects any record whose shape does not match the
//! entity (wrong field count, name, kind, or an out-of-range number).

use vstd::prelude::*;

use crate::model::{Admin, FoodMenu, Owner, Restaurant, ShoppingCart, User};
use crate::store::{fields_view, records_view, Field, FieldV, FieldValue, ValueV};

verus! {

pub open spec fn user_record(u: User) -> Seq<FieldV> {
    seq![
        FieldV { name: "name"@, value: ValueV::Text(u.name@) },
        FieldV { name: "password"@, value: ValueV::Number(u.password as u64) },
    ]
}

pub open spec fn is_user_record(fs: Seq<FieldV>) -> bool {
    &&& fs.len() == 2
    &&& fs[0].name == "name"@
    &&& fs[0].value is Text
    &&& fs[1].name == "password"@
    &&& (fs[1].value matches ValueV::Number(n) && n <= u32::MAX)
}

pub open spec fn users_records(us: Seq<User>) -> Seq<Seq<FieldV>> {
    us.map_values(|u: User| user_record(u))
}

pub fn user_to_record(u: &User) -> (r: Vec<Field>)
    ensures
        fields_view(r@) == user_record(*u),
{
    let mut r: Vec<Field> = Vec::new();
    r.push(Field { name: String::from_str("name"), value: FieldValue::Text(u.name.clone()) });
    r.push(Field {
        name: String::from_str("password"),
        value: FieldValue::Number(u.password as u64),
    });
    proof {
        assert(fields_view(r@) =~= user_record(*u));
    }
    r
}

pub fn record_to_user(rec: &Vec<Field>) -> (r: Option<User>)
    ensures
        match r {
            Some(u) => is_user_record(fields_view(rec@)) && user_record(u) == fields_view(rec@),
            None => !is_user_record(fields_view(rec@)),
        },
{
    if rec.len() != 2 {
        return None;
    }
    if !(rec[0].name == String::from_str("name")) {
        return None;
    }
    let name = match &rec[0].value {
        FieldValue::Text(t) => t.clone(),
        FieldValue::Number(_) => {
            return None;
        },
    };
    if !(rec[1].name == String::from_str("password")) {
        return None;
    }
    let pw64 = match &rec[1].value {
        FieldValue::Number(n) => *n,
        FieldValue::Text(_) => {
            return None;
        },
    };
    if pw64 > 0xFFFF_FFFFu64 {
        return None;
    }
    let u = User { name, password: pw64 as u32 };
    proof {
        assert(user_record(u) =~= fields_view(rec@));
    }
    Some(u)
}

pub fn users_to_records(us: &Vec<User>) -> (r: Vec<Vec<Field>>)
    ensures
        records_view(r@) == users_records(us@),
{
    let mut r: Vec<Vec<Field>> = Vec::new();
    let mut i: usize = 0;
    while i < us.len()
        invariant
            i <= us@.len(),
            r@.len() == i,
            forall|j: int| 0 <= j < i ==> fields_view(#[trigger] r@[j]@) == user_record(us@[j]),
        decreases us@.len() - i,
    {
        r.push(user_to_record(&us[i]));
        i = i + 1;
    }
    proof {
        assert(records_view(r@) =~= users_records(us@));
    }
    r
}

pub fn records_to_users(rs: &Vec<Vec<Field>>) -> (r: Option<Vec<User>>)
    ensures
        match r {
            Some(us) => users_records(us@) == records_view(rs@),
            None => !(forall|i: int|
                0 <= i < rs@.len() ==> is_user_record(#[trigger] records_view(rs@)[i])),
        },
{
    let mut out: Vec<User> = Vec::new();
    let mut i: usize = 0;
    while i < rs.len()
        invariant
            i <= rs@.len(),
            out@.len() == i,
            forall|j: int| 0 <= j < i ==> user_record(#[trigger] out@[j]) == records_view(rs@)[j],
        decreases rs@.len() - i,
    {
        match record_to_user(&rs[i]) {
            Some(u) => {
                out.push(u);
            },
            None => {
                proof {
                    assert(!is_user_record(records_view(rs@)[i as int]));
                }
                return None;
            },
        }
        i = i + 1;
    }
    proof {
        assert(users_records(out@) =~= records_view(rs@));
    }
    Some(out)
}


pub open spec fn owner_record(x: Owner) -> Seq<FieldV> {
    seq![
        FieldV { name: "owner_name"@, value: ValueV::Text(x.owner_name@) },
        FieldV { name: "owner_id"@, value: ValueV::Number(x.owner_id as u64) },
    ]
}

pub open spec fn is_owner_record(fs: Seq<FieldV>) -> bool {
    &&& fs.len() == 2
    &&& fs[0].name == "owner_name"@
    &&& fs[0].value is Text
    &&& fs[1].name == "owner_id"@
    &&& (fs[1].value matches ValueV::Number(n) && n <= u32::MAX)
}

pub open spec fn owners_records(xs: Seq<Owner>) -> Seq<Seq<FieldV>> {
    xs.map_values(|x: Owner| owner_record(x))
}

pub fn owner_to_record(x: &Owner) -> (r: Vec<Field>)
    ensures
        fields_view(r@) == owner_record(*x),
{
    let mut r: Vec<Field> = Vec::new();
    r.push(Field { name: String::from_str("owner_name"), value: FieldValue::Text(x.owner_name.clone()) });
    r.push(Field {
        name: String::from_str("owner_id"),
        value: FieldValue::Number(x.owner_id as u64),
    });
    proof {
        assert(fields_view(r@) =~= owner_record(*x));
    }
    r
}

pub fn record_to_owner(rec: &Vec<Field>) -> (r: Option<Owner>)
    ensures
        match r {
            Some(x) => is_owner_record(fields_view(rec@)) && owner_record(x) == fields_view(rec@),
            None => !is_owner_record(fields_view(rec@)),
        },
{
    if rec.len() != 2 {
        return None;
    }
    if !(rec[0].name == String::from_str("owner_name")) {
        return None;
    }
    let owner_name = match &rec[0].value {
        FieldValue::Text(t) => t.clone(),
        FieldValue::Number(_) => {
            return None;
        },
    };
    if !(rec[1].name == String::from_str("owner_id")) {
        return None;
    }
    let id64 = match &rec[1].value {
        FieldValue::Number(n) => *n,
        FieldValue::Text(_) => {
            return None;
        },
    };
    if id64 > 0xFFFF_FFFFu64 {
        return None;
    }
    let x = Owner { owner_name, owner_id: id64 as u32 };
    proof {
        assert(owner_record(x) =~= fields_view(rec@));
    }
    Some(x)
}

pub fn owners_to_records(xs: &Vec<Owner>) -> (r: Vec<Vec<Field>>)
    ensures
        records_view(r@) == owners_records(xs@),
{
    let mut r: Vec<Vec<Field>> = Vec::new();
    let mut i: usize = 0;
    while i < xs.len()
        invariant
            i <= xs@.len(),
            r@.len() == i,
            forall|j: int| 0 <= j < i ==> fields_view(#[trigger] r@[j]@) == owner_record(xs@[j]),
        decreases xs@.len() - i,
    {
        r.push(owner_to_record(&xs[i]));
        i = i + 1;
    }
    proof {
        assert(records_view(r@) =~= owners_records(xs@));
    }
    r
}

pub fn records_to_owners(rs: &Vec<Vec<Field>>) -> (r: Option<Vec<Owner>>)
    ensures
        match r {
            Some(xs) => owners_records(xs@) == records_view(rs@),
            None => !(forall|i: int|
                0 <= i < rs@.len() ==> is_owner_record(#[trigger] records_view(rs@)[i])),
        },
{
    let mut out: Vec<Owner> = Vec::new();
    let mut i: usize = 0;
    while i < rs.len()
        invariant
            i <= rs@.len(),
            out@.len() == i,
            forall|j: int| 0 <= j < i ==> owner_record(#[trigger] out@[j]) == records_view(rs@)[j],
        decreases rs@.len() - i,
    {
        match record_to_owner(&rs[i]) {
            Some(x) => {
                out.push(x);
            },
            None => {
                proof {
                    assert(!is_owner_record(records_view(rs@)[i as int]));
                }
                return None;
            },
        }
        i = i + 1;
    }
    proof {
        assert(owners_records(out@) =~= records_view(rs@));
    }
    Some(out)
}

pub open spec fn admin_record(x: Admin) -> Seq<FieldV> {
    seq![
        FieldV { name: "admin_name"@, value: ValueV::Text(x.admin_name@) },
        FieldV { name: "admin_id"@, value: ValueV::Number(x.admin_id as u64) },
    ]
}

pub open spec fn is_admin_record(fs: Seq<FieldV>) -> bool {
    &&& fs.len() == 2
    &&& fs[0].name == "admin_name"@
    &&& fs[0].value is Text
    &&& fs[1].name == "admin_id"@
    &&& (fs[1].value matches ValueV::Number(n) && n <= u32::MAX)
}

pub open spec fn admins_records(xs: Seq<Admin>) -> Seq<Seq<FieldV>> {
    xs.map_values(|x: Admin| admin_record(x))
}

pub fn admin_to_record(x: &Admin) -> (r: Vec<Field>)
    ensures
        fields_view(r@) == admin_record(*x),
{
    let mut r: Vec<Field> = Vec::new();
    r.push(Field { name: String::from_str("admin_name"), value: FieldValue::Text(x.admin_name.clone()) });
    r.push(Field {
        name: String::from_str("admin_id"),
        value: FieldValue::Number(x.admin_id as u64),
    });
    proof {
        assert(fields_view(r@) =~= admin_record(*x));
    }
    r
}

pub fn record_to_admin(rec: &Vec<Field>) -> (r: Option<Admin>)
    ensures
        match r {
            Some(x) => is_admin_record(fields_view(rec@)) && admin_record(x) == fields_view(rec@),
            None => !is_admin_record(fields_view(rec@)),
        },
{
    if rec.len() != 2 {
        return None;
    }
    if !(rec[0].name == String::from_str("admin_name")) {
        return None;
    }
    let admin_name = match &rec[0].value {
        FieldValue::Text(t) => t.clone(),
        FieldValue::Number(_) => {
            return None;
        },
    };
    if !(rec[1].name == String::from_str("admin_id")) {
        return None;
    }
    let id64 = match &rec[1].value {
        FieldValue::Number(n) => *n,
        FieldValue::Text(_) => {
            return None;
        },
    };
    if id64 > 0xFFFF_FFFFu64 {
        return None;
    }
    let x = Admin { admin_name, admin_id: id64 as u32 };
    proof {
        assert(admin_record(x) =~= fields_view(rec@));
    }
    Some(x)
}

pub fn admins_to_records(xs: &Vec<Admin>) -> (r: Vec<Vec<Field>>)
    ensures
        records_view(r@) == admins_records(xs@),
{
    let mut r: Vec<Vec<Field>> = Vec::new();
    let mut i: usize = 0;
    while i < xs.len()
        invariant
            i <= xs@.len(),
            r@.len() == i,
            forall|j: int| 0 <= j < i ==> fields_view(#[trigger] r@[j]@) == admin_record(xs@[j]),
        decreases xs@.len() - i,
    {
        r.push(admin_to_record(&xs[i]));
        i = i + 1;
    }
    proof {
        assert(records_view(r@) =~= admins_records(xs@));
    }
    r
}

pub fn records_to_admins(rs: &Vec<Vec<Field>>) -> (r: Option<Vec<Admin>>)
    ensures
        match r {
            Some(xs) => admins_records(xs@) == records_view(rs@),
            None => !(forall|i: int|
                0 <= i < rs@.len() ==> is_admin_record(#[trigger] records_view(rs@)[i])),
        },
{
    let mut out: Vec<Admin> = Vec::new();
    let mut i: usize = 0;
    while i < rs.len()
        invariant
            i <= rs@.len(),
            out@.len() == i,
            forall|j: int| 0 <= j < i ==> admin_record(#[trigger] out@[j]) == records_view(rs@)[j],
        decreases rs@.len() - i,
    {
        match record_to_admin(&rs[i]) {
            Some(x) => {
                out.push(x);
            },
            None => {
                proof {
                    assert(!is_admin_record(records_view(rs@)[i as int]));
                }
                return None;
            },
        }
        i = i + 1;
    }
    proof {
        assert(admins_records(out@) =~= records_view(rs@));
    }
    Some(out)
}

pub open spec fn restaurant_record(x: Restaurant) -> Seq<FieldV> {
    seq![
        FieldV { name: "restaurant_name"@, value: ValueV::Text(x.restaurant_name@) },
        FieldV { name: "restaurant_category"@, value: ValueV::Text(x.restaurant_category@) },
    ]
}

pub open spec fn is_restaurant_record(fs: Seq<FieldV>) -> bool {
    &&& fs.len() == 2
    &&& fs[0].name == "restaurant_name"@
    &&& fs[0].value is Text
    &&& fs[1].name == "restaurant_category"@
    &&& fs[1].value is Text
}

pub open spec fn restaurants_records(xs: Seq<Restaurant>) -> Seq<Seq<FieldV>> {
    xs.map_values(|x: Restaurant| restaurant_record(x))
}

pub fn restaurant_to_record(x: &Restaurant) -> (r: Vec<Field>)
    ensures
        fields_view(r@) == restaurant_record(*x),
{
    let mut r: Vec<Field> = Vec::new();
    r.push(Field {
        name: String::from_str("restaurant_name"),
        value: FieldValue::Text(x.restaurant_name.clone()),
    });
    r.push(Field {
        name: String::from_str("restaurant_category"),
        value: FieldValue::Text(x.restaurant_category.clone()),
    });
    proof {
        assert(fields_view(r@) =~= restaurant_record(*x));
    }
    r
}

pub fn record_to_restaurant(rec: &Vec<Field>) -> (r: Option<Restaurant>)
    ensures
        match r {
            Some(x) => is_restaurant_record(fields_view(rec@))
                && restaurant_record(x) == fields_view(rec@),
            None => !is_restaurant_record(fields_view(rec@)),
        },
{
    if rec.len() != 2 {
        return None;
    }
    if !(rec[0].name == String::from_str("restaurant_name")) {
        return None;
    }
    let restaurant_name = match &rec[0].value {
        FieldValue::Text(t) => t.clone(),
        FieldValue::Number(_) => {
            return None;
        },
    };
    if !(rec[1].name == String::from_str("restaurant_category")) {
        return None;
    }
    let restaurant_category = match &rec[1].value {
        FieldValue::Text(t) => t.clone(),
        FieldValue::Number(_) => {
            return None;
        },
    };
    let x = Restaurant { restaurant_name, restaurant_category };
    proof {
        assert(restaurant_record(x) =~= fields_view(rec@));
    }
    Some(x)
}

pub fn restaurants_to_records(xs: &Vec<Restaurant>) -> (r: Vec<Vec<Field>>)
    ensures
        records_view(r@) == restaurants_records(xs@),
{
    let mut r: Vec<Vec<Field>> = Vec::new();
    let mut i: usize = 0;
    while i < xs.len()
        invariant
            i <= xs@.len(),
            r@.len() == i,
            forall|j: int| 0 <= j < i ==> fields_view(#[trigger] r@[j]@) == restaurant_record(xs@[j]),
        decreases xs@.len() - i,
    {
        r.push(restaurant_to_record(&xs[i]));
        i = i + 1;
    }
    proof {
        assert(records_view(r@) =~= restaurants_records(xs@));
    }
    r
}

pub fn records_to_restaurants(rs: &Vec<Vec<Field>>) -> (r: Option<Vec<Restaurant>>)
    ensures
        match r {
            Some(xs) => restaurants_records(xs@) == records_view(rs@),
            None => !(forall|i: int|
                0 <= i < rs@.len() ==> is_restaurant_record(#[trigger] records_view(rs@)[i])),
        },
{
    let mut out: Vec<Restaurant> = Vec::new();
    let mut i: usize = 0;
    while i < rs.len()
        invariant
            i <= rs@.len(),
            out@.len() == i,
            forall|j: int| 0 <= j < i ==> restaurant_record(#[trigger] out@[j]) == records_view(rs@)[j],
        decreases rs@.len() - i,
    {
        match record_to_restaurant(&rs[i]) {
            Some(x) => {
                out.push(x);
            },
            None => {
                proof {
                    assert(!is_restaurant_record(records_view(rs@)[i as int]));
                }
                return None;
            },
        }
        i = i + 1;
    }
    proof {
        assert(restaurants_records(out@) =~= records_view(rs@));
    }
    Some(out)
}

pub open spec fn food_record(x: FoodMenu) -> Seq<FieldV> {
    seq![
        FieldV { name: "restaurant_name"@, value: ValueV::Text(x.restaurant_name@) },
        FieldV { name: "food_name"@, value: ValueV::Text(x.food_name@) },
        FieldV { name: "price"@, value: ValueV::Number(x.price_cents) },
    ]
}

pub open spec fn is_food_record(fs: Seq<FieldV>) -> bool {
    &&& fs.len() == 3
    &&& fs[0].name == "restaurant_name"@
    &&& fs[0].value is Text
    &&& fs[1].name == "food_name"@
    &&& fs[1].value is Text
    &&& fs[2].name == "price"@
    &&& fs[2].value is Number
}

pub open spec fn foods_records(xs: Seq<FoodMenu>) -> Seq<Seq<FieldV>> {
    xs.map_values(|x: FoodMenu| food_record(x))
}

pub fn food_to_record(x: &FoodMenu) -> (r: Vec<Field>)
    ensures
        fields_view(r@) == food_record(*x),
{
    let mut r: Vec<Field> = Vec::new();
    r.push(Field {
        name: String::from_str("restaurant_name"),
        value: FieldValue::Text(x.restaurant_name.clone()),
    });
    r.push(Field {
        name: String::from_str("food_name"),
        value: FieldValue::Text(x.food_name.clone()),
    });
    r.push(Field { name: String::from_str("price"), value: FieldValue::Number(x.price_cents) });
    proof {
        assert(fields_view(r@) =~= food_record(*x));
    }
    r
}

pub fn record_to_food(rec: &Vec<Field>) -> (r: Option<FoodMenu>)
    ensures
        match r {
            Some(x) => is_food_record(fields_view(rec@)) && food_record(x) == fields_view(rec@),
            None => !is_food_record(fields_view(rec@)),
        },
{
    if rec.len() != 3 {
        return None;
    }
    if !(rec[0].name == String::from_str("restaurant_name")) {
        return None;
    }
    let restaurant_name = match &rec[0].value {
        FieldValue::Text(t) => t.clone(),
        FieldValue::Number(_) => {
            return None;
        },
    };
    if !(rec[1].name == String::from_str("food_name")) {
        return None;
    }
    let food_name = match &rec[1].value {
        FieldValue::Text(t) => t.clone(),
        FieldValue::Number(_) => {
            return None;
        },
    };
    if !(rec[2].name == String::from_str("price")) {
        return None;
    }
    let price_cents = match &rec[2].value {
        FieldValue::Number(n) => *n,
        FieldValue::Text(_) => {
            return None;
        },
    };
    let x = FoodMenu { restaurant_name, food_name, price_cents };
    proof {
        assert(food_record(x) =~= fields_view(rec@));
    }
    Some(x)
}

pub fn foods_to_records(xs: &Vec<FoodMenu>) -> (r: Vec<Vec<Field>>)
    ensures
        records_view(r@) == foods_records(xs@),
{
    let mut r: Vec<Vec<Field>> = Vec::new();
    let mut i: usize = 0;
    while i < xs.len()
        invariant
            i <= xs@.len(),
            r@.len() == i,
            forall|j: int| 0 <= j < i ==> fields_view(#[trigger] r@[j]@) == food_record(xs@[j]),
        decreases xs@.len() - i,
    {
        r.push(food_to_record(&xs[i]));
        i = i + 1;
    }
    proof {
        assert(records_view(r@) =~= foods_records(xs@));
    }
    r
}

pub fn records_to_foods(rs: &Vec<Vec<Field>>) -> (r: Option<Vec<FoodMenu>>)
    ensures
        match r {
            Some(xs) => foods_records(xs@) == records_view(rs@),
            None => !(forall|i: int|
                0 <= i < rs@.len() ==> is_food_record(#[trigger] records_view(rs@)[i])),
        },
{
    let mut out: Vec<FoodMenu> = Vec::new();
    let mut i: usize = 0;
    while i < rs.len()
        invariant
            i <= rs@.len(),
            out@.len() == i,
            forall|j: int| 0 <= j < i ==> food_record(#[trigger] out@[j]) == records_view(rs@)[j],
        decreases rs@.len() - i,
    {
        match record_to_food(&rs[i]) {
            Some(x) => {
                out.push(x);
            },
            None => {
                proof {
                    assert(!is_food_record(records_view(rs@)[i as int]));
                }
                return None;
            },
        }
        i = i + 1;
    }
    proof {
        assert(foods_records(out@) =~= records_view(rs@));
    }
    Some(out)
}

pub open spec fn cart_item_record(x: ShoppingCart) -> Seq<FieldV> {
    seq![
        FieldV { name: "food_name"@, value: ValueV::Text(x.food_name@) },
        FieldV { name: "price_cents"@, value: ValueV::Number(x.price_cents) },
    ]
}

pub open spec fn is_cart_item_record(fs: Seq<FieldV>) -> bool {
    &&& fs.len() == 2
    &&& fs[0].name == "food_name"@
    &&& fs[0].value is Text
    &&& fs[1].name == "price_cents"@
    &&& fs[1].value is Number
}

pub open spec fn cart_records(xs: Seq<ShoppingCart>) -> Seq<Seq<FieldV>> {
    xs.map_values(|x: ShoppingCart| cart_item_record(x))
}

pub fn cart_item_to_record(x: &ShoppingCart) -> (r: Vec<Field>)
    ensures
        fields_view(r@) == cart_item_record(*x),
{
    let mut r: Vec<Field> = Vec::new();
    r.push(Field { name: String::from_str("food_name"), value: FieldValue::Text(x.food_name.clone()) });
    r.push(Field {
        name: String::from_str("price_cents"),
        value: FieldValue::Number(x.price_cents),
    });
    proof {
        assert(fields_view(r@) =~= cart_item_record(*x));
    }
    r
}

pub fn record_to_cart_item(rec: &Vec<Field>) -> (r: Option<ShoppingCart>)
    ensures
        match r {
            Some(x) => is_cart_item_record(fields_view(rec@)) && cart_item_record(x) == fields_view(rec@),
            None => !is_cart_item_record(fields_view(rec@)),
        },
{
    if rec.len() != 2 {
        return None;
    }
    if !(rec[0].name == String::from_str("food_name")) {
        return None;
    }
    let food_name = match &rec[0].value {
        FieldValue::Text(t) => t.clone(),
        FieldValue::Number(_) => {
            return None;
        },
    };
    if !(rec[1].name == String::from_str("price_cents")) {
        return None;
    }
    let id64 = match &rec[1].value {
        FieldValue::Number(n) => *n,
        FieldValue::Text(_) => {
            return None;
        },
    };
    let x = ShoppingCart { food_name, price_cents: id64 };
    proof {
        assert(cart_item_record(x) =~= fields_view(rec@));
    }
    Some(x)
}

pub fn cart_to_records(xs: &Vec<ShoppingCart>) -> (r: Vec<Vec<Field>>)
    ensures
        records_view(r@) == cart_records(xs@),
{
    let mut r: Vec<Vec<Field>> = Vec::new();
    let mut i: usize = 0;
    while i < xs.len()
        invariant
            i <= xs@.len(),
            r@.len() == i,
            forall|j: int| 0 <= j < i ==> fields_view(#[trigger] r@[j]@) == cart_item_record(xs@[j]),
        decreases xs@.len() - i,
    {
        r.push(cart_item_to_record(&xs[i]));
        i = i + 1;
    }
    proof {
        assert(records_view(r@) =~= cart_records(xs@));
    }
    r
}

pub fn records_to_cart(rs: &Vec<Vec<Field>>) -> (r: Option<Vec<ShoppingCart>>)
    ensures
        match r {
            Some(xs) => cart_records(xs@) == records_view(rs@),
            None => !(forall|i: int|
                0 <= i < rs@.len() ==> is_cart_item_record(#[trigger] records_view(rs@)[i])),
        },
{
    let mut out: Vec<ShoppingCart> = Vec::new();
    let mut i: usize = 0;
    while i < rs.len()
        invariant
            i <= rs@.len(),
            out@.len() == i,
            forall|j: int| 0 <= j < i ==> cart_item_record(#[trigger] out@[j]) == records_view(rs@)[j],
        decreases rs@.len() - i,
    {
        match record_to_cart_item(&rs[i]) {
            Some(x) => {
                out.push(x);
            },
            None => {
                proof {
                    assert(!is_cart_item_record(records_view(rs@)[i as int]));
                }
                return None;
            },
        }
        i = i + 1;
    }
    proof {
        assert(cart_records(out@) =~= records_view(rs@));
    }
    Some(out)
}

} // verus!
