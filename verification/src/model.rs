//! The seven record shapes and their identity rules.
//!
//! Prices are held in hundredths of the currency unit, so that every amount
//! is an exact integer; terminal text such as `12.5` is converted by
//! `text::parse_price_cents`.

use vstd::prelude::*;

verus! {

pub struct User {
    pub name: String,
    pub password: u32,
}

pub struct Owner {
    pub owner_name: String,
    pub owner_id: u32,
}

pub struct Admin {
    pub admin_name: String,
    pub admin_id: u32,
}

pub struct Restaurant {
    pub restaurant_name: String,
    pub restaurant_category: String,
}

pub struct FoodMenu {
    pub restaurant_name: String,
    pub food_name: String,
    pub price_cents: u64,
}

pub struct ShoppingCart {
    pub food_name: String,
    pub price_cents: u64,
}

/// Defined by the data model; no workflow currently files orders.
pub struct Order {
    pub restaurant_name: String,
    pub customer_name: String,
    pub food_name: String,
}

impl Clone for FoodMenu {
    fn clone(&self) -> (r: Self)
        ensures
            r == *self,
    {
        FoodMenu {
            restaurant_name: self.restaurant_name.clone(),
            food_name: self.food_name.clone(),
            price_cents: self.price_cents,
        }
    }
}

/// Some user already carries this name.
pub open spec fn user_name_taken(users: Seq<User>, name: Seq<char>) -> bool {
    exists|i: int| 0 <= i < users.len() && (#[trigger] users[i]).name@ == name
}

/// Some owner already carries this name or this id.
pub open spec fn owner_taken(owners: Seq<Owner>, name: Seq<char>, id: u32) -> bool {
    exists|i: int|
        0 <= i < owners.len() && ((#[trigger] owners[i]).owner_name@ == name
            || owners[i].owner_id == id)
}

/// Some admin already carries this name or this id.
pub open spec fn admin_taken(admins: Seq<Admin>, name: Seq<char>, id: u32) -> bool {
    exists|i: int|
        0 <= i < admins.len() && ((#[trigger] admins[i]).admin_name@ == name
            || admins[i].admin_id == id)
}

/// Some admin record matches this name and this id exactly.
pub open spec fn admin_matches(admins: Seq<Admin>, name: Seq<char>, id: u32) -> bool {
    exists|i: int|
        0 <= i < admins.len() && (#[trigger] admins[i]).admin_name@ == name
            && admins[i].admin_id == id
}

/// Some restaurant already carries this name.
pub open spec fn restaurant_name_taken(rs: Seq<Restaurant>, name: Seq<char>) -> bool {
    exists|i: int| 0 <= i < rs.len() && (#[trigger] rs[i]).restaurant_name@ == name
}

/// Some menu row already pairs this restaurant with this food.
pub open spec fn menu_pair_taken(
    foods: Seq<FoodMenu>,
    restaurant: Seq<char>,
    food: Seq<char>,
) -> bool {
    exists|i: int|
        0 <= i < foods.len() && (#[trigger] foods[i]).restaurant_name@ == restaurant
            && foods[i].food_name@ == food
}

/// No two users share a name.
pub open spec fn users_unique(users: Seq<User>) -> bool {
    forall|i: int, j: int|
        0 <= i < j < users.len() ==> (#[trigger] users[i]).name@ != (#[trigger] users[j]).name@
}

/// No two owners share a name or an id.
pub open spec fn owners_unique(owners: Seq<Owner>) -> bool {
    forall|i: int, j: int|
        0 <= i < j < owners.len() ==> (#[trigger] owners[i]).owner_name@
            != (#[trigger] owners[j]).owner_name@ && owners[i].owner_id != owners[j].owner_id
}

/// No two admins share a name or an id.
pub open spec fn admins_unique(admins: Seq<Admin>) -> bool {
    forall|i: int, j: int|
        0 <= i < j < admins.len() ==> (#[trigger] admins[i]).admin_name@
            != (#[trigger] admins[j]).admin_name@ && admins[i].admin_id != admins[j].admin_id
}

/// No two restaurants share a name.
pub open spec fn restaurants_unique(rs: Seq<Restaurant>) -> bool {
    forall|i: int, j: int|
        0 <= i < j < rs.len() ==> (#[trigger] rs[i]).restaurant_name@
            != (#[trigger] rs[j]).restaurant_name@
}

/// No two menu rows pair the same restaurant with the same food.
pub open spec fn menu_unique(foods: Seq<FoodMenu>) -> bool {
    forall|i: int, j: int|
        0 <= i < j < foods.len() ==> !((#[trigger] foods[i]).restaurant_name@
            == (#[trigger] foods[j]).restaurant_name@
            && foods[i].food_name@ == foods[j].food_name@)
}

pub fn any_user_named(users: &Vec<User>, name: &String) -> (r: bool)
    ensures
        r == user_name_taken(users@, name@),
{
    let mut i: usize = 0;
    while i < users.len()
        invariant
            i <= users@.len(),
            forall|j: int| 0 <= j < i ==> (#[trigger] users@[j]).name@ != name@,
        decreases users@.len() - i,
    {
        if users[i].name == *name {
            return true;
        }
        i = i + 1;
    }
    false
}

pub fn any_owner_taken(owners: &Vec<Owner>, name: &String, id: u32) -> (r: bool)
    ensures
        r == owner_taken(owners@, name@, id),
{
    let mut i: usize = 0;
    while i < owners.len()
        invariant
            i <= owners@.len(),
            forall|j: int|
                0 <= j < i ==> (#[trigger] owners@[j]).owner_name@ != name@
                    && owners@[j].owner_id != id,
        decreases owners@.len() - i,
    {
        if owners[i].owner_name == *name || owners[i].owner_id == id {
            return true;
        }
        i = i + 1;
    }
    false
}

pub fn any_admin_taken(admins: &Vec<Admin>, name: &String, id: u32) -> (r: bool)
    ensures
        r == admin_taken(admins@, name@, id),
{
    let mut i: usize = 0;
    while i < admins.len()
        invariant
            i <= admins@.len(),
            forall|j: int|
                0 <= j < i ==> (#[trigger] admins@[j]).admin_name@ != name@
                    && admins@[j].admin_id != id,
        decreases admins@.len() - i,
    {
        if admins[i].admin_name == *name || admins[i].admin_id == id {
            return true;
        }
        i = i + 1;
    }
    false
}

pub fn any_admin_matching(admins: &Vec<Admin>, name: &String, id: u32) -> (r: bool)
    ensures
        r == admin_matches(admins@, name@, id),
{
    let mut i: usize = 0;
    while i < admins.len()
        invariant
            i <= admins@.len(),
            forall|j: int|
                0 <= j < i ==> !((#[trigger] admins@[j]).admin_name@ == name@
                    && admins@[j].admin_id == id),
        decreases admins@.len() - i,
    {
        if admins[i].admin_name == *name && admins[i].admin_id == id {
            return true;
        }
        i = i + 1;
    }
    false
}

pub fn any_restaurant_named(rs: &Vec<Restaurant>, name: &String) -> (r: bool)
    ensures
        r == restaurant_name_taken(rs@, name@),
{
    let mut i: usize = 0;
    while i < rs.len()
        invariant
            i <= rs@.len(),
            forall|j: int| 0 <= j < i ==> (#[trigger] rs@[j]).restaurant_name@ != name@,
        decreases rs@.len() - i,
    {
        if rs[i].restaurant_name == *name {
            return true;
        }
        i = i + 1;
    }
    false
}

pub fn any_menu_pair(foods: &Vec<FoodMenu>, restaurant: &String, food: &String) -> (r: bool)
    ensures
        r == menu_pair_taken(foods@, restaurant@, food@),
{
    let mut i: usize = 0;
    while i < foods.len()
        invariant
            i <= foods@.len(),
            forall|j: int|
                0 <= j < i ==> !((#[trigger] foods@[j]).restaurant_name@ == restaurant@
                    && foods@[j].food_name@ == food@),
        decreases foods@.len() - i,
    {
        if foods[i].restaurant_name == *restaurant && foods[i].food_name == *food {
            return true;
        }
        i = i + 1;
    }
    false
}

} // verus!
