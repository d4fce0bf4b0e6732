//! Challenge-response registration for users, owners, and admins.
//!
//! Each workflow takes the freshly loaded collection by value together with
//! the raw terminal lines, and returns either a rejection (leaving the
//! collection untouched for the caller) or the extended collection to
//! persist. The generated code is a liveness check, not authentication.

use vstd::prelude::*;

use crate::model::{
    admin_taken, owner_taken, user_name_taken, admins_unique, owners_unique, users_unique,
    any_admin_taken, any_owner_taken, any_user_named, Admin, Owner, User,
};
use crate::text::{parse_u32, parse_u32_spec, trim, trim_spec};

verus! {

/// Relies on rand::random_range: a value drawn from a non-empty integer
/// range lies within that range.
#[verifier::external_body]
fn random_code() -> (r: u32)
    ensures
        1000 <= r <= 9999,
{
    rand::random_range(1000..=9999u32)
}

/// A fresh four-digit confirmation code, always in `[1000, 9999]`.
pub fn gen_security_code() -> (r: u32)
    ensures
        1000 <= r <= 9999,
{
    random_code()
}

/// Law: a claimed code just outside the four-digit band can never match a
/// generated one.
pub proof fn lemma_out_of_range_code_never_matches(generated: u32, claimed: u32)
    requires
        1000 <= generated <= 9999,
        claimed == 999 || claimed == 10000,
    ensures
        claimed != generated,
{
}

pub enum UserRegistration {
    InvalidPassword,
    InvalidCode,
    CodeMismatch,
    DuplicateName,
    Registered(Vec<User>),
}

/// Register a user: parse the password, check the echoed confirmation code,
/// reject a taken name, otherwise append the record.
pub fn register_user(
    users: Vec<User>,
    name_line: &str,
    password_line: &str,
    generated_code: u32,
    code_line: &str,
) -> (r: UserRegistration)
    ensures
        ({
            let name = trim_spec(name_line@);
            match parse_u32_spec(trim_spec(password_line@)) {
                None => r == UserRegistration::InvalidPassword,
                Some(pw) => match parse_u32_spec(trim_spec(code_line@)) {
                    None => r == UserRegistration::InvalidCode,
                    Some(code) => if code != generated_code {
                        r == UserRegistration::CodeMismatch
                    } else if user_name_taken(users@, name) {
                        r == UserRegistration::DuplicateName
                    } else {
                        r matches UserRegistration::Registered(us)
                            && us@.len() == users@.len() + 1
                            && (forall|i: int| 0 <= i < users@.len() ==> us@[i] == users@[i])
                            && us@.last().name@ == name
                            && us@.last().password == pw
                    },
                },
            }
        }),
{
    let name = trim(name_line);
    let password = match parse_u32(trim(password_line).as_str()) {
        Some(n) => n,
        None => {
            return UserRegistration::InvalidPassword;
        },
    };
    let code = match parse_u32(trim(code_line).as_str()) {
        Some(n) => n,
        None => {
            return UserRegistration::InvalidCode;
        },
    };
    if code != generated_code {
        return UserRegistration::CodeMismatch;
    }
    if any_user_named(&users, &name) {
        return UserRegistration::DuplicateName;
    }
    let mut us = users;
    us.push(User { name, password });
    UserRegistration::Registered(us)
}

pub enum OwnerRegistration {
    InvalidId,
    InvalidCode,
    CodeMismatch,
    Duplicate,
    Registered(Vec<Owner>),
}

/// Register an owner: parse the id, check the echoed confirmation code,
/// reject a taken name *or* id, otherwise append the record.
pub fn register_owner(
    owners: Vec<Owner>,
    name_line: &str,
    id_line: &str,
    generated_code: u32,
    code_line: &str,
) -> (r: OwnerRegistration)
    ensures
        ({
            let name = trim_spec(name_line@);
            match parse_u32_spec(trim_spec(id_line@)) {
                None => r == OwnerRegistration::InvalidId,
                Some(id) => match parse_u32_spec(trim_spec(code_line@)) {
                    None => r == OwnerRegistration::InvalidCode,
                    Some(code) => if code != generated_code {
                        r == OwnerRegistration::CodeMismatch
                    } else if owner_taken(owners@, name, id) {
                        r == OwnerRegistration::Duplicate
                    } else {
                        r matches OwnerRegistration::Registered(os)
                            && os@.len() == owners@.len() + 1
                            && (forall|i: int| 0 <= i < owners@.len() ==> os@[i] == owners@[i])
                            && os@.last().owner_name@ == name
                            && os@.last().owner_id == id
                    },
                },
            }
        }),
{
    let name = trim(name_line);
    let owner_id = match parse_u32(trim(id_line).as_str()) {
        Some(n) => n,
        None => {
            return OwnerRegistration::InvalidId;
        },
    };
    let code = match parse_u32(trim(code_line).as_str()) {
        Some(n) => n,
        None => {
            return OwnerRegistration::InvalidCode;
        },
    };
    if code != generated_code {
        return OwnerRegistration::CodeMismatch;
    }
    if any_owner_taken(&owners, &name, owner_id) {
        return OwnerRegistration::Duplicate;
    }
    let mut os = owners;
    os.push(Owner { owner_name: name, owner_id });
    OwnerRegistration::Registered(os)
}

pub enum AdminRegistration {
    InvalidId,
    InvalidCode,
    CodeMismatch,
    Duplicate,
    Registered(Vec<Admin>),
}

/// Register an admin: parse the id, check the echoed confirmation code,
/// reject a taken name *or* id, otherwise append the record.
pub fn register_admin(
    admins: Vec<Admin>,
    name_line: &str,
    id_line: &str,
    generated_code: u32,
    code_line: &str,
) -> (r: AdminRegistration)
    ensures
        ({
            let name = trim_spec(name_line@);
            match parse_u32_spec(trim_spec(id_line@)) {
                None => r == AdminRegistration::InvalidId,
                Some(id) => match parse_u32_spec(trim_spec(code_line@)) {
                    None => r == AdminRegistration::InvalidCode,
                    Some(code) => if code != generated_code {
                        r == AdminRegistration::CodeMismatch
                    } else if admin_taken(admins@, name, id) {
                        r == AdminRegistration::Duplicate
                    } else {
                        r matches AdminRegistration::Registered(ads)
                            && ads@.len() == admins@.len() + 1
                            && (forall|i: int| 0 <= i < admins@.len() ==> ads@[i] == admins@[i])
                            && ads@.last().admin_name@ == name
                            && ads@.last().admin_id == id
                    },
                },
            }
        }),
{
    let name = trim(name_line);
    let admin_id = match parse_u32(trim(id_line).as_str()) {
        Some(n) => n,
        None => {
            return AdminRegistration::InvalidId;
        },
    };
    let code = match parse_u32(trim(code_line).as_str()) {
        Some(n) => n,
        None => {
            return AdminRegistration::InvalidCode;
        },
    };
    if code != generated_code {
        return AdminRegistration::CodeMismatch;
    }
    if any_admin_taken(&admins, &name, admin_id) {
        return AdminRegistration::Duplicate;
    }
    let mut ads = admins;
    ads.push(Admin { admin_name: name, admin_id });
    AdminRegistration::Registered(ads)
}

/// Law: after a successful user registration the name-uniqueness invariant
/// still holds.
pub proof fn lemma_user_uniqueness_preserved(before: Seq<User>, after: Seq<User>, name: Seq<char>)
    requires
        users_unique(before),
        !user_name_taken(before, name),
        after.len() == before.len() + 1,
        forall|i: int| 0 <= i < before.len() ==> after[i] == before[i],
        after.last().name@ == name,
    ensures
        users_unique(after),
{
    assert forall|i: int, j: int| 0 <= i < j < after.len() implies (#[trigger] after[i]).name@
        != (#[trigger] after[j]).name@ by {
        if j == after.len() - 1 {
            assert(after[i] == before[i]);
        } else {
            assert(after[i] == before[i] && after[j] == before[j]);
        }
    }
}

/// Law: after a successful owner registration no two owners share a name or
/// an id.
pub proof fn lemma_owner_uniqueness_preserved(
    before: Seq<Owner>,
    after: Seq<Owner>,
    name: Seq<char>,
    id: u32,
)
    requires
        owners_unique(before),
        !owner_taken(before, name, id),
        after.len() == before.len() + 1,
        forall|i: int| 0 <= i < before.len() ==> after[i] == before[i],
        after.last().owner_name@ == name,
        after.last().owner_id == id,
    ensures
        owners_unique(after),
{
    assert forall|i: int, j: int| 0 <= i < j < after.len() implies (#[trigger] after[i]).owner_name@
        != (#[trigger] after[j]).owner_name@ && after[i].owner_id != after[j].owner_id by {
        if j == after.len() - 1 {
            assert(after[i] == before[i]);
        } else {
            assert(after[i] == before[i] && after[j] == before[j]);
        }
    }
}

/// Law: after a successful admin registration no two admins share a name or
/// an id.
pub proof fn lemma_admin_uniqueness_preserved(
    before: Seq<Admin>,
    after: Seq<Admin>,
    name: Seq<char>,
    id: u32,
)
    requires
        admins_unique(before),
        !admin_taken(before, name, id),
        after.len() == before.len() + 1,
        forall|i: int| 0 <= i < before.len() ==> after[i] == before[i],
        after.last().admin_name@ == name,
        after.last().admin_id == id,
    ensures
        admins_unique(after),
{
    assert forall|i: int, j: int| 0 <= i < j < after.len() implies (#[trigger] after[i]).admin_name@
        != (#[trigger] after[j]).admin_name@ && after[i].admin_id != after[j].admin_id by {
        if j == after.len() - 1 {
            assert(after[i] == before[i]);
        } else {
            assert(after[i] == before[i] && after[j] == before[j]);
        }
    }
}

} // verus!
