//! A small food-ordering marketplace: five persisted record collections
//! (users, owners, admins, restaurants, menu items) plus a shopping cart,
//! with registration and catalog workflows verified end to end.
//!
//! Each workflow is a pure function over explicitly loaded collections; the
//! caller persists the returned collection (if any) through the record store.

pub mod catalog;
pub mod model;
pub mod records;
pub mod registrar;
pub mod store;
pub mod text;
