//! Licensing and order rules of an operation center.

use vstd::prelude::*;

pub mod access;
pub mod accounts;
pub mod applications;
pub mod audit;
pub mod avatars;
pub mod catalog;
pub mod clock;
pub mod commissions;
pub mod copying;
pub mod customers;
pub mod deletion;
pub mod finance;
pub mod ids;
pub mod installation;
pub mod json;
pub mod legacy;
pub mod license_state;
pub mod licenses;
pub mod lookup;
pub mod market;
pub mod orders;
pub mod passwords;
pub mod paths;
pub mod purchase;
pub mod rejection;
pub mod schema;
pub mod skill_package;
pub mod sorting;
pub mod startup;
pub mod text;
pub mod text_map;
pub mod tools;
pub mod versions;
pub mod zip_files;

verus! {

} // verus!
