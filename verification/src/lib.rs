//! The decision logic of a terminal front end for patches on mailing lists:
//! fetching a query's threads, listing and browsing them, and applying a
//! chosen patch to a local kernel tree.

use vstd::prelude::*;

pub mod action;
pub mod components;
pub mod text;

verus! {

} // verus!
