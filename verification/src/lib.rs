//! A small collection of verified utilities: the core of an interactive
//! calculator with named memory slots, a calendar that keeps meetings from
//! overlapping, monthly sums of a ledger, and a bookshelf with fuzzy title
//! search.

use vstd::prelude::*;

pub mod budget;
pub mod calculator;
pub mod calendar;
pub mod library;

verus! {

/// Sets up an empty bookshelf, naming it by its full path.
pub fn _function_1() {
    let _shelf = crate::library::bookshelf::Bookshelf::new();
}

/// Sets up an empty bookshelf, naming it through its module.
pub fn _function_2() {
    let _shelf = library::bookshelf::Bookshelf::new();
}

} // verus!
