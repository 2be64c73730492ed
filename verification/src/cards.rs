//! The card rows the catalog and the collection pages read, as plain values:
//! what the quick-add panel, the stepper and the selection tray look at.

use vstd::prelude::*;

use crate::ids::Id;

verus! {

/// A catalog search result: one oracle card, with its representative
/// printing when one resolved.
#[derive(Clone, Debug, PartialEq, Eq)]
pub struct CardSummary {
    pub oracle_id: Id,
    pub name: String,
    pub printing_id: Option<Id>,
    pub mana_cost: Option<String>,
    pub type_line: Option<String>,
}

/// One row of a collection read: a printing this collection holds or wants,
/// with the copies present here and rolled up from the collections below.
#[derive(Clone, Debug, PartialEq, Eq)]
pub struct CardRow {
    pub oracle_id: Id,
    pub printing_id: Id,
    pub name: String,
    pub present: i32,
    pub present_rollup: i32,
}

} // verus!
