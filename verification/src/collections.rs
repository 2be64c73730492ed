//! The collection summaries and the assembled collection tree the palette
//! and the destination picker read.

use vstd::prelude::*;

use crate::ids::Id;

verus! {

/// What a collection is.
#[derive(Clone, Copy, Debug, PartialEq, Eq)]
pub enum CollectionKind {
    Binder,
    Deck,
}

/// One collection, as the lists carry it: its id, where it sits, what it
/// is called and whether it is the Inbox.
#[derive(Clone, Debug, PartialEq, Eq)]
pub struct CollectionSummary {
    pub id: Id,
    pub parent_id: Option<Id>,
    pub kind: CollectionKind,
    pub name: String,
    pub is_inbox: bool,
}

impl CollectionSummary {
    /// A copy of this summary.
    pub fn duplicate(&self) -> (c: CollectionSummary)
        ensures
            c.id == self.id,
            c.parent_id == self.parent_id,
            c.kind == self.kind,
            c.name@ == self.name@,
            c.is_inbox == self.is_inbox,
    {
        CollectionSummary {
            id: self.id,
            parent_id: self.parent_id,
            kind: self.kind,
            name: self.name.clone(),
            is_inbox: self.is_inbox,
        }
    }
}

/// One node of the collection tree, with its children in sidebar order.
#[derive(Debug)]
pub struct TreeNode {
    pub summary: CollectionSummary,
    pub children: Vec<TreeNode>,
}

/// The collection tree, roots in sidebar order (the Inbox pinned first).
#[derive(Debug)]
pub struct AssembledTree {
    pub roots: Vec<TreeNode>,
}

} // verus!
