//! The session's last undoable move, which ⌘K's `Undo last move` reverses:
//! recorded where each undo toast is raised, taken before the reversal is
//! sent, and put back if the reversal fails and nothing newer arrived.

use vstd::prelude::*;

use crate::ids::Id;

verus! {

/// The most recent undoable move(s): one ledger row, or a batch that
/// reverses as one.
#[derive(Clone, Debug, PartialEq, Eq)]
pub struct LastMove {
    pub move_ids: Vec<Id>,
}

/// The session's memory of its last move.
#[derive(Debug)]
pub struct LastMoveState {
    last: Option<LastMove>,
}

impl View for LastMoveState {
    type V = Option<Seq<Id>>;

    closed spec fn view(&self) -> Option<Seq<Id>> {
        match self.last {
            Some(m) => Some(m.move_ids@),
            None => None,
        }
    }
}

/// The memory after recording `ids`: an empty batch records nothing.
pub open spec fn noted(prev: Option<Seq<Id>>, ids: Seq<Id>) -> Option<Seq<Id>> {
    if ids.len() == 0 {
        prev
    } else {
        Some(ids)
    }
}

/// The memory after a failed reversal of `ids`: the move is back, unless a
/// newer one was recorded meanwhile.
pub open spec fn restored(current: Option<Seq<Id>>, ids: Seq<Id>) -> Option<Seq<Id>> {
    if current is None {
        Some(ids)
    } else {
        current
    }
}

impl LastMoveState {
    /// Nothing moved yet.
    pub fn new() -> (s: LastMoveState)
        ensures
            s@ is None,
    {
        LastMoveState { last: None }
    }

    /// Records an undoable move; an empty batch records nothing.
    pub fn note(&mut self, move_ids: Vec<Id>)
        ensures
            final(self)@ == noted(old(self)@, move_ids@),
    {
        if move_ids.len() == 0 {
            return;
        }
        self.last = Some(LastMove { move_ids });
    }

    /// Takes the move to reverse, clearing it first so a second ⌘K ⏎ cannot
    /// send the same reversal while the first is in flight. `None`: nothing
    /// to undo yet.
    pub fn take_for_undo(&mut self) -> (m: Option<LastMove>)
        ensures
            final(self)@ is None,
            match m {
                Some(x) => old(self)@ == Some(x.move_ids@),
                None => old(self)@ is None,
            },
    {
        self.last.take()
    }

    /// The reversal failed: the move is the last one again, unless a newer
    /// move was recorded meanwhile.
    pub fn restore_after_failure(&mut self, m: LastMove)
        ensures
            final(self)@ == restored(old(self)@, m.move_ids@),
    {
        if self.last.is_none() {
            self.last = Some(m);
        }
    }
}

/// Records a move where the state may be absent (a surface rendered outside
/// the shell): a no-op without it.
pub fn note_last_move(state: &mut Option<LastMoveState>, move_ids: Vec<Id>)
    ensures
        match *old(state) {
            Some(s) => match *final(state) {
                Some(t) => t@ == noted(s@, move_ids@),
                None => false,
            },
            None => (*final(state)) is None,
        },
{
    match state.take() {
        Some(mut s) => {
            s.note(move_ids);
            *state = Some(s);
        },
        None => {},
    }
}

/// Which reversal to send: a single move by its id, a batch as one.
#[derive(Debug, Clone, PartialEq, Eq)]
pub enum UndoCall {
    One(Id),
    Batch(Vec<Id>),
}

/// The reversal for a recorded move.
pub fn undo_call(m: LastMove) -> (c: UndoCall)
    ensures
        if m.move_ids@.len() == 1 {
            c == UndoCall::One(m.move_ids@[0])
        } else {
            c matches UndoCall::Batch(ids) && ids@ == m.move_ids@
        },
{
    if m.move_ids.len() == 1 {
        UndoCall::One(m.move_ids[0])
    } else {
        UndoCall::Batch(m.move_ids)
    }
}

/// A failed reversal with nothing newer in between leaves the memory as it
/// was before the attempt; a move recorded in between stays the last one.
pub proof fn law_a_failed_undo_leaves_the_move_undoable(
    taken: Seq<Id>,
    newer: Seq<Id>,
)
    requires
        taken.len() > 0,
        newer.len() > 0,
    ensures
        restored(None, taken) == Some(taken),
        restored(noted(None, newer), taken) == Some(newer),
{
}

} // verus!
