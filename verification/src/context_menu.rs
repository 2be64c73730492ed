//! The context menu's deferred open. A right-click opens the menu on the
//! next macrotask, once the click's own pointer sequence has finished; a
//! generation stamp lets a `close` (or a second open) that lands first
//! cancel the pending open instead of reviving a dismissed menu. The page
//! keeps the pointer position and runs the timer; this is the decision.

use vstd::prelude::*;

verus! {

/// The open flag and the generation counter behind one context menu.
#[derive(Debug, Clone, Copy, PartialEq, Eq)]
pub struct ContextMenuHandle {
    pub open: bool,
    /// Bumped, wrapping, on every open request and every close.
    pub generation: u32,
}

/// The generation after one bump: `wrapping_add(1)`.
pub open spec fn bumped(g: u32) -> u32 {
    if g == u32::MAX {
        0
    } else {
        (g + 1) as u32
    }
}

/// The menu after `open_at`, and the stamp its deferred open carries.
pub open spec fn opened_at(h: ContextMenuHandle) -> (ContextMenuHandle, u32) {
    (ContextMenuHandle { open: h.open, generation: bumped(h.generation) }, bumped(h.generation))
}

/// The menu after `close`.
pub open spec fn closed(h: ContextMenuHandle) -> ContextMenuHandle {
    ContextMenuHandle { open: false, generation: bumped(h.generation) }
}

/// The menu once the deferred open stamped `stamp` runs: it opens only if
/// nothing bumped the generation since.
pub open spec fn fired(h: ContextMenuHandle, stamp: u32) -> ContextMenuHandle {
    if h.generation == stamp {
        ContextMenuHandle { open: true, generation: h.generation }
    } else {
        h
    }
}

fn bump(g: u32) -> (n: u32)
    ensures
        n == bumped(g),
{
    if g == u32::MAX {
        0
    } else {
        g + 1
    }
}

impl ContextMenuHandle {
    /// A closed menu that has never been opened.
    pub fn new() -> (h: ContextMenuHandle)
        ensures
            !h.open,
            h.generation == 0,
    {
        ContextMenuHandle { open: false, generation: 0 }
    }

    /// Requests an open: bumps the generation and returns the stamp that
    /// the deferred open must find still current.
    pub fn open_at(&mut self) -> (stamp: u32)
        ensures
            (*final(self), stamp) == opened_at(*old(self)),
    {
        let stamp = bump(self.generation);
        self.generation = stamp;
        stamp
    }

    /// The deferred open, run a macrotask later with the stamp `open_at`
    /// gave: it opens the menu only if no close or newer open came between.
    pub fn deferred_open(&mut self, stamp: u32)
        ensures
            *final(self) == fired(*old(self), stamp),
    {
        if self.generation == stamp {
            self.open = true;
        }
    }

    /// Closes the menu and makes any pending open stale.
    pub fn close(&mut self)
        ensures
            *final(self) == closed(*old(self)),
    {
        self.generation = bump(self.generation);
        self.open = false;
    }
}

/// An open request with nothing in between opens the menu.
pub proof fn law_an_undisturbed_open_opens(h: ContextMenuHandle)
    ensures
        fired(opened_at(h).0, opened_at(h).1).open,
{
}

/// A close that lands before the deferred open cancels it: the menu stays
/// closed.
pub proof fn law_a_close_cancels_a_pending_open(h: ContextMenuHandle)
    ensures
        !fired(closed(opened_at(h).0), opened_at(h).1).open,
{
}

/// Of two open requests before either runs, only the later one opens the
/// menu; the earlier one's stamp is stale.
pub proof fn law_the_latest_open_wins(h: ContextMenuHandle)
    ensures
        ({
            let (first, s1) = opened_at(h);
            let (second, s2) = opened_at(first);
            &&& fired(second, s1) == second
            &&& fired(fired(second, s1), s2).open
        }),
{
}

} // verus!
