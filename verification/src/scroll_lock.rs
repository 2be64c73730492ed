//! Scroll lock bookkeeping: every open overlay takes a reference on the lock,
//! only the first one to find the page unlocked freezes it, and only the last
//! one to let go schedules the restore. A restore carries the generation it
//! was scheduled under and runs only if no newer lock has happened since, so
//! reopening an overlay during its exit animation keeps the page locked.
//!
//! The style reads and writes themselves happen in the browser layer; this
//! module decides when they happen.

use vstd::prelude::*;

use crate::text::same_text;

verus! {

/// The lock's bookkeeping.
#[derive(Debug, Clone, Copy, PartialEq, Eq)]
pub struct ScrollLock {
    /// Overlays currently holding the lock (a reference count).
    pub owners: u32,
    /// Bumped on every lock; a pending restore whose generation no longer
    /// matches is stale and does nothing.
    pub generation: u64,
    /// Whether the page is currently in the locked state (it stays so until
    /// the scheduled restore actually runs).
    pub dom_locked: bool,
}

impl ScrollLock {
    /// Nobody holds the lock and the page is not frozen.
    pub fn new() -> (s: Self)
        ensures
            s.owners == 0,
            s.generation == 0,
            !s.dom_locked,
    {
        ScrollLock { owners: 0, generation: 0, dom_locked: false }
    }
}

/// Takes the lock for one more overlay. Returns whether the caller must now
/// freeze the page: `true` only when the page was not already frozen.
pub fn lock(state: &mut ScrollLock) -> (proceed: bool)
    requires
        old(state).owners < u32::MAX,
        old(state).generation < u64::MAX,
    ensures
        final(state).owners == old(state).owners + 1,
        final(state).generation == old(state).generation + 1,
        final(state).dom_locked,
        proceed == lock_proceeds(*old(state)),
{
    state.owners = state.owners + 1;
    state.generation = state.generation + 1;
    if state.dom_locked {
        return false;
    }
    state.dom_locked = true;
    true
}

/// Releases one overlay's hold. When that was the last hold, returns the
/// generation the restore must be scheduled under; otherwise (another overlay
/// still holds it, or nobody did) returns `None` and schedules nothing.
pub fn unlock(state: &mut ScrollLock) -> (restore: Option<u64>)
    ensures
        old(state).owners == 0 ==> *final(state) == *old(state),
        old(state).owners > 0 ==> final(state).owners == old(state).owners - 1,
        final(state).generation == old(state).generation,
        final(state).dom_locked == old(state).dom_locked,
        restore == (if old(state).owners == 1 {
            Some(old(state).generation)
        } else {
            None::<u64>
        }),
{
    if state.owners == 0 {
        return None;
    }
    state.owners = state.owners - 1;
    if state.owners > 0 {
        return None;
    }
    Some(state.generation)
}

/// Whether the page is frozen right now.
pub fn is_locked(state: &ScrollLock) -> (locked: bool)
    ensures
        locked == state.dom_locked,
{
    state.dom_locked
}

/// Would a restore scheduled under `generation` run now? Only if no lock has
/// happened since it was scheduled, nobody holds the lock, and the page is
/// still frozen.
pub open spec fn restore_due(state: ScrollLock, generation: u64) -> bool {
    state.generation == generation && state.owners == 0 && state.dom_locked
}

/// The scheduled restore firing. Returns whether the caller must put the page
/// back; when it does, the page counts as unfrozen from here on. A stale
/// restore changes nothing.
pub fn perform_unlock_if(state: &mut ScrollLock, generation: u64) -> (restore: bool)
    ensures
        restore == restore_due(*old(state), generation),
        restore ==> *final(state) == (ScrollLock { dom_locked: false, ..*old(state) }),
        !restore ==> *final(state) == *old(state),
{
    if state.generation != generation || state.owners > 0 || !state.dom_locked {
        return false;
    }
    state.dom_locked = false;
    true
}

// --------------------------------------------------------------------- laws --

/// What one `lock` does to the bookkeeping.
pub open spec fn after_lock(s: ScrollLock) -> ScrollLock {
    ScrollLock { owners: (s.owners + 1) as u32, generation: (s.generation + 1) as u64, dom_locked: true }
}

/// What one `unlock` does to the bookkeeping.
pub open spec fn after_unlock(s: ScrollLock) -> ScrollLock {
    if s.owners == 0 {
        s
    } else {
        ScrollLock { owners: (s.owners - 1) as u32, ..s }
    }
}

/// A lock taken from rest and released again, with the restore it scheduled
/// then firing, puts the page back exactly once and returns the bookkeeping
/// to rest (apart from the generation, which only grows).
pub proof fn law_lock_unlock_restores(s: ScrollLock)
    requires
        s.owners == 0,
        !s.dom_locked,
        s.generation < u64::MAX,
    ensures
        after_unlock(after_lock(s)).owners == 0,
        restore_due(after_unlock(after_lock(s)), after_lock(s).generation),
        !restore_due(
            ScrollLock { dom_locked: false, ..after_unlock(after_lock(s)) },
            after_lock(s).generation,
        ),
{
}

/// Reopening during the exit animation: a restore scheduled by the last
/// unlock is stale once any new lock has happened, so it can never unfreeze
/// the reopened overlay's page.
pub proof fn law_reopen_cancels_pending_restore(s: ScrollLock, g: u64)
    requires
        s.owners < u32::MAX,
        s.generation < u64::MAX,
        g <= s.generation,
    ensures
        !restore_due(after_lock(s), g),
        is_frozen(after_lock(s)),
{
}

/// Locked state, for laws.
pub open spec fn is_frozen(s: ScrollLock) -> bool {
    s.dom_locked
}

/// Nested overlays: while a second overlay still holds the lock, releasing
/// the first schedules nothing, and the page stays frozen.
pub proof fn law_nested_hold_keeps_lock(s: ScrollLock)
    requires
        s.owners >= 2,
        s.dom_locked,
    ensures
        after_unlock(s).owners > 0,
        after_unlock(s).dom_locked,
        forall|g: u64| !restore_due(after_unlock(s), g),
{
}

/// Whether a `lock` on `s` has to freeze the page (what `lock` returns).
pub open spec fn lock_proceeds(s: ScrollLock) -> bool {
    !s.dom_locked
}

/// Only the first overlay to arrive does the freezing work: a lock taken
/// while another is held never freezes again, and both holds are counted.
pub proof fn law_only_first_lock_freezes(s: ScrollLock)
    requires
        s.owners < u32::MAX - 1,
        s.generation < u64::MAX - 1,
    ensures
        !lock_proceeds(after_lock(s)),
        after_lock(after_lock(s)).owners == s.owners + 2,
{
}


// ----------------------------------------------------- what the lock touches --

/// Components whose own scrolling the lock leaves alone (they sit inside the
/// overlay that asked for the lock).
pub open spec fn excluded_name(name: Seq<char>) -> bool {
    name == "ScrollArea"@ || name == "CommandList"@ || name == "SelectContent"@ || name
        == "MultiSelectContent"@ || name == "DropdownMenuContent"@ || name == "ContextMenuContent"@
}

/// Is a `data-name` one whose subtree keeps its own scrolling?
pub fn is_excluded_name(name: &str) -> (r: bool)
    ensures
        r == excluded_name(name@),
{
    same_text(name, "ScrollArea") || same_text(name, "CommandList") || same_text(
        name,
        "SelectContent",
    ) || same_text(name, "MultiSelectContent") || same_text(name, "DropdownMenuContent")
        || same_text(name, "ContextMenuContent")
}

/// Fixed-position components whose padding the lock does not shift.
pub open spec fn fixed_excluded_name(name: Seq<char>) -> bool {
    name == "DropdownMenuContent"@ || name == "MultiSelectContent"@ || name
        == "ContextMenuContent"@
}

/// Is a `data-name` one whose fixed subtree keeps its padding?
pub fn is_fixed_excluded_name(name: &str) -> (r: bool)
    ensures
        r == fixed_excluded_name(name@),
{
    same_text(name, "DropdownMenuContent") || same_text(name, "MultiSelectContent") || same_text(
        name,
        "ContextMenuContent",
    )
}

/// Does an element scroll on its own, so the lock must hold it still? Its
/// computed `overflow` or `overflow-y` is `auto` or `scroll`, and its
/// content is taller than its box.
pub fn scrolls_on_its_own(overflow: &str, overflow_y: &str, scroll_height: i32, client_height: i32) -> (r: bool)
    ensures
        r == ((overflow@ == "auto"@ || overflow@ == "scroll"@ || overflow_y@ == "auto"@
            || overflow_y@ == "scroll"@) && scroll_height > client_height),
{
    let scrollable = same_text(overflow, "auto") || same_text(overflow, "scroll") || same_text(
        overflow_y,
        "auto",
    ) || same_text(overflow_y, "scroll");
    scrollable && scroll_height > client_height
}

/// How a saved inline style is put back: an empty value was never set, so
/// the property is removed rather than set to nothing.
#[derive(Debug, Clone, Copy, PartialEq, Eq)]
pub enum StyleRestore {
    Remove,
    Assign,
}

/// How to put a saved inline style back.
pub fn style_restore(saved: &str) -> (r: StyleRestore)
    ensures
        r == if saved@.len() == 0 {
            StyleRestore::Remove
        } else {
            StyleRestore::Assign
        },
{
    if saved.unicode_len() == 0 {
        StyleRestore::Remove
    } else {
        StyleRestore::Assign
    }
}

} // verus!
