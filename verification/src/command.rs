//! The command list's keyboard core, shared by quick-add, the destination
//! picker and ⌘K: which items a query leaves visible, the highlight that ↑↓
//! move and ⏎ activates, and which empty line (if any) the list shows.

use vstd::prelude::*;

use crate::destination::{lowercase_of, str_lowercase};
use crate::text::{chars_of, chars_equal, slice_range};

verus! {

// ------------------------------------------------------------- filtering --

/// Does `needle` occur in `hay` as a contiguous run?
pub open spec fn occurs_in(needle: Seq<char>, hay: Seq<char>) -> bool {
    exists|i: int| 0 <= i <= hay.len() - needle.len() && #[trigger] hay.subrange(i, i + needle.len()) == needle
}

/// Does `needle` occur in `hay`?
pub(crate) fn contains_chars(hay: &Vec<char>, needle: &Vec<char>) -> (r: bool)
    ensures
        r == occurs_in(needle@, hay@),
{
    if needle.len() > hay.len() {
        return false;
    }
    if needle.len() == 0 {
        proof {
            assert(hay@.subrange(0, 0 + needle@.len() as int) =~= needle@);
        }
        return true;
    }
    let last = hay.len() - needle.len();
    let mut i: usize = 0;
    while i <= last
        invariant
            last == hay@.len() - needle@.len(),
            0 < needle@.len() <= hay@.len(),
            hay@.len() <= usize::MAX,
            i <= last + 1,
            forall|j: int| 0 <= j < i ==> #[trigger] hay@.subrange(j, j + needle@.len()) != needle@,
        decreases last + 1 - i,
    {
        assert(i + needle@.len() <= hay@.len());
        let window = slice_range(hay.as_slice(), i, i + needle.len());
        if chars_equal(window.as_slice(), needle.as_slice()) {
            return true;
        }
        i = i + 1;
    }
    false
}

/// Is an item visible under the query? Always, when the list does not
/// filter (the server already did); else when the query is empty or the
/// item's value holds it, both lower-cased.
pub open spec fn item_visible_spec(should_filter: bool, query: Seq<char>, value: Seq<char>) -> bool {
    !should_filter || lowercase_of(query).len() == 0 || occurs_in(
        lowercase_of(query),
        lowercase_of(value),
    )
}

/// Is an item visible under the query?
pub fn item_visible(should_filter: bool, query: &str, value: &str) -> (v: bool)
    ensures
        v == item_visible_spec(should_filter, query@, value@),
{
    if !should_filter {
        return true;
    }
    let q = str_lowercase(query);
    let qs = chars_of(q.as_str());
    if qs.len() == 0 {
        return true;
    }
    let v = str_lowercase(value);
    let vs = chars_of(v.as_str());
    contains_chars(&vs, &qs)
}

// ------------------------------------------------------------ navigation --

/// The highlight over the visible items: their ids in registration order,
/// and the highlighted position among them.
#[derive(Debug, Clone, PartialEq, Eq)]
pub struct CommandNav {
    visible: Vec<usize>,
    highlight: usize,
}

/// The highlighted position as shown: clamped to the last visible item, and
/// 0 when nothing is visible.
pub open spec fn shown_highlight(visible: Seq<usize>, highlight: usize) -> int {
    if visible.len() == 0 {
        0
    } else if highlight < visible.len() {
        highlight as int
    } else {
        visible.len() - 1
    }
}

/// Where ↓ moves the highlight: one row down, stopping at the last.
pub open spec fn next_pos(len: nat, h: int) -> int {
    if len == 0 {
        h
    } else if h + 1 < len - 1 {
        h + 1
    } else {
        len - 1
    }
}

/// Where ↑ moves the highlight: one row up, stopping at the first.
pub open spec fn prev_pos(len: nat, h: int) -> int {
    if len == 0 || h == 0 {
        h
    } else {
        h - 1
    }
}

impl View for CommandNav {
    type V = (Seq<usize>, usize);

    closed spec fn view(&self) -> (Seq<usize>, usize) {
        (self.visible@, self.highlight)
    }
}

impl CommandNav {
    /// Nothing visible, highlight on the first row.
    pub fn new() -> (n: CommandNav)
        ensures
            n@ == (Seq::<usize>::empty(), 0usize),
    {
        CommandNav { visible: Vec::new(), highlight: 0 }
    }

    /// The visible items changed (a mount, an unmount, a filter): the
    /// highlight stays where it was and is clamped when shown.
    pub fn set_visible(&mut self, ids: Vec<usize>)
        ensures
            final(self)@ == (ids@, old(self)@.1),
    {
        self.visible = ids;
    }

    /// A new query: the highlight goes back to the first row, so the best
    /// match is pre-highlighted after every keystroke.
    pub fn set_query(&mut self)
        ensures
            final(self)@ == (old(self)@.0, 0usize),
    {
        self.highlight = 0;
    }

    /// ↓: one row down, stopping at the last visible row.
    pub fn next(&mut self)
        requires
            old(self)@.1 < usize::MAX,
        ensures
            final(self)@.0 == old(self)@.0,
            final(self)@.1 == next_pos(old(self)@.0.len(), old(self)@.1 as int),
    {
        let len = self.visible.len();
        if len == 0 {
            return;
        }
        let up = self.highlight + 1;
        self.highlight = if up < len - 1 {
            up
        } else {
            len - 1
        };
    }

    /// ↑: one row up, stopping at the first.
    pub fn prev(&mut self)
        ensures
            final(self)@.0 == old(self)@.0,
            final(self)@.1 == prev_pos(old(self)@.0.len(), old(self)@.1 as int),
    {
        if self.visible.len() == 0 {
            return;
        }
        if self.highlight > 0 {
            self.highlight = self.highlight - 1;
        }
    }

    /// The highlighted row's position among the visible items.
    pub fn highlighted(&self) -> (h: usize)
        ensures
            h == shown_highlight(self@.0, self@.1),
    {
        let len = self.visible.len();
        if len == 0 {
            0
        } else if self.highlight < len {
            self.highlight
        } else {
            len - 1
        }
    }

    /// How many items are visible.
    pub fn visible_count(&self) -> (n: usize)
        ensures
            n == self@.0.len(),
    {
        self.visible.len()
    }

    /// ⏎: the id of the highlighted item to run, or `None` when nothing is
    /// visible (so the caller can hand the key back).
    pub fn activate(&self) -> (id: Option<usize>)
        ensures
            id == if self@.0.len() == 0 {
                None
            } else {
                Some(self@.0[shown_highlight(self@.0, self@.1)])
            },
    {
        if self.visible.len() == 0 {
            return None;
        }
        let h = self.highlighted();
        Some(self.visible[h])
    }

    /// Is the item with this id the highlighted one?
    pub fn is_highlighted(&self, id: usize) -> (r: bool)
        ensures
            r == (self@.0.len() > 0 && self@.0[shown_highlight(self@.0, self@.1)] == id),
    {
        if self.visible.len() == 0 {
            return false;
        }
        let h = self.highlighted();
        self.visible[h] == id
    }

    /// The pointer moved over an item: it becomes the highlight, when
    /// visible (at its first visible position).
    pub fn hover(&mut self, id: usize)
        ensures
            final(self)@.0 == old(self)@.0,
            (exists|k: int| 0 <= k < old(self)@.0.len() && old(self)@.0[k] == id) ==> (
            final(self)@.1 < old(self)@.0.len() && old(self)@.0[final(self)@.1 as int] == id
                && forall|j: int| 0 <= j < final(self)@.1 ==> old(self)@.0[j] != id),
            (forall|k: int| 0 <= k < old(self)@.0.len() ==> old(self)@.0[k] != id)
                ==> final(self)@.1 == old(self)@.1,
    {
        let mut k: usize = 0;
        while k < self.visible.len()
            invariant
                self@ == old(self)@,
                k <= self.visible@.len(),
                forall|j: int| 0 <= j < k ==> self.visible@[j] != id,
            decreases self.visible@.len() - k,
        {
            if self.visible[k] == id {
                self.highlight = k;
                return;
            }
            k = k + 1;
        }
    }
}

/// What the list input does with a key: ↓ and ↑ move, ⏎ activates (or,
/// while the rows answer an older query, runs the caller's stale handler);
/// with nothing visible, nothing.
#[derive(Debug, Clone, Copy, PartialEq, Eq)]
pub enum InputKey {
    Next,
    Prev,
    Activate,
    StaleEnter,
    Ignore,
}

/// The list input's key contract.
pub open spec fn input_key_spec(visible: usize, key: Seq<char>, stale: bool) -> InputKey {
    if visible == 0 {
        InputKey::Ignore
    } else if key == "ArrowDown"@ {
        InputKey::Next
    } else if key == "ArrowUp"@ {
        InputKey::Prev
    } else if key == "Enter"@ {
        if stale {
            InputKey::StaleEnter
        } else {
            InputKey::Activate
        }
    } else {
        InputKey::Ignore
    }
}

/// Decodes a key in the list's own input.
pub fn input_key(visible: usize, key: &str, stale: bool) -> (k: InputKey)
    ensures
        k == input_key_spec(visible, key@, stale),
{
    if visible == 0 {
        InputKey::Ignore
    } else if crate::text::same_text(key, "ArrowDown") {
        InputKey::Next
    } else if crate::text::same_text(key, "ArrowUp") {
        InputKey::Prev
    } else if crate::text::same_text(key, "Enter") {
        if stale {
            InputKey::StaleEnter
        } else {
            InputKey::Activate
        }
    } else {
        InputKey::Ignore
    }
}

/// Which line an empty list shows: the failure's, the loading one's, none
/// while something is visible, else the "nothing matches" line.
#[derive(Debug, Clone, Copy, PartialEq, Eq)]
pub enum EmptyArm {
    Failed,
    Loading,
    Hidden,
    Empty,
}

/// Picks the empty line: a failure outranks loading, and both outrank what
/// the registry says.
pub fn empty_arm(failed: bool, loading: bool, any_visible: bool) -> (arm: EmptyArm)
    ensures
        arm == if failed {
            EmptyArm::Failed
        } else if loading {
            EmptyArm::Loading
        } else if any_visible {
            EmptyArm::Hidden
        } else {
            EmptyArm::Empty
        },
{
    if failed {
        EmptyArm::Failed
    } else if loading {
        EmptyArm::Loading
    } else if any_visible {
        EmptyArm::Hidden
    } else {
        EmptyArm::Empty
    }
}

// --------------------------------------------------------------- the laws --

/// The shown highlight is always a visible row, and ⏎ runs that row.
pub proof fn law_the_highlight_is_a_visible_row(visible: Seq<usize>, highlight: usize)
    requires
        visible.len() > 0,
    ensures
        0 <= shown_highlight(visible, highlight) < visible.len(),
{
}

/// ↑ undoes ↓ away from the last row, and ↓ undoes ↑ away from the first.
pub proof fn law_up_undoes_down(len: nat, h: int)
    requires
        0 <= h < len,
    ensures
        h + 1 < len ==> prev_pos(len, next_pos(len, h)) == h,
        h > 0 ==> next_pos(len, prev_pos(len, h)) == h,
        0 <= next_pos(len, h) < len,
        0 <= prev_pos(len, h) < len,
{
}

} // verus!
