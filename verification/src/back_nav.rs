//! The in-app back affordance: the platform's back chord, whether there is
//! history inside the app to go back through, and where to go when there
//! is not.

use vstd::prelude::*;

use crate::text::{ascii_lowercase_chars, ascii_lowered, chars_of, chars_equal, same_text};

verus! {

/// The back chord: ⌘[ on a Mac, Alt+← elsewhere, with no other modifier.
pub open spec fn back_chord_spec(key: Seq<char>, meta: bool, ctrl: bool, alt: bool, shift: bool, mac: bool) -> bool {
    if mac {
        key == "["@ && meta && !ctrl && !alt && !shift
    } else {
        key == "ArrowLeft"@ && alt && !ctrl && !meta && !shift
    }
}

/// Is this keydown the back chord?
pub fn is_back_chord(key: &str, meta: bool, ctrl: bool, alt: bool, shift: bool, mac: bool) -> (r: bool)
    ensures
        r == back_chord_spec(key@, meta, ctrl, alt, shift, mac),
{
    if mac {
        same_text(key, "[") && meta && !ctrl && !alt && !shift
    } else {
        same_text(key, "ArrowLeft") && alt && !ctrl && !meta && !shift
    }
}

/// Whether the app has moved since it loaded: the first route is where the
/// visit started, every later one means Back stays inside the app.
#[derive(Debug, Clone, Copy, PartialEq, Eq)]
pub struct HistoryTracker {
    pub seen_first: bool,
    pub has_history: bool,
}

impl HistoryTracker {
    /// Before the first route.
    pub fn new() -> (t: HistoryTracker)
        ensures
            !t.seen_first,
            !t.has_history,
    {
        HistoryTracker { seen_first: false, has_history: false }
    }

    /// A route was shown.
    pub fn on_route(&mut self)
        ensures
            final(self).seen_first,
            final(self).has_history == (old(self).has_history || old(self).seen_first),
    {
        if self.seen_first {
            self.has_history = true;
        } else {
            self.seen_first = true;
        }
    }
}

/// Where Back goes with no history: the signed-in home, else the catalog.
pub fn fallback_href(signed_in: bool) -> (href: &'static str)
    ensures
        href@ == if signed_in {
            "/my"@
        } else {
            "/catalog"@
        },
{
    if signed_in {
        "/my"
    } else {
        "/catalog"
    }
}

/// Is an element that holds focus one the chord must leave alone (a text
/// field, a list box, editable content)? `tag` as the DOM reports it.
pub fn is_editable(tag: &str, content_editable: bool) -> (r: bool)
    ensures
        r == (ascii_lowered(tag@) == "input"@ || ascii_lowered(tag@) == "textarea"@
            || ascii_lowered(tag@) == "select"@ || content_editable),
{
    let cs = chars_of(tag);
    let low = ascii_lowercase_chars(cs.as_slice());
    let input = chars_of("input");
    let textarea = chars_of("textarea");
    let select = chars_of("select");
    chars_equal(low.as_slice(), input.as_slice()) || chars_equal(
        low.as_slice(),
        textarea.as_slice(),
    ) || chars_equal(low.as_slice(), select.as_slice()) || content_editable
}

/// What the back chord does.
#[derive(Debug, Clone, Copy, PartialEq, Eq)]
pub enum BackAction {
    /// Not the chord, or focus is in a field: the key is left alone.
    Ignore,
    /// Go back through the browser's history.
    HistoryBack,
    /// No history inside the app: go to the fallback page.
    Fallback,
}

/// The back chord's decision: only the chord, only outside a field; then
/// back through history when there is some, else to the fallback page.
pub fn back_action(chord: bool, focus_editable: bool, has_history: bool) -> (a: BackAction)
    ensures
        a == if !chord || focus_editable {
            BackAction::Ignore
        } else if has_history {
            BackAction::HistoryBack
        } else {
            BackAction::Fallback
        },
{
    if !chord || focus_editable {
        BackAction::Ignore
    } else if has_history {
        BackAction::HistoryBack
    } else {
        BackAction::Fallback
    }
}

/// The chord needs exactly its own modifier: any other one held with it
/// makes it someone else's chord.
pub proof fn law_an_extra_modifier_is_someone_elses(key: Seq<char>, meta: bool, ctrl: bool, alt: bool, shift: bool, mac: bool)
    requires
        back_chord_spec(key, meta, ctrl, alt, shift, mac),
    ensures
        !ctrl && !shift,
        mac ==> meta && !alt,
        !mac ==> alt && !meta,
{
}

} // verus!
