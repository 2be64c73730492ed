//! The search box's decisions: when a committed query replaces the history
//! entry, when the URL's query overrides what is typed, the debounced commit
//! that is armed while typing, and what a key or a reset does.

use vstd::prelude::*;

use crate::text::same_text;

verus! {

/// How long typing rests before the query commits.
pub const SEARCH_DEBOUNCE_MS: u64 = 250;

/// Does committing `q` replace the current history entry? Refining an
/// existing search does; the first search from browse-all, and clearing
/// back to it, push, so Back returns there.
pub fn history_replaces(url_q: &str, q: &str) -> (replace: bool)
    ensures
        replace == (url_q@.len() > 0 && q@.len() > 0),
{
    url_q.unicode_len() > 0 && q.unicode_len() > 0
}

/// What the box last put in the URL, so that its own navigations are not
/// mistaken for the URL moving under it.
#[derive(Debug)]
pub struct QuerySync {
    self_pushed: String,
}

impl View for QuerySync {
    type V = Seq<char>;

    closed spec fn view(&self) -> Seq<char> {
        self.self_pushed@
    }
}

impl QuerySync {
    /// Starts from the URL's query as it stands.
    pub fn new(url_q: String) -> (s: QuerySync)
        ensures
            s@ == url_q@,
    {
        QuerySync { self_pushed: url_q }
    }

    /// The box is about to navigate to `q`.
    pub fn pushed(&mut self, q: String)
        ensures
            final(self)@ == q@,
    {
        self.self_pushed = q;
    }

    /// The URL's query is now `from_url`: when it moved without the box (Back,
    /// a link, another surface), the box takes it (returned); its own push
    /// changes nothing.
    pub fn url_moved(&mut self, from_url: &str) -> (take: Option<String>)
        ensures
            (match take {
                Some(t) => Some(t@),
                None => None,
            }, final(self)@) == sync_spec(old(self)@, from_url@),
    {
        if same_text(from_url, self.self_pushed.as_str()) {
            None
        } else {
            self.self_pushed = String::from_str(from_url);
            Some(String::from_str(from_url))
        }
    }
}

/// The URL's query seen against what the box last pushed: the text to take
/// (none for the box's own push) and what is remembered after.
pub open spec fn sync_spec(self_pushed: Seq<char>, from_url: Seq<char>) -> (Option<Seq<char>>, Seq<char>) {
    if from_url == self_pushed {
        (None, self_pushed)
    } else {
        (Some(from_url), from_url)
    }
}

/// The commit armed by typing: its timer and the text it will commit. The
/// timer is the caller's handle, carried through so it can be cleared.
#[derive(Debug)]
pub struct PendingQuery<H> {
    armed: Option<(H, String)>,
}

impl<H> PendingQuery<H> {
    /// Nothing armed.
    pub fn new() -> (p: PendingQuery<H>)
        ensures
            p.peek_spec() is None,
            p.armed_handle() is None,
    {
        PendingQuery { armed: None }
    }

    /// The timer that is armed, if any.
    pub closed spec fn armed_handle(&self) -> Option<H> {
        match self.armed {
            Some((h, _)) => Some(h),
            None => None,
        }
    }

    /// The armed text, as a value.
    pub closed spec fn peek_spec(&self) -> Option<Seq<char>> {
        match self.armed {
            Some((_, t)) => Some(t@),
            None => None,
        }
    }

    /// The text an armed commit will send, if one is armed.
    pub fn peek(&self) -> (t: Option<String>)
        ensures
            match t {
                Some(s) => self.peek_spec() == Some(s@),
                None => self.peek_spec() is None,
            },
    {
        match &self.armed {
            Some((_, t)) => Some(t.clone()),
            None => None,
        }
    }

    /// Disarms: nothing will commit. Returns the timer to clear, if any.
    pub fn cancel(&mut self) -> (h: Option<H>)
        ensures
            final(self).peek_spec() is None,
            final(self).armed_handle() is None,
            h == old(self).armed_handle(),
            (h is Some) == (old(self).peek_spec() is Some),
    {
        match self.armed.take() {
            Some((h, _)) => Some(h),
            None => None,
        }
    }

    /// Arms a commit of `text` on `handle`'s timer, replacing any armed one
    /// (whose timer is returned, to clear). A timer that could not be set
    /// arms nothing.
    pub fn arm(&mut self, handle: Option<H>, text: String) -> (replaced: Option<H>)
        ensures
            final(self).peek_spec() == match handle {
                Some(_) => Some(text@),
                None => None::<Seq<char>>,
            },
            final(self).armed_handle() == handle,
            replaced == old(self).armed_handle(),
            (replaced is Some) == (old(self).peek_spec() is Some),
    {
        let replaced = self.cancel();
        self.armed = match handle {
            Some(h) => Some((h, text)),
            None => None,
        };
        replaced
    }

    /// The timer fired: the commit is under way, nothing is armed.
    pub fn fired(&mut self)
        ensures
            final(self).peek_spec() is None,
            final(self).armed_handle() is None,
    {
        self.armed = None;
    }
}

/// What the box does with a key.
#[derive(Debug, Clone, Copy, PartialEq, Eq)]
pub enum BarKey {
    /// The caller's own handler took it.
    Handled,
    /// ⏎: disarm and commit what is typed, now.
    Commit,
    Ignore,
}

/// The box's key contract: the caller's handler first, then ⏎ commits.
pub fn bar_key(taken_by_caller: bool, key: &str) -> (k: BarKey)
    ensures
        k == if taken_by_caller {
            BarKey::Handled
        } else if key@ == "Enter"@ {
            BarKey::Commit
        } else {
            BarKey::Ignore
        },
{
    if taken_by_caller {
        BarKey::Handled
    } else if same_text(key, "Enter") {
        BarKey::Commit
    } else {
        BarKey::Ignore
    }
}

/// Does a reset counter's change clear the box? Only a change: its first
/// reading is where it starts.
pub fn reset_fires(prev: Option<u32>, now: u32) -> (fires: bool)
    ensures
        fires == match prev {
            Some(p) => p != now,
            None => false,
        },
{
    match prev {
        Some(p) => p != now,
        None => false,
    }
}

// --------------------------------------------------------------- the laws --

/// The box's own navigation never reads back as the URL moving: after it
/// pushes `q`, seeing `q` in the URL leaves the typed text alone; and a
/// foreign query is taken once, not again on the next look.
pub proof fn law_own_pushes_are_not_foreign(q: Seq<char>, foreign: Seq<char>)
    ensures
        sync_spec(q, q).0 is None,
        sync_spec(sync_spec(q, foreign).1, foreign).0 is None,
{
}

} // verus!
