//! The in-place count editor's decisions: an editing session that steps and
//! types, commits once, and cancels; and the have/want steppers' rules for
//! what a committed count writes.

use vstd::prelude::*;

use crate::catalog::{all_digits, digits_value, parse_usize, parse_usize_text, unsigned_body};
use crate::text::{
    chars_of, push_char, push_i64, push_str, same_text, signed_decimal, string_of, suffix_from,
    trim_text, trimmed,
};

verus! {

/// One committed editing session: the count it started from and the one it
/// committed.
#[derive(Debug, Clone, Copy, PartialEq, Eq)]
pub struct StepperCommit {
    pub from: i32,
    pub to: i32,
}

// ------------------------------------------------------------- the numbers --

/// What `str::parse::<i32>` accepts: an optional sign, then at least one
/// decimal digit and nothing else, naming a value in range.
pub open spec fn parse_i32(s: Seq<char>) -> Option<i32> {
    if s.len() > 0 && s[0] == '-' {
        let body = s.drop_first();
        if body.len() > 0 && all_digits(body) && digits_value(body) <= 2147483648 {
            Some((-(digits_value(body) as int)) as i32)
        } else {
            None
        }
    } else {
        let body = unsigned_body(s);
        if body.len() > 0 && all_digits(body) && digits_value(body) <= 2147483647 {
            Some(digits_value(body) as i32)
        } else {
            None
        }
    }
}

/// Parses an `i32` the way `str::parse` does.
pub fn parse_i32_text(s: &str) -> (r: Option<i32>)
    ensures
        r == parse_i32(s@),
{
    let cs = chars_of(s);
    if cs.len() > 0 && cs[0] == '-' {
        if cs.len() > 1 && cs[1] == '+' {
            proof {
                assert(s@.drop_first()[0] == '+');
                assert(!crate::catalog::is_digit(s@.drop_first()[0]));
            }
            return None;
        }
        let tail = suffix_from(cs.as_slice(), 1);
        let rest = string_of(tail.as_slice());
        proof {
            assert(rest@ =~= s@.drop_first());
            assert(unsigned_body(rest@) == rest@);
        }
        match parse_usize_text(rest.as_str()) {
            Some(v) => if v <= 2147483648usize {
                let w: i64 = v as i64;
                Some((-w) as i32)
            } else {
                None
            },
            None => None,
        }
    } else {
        match parse_usize_text(s) {
            Some(v) => if v <= 2147483647usize {
                Some(v as i32)
            } else {
                None
            },
            None => None,
        }
    }
}

/// A count's numeral.
pub fn i32_text(n: i32) -> (s: String)
    ensures
        s@ == signed_decimal(n as int),
{
    let mut s = String::new();
    push_i64(&mut s, n as i64);
    proof {
        assert(s@ =~= signed_decimal(n as int));
    }
    s
}

// ------------------------------------------------------------ the session --

/// `v` held to the stepper's bounds: at least `min`, at most `max` if any.
pub open spec fn clamp_spec(v: int, min: int, max: Option<i32>) -> int {
    let lo = if v < min {
        min
    } else {
        v
    };
    match max {
        Some(m) => if lo > m {
            m as int
        } else {
            lo
        },
        None => lo,
    }
}

/// Holds a count to the stepper's bounds.
pub fn clamp_count(v: i32, min: i32, max: Option<i32>) -> (c: i32)
    ensures
        c == clamp_spec(v as int, min as int, max),
{
    let lo = if v < min {
        min
    } else {
        v
    };
    match max {
        Some(m) => if lo > m {
            m
        } else {
            lo
        },
        None => lo,
    }
}

/// An editing session: at rest; stepping with `pending` shown uncommitted;
/// or typing, with the text being the session.
#[derive(Debug, Clone, PartialEq, Eq)]
pub struct StepperSession {
    pub pending: Option<i32>,
    pub editing: bool,
    pub text: String,
}

impl StepperSession {
    /// A session at rest.
    pub fn new() -> (s: StepperSession)
        ensures
            s.pending is None,
            !s.editing,
            s.text@ == Seq::<char>::empty(),
    {
        StepperSession { pending: None, editing: false, text: String::new() }
    }
}

/// What the stepper shows: the pending count, else the committed one.
pub open spec fn shown(pending: Option<i32>, value: i32) -> i32 {
    match pending {
        Some(p) => p,
        None => value,
    }
}

/// What the stepper shows.
pub fn display(session: &StepperSession, value: i32) -> (n: i32)
    ensures
        n == shown(session.pending, value),
{
    match session.pending {
        Some(p) => p,
        None => value,
    }
}

/// The count a step starts from: the typed number while typing (the
/// committed count when the text is not one), else what is shown.
pub open spec fn step_base(editing: bool, text: Seq<char>, pending: Option<i32>, value: i32) -> int {
    if editing {
        match parse_i32(trimmed(text)) {
            Some(t) => t as int,
            None => value as int,
        }
    } else {
        shown(pending, value) as int
    }
}

/// A ± step: from the base, by `delta`, held to the bounds. While typing
/// the text takes the new number; otherwise the pending count does. A step
/// that the bounds leave where it was changes nothing, so no empty session
/// opens at a bound.
pub fn step(session: &mut StepperSession, value: i32, delta: i32, min: i32, max: Option<i32>)
    requires
        i32::MIN <= step_base(old(session).editing, old(session).text@, old(session).pending, value)
            + delta <= i32::MAX,
    ensures
        ({
            let base = step_base(old(session).editing, old(session).text@, old(session).pending, value);
            let next = clamp_spec(base + delta, min as int, max);
            if next == base {
                *final(session) == *old(session)
            } else if old(session).editing {
                final(session).editing && final(session).pending == old(session).pending
                    && final(session).text@ == signed_decimal(next)
            } else {
                !final(session).editing && final(session).text == old(session).text
                    && final(session).pending == Some(next as i32)
            }
        }),
{
    if session.editing {
        let t = trim_text(session.text.as_str());
        let ts = string_of(t.as_slice());
        let base = match parse_i32_text(ts.as_str()) {
            Some(b) => b,
            None => value,
        };
        let next = clamp_count(base + delta, min, max);
        if next != base {
            session.text = i32_text(next);
        }
    } else {
        let base = match session.pending {
            Some(p) => p,
            None => value,
        };
        let next = clamp_count(base + delta, min, max);
        if next != base {
            session.pending = Some(next);
        }
    }
}

/// Click-to-type: the text takes what is shown, and the session types.
pub fn enter_edit(session: &mut StepperSession, value: i32)
    ensures
        if old(session).editing {
            *final(session) == *old(session)
        } else {
            final(session).editing && final(session).pending == old(session).pending
                && final(session).text@ == signed_decimal(shown(old(session).pending, value) as int)
        },
{
    if !session.editing {
        let n = match session.pending {
            Some(p) => p,
            None => value,
        };
        session.text = i32_text(n);
        session.editing = true;
    }
}

/// Escape: the session is dropped and nothing commits.
pub fn cancel(session: &mut StepperSession)
    ensures
        final(session).pending is None,
        !final(session).editing,
        final(session).text == old(session).text,
{
    session.pending = None;
    session.editing = false;
}

/// What a closing session commits to: the typed number held to the bounds
/// while typing (nothing when the text is not a number), else the pending
/// count.
pub open spec fn commit_target(
    editing: bool,
    text: Seq<char>,
    pending: Option<i32>,
    min: i32,
    max: Option<i32>,
) -> Option<i32> {
    if editing {
        match parse_i32(trimmed(text)) {
            Some(t) => Some(clamp_spec(t as int, min as int, max) as i32),
            None => None,
        }
    } else {
        pending
    }
}

/// Closes the session (focus left, or ⏎): it is back at rest, and it
/// commits once, only when its target differs from the committed count.
pub fn commit_session(session: &mut StepperSession, value: i32, min: i32, max: Option<i32>) -> (c:
    Option<StepperCommit>)
    ensures
        final(session).pending is None,
        !final(session).editing,
        c == match commit_target(old(session).editing, old(session).text@, old(session).pending, min, max) {
            Some(to) => if to != value {
                Some(StepperCommit { from: value, to })
            } else {
                None
            },
            None => None,
        },
{
    let target = if session.editing {
        let t = trim_text(session.text.as_str());
        let ts = string_of(t.as_slice());
        match parse_i32_text(ts.as_str()) {
            Some(n) => Some(clamp_count(n, min, max)),
            None => None,
        }
    } else {
        session.pending
    };
    session.pending = None;
    session.editing = false;
    match target {
        Some(to) => if to != value {
            Some(StepperCommit { from: value, to })
        } else {
            None
        },
        None => None,
    }
}

/// The commit a toast's Undo makes from `current`: back to `from`, unless
/// the count is already there.
pub open spec fn undo_spec(current: i32, from: i32) -> Option<StepperCommit> {
    if current != from {
        Some(StepperCommit { from: current, to: from })
    } else {
        None
    }
}

/// The commit a toast's Undo makes.
pub fn undo_commit(current: i32, from: i32) -> (c: Option<StepperCommit>)
    ensures
        c == undo_spec(current, from),
{
    if current != from {
        Some(StepperCommit { from: current, to: from })
    } else {
        None
    }
}

/// What a key does to the stepper.
#[derive(Debug, Clone, Copy, PartialEq, Eq)]
pub enum StepperKey {
    /// ⏎ while typing: commit, then put focus back on the count.
    Commit,
    /// ⎋ while typing: drop the session.
    Cancel,
    StepUp,
    StepDown,
    /// ⎋ while stepping: drop the pending count.
    ClearPending,
    /// Anything else: the input's own handling.
    Ignore,
}

/// The key contract: while typing, ⏎ commits and ⎋ cancels (the number
/// input steps its own arrows); otherwise ↑, `+` and `=` step up, ↓ and `-`
/// step down, and ⎋ drops a pending count.
pub open spec fn stepper_key_spec(editing: bool, key: Seq<char>) -> StepperKey {
    if editing {
        if key == "Enter"@ {
            StepperKey::Commit
        } else if key == "Escape"@ {
            StepperKey::Cancel
        } else {
            StepperKey::Ignore
        }
    } else if key == "ArrowUp"@ || key == "+"@ || key == "="@ {
        StepperKey::StepUp
    } else if key == "ArrowDown"@ || key == "-"@ {
        StepperKey::StepDown
    } else if key == "Escape"@ {
        StepperKey::ClearPending
    } else {
        StepperKey::Ignore
    }
}

/// Decodes a key for the stepper.
pub fn stepper_key(editing: bool, key: &str) -> (k: StepperKey)
    ensures
        k == stepper_key_spec(editing, key@),
{
    if editing {
        if same_text(key, "Enter") {
            StepperKey::Commit
        } else if same_text(key, "Escape") {
            StepperKey::Cancel
        } else {
            StepperKey::Ignore
        }
    } else if same_text(key, "ArrowUp") || same_text(key, "+") || same_text(key, "=") {
        StepperKey::StepUp
    } else if same_text(key, "ArrowDown") || same_text(key, "-") {
        StepperKey::StepDown
    } else if same_text(key, "Escape") {
        StepperKey::ClearPending
    } else {
        StepperKey::Ignore
    }
}

/// The ± buttons' `aria-disabled`: `−` at the lower bound, `+` at the upper.
pub fn bounds_reached(shown_count: i32, min: i32, max: Option<i32>) -> (r: (bool, bool))
    ensures
        r.0 == (shown_count <= min),
        r.1 == match max {
            Some(m) => shown_count >= m,
            None => false,
        },
{
    let dec = shown_count <= min;
    let inc = match max {
        Some(m) => shown_count >= m,
        None => false,
    };
    (dec, inc)
}

/// The commit toast: `name: from → to`.
pub fn commit_message(label: &str, from: i32, to: i32) -> (m: String)
    ensures
        m@ == label@ + seq![':', ' '] + signed_decimal(from as int) + seq![' ', '\u{2192}', ' ']
            + signed_decimal(to as int),
{
    let mut m = String::new();
    push_str(&mut m, label);
    push_char(&mut m, ':');
    push_char(&mut m, ' ');
    push_i64(&mut m, from as i64);
    push_char(&mut m, ' ');
    push_char(&mut m, '\u{2192}');
    push_char(&mut m, ' ');
    push_i64(&mut m, to as i64);
    proof {
        assert(m@ =~= label@ + seq![':', ' '] + signed_decimal(from as int) + seq![
            ' ',
            '\u{2192}',
            ' ',
        ] + signed_decimal(to as int));
    }
    m
}

// ------------------------------------------------- the have/want steppers --

/// A count cell's text: the number, or a dash for zero and below: a zero
/// reads as absence.
pub fn count_or_dash(n: i32) -> (s: String)
    ensures
        s@ == if n > 0 {
            signed_decimal(n as int)
        } else {
            seq!['\u{2014}']
        },
{
    if n > 0 {
        i32_text(n)
    } else {
        let mut s = String::new();
        push_char(&mut s, '\u{2014}');
        proof {
            assert(s@ =~= seq!['\u{2014}']);
        }
        s
    }
}

/// Does a commit arrive for a row a committed zero already removed? Then
/// it is a stale toast's Undo and must not write to the dead row.
pub fn stale_commit_should_be_dropped(row_removed: bool) -> (drop: bool)
    ensures
        drop == row_removed,
{
    row_removed
}

/// What a have stepper does with a commit.
#[derive(Debug, Clone, Copy, PartialEq, Eq)]
pub enum HaveWrite {
    /// A stale commit for a removed row: nothing.
    Drop,
    /// A committed zero: remove the whole holding, undoably, from `copies`.
    Remove { copies: i32 },
    /// Any other count: set it.
    SetCount(StepperCommit),
}

/// A have stepper's rule: a stale commit is dropped, a zero removes the
/// holding (an undoable move), any other count is set in place.
pub fn have_write(row_removed: bool, c: StepperCommit) -> (w: HaveWrite)
    ensures
        w == if row_removed {
            HaveWrite::Drop
        } else if c.to == 0 {
            HaveWrite::Remove { copies: c.from }
        } else {
            HaveWrite::SetCount(c)
        },
{
    if stale_commit_should_be_dropped(row_removed) {
        HaveWrite::Drop
    } else if c.to == 0 {
        HaveWrite::Remove { copies: c.from }
    } else {
        HaveWrite::SetCount(c)
    }
}

/// A want stepper's rule: a stale commit is dropped (`None`); any other
/// count is set, and a zero marks the row removed.
pub fn want_write(row_removed: bool, c: StepperCommit) -> (w: Option<(StepperCommit, bool)>)
    ensures
        w == if row_removed {
            None
        } else {
            Some((c, c.to == 0))
        },
{
    if stale_commit_should_be_dropped(row_removed) {
        None
    } else {
        Some((c, c.to == 0))
    }
}

/// The commit that puts a failed write back: the reverse of the one made.
pub fn reverted(c: StepperCommit) -> (r: StepperCommit)
    ensures
        r == (StepperCommit { from: c.to, to: c.from }),
{
    StepperCommit { from: c.to, to: c.from }
}

/// The removal toast's count: `1 copy`, else `n copies`.
pub fn copies_label(n: i32) -> (s: String)
    ensures
        s@ == if n == 1 {
            "1 copy"@
        } else {
            signed_decimal(n as int) + " copies"@
        },
{
    if n == 1 {
        String::from_str("1 copy")
    } else {
        let mut s = i32_text(n);
        push_str(&mut s, " copies");
        s
    }
}

/// Why a have cell will not edit in place: several grains summed here, or
/// only a want.
pub fn have_refusal_title(present: i32) -> (t: &'static str)
    ensures
        t@ == if present > 0 {
            "several finishes or conditions here \u{2014} edit them individually"@
        } else {
            "wanted here, not held"@
        },
{
    if present > 0 {
        "several finishes or conditions here \u{2014} edit them individually"
    } else {
        "wanted here, not held"
    }
}

/// Why a want cell will not edit in place.
pub fn want_refusal_title(desired: i32) -> (t: &'static str)
    ensures
        t@ == if desired > 0 {
            "wanted across more than one board or pinned printing here \u{2014} edit them individually"@
        } else {
            "not wanted here"@
        },
{
    if desired > 0 {
        "wanted across more than one board or pinned printing here \u{2014} edit them individually"
    } else {
        "not wanted here"
    }
}

// --------------------------------------------------------------- the laws --

/// A held count never leaves the bounds (when the bounds leave room).
pub proof fn law_a_clamped_count_is_in_bounds(v: int, min: i32, max: Option<i32>)
    requires
        match max {
            Some(m) => min <= m,
            None => true,
        },
    ensures
        min <= clamp_spec(v, min as int, max),
        match max {
            Some(m) => clamp_spec(v, min as int, max) <= m,
            None => true,
        },
        min <= v && (match max {
            Some(m) => v <= m,
            None => true,
        }) ==> clamp_spec(v, min as int, max) == v,
{
}

/// A session commits at most once: a closed session is at rest, and
/// closing a session at rest commits nothing.
pub proof fn law_a_session_commits_once(text: Seq<char>, min: i32, max: Option<i32>)
    ensures
        commit_target(false, text, None, min, max) is None,
{
}

/// A commit's Undo, made while the count still stands where the commit left
/// it, is the commit reversed; made once the count is back, it does nothing.
pub proof fn law_undo_reverses_a_commit(c: StepperCommit)
    requires
        c.from != c.to,
    ensures
        undo_spec(c.to, c.from) == Some(StepperCommit { from: c.to, to: c.from }),
        undo_spec(c.from, c.from) is None,
{
}

} // verus!
