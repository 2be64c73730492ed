//! The collection page's quick-add panel, its pure half: the keystroke
//! contract, what a key does to a pending count, the kind a commit adds,
//! and the `IN THIS COLLECTION` rows.

use vstd::prelude::*;

use crate::cards::{CardRow, CardSummary};
use crate::catalog::{parse_usize, parse_usize_text};
use crate::ids::Id;
use crate::text::{chars_of, push_str, same_text, string_of, trim_text, trimmed};

verus! {

/// Which of the two quick adds: a wanted card or a held copy.
#[derive(Debug, Clone, Copy, PartialEq, Eq, Structural)]
pub enum QuickAddKind {
    Want,
    Have,
}

/// Digits a `⇧⏎` count may carry.
pub const MAX_COUNT_DIGITS: usize = 2;

// ---------------------------------------------------- the keystroke contract --

/// What one keydown means to the panel. `Pass` hands the key back to the
/// search box; everything else the panel owns.
#[derive(Debug, Clone, Copy, PartialEq, Eq)]
pub enum Action {
    Pass,
    Next,
    Prev,
    BeginCount,
    Digit(char),
    Backspace,
    /// Escape: abandon a pending count if there is one, else close.
    Cancel,
    /// Add the highlighted candidate; `flip` when ⌥ was held.
    Commit { flip: bool },
}

/// What a keystroke means: Escape always cancels; with no candidate rows
/// every other key passes; otherwise the arrows move, `⇧⏎` starts a count
/// unless one is under way, `⏎` commits, and while counting Backspace and a
/// single ASCII digit edit the count.
pub open spec fn decode_spec(key: Seq<char>, shift: bool, alt: bool, rows: usize, counting: bool) -> Action {
    if key == "Escape"@ {
        Action::Cancel
    } else if rows == 0 {
        Action::Pass
    } else if key == "ArrowDown"@ {
        Action::Next
    } else if key == "ArrowUp"@ {
        Action::Prev
    } else if key == "Enter"@ && shift && !counting {
        Action::BeginCount
    } else if key == "Enter"@ {
        Action::Commit { flip: alt }
    } else if key == "Backspace"@ && counting {
        Action::Backspace
    } else if counting && key.len() == 1 && '0' <= key[0] && key[0] <= '9' {
        Action::Digit(key[0])
    } else {
        Action::Pass
    }
}

/// Decodes one keystroke. `rows` is how many candidates are mounted, which
/// is "is the panel open" for every key but Escape.
pub fn decode(key: &str, shift: bool, alt: bool, rows: usize, counting: bool) -> (a: Action)
    ensures
        a == decode_spec(key@, shift, alt, rows, counting),
{
    if same_text(key, "Escape") {
        return Action::Cancel;
    }
    if rows == 0 {
        return Action::Pass;
    }
    if same_text(key, "ArrowDown") {
        Action::Next
    } else if same_text(key, "ArrowUp") {
        Action::Prev
    } else if same_text(key, "Enter") && shift && !counting {
        Action::BeginCount
    } else if same_text(key, "Enter") {
        Action::Commit { flip: alt }
    } else if same_text(key, "Backspace") && counting {
        Action::Backspace
    } else if counting {
        let cs = chars_of(key);
        if cs.len() == 1 && '0' <= cs[0] && cs[0] <= '9' {
            Action::Digit(cs[0])
        } else {
            Action::Pass
        }
    } else {
        Action::Pass
    }
}

/// The kind `⌥⏎` commits: whichever one `⏎` does not.
pub open spec fn flipped_spec(kind: QuickAddKind) -> QuickAddKind {
    match kind {
        QuickAddKind::Have => QuickAddKind::Want,
        QuickAddKind::Want => QuickAddKind::Have,
    }
}

/// The kind `⌥⏎` commits.
pub fn flipped(kind: QuickAddKind) -> (k: QuickAddKind)
    ensures
        k == flipped_spec(kind),
{
    match kind {
        QuickAddKind::Have => QuickAddKind::Want,
        QuickAddKind::Want => QuickAddKind::Have,
    }
}

/// The footer's `⏎` hint.
pub fn enter_hint(kind: QuickAddKind) -> (s: &'static str)
    ensures
        s@ == match kind {
            QuickAddKind::Have => "add 1 here"@,
            QuickAddKind::Want => "want 1"@,
        },
{
    match kind {
        QuickAddKind::Have => "add 1 here",
        QuickAddKind::Want => "want 1",
    }
}

/// The footer's `⌥⏎` hint: always the flipped kind, spelled out.
pub fn alt_hint(kind: QuickAddKind) -> (s: &'static str)
    ensures
        s@ == match kind {
            QuickAddKind::Have => "want instead"@,
            QuickAddKind::Want => "have instead"@,
        },
{
    match kind {
        QuickAddKind::Have => "want instead",
        QuickAddKind::Want => "have instead",
    }
}

/// The highlighted row's chip: `⏎ Have` / `⏎ Want`.
pub fn chip_label(kind: QuickAddKind) -> (s: &'static str)
    ensures
        s@ == match kind {
            QuickAddKind::Have => "Have"@,
            QuickAddKind::Want => "Want"@,
        },
{
    match kind {
        QuickAddKind::Have => "Have",
        QuickAddKind::Want => "Want",
    }
}

// ------------------------------------------------------- a key's outcome --

/// What the page does after a key: hand it back to the box, move the
/// highlight, close the panel (and blur the field), add the highlighted
/// candidate, or nothing beyond the count change.
#[derive(Debug, Clone, Copy, PartialEq, Eq)]
pub enum KeyEffect {
    Pass,
    Next,
    Prev,
    Close,
    /// Add `kind`; `count` is the number typed, if a count was pending and
    /// read as one.
    Commit { kind: QuickAddKind, count: Option<u32> },
    Handled,
}

/// How many copies a commit adds: the typed count, once the caller has
/// passed it through the quantity clamp, or one when no count was typed or
/// the buffer did not read as a number.
pub fn commit_quantity(clamped: Option<u32>) -> (quantity: u32)
    ensures
        quantity == match clamped {
            Some(n) => n,
            None => 1,
        },
{
    match clamped {
        Some(n) => n,
        None => 1,
    }
}

/// The count a typed buffer names, as `str::parse::<u32>` reads it.
pub open spec fn count_of(buf: Seq<char>) -> Option<u32> {
    match parse_usize(buf) {
        Some(v) => if v <= u32::MAX {
            Some(v as u32)
        } else {
            None
        },
        None => None,
    }
}

/// Reads the typed count.
pub fn count_value(buf: &str) -> (n: Option<u32>)
    ensures
        n == count_of(buf@),
{
    match parse_usize_text(buf) {
        Some(v) => if v <= 4294967295usize {
            Some(v as u32)
        } else {
            None
        },
        None => None,
    }
}

/// A pending count after a key, and what the page does: `⇧⏎` opens an
/// empty count; a digit extends it up to [`MAX_COUNT_DIGITS`]; Backspace
/// shortens it and closes it once empty; Escape abandons the count first
/// and closes the panel only when none is pending; a commit adds the
/// default kind (the other one with ⌥) with the count typed.
pub open spec fn key_step_spec(count: Option<Seq<char>>, action: Action, default_kind: QuickAddKind) -> (
    Option<Seq<char>>,
    KeyEffect,
) {
    match action {
        Action::Pass => (count, KeyEffect::Pass),
        Action::Next => (count, KeyEffect::Next),
        Action::Prev => (count, KeyEffect::Prev),
        Action::BeginCount => (Some(Seq::empty()), KeyEffect::Handled),
        Action::Digit(d) => (
            match count {
                Some(buf) => if buf.len() < MAX_COUNT_DIGITS {
                    Some(buf.push(d))
                } else {
                    Some(buf)
                },
                None => None,
            },
            KeyEffect::Handled,
        ),
        Action::Backspace => (
            match count {
                Some(buf) => if buf.len() <= 1 {
                    None
                } else {
                    Some(buf.drop_last())
                },
                None => None,
            },
            KeyEffect::Handled,
        ),
        Action::Cancel => match count {
            Some(_) => (None, KeyEffect::Handled),
            None => (None, KeyEffect::Close),
        },
        Action::Commit { flip } => (
            count,
            KeyEffect::Commit {
                kind: if flip {
                    flipped_spec(default_kind)
                } else {
                    default_kind
                },
                count: match count {
                    Some(buf) => count_of(buf),
                    None => None,
                },
            },
        ),
    }
}

/// A pending count's text.
pub open spec fn count_text(c: Option<String>) -> Option<Seq<char>> {
    match c {
        Some(s) => Some(s@),
        None => None,
    }
}

/// Applies one decoded key to the pending count and says what the page does.
pub fn key_step(count: Option<String>, action: Action, default_kind: QuickAddKind) -> (r: (
    Option<String>,
    KeyEffect,
))
    ensures
        (count_text(r.0), r.1) == key_step_spec(count_text(count), action, default_kind),
{
    match action {
        Action::Pass => (count, KeyEffect::Pass),
        Action::Next => (count, KeyEffect::Next),
        Action::Prev => (count, KeyEffect::Prev),
        Action::BeginCount => {
            let s = String::new();
            (Some(s), KeyEffect::Handled)
        },
        Action::Digit(d) => match count {
            Some(buf) => {
                let cs = chars_of(buf.as_str());
                if cs.len() < MAX_COUNT_DIGITS {
                    let mut more = cs;
                    more.push(d);
                    (Some(string_of(more.as_slice())), KeyEffect::Handled)
                } else {
                    (Some(buf), KeyEffect::Handled)
                }
            },
            None => (None, KeyEffect::Handled),
        },
        Action::Backspace => match count {
            Some(buf) => {
                let cs = chars_of(buf.as_str());
                if cs.len() <= 1 {
                    (None, KeyEffect::Handled)
                } else {
                    let mut fewer = cs;
                    fewer.pop();
                    proof {
                        assert(fewer@ =~= buf@.drop_last());
                    }
                    (Some(string_of(fewer.as_slice())), KeyEffect::Handled)
                }
            },
            None => (None, KeyEffect::Handled),
        },
        Action::Cancel => match count {
            Some(_) => (None, KeyEffect::Handled),
            None => (None, KeyEffect::Close),
        },
        Action::Commit { flip } => {
            let kind = if flip {
                flipped(default_kind)
            } else {
                default_kind
            };
            let n = match &count {
                Some(buf) => count_value(buf.as_str()),
                None => None,
            };
            (count, KeyEffect::Commit { kind, count: n })
        },
    }
}

// ---------------------------------------------------- in this collection --

/// One `IN THIS COLLECTION` row: an oracle card the destination holds, with
/// the count its HERE column shows.
#[derive(Debug, Clone, PartialEq, Eq)]
pub struct PresentMatch {
    pub oracle_id: Id,
    pub name: String,
    pub here: i32,
}

/// A row's copies here: present plus rolled up.
pub open spec fn row_here(r: CardRow) -> int {
    r.present + r.present_rollup
}

/// A present row as values.
pub open spec fn match_view(m: PresentMatch) -> (Id, Seq<char>, int) {
    (m.oracle_id, m.name@, m.here as int)
}

/// The position of the folded row for `oracle`, if there is one.
pub open spec fn index_of_oracle(ms: Seq<(Id, Seq<char>, int)>, oracle: Id) -> Option<int>
    decreases ms.len(),
{
    if ms.len() == 0 {
        None
    } else {
        match index_of_oracle(ms.drop_last(), oracle) {
            Some(i) => Some(i),
            None => if ms.last().0 == oracle {
                Some(ms.len() - 1)
            } else {
                None
            },
        }
    }
}

/// The rows folded to one per oracle card, in the order each card first
/// appears, with the first row's name and the total copies here.
pub open spec fn folded(rows: Seq<CardRow>) -> Seq<(Id, Seq<char>, int)>
    decreases rows.len(),
{
    if rows.len() == 0 {
        Seq::empty()
    } else {
        let before = folded(rows.drop_last());
        let r = rows.last();
        match index_of_oracle(before, r.oracle_id) {
            Some(j) => before.update(j, (before[j].0, before[j].1, before[j].2 + row_here(r))),
            None => before.push((r.oracle_id, r.name@, row_here(r))),
        }
    }
}

/// The folded rows that hold at least one copy.
pub open spec fn holding(ms: Seq<(Id, Seq<char>, int)>) -> Seq<(Id, Seq<char>, int)>
    decreases ms.len(),
{
    if ms.len() == 0 {
        Seq::empty()
    } else if ms.last().2 > 0 {
        holding(ms.drop_last()).push(ms.last())
    } else {
        holding(ms.drop_last())
    }
}

/// Every count the fold passes through fits an `i32`: each row's own sum,
/// and each running total.
pub open spec fn sums_fit(rows: Seq<CardRow>) -> bool {
    &&& forall|k: int|
        0 <= k < rows.len() ==> i32::MIN <= #[trigger] row_here(rows[k]) <= i32::MAX
    &&& forall|k: int, j: int|
        0 < k <= rows.len() && 0 <= j < folded(rows.take(k)).len() ==> i32::MIN
            <= #[trigger] folded(rows.take(k))[j].2 <= i32::MAX
}

fn find_oracle(out: &Vec<PresentMatch>, oracle: Id) -> (r: Option<usize>)
    ensures
        match r {
            Some(j) => j < out@.len() && index_of_oracle(
                out@.map_values(|m: PresentMatch| match_view(m)),
                oracle,
            ) == Some(j as int),
            None => index_of_oracle(out@.map_values(|m: PresentMatch| match_view(m)), oracle)
                is None,
        },
{
    let ghost ms = out@.map_values(|m: PresentMatch| match_view(m));
    let mut j: usize = 0;
    while j < out.len()
        invariant
            j <= out@.len(),
            ms == out@.map_values(|m: PresentMatch| match_view(m)),
            index_of_oracle(ms.take(j as int), oracle) is None,
        decreases out@.len() - j,
    {
        proof {
            assert(ms.take(j + 1).drop_last() =~= ms.take(j as int));
        }
        if out[j].oracle_id == oracle {
            proof {
                lemma_index_prefix(ms, j + 1, oracle);
            }
            return Some(j);
        }
        j = j + 1;
    }
    proof {
        assert(ms.take(ms.len() as int) =~= ms);
    }
    None
}

proof fn lemma_index_prefix(ms: Seq<(Id, Seq<char>, int)>, n: int, oracle: Id)
    requires
        0 <= n <= ms.len(),
        index_of_oracle(ms.take(n), oracle) is Some,
    ensures
        index_of_oracle(ms, oracle) == index_of_oracle(ms.take(n), oracle),
    decreases ms.len(),
{
    if ms.len() == n {
        assert(ms.take(n) =~= ms);
    } else {
        assert(ms.drop_last().take(n) =~= ms.take(n));
        lemma_index_prefix(ms.drop_last(), n, oracle);
    }
}

proof fn lemma_index_in_range(ms: Seq<(Id, Seq<char>, int)>, oracle: Id)
    ensures
        match index_of_oracle(ms, oracle) {
            Some(i) => 0 <= i < ms.len() && ms[i].0 == oracle,
            None => true,
        },
    decreases ms.len(),
{
    if ms.len() > 0 {
        lemma_index_in_range(ms.drop_last(), oracle);
    }
}

/// Folds the collection read's rows into one row per oracle card, in the
/// order the read returned them, each with present plus rolled-up copies;
/// cards with no copies here (only wanted) are left out.
pub fn present_matches(rows: &[CardRow]) -> (out: Vec<PresentMatch>)
    requires
        sums_fit(rows@),
    ensures
        out@.map_values(|m: PresentMatch| match_view(m)) == holding(folded(rows@)),
{
    let mut all: Vec<PresentMatch> = Vec::new();
    let mut i: usize = 0;
    while i < rows.len()
        invariant
            i <= rows@.len(),
            sums_fit(rows@),
            all@.map_values(|m: PresentMatch| match_view(m)) == folded(rows@.take(i as int)),
        decreases rows@.len() - i,
    {
        let ghost before = all@.map_values(|m: PresentMatch| match_view(m));
        proof {
            assert(rows@.take(i + 1).drop_last() =~= rows@.take(i as int));
            assert(rows@.take(i + 1).last() == rows@[i as int]);
            assert(i32::MIN <= row_here(rows@[i as int]) <= i32::MAX);
        }
        let row = &rows[i];
        let here = row.present + row.present_rollup;
        match find_oracle(&all, row.oracle_id) {
            Some(j) => {
                proof {
                    lemma_index_in_range(before, row.oracle_id);
                    let after = folded(rows@.take(i + 1));
                    assert(after == before.update(
                        j as int,
                        (before[j as int].0, before[j as int].1, before[j as int].2 + here),
                    ));
                    assert(after[j as int].2 == before[j as int].2 + here);
                    assert(i32::MIN <= folded(rows@.take(i + 1))[j as int].2 <= i32::MAX);
                }
                let m = PresentMatch {
                    oracle_id: all[j].oracle_id,
                    name: all[j].name.clone(),
                    here: all[j].here + here,
                };
                all.set(j, m);
                proof {
                    assert(all@.map_values(|m: PresentMatch| match_view(m)) =~= folded(
                        rows@.take(i + 1),
                    ));
                }
            },
            None => {
                all.push(PresentMatch { oracle_id: row.oracle_id, name: row.name.clone(), here });
                proof {
                    assert(all@.map_values(|m: PresentMatch| match_view(m)) =~= folded(
                        rows@.take(i + 1),
                    ));
                }
            },
        }
        i = i + 1;
    }
    proof {
        assert(rows@.take(rows@.len() as int) =~= rows@);
    }
    let ghost ms = all@.map_values(|m: PresentMatch| match_view(m));
    let mut out: Vec<PresentMatch> = Vec::new();
    let mut k: usize = 0;
    while k < all.len()
        invariant
            k <= all@.len(),
            ms == all@.map_values(|m: PresentMatch| match_view(m)),
            out@.map_values(|m: PresentMatch| match_view(m)) == holding(ms.take(k as int)),
        decreases all@.len() - k,
    {
        proof {
            assert(ms.take(k + 1).drop_last() =~= ms.take(k as int));
            assert(ms.take(k + 1).last() == match_view(all@[k as int]));
        }
        if all[k].here > 0 {
            let ghost before = out@.map_values(|m: PresentMatch| match_view(m));
            out.push(
                PresentMatch { oracle_id: all[k].oracle_id, name: all[k].name.clone(), here: all[k].here },
            );
            proof {
                assert(out@.map_values(|m: PresentMatch| match_view(m)) =~= before.push(
                    match_view(all@[k as int]),
                ));
            }
        }
        k = k + 1;
    }
    proof {
        assert(ms.take(ms.len() as int) =~= ms);
    }
    out
}

/// The copies here of the card `oracle`, summed over every row of it.
pub open spec fn total_here(rows: Seq<CardRow>, oracle: Id) -> int
    decreases rows.len(),
{
    if rows.len() == 0 {
        0
    } else {
        total_here(rows.drop_last(), oracle) + if rows.last().oracle_id == oracle {
            row_here(rows.last())
        } else {
            0
        }
    }
}

/// Does some row belong to the card `oracle`?
pub open spec fn has_card(rows: Seq<CardRow>, oracle: Id) -> bool {
    exists|k: int| 0 <= k < rows.len() && #[trigger] rows[k].oracle_id == oracle
}

proof fn lemma_index_absent(ms: Seq<(Id, Seq<char>, int)>, oracle: Id)
    ensures
        index_of_oracle(ms, oracle) is None ==> forall|j: int|
            0 <= j < ms.len() ==> #[trigger] ms[j].0 != oracle,
    decreases ms.len(),
{
    if ms.len() > 0 {
        lemma_index_absent(ms.drop_last(), oracle);
        if index_of_oracle(ms, oracle) is None {
            assert forall|j: int| 0 <= j < ms.len() implies #[trigger] ms[j].0 != oracle by {
                if j < ms.len() - 1 {
                    assert(ms[j] == ms.drop_last()[j]);
                }
            }
        }
    }
}

proof fn lemma_no_rows_no_total(rows: Seq<CardRow>, oracle: Id)
    requires
        !has_card(rows, oracle),
    ensures
        total_here(rows, oracle) == 0,
    decreases rows.len(),
{
    if rows.len() > 0 {
        let front = rows.drop_last();
        assert(!has_card(front, oracle)) by {
            if has_card(front, oracle) {
                let k = choose|k: int| 0 <= k < front.len() && #[trigger] front[k].oracle_id
                    == oracle;
                assert(rows[k].oracle_id == oracle);
            }
        }
        lemma_no_rows_no_total(front, oracle);
        assert(rows[rows.len() - 1].oracle_id != oracle);
    }
}

proof fn lemma_folded(rows: Seq<CardRow>)
    ensures
        forall|i: int, j: int|
            0 <= i < j < folded(rows).len() ==> #[trigger] folded(rows)[i].0 != #[trigger] folded(
                rows,
            )[j].0,
        forall|j: int|
            0 <= j < folded(rows).len() ==> #[trigger] folded(rows)[j].2 == total_here(
                rows,
                folded(rows)[j].0,
            ) && has_card(rows, folded(rows)[j].0),
        forall|oracle: Id|
            #[trigger] has_card(rows, oracle) ==> exists|j: int|
                0 <= j < folded(rows).len() && #[trigger] folded(rows)[j].0 == oracle,
    decreases rows.len(),
{
    let f = folded(rows);
    if rows.len() > 0 {
        let front = rows.drop_last();
        let r = rows.last();
        let b = folded(front);
        lemma_folded(front);
        lemma_index_in_range(b, r.oracle_id);
        lemma_index_absent(b, r.oracle_id);
        assert(r == rows[rows.len() - 1]);
        assert forall|oracle: Id| has_card(front, oracle) implies has_card(rows, oracle) by {
            let k = choose|k: int| 0 <= k < front.len() && #[trigger] front[k].oracle_id == oracle;
            assert(rows[k].oracle_id == oracle);
        }
        assert(has_card(rows, r.oracle_id));
        assert forall|oracle: Id| #[trigger] has_card(rows, oracle) implies has_card(front, oracle)
            || oracle == r.oracle_id by {
            let k = choose|k: int| 0 <= k < rows.len() && #[trigger] rows[k].oracle_id == oracle;
            if k < rows.len() - 1 {
                assert(front[k].oracle_id == oracle);
            }
        }
        match index_of_oracle(b, r.oracle_id) {
            Some(j0) => {
                assert(f == b.update(j0, (b[j0].0, b[j0].1, b[j0].2 + row_here(r))));
                assert forall|j: int| 0 <= j < f.len() implies #[trigger] f[j].2 == total_here(
                    rows,
                    f[j].0,
                ) && has_card(rows, f[j].0) by {
                    assert(b[j].2 == total_here(front, b[j].0));
                    if j != j0 {
                        assert(b[j].0 != b[j0].0);
                    }
                }
                assert forall|oracle: Id| #[trigger] has_card(rows, oracle) implies exists|j: int|
                    0 <= j < f.len() && #[trigger] f[j].0 == oracle by {
                    if has_card(front, oracle) {
                        let j = choose|j: int| 0 <= j < b.len() && #[trigger] b[j].0 == oracle;
                        assert(f[j].0 == oracle);
                    } else {
                        assert(f[j0].0 == oracle);
                    }
                }
            },
            None => {
                let e = (r.oracle_id, r.name@, row_here(r));
                assert(f == b.push(e));
                assert(!has_card(front, r.oracle_id)) by {
                    if has_card(front, r.oracle_id) {
                        let j = choose|j: int| 0 <= j < b.len() && #[trigger] b[j].0 == r.oracle_id;
                    }
                }
                lemma_no_rows_no_total(front, r.oracle_id);
                assert forall|i: int, j: int| 0 <= i < j < f.len() implies #[trigger] f[i].0
                    != #[trigger] f[j].0 by {
                    if j == b.len() {
                        assert(b[i].0 != r.oracle_id);
                    } else {
                        assert(b[i].0 != b[j].0);
                    }
                }
                assert forall|j: int| 0 <= j < f.len() implies #[trigger] f[j].2 == total_here(
                    rows,
                    f[j].0,
                ) && has_card(rows, f[j].0) by {
                    if j < b.len() {
                        assert(b[j].2 == total_here(front, b[j].0));
                        assert(b[j].0 != r.oracle_id);
                    }
                }
                assert forall|oracle: Id| #[trigger] has_card(rows, oracle) implies exists|j: int|
                    0 <= j < f.len() && #[trigger] f[j].0 == oracle by {
                    if has_card(front, oracle) {
                        let j = choose|j: int| 0 <= j < b.len() && #[trigger] b[j].0 == oracle;
                        assert(f[j].0 == oracle);
                    } else {
                        assert(f[b.len() as int].0 == oracle);
                    }
                }
            },
        }
    }
}

proof fn lemma_holding(ms: Seq<(Id, Seq<char>, int)>)
    ensures
        forall|x: (Id, Seq<char>, int)| #[trigger] holding(ms).contains(x) <==> (ms.contains(x)
            && x.2 > 0),
        (forall|i: int, j: int| 0 <= i < j < ms.len() ==> #[trigger] ms[i].0 != #[trigger] ms[j].0)
            ==> forall|i: int, j: int|
            0 <= i < j < holding(ms).len() ==> #[trigger] holding(ms)[i].0
                != #[trigger] holding(ms)[j].0,
    decreases ms.len(),
{
    if ms.len() == 0 {
        assert forall|x: (Id, Seq<char>, int)| #[trigger] holding(ms).contains(x) <==> (
        ms.contains(x) && x.2 > 0) by {
            assert(holding(ms).len() == 0);
        }
    } else {
        let d = ms.drop_last();
        let l = ms.last();
        lemma_holding(d);
        let h = holding(d);
        assert forall|x: (Id, Seq<char>, int)| ms.contains(x) <==> (d.contains(x) || x == l) by {
            if ms.contains(x) {
                let k = choose|k: int| 0 <= k < ms.len() && ms[k] == x;
                if k < ms.len() - 1 {
                    assert(d[k] == x);
                }
            }
            if d.contains(x) {
                let k = choose|k: int| 0 <= k < d.len() && d[k] == x;
                assert(ms[k] == x);
            }
            if x == l {
                assert(ms[ms.len() - 1] == x);
            }
        }
        assert forall|x: (Id, Seq<char>, int)| #[trigger] holding(ms).contains(x) <==> (
        ms.contains(x) && x.2 > 0) by {
            assert(h.contains(x) <==> (d.contains(x) && x.2 > 0));
            if l.2 > 0 {
                assert(holding(ms) == h.push(l));
                if h.push(l).contains(x) {
                    let k = choose|k: int| 0 <= k < h.push(l).len() && h.push(l)[k] == x;
                    if k < h.len() {
                        assert(h[k] == x);
                    }
                }
                if h.contains(x) {
                    let k = choose|k: int| 0 <= k < h.len() && h[k] == x;
                    assert(h.push(l)[k] == x);
                }
                if x == l {
                    assert(h.push(l)[h.len() as int] == x);
                }
            } else {
                assert(holding(ms) == h);
            }
        }
        if l.2 > 0 {
            if forall|i: int, j: int| 0 <= i < j < ms.len() ==> #[trigger] ms[i].0 != #[trigger] ms[j].0 {
                assert forall|i: int, j: int| 0 <= i < j < d.len() implies #[trigger] d[i].0
                    != #[trigger] d[j].0 by {
                    assert(ms[i] == d[i] && ms[j] == d[j]);
                }
                assert forall|i: int, j: int| 0 <= i < j < h.push(l).len() implies #[trigger] h.push(
                    l,
                )[i].0 != #[trigger] h.push(l)[j].0 by {
                    if j == h.len() {
                        assert(h.contains(h[i]));
                        let k = choose|k: int| 0 <= k < d.len() && d[k] == h[i];
                        assert(ms[k] == d[k]);
                        assert(ms[ms.len() - 1] == l);
                    }
                }
            }
        } else {
            if forall|i: int, j: int| 0 <= i < j < ms.len() ==> #[trigger] ms[i].0 != #[trigger] ms[j].0 {
                assert forall|i: int, j: int| 0 <= i < j < d.len() implies #[trigger] d[i].0
                    != #[trigger] d[j].0 by {
                    assert(ms[i] == d[i] && ms[j] == d[j]);
                }
            }
        }
    }
}

/// The IN THIS COLLECTION rows hold one row per oracle card: no card
/// twice; each row's count is every copy of that card here, summed over all
/// the rows the read returned for it; and every card with copies here has
/// its row.
pub proof fn law_one_row_per_card_with_all_its_copies(rows: Seq<CardRow>)
    ensures
        ({
            let out = holding(folded(rows));
            &&& forall|i: int, j: int|
                0 <= i < j < out.len() ==> #[trigger] out[i].0 != #[trigger] out[j].0
            &&& forall|j: int|
                0 <= j < out.len() ==> #[trigger] out[j].2 == total_here(rows, out[j].0)
                    && out[j].2 > 0 && has_card(rows, out[j].0)
            &&& forall|oracle: Id|
                #[trigger] total_here(rows, oracle) > 0 ==> exists|j: int|
                    0 <= j < out.len() && #[trigger] out[j].0 == oracle
        }),
{
    let f = folded(rows);
    let out = holding(f);
    lemma_folded(rows);
    lemma_holding(f);
    assert forall|j: int| 0 <= j < out.len() implies #[trigger] out[j].2 == total_here(
        rows,
        out[j].0,
    ) && out[j].2 > 0 && has_card(rows, out[j].0) by {
        assert(out.contains(out[j]));
        let k = choose|k: int| 0 <= k < f.len() && f[k] == out[j];
        assert(f[k].2 == total_here(rows, f[k].0));
    }
    assert forall|oracle: Id| #[trigger] total_here(rows, oracle) > 0 implies exists|j: int|
        0 <= j < out.len() && #[trigger] out[j].0 == oracle by {
        if !has_card(rows, oracle) {
            lemma_no_rows_no_total(rows, oracle);
        }
        let k = choose|k: int| 0 <= k < f.len() && #[trigger] f[k].0 == oracle;
        assert(f[k].2 == total_here(rows, f[k].0));
        assert(f.contains(f[k]));
        assert(out.contains(f[k]));
        let j = choose|j: int| 0 <= j < out.len() && out[j] == f[k];
        assert(out[j].0 == oracle);
    }
}

/// Should the `IN THIS COLLECTION` section render? Only once a non-blank
/// query has matched something here.
pub fn present_visible(query: &str, present: &[PresentMatch]) -> (visible: bool)
    ensures
        visible == (trimmed(query@).len() > 0 && present@.len() > 0),
{
    let t = trim_text(query);
    t.len() > 0 && present.len() > 0
}

/// A candidate's disambiguation line: the mana cost, else the type line,
/// else nothing.
pub open spec fn meta_spec(card: CardSummary) -> Seq<char> {
    match card.mana_cost {
        Some(m) if m@.len() > 0 => m@,
        _ => match card.type_line {
            Some(t) => t@,
            None => Seq::empty(),
        },
    }
}

/// A candidate's disambiguation line.
pub fn meta_line(card: &CardSummary) -> (line: String)
    ensures
        line@ == meta_spec(*card),
{
    if let Some(m) = &card.mana_cost {
        let cs = chars_of(m.as_str());
        if cs.len() > 0 {
            return m.clone();
        }
    }
    match &card.type_line {
        Some(t) => t.clone(),
        None => String::new(),
    }
}

// ------------------------------------------------------------ refusals --

/// Why an add is not sent.
#[derive(Debug, Clone, Copy, PartialEq, Eq)]
pub enum AddRefusal {
    /// The destination is still resolving: nothing is added rather than
    /// guessing where.
    NoDestination,
    /// A have needs a printing and this card resolved none: it can only be
    /// wanted.
    NoPrinting,
}

/// Whether an add of `kind` can be sent: a destination first, then a
/// printing for a have.
pub fn add_refusal(has_destination: bool, kind: QuickAddKind, has_printing: bool) -> (r: Option<
    AddRefusal,
>)
    ensures
        r == if !has_destination {
            Some(AddRefusal::NoDestination)
        } else if kind == QuickAddKind::Have && !has_printing {
            Some(AddRefusal::NoPrinting)
        } else {
            None
        },
{
    if !has_destination {
        Some(AddRefusal::NoDestination)
    } else if kind == QuickAddKind::Have && !has_printing {
        Some(AddRefusal::NoPrinting)
    } else {
        None
    }
}

/// What a refused add says.
pub fn refusal_message(r: AddRefusal, name: &str) -> (m: String)
    ensures
        m@ == match r {
            AddRefusal::NoDestination => "Still loading this collection \u{2014} try that again."@,
            AddRefusal::NoPrinting => name@ + " has no printing to add \u{2014} \u{2325}\u{23ce} wants it instead."@,
        },
{
    match r {
        AddRefusal::NoDestination => String::from_str(
            "Still loading this collection \u{2014} try that again.",
        ),
        AddRefusal::NoPrinting => {
            let mut m = String::from_str(name);
            push_str(&mut m, " has no printing to add \u{2014} \u{2325}\u{23ce} wants it instead.");
            m
        },
    }
}

// --------------------------------------------------------------- the laws --

/// Escape never passes: with or without rows, with or without a count, it
/// cancels; and cancelling twice always ends with the panel closed and no
/// count pending.
pub proof fn law_escape_always_gets_out(
    shift: bool,
    alt: bool,
    rows: usize,
    count: Option<Seq<char>>,
    default_kind: QuickAddKind,
)
    ensures
        decode_spec("Escape"@, shift, alt, rows, count is Some) == Action::Cancel,
        ({
            let first = key_step_spec(count, Action::Cancel, default_kind);
            let second = key_step_spec(first.0, Action::Cancel, default_kind);
            second.0 is None && (first.1 == KeyEffect::Close || second.1 == KeyEffect::Close)
        }),
{
}

/// ⌥ commits the other kind: a flipped commit and a plain one never add the
/// same kind, and flipping twice is no flip.
pub proof fn law_alt_commits_the_other_kind(kind: QuickAddKind)
    ensures
        flipped_spec(kind) != kind,
        flipped_spec(flipped_spec(kind)) == kind,
{
}

/// The count buffer never holds more than [`MAX_COUNT_DIGITS`] digits, and
/// holds only digits, whatever keys arrive.
pub proof fn law_a_count_stays_short_and_numeric(
    count: Option<Seq<char>>,
    action: Action,
    default_kind: QuickAddKind,
)
    requires
        match count {
            Some(buf) => buf.len() <= MAX_COUNT_DIGITS && forall|i: int|
                0 <= i < buf.len() ==> '0' <= #[trigger] buf[i] && buf[i] <= '9',
            None => true,
        },
        match action {
            Action::Digit(d) => '0' <= d && d <= '9',
            _ => true,
        },
    ensures
        match key_step_spec(count, action, default_kind).0 {
            Some(buf) => buf.len() <= MAX_COUNT_DIGITS && forall|i: int|
                0 <= i < buf.len() ==> '0' <= #[trigger] buf[i] && buf[i] <= '9',
            None => true,
        },
{
}

} // verus!
