//! The ⌘K command palette's pure half: the trigger chord, the place index
//! and the recent-places ring, and the anchored fuzzy matcher that ranks
//! places and commands.

use vstd::prelude::*;

use crate::collections::{AssembledTree, CollectionKind, TreeNode};
use crate::command::{contains_chars, occurs_in};
use crate::destination::{lowercase_of, str_lowercase};
use crate::ids::{hyphenated, parse_uuid, uuid_parse, uuid_text, Id};
use crate::text::{
    ascii_lower, ascii_lowered, joined, lemma_split_joined, lemma_trimmed_unchanged,
    chars_equal, chars_of, has_prefix, is_whitespace, push_char, push_chars, push_str,
    same_text, slice_range, split_chars, split_on, lemma_split_nonempty, starts_with, string_of, trim_chars, trimmed,
    white_space,
};

verus! {

// ---------------------------------------------------------------- casing --

/// What `char::to_lowercase` yields for a non-ASCII `c`.
pub uninterp spec fn non_ascii_lower(c: char) -> Seq<char>;

/// What `char::to_lowercase` yields for `c`: for an ASCII character exactly
/// its ASCII lower-case form.
pub open spec fn lower(c: char) -> Seq<char> {
    if (c as u32) < 128 {
        seq![ascii_lower(c)]
    } else {
        non_ascii_lower(c)
    }
}

/// `char::to_lowercase`, collected. Its contract states the ASCII case
/// and names the rest, adding what the documentation gives for every
/// character: one or more characters come out.
#[verifier::external_body]
pub(crate) fn char_lowercase(c: char) -> (v: Vec<char>)
    ensures
        v@ == lower(c),
        (c as u32) >= 128 ==> v@ == non_ascii_lower(c),
        v@.len() >= 1,
{
    c.to_lowercase().collect()
}

/// `s` lower-cased character by character.
pub open spec fn lowered(s: Seq<char>) -> Seq<char>
    decreases s.len(),
{
    if s.len() == 0 {
        Seq::empty()
    } else {
        lowered(s.drop_last()) + lower(s.last())
    }
}

/// `s` without its whitespace.
pub open spec fn without_space(s: Seq<char>) -> Seq<char>
    decreases s.len(),
{
    if s.len() == 0 {
        Seq::empty()
    } else if white_space(s.last()) {
        without_space(s.drop_last())
    } else {
        without_space(s.drop_last()).push(s.last())
    }
}

fn lowered_chars(s: &[char], skip_space: bool) -> (v: Vec<char>)
    ensures
        v@ == if skip_space {
            lowered(without_space(s@))
        } else {
            lowered(s@)
        },
{
    let mut v: Vec<char> = Vec::new();
    let mut i: usize = 0;
    while i < s.len()
        invariant
            i <= s@.len(),
            v@ == if skip_space {
                lowered(without_space(s@.take(i as int)))
            } else {
                lowered(s@.take(i as int))
            },
        decreases s@.len() - i,
    {
        let c = s[i];
        let ghost t = s@.take(i + 1);
        proof {
            assert(t.drop_last() =~= s@.take(i as int));
            assert(t.last() == c);
        }
        if !(skip_space && is_whitespace(c)) {
            let l = char_lowercase(c);
            let ghost before = v@;
            let mut k: usize = 0;
            while k < l.len()
                invariant
                    k <= l@.len(),
                    v@ == before + l@.take(k as int),
                decreases l@.len() - k,
            {
                v.push(l[k]);
                proof {
                    assert(l@.take(k + 1) =~= l@.take(k as int).push(l@[k as int]));
                }
                k = k + 1;
            }
            proof {
                assert(l@.take(l@.len() as int) =~= l@);
                if skip_space {
                    assert(without_space(t) == without_space(s@.take(i as int)).push(c));
                    assert(without_space(t).drop_last() =~= without_space(s@.take(i as int)));
                }
            }
        }
        i = i + 1;
    }
    proof {
        assert(s@.take(s@.len() as int) =~= s@);
    }
    v
}

// -------------------------------------------------------------- matching --

/// Bonus for matching the very first character of a name.
pub const START_BONUS: i32 = 10;

/// Bonus for a match at the start of a word.
pub const WORD_BONUS: i32 = 8;

/// Bonus for a match right after the previous one.
pub const CONTIGUOUS_BONUS: i32 = 6;

/// What every matched character scores.
pub const CHAR_BASE: i32 = 1;

/// Characters that end a word for the matcher: whitespace and the
/// punctuation that separates the parts of a name.
pub open spec fn separator(c: char) -> bool {
    white_space(c) || c == '-' || c == '_' || c == '/' || c == ':' || c == ',' || c == '('
        || c == '·' || c == '—' || c == '…'
}

fn is_separator(c: char) -> (r: bool)
    ensures
        r == separator(c),
{
    is_whitespace(c) || c == '-' || c == '_' || c == '/' || c == ':' || c == ',' || c == '('
        || c == '·' || c == '—' || c == '…'
}

/// Adds, saturating at `i32::MAX` (scores only ever grow).
pub open spec fn sat(x: int) -> int {
    if x > i32::MAX {
        i32::MAX as int
    } else {
        x
    }
}

/// The larger of two optional scores (`None` below everything).
pub open spec fn opt_max(a: Option<int>, b: Option<int>) -> Option<int> {
    match (a, b) {
        (Some(x), Some(y)) => Some(if x >= y {
            x
        } else {
            y
        }),
        (Some(x), None) => Some(x),
        (None, y) => y,
    }
}

/// `Some(s + k)` (saturating) for `Some(s)`.
pub open spec fn plus(a: Option<int>, k: int) -> Option<int> {
    match a {
        Some(x) => Some(sat(x + k)),
        None => None,
    }
}

/// The bonus the first needle character earns landing at `p`.
pub open spec fn first_bonus(hay: Seq<char>, p: int) -> int {
    if p == 0 {
        START_BONUS as int
    } else if separator(hay[p - 1]) {
        WORD_BONUS as int
    } else {
        0
    }
}

/// The best score for matching `needle[..=j]` with `needle[j]` landing on
/// `hay[p]`, or `None` if no anchored match does. After the first character,
/// each one must land right after the previous match (contiguous) or at the
/// start of a word with the previous match anywhere before it.
pub open spec fn best_at(hay: Seq<char>, needle: Seq<char>, j: int, p: int) -> Option<int>
    decreases j, p, 1int,
{
    if j < 0 || p < 0 || p >= hay.len() || j >= needle.len() || hay[p] != needle[j] {
        None
    } else if j == 0 {
        Some(CHAR_BASE + first_bonus(hay, p))
    } else {
        let contiguous = if p > 0 {
            plus(best_at(hay, needle, j - 1, p - 1), (CHAR_BASE + CONTIGUOUS_BONUS) as int)
        } else {
            None
        };
        let at_word_start = if p > 0 && separator(hay[p - 1]) {
            plus(best_before(hay, needle, j - 1, p), (CHAR_BASE + WORD_BONUS) as int)
        } else {
            None
        };
        opt_max(contiguous, at_word_start)
    }
}

/// The best of `best_at(.., j, q)` over every `q < p`.
pub open spec fn best_before(hay: Seq<char>, needle: Seq<char>, j: int, p: int) -> Option<int>
    decreases j, p, 0int,
{
    if p <= 0 || j < 0 {
        None
    } else {
        opt_max(best_before(hay, needle, j, p - 1), best_at(hay, needle, j, p - 1))
    }
}

/// The anchored fuzzy score of a lower-cased, whitespace-free needle
/// against a lower-cased haystack: the best placement of the whole needle.
pub open spec fn anchored_score(hay: Seq<char>, needle: Seq<char>) -> Option<int> {
    if needle.len() == 0 {
        Some(0)
    } else if needle.len() > hay.len() {
        None
    } else {
        best_before(hay, needle, needle.len() - 1, hay.len() as int)
    }
}

/// `score(haystack, needle)`: whitespace in the needle is ignored and both
/// sides are compared lower-cased.
pub open spec fn score_spec(haystack: Seq<char>, needle: Seq<char>) -> Option<int> {
    anchored_score(lowered(haystack), lowered(without_space(needle)))
}

fn opt_max_exec(a: Option<i32>, b: Option<i32>) -> (r: Option<i32>)
    ensures
        r == (match opt_max(
            match a {
                Some(x) => Some(x as int),
                None => None,
            },
            match b {
                Some(x) => Some(x as int),
                None => None,
            },
        ) {
            Some(x) => Some(x as i32),
            None => None,
        }),
{
    match (a, b) {
        (Some(x), Some(y)) => Some(if x >= y {
            x
        } else {
            y
        }),
        (Some(x), None) => Some(x),
        (None, y) => y,
    }
}

fn plus_exec(a: Option<i32>, k: i32) -> (r: Option<i32>)
    requires
        k >= 0,
    ensures
        r == (match a {
            Some(x) => Some(sat(x + k) as i32),
            None => None,
        }),
{
    match a {
        Some(x) => Some(if x > i32::MAX - k {
            i32::MAX
        } else {
            x + k
        }),
        None => None,
    }
}

/// Optional `i32` scores as mathematical integers.
pub open spec fn as_int(a: Option<i32>) -> Option<int> {
    match a {
        Some(x) => Some(x as int),
        None => None,
    }
}

fn first_row(hay: &Vec<char>, needle: &Vec<char>) -> (row: Vec<Option<i32>>)
    requires
        needle@.len() > 0,
    ensures
        row@.len() == hay@.len(),
        forall|p: int|
            0 <= p < hay@.len() ==> as_int(#[trigger] row@[p]) == best_at(hay@, needle@, 0, p),
{
    let mut row: Vec<Option<i32>> = Vec::new();
    let mut p: usize = 0;
    while p < hay.len()
        invariant
            p <= hay@.len(),
            needle@.len() > 0,
            row@.len() == p,
            forall|q: int|
                0 <= q < p ==> as_int(#[trigger] row@[q]) == best_at(hay@, needle@, 0, q),
        decreases hay@.len() - p,
    {
        let v = if hay[p] == needle[0] {
            let bonus = if p == 0 {
                START_BONUS
            } else if is_separator(hay[p - 1]) {
                WORD_BONUS
            } else {
                0
            };
            Some(CHAR_BASE + bonus)
        } else {
            None
        };
        row.push(v);
        p = p + 1;
    }
    row
}

fn next_row(hay: &Vec<char>, needle: &Vec<char>, j: usize, row: &Vec<Option<i32>>) -> (next: Vec<
    Option<i32>,
>)
    requires
        1 <= j < needle@.len(),
        row@.len() == hay@.len(),
        forall|p: int|
            0 <= p < hay@.len() ==> as_int(#[trigger] row@[p]) == best_at(hay@, needle@, j - 1, p),
    ensures
        next@.len() == hay@.len(),
        forall|p: int|
            0 <= p < hay@.len() ==> as_int(#[trigger] next@[p]) == best_at(hay@, needle@, j as int, p),
{
    let want = needle[j];
    proof {
        assert forall|q: int| 0 <= q < hay@.len() implies (#[trigger] row@[q] matches Some(x) ==> x
            >= 0) by {
            lemma_best_nonneg(hay@, needle@, j - 1, q);
        }
    }
    let mut next: Vec<Option<i32>> = Vec::new();
    let mut best: Option<i32> = None;
    let mut p: usize = 0;
    while p < hay.len()
        invariant
            1 <= j < needle@.len(),
            want == needle@[j as int],
            p <= hay@.len(),
            row@.len() == hay@.len(),
            forall|q: int|
                0 <= q < hay@.len() ==> as_int(#[trigger] row@[q]) == best_at(hay@, needle@, j - 1, q),
            next@.len() == p,
            forall|q: int|
                0 <= q < p ==> as_int(#[trigger] next@[q]) == best_at(hay@, needle@, j as int, q),
            as_int(best) == best_before(hay@, needle@, j - 1, p as int),
            forall|q: int| 0 <= q < hay@.len() ==> (#[trigger] row@[q] matches Some(x) ==> x >= 0),
            best matches Some(x) ==> x >= 0,
        decreases hay@.len() - p,
    {
        let v = if hay[p] == want {
            let contiguous = if p > 0 {
                plus_exec(row[p - 1], CHAR_BASE + CONTIGUOUS_BONUS)
            } else {
                None
            };
            let at_word_start = if p > 0 && is_separator(hay[p - 1]) {
                plus_exec(best, CHAR_BASE + WORD_BONUS)
            } else {
                None
            };
            opt_max_exec(contiguous, at_word_start)
        } else {
            None
        };
        proof {
            if p > 0 {
                assert(as_int(row@[p - 1]) == best_at(hay@, needle@, j - 1, p - 1));
            }
        }
        next.push(v);
        best = opt_max_exec(best, row[p]);
        p = p + 1;
    }
    next
}

proof fn lemma_best_nonneg(hay: Seq<char>, needle: Seq<char>, j: int, p: int)
    ensures
        best_at(hay, needle, j, p) matches Some(x) ==> 0 <= x <= i32::MAX,
        best_before(hay, needle, j, p) matches Some(x) ==> 0 <= x <= i32::MAX,
    decreases j, p,
{
    if j >= 0 && p > 0 {
        lemma_best_nonneg(hay, needle, j, p - 1);
    }
    if j >= 1 && p > 0 {
        lemma_best_nonneg(hay, needle, j - 1, p - 1);
        lemma_best_nonneg(hay, needle, j - 1, p);
    }
}

/// The fuzzy score of `needle` against `haystack`, or `None` when it does
/// not match. Subsequence matching, but anchored: after the first
/// character every further one must be contiguous with the previous match
/// or land at a word start — `trabin` finds `Trade Binder`, `de` does not
/// find `Undo last move`. Whitespace in the needle is ignored and matching
/// ignores case. An empty needle scores 0 against everything. Scores
/// saturate at `i32::MAX` rather than overflowing.
pub fn score(haystack: &str, needle: &str) -> (r: Option<i32>)
    ensures
        as_int(r) == score_spec(haystack@, needle@),
{
    let nc = chars_of(needle);
    let nv = lowered_chars(nc.as_slice(), true);
    if nv.len() == 0 {
        return Some(0);
    }
    let hc = chars_of(haystack);
    let hv = lowered_chars(hc.as_slice(), false);
    if nv.len() > hv.len() {
        return None;
    }
    let mut row = first_row(&hv, &nv);
    proof {
        assert forall|q: int| 0 <= q < hv@.len() implies (#[trigger] row@[q] matches Some(x) ==> x
            >= 0) by {
            lemma_best_nonneg(hv@, nv@, 0, q);
        }
    }
    let mut j: usize = 1;
    while j < nv.len()
        invariant
            1 <= j <= nv@.len(),
            row@.len() == hv@.len(),
            forall|p: int|
                0 <= p < hv@.len() ==> as_int(#[trigger] row@[p]) == best_at(hv@, nv@, j - 1, p),
            forall|q: int| 0 <= q < hv@.len() ==> (#[trigger] row@[q] matches Some(x) ==> x >= 0),
        decreases nv@.len() - j,
    {
        proof {
            assert forall|q: int| 0 <= q < hv@.len() implies (#[trigger] row@[q] matches Some(x)
                ==> x >= 0) by {
                lemma_best_nonneg(hv@, nv@, j - 1, q);
            }
        }
        row = next_row(&hv, &nv, j, &row);
        proof {
            assert forall|q: int| 0 <= q < hv@.len() implies (#[trigger] row@[q] matches Some(x)
                ==> x >= 0) by {
                lemma_best_nonneg(hv@, nv@, j as int, q);
            }
        }
        j = j + 1;
    }
    let mut best: Option<i32> = None;
    let mut p: usize = 0;
    while p < row.len()
        invariant
            p <= row@.len(),
            row@.len() == hv@.len(),
            forall|q: int|
                0 <= q < hv@.len() ==> as_int(#[trigger] row@[q]) == best_at(
                    hv@,
                    nv@,
                    nv@.len() - 1,
                    q,
                ),
            as_int(best) == best_before(hv@, nv@, nv@.len() - 1, p as int),
        decreases row@.len() - p,
    {
        best = opt_max_exec(best, row[p]);
        p = p + 1;
    }
    best
}

/// Is `n` a subsequence of `h` (its characters appear in `h` in order, not
/// necessarily next to each other)? Matched greedily from the back.
pub open spec fn subsequence(n: Seq<char>, h: Seq<char>) -> bool
    decreases h.len(),
{
    if n.len() == 0 {
        true
    } else if h.len() == 0 {
        false
    } else if n.last() == h.last() {
        subsequence(n.drop_last(), h.drop_last())
    } else {
        subsequence(n, h.drop_last())
    }
}

proof fn lemma_subsequence_drop(n: Seq<char>, h: Seq<char>)
    requires
        n.len() > 0,
        subsequence(n, h),
    ensures
        subsequence(n.drop_last(), h),
    decreases h.len(), 0int,
{
    if h.len() > 0 {
        if n.last() == h.last() {
            lemma_subsequence_extend(n.drop_last(), h.drop_last(), h.last());
        } else {
            lemma_subsequence_drop(n, h.drop_last());
            lemma_subsequence_extend(n.drop_last(), h.drop_last(), h.last());
        }
        assert(h.drop_last().push(h.last()) =~= h);
    }
}

proof fn lemma_subsequence_extend(n: Seq<char>, h: Seq<char>, c: char)
    requires
        subsequence(n, h),
    ensures
        subsequence(n, h.push(c)),
    decreases h.len(), 1int,
{
    assert(h.push(c).drop_last() =~= h);
    if n.len() > 0 && n.last() == c {
        lemma_subsequence_drop(n, h);
    }
}

proof fn lemma_subsequence_widen(n: Seq<char>, h: Seq<char>, q: int, r: int)
    requires
        0 <= q <= r <= h.len(),
        subsequence(n, h.take(q)),
    ensures
        subsequence(n, h.take(r)),
    decreases r - q,
{
    if q < r {
        lemma_subsequence_widen(n, h, q, r - 1);
        lemma_subsequence_extend(n, h.take(r - 1), h[r - 1]);
        assert(h.take(r - 1).push(h[r - 1]) =~= h.take(r));
    }
}

proof fn lemma_best_is_subsequence(hay: Seq<char>, needle: Seq<char>, j: int, p: int)
    ensures
        best_at(hay, needle, j, p) is Some ==> subsequence(needle.take(j + 1), hay.take(p + 1)),
        best_before(hay, needle, j, p) is Some && j < needle.len() && p <= hay.len()
            ==> subsequence(needle.take(j + 1), hay.take(p)),
    decreases j, p,
{
    if best_at(hay, needle, j, p) is Some {
        let n = needle.take(j + 1);
        let h = hay.take(p + 1);
        assert(n.last() == h.last());
        assert(n.drop_last() =~= needle.take(j));
        assert(h.drop_last() =~= hay.take(p));
        if j > 0 {
            lemma_best_is_subsequence(hay, needle, j - 1, p - 1);
            lemma_best_is_subsequence(hay, needle, j - 1, p);
            assert(subsequence(needle.take(j), hay.take(p)));
        } else {
            assert(needle.take(j) =~= Seq::<char>::empty());
        }
        assert(subsequence(n, h) == subsequence(n.drop_last(), h.drop_last()));
    }
    if j >= 0 && p > 0 && best_before(hay, needle, j, p) is Some && j < needle.len() && p
        <= hay.len() {
        lemma_best_is_subsequence(hay, needle, j, p - 1);
        if best_before(hay, needle, j, p - 1) is Some {
            lemma_subsequence_widen(needle.take(j + 1), hay, p - 1, p);
        }
    }
}

/// A match is a subsequence: whenever `score` finds one, the lower-cased
/// needle without its whitespace occurs in order in the lower-cased
/// haystack.
pub proof fn law_a_match_is_a_subsequence(haystack: Seq<char>, needle: Seq<char>)
    ensures
        score_spec(haystack, needle) is Some ==> subsequence(
            lowered(without_space(needle)),
            lowered(haystack),
        ),
{
    let h = lowered(haystack);
    let n = lowered(without_space(needle));
    if n.len() > 0 && n.len() <= h.len() {
        lemma_best_is_subsequence(h, n, n.len() - 1, h.len() as int);
        assert(n.take(n.len() as int) =~= n);
        assert(h.take(h.len() as int) =~= h);
    }
}

proof fn lemma_without_space_idempotent(s: Seq<char>)
    ensures
        without_space(without_space(s)) == without_space(s),
    decreases s.len(),
{
    if s.len() > 0 {
        lemma_without_space_idempotent(s.drop_last());
        let w = without_space(s.drop_last());
        if !white_space(s.last()) {
            assert(w.push(s.last()).drop_last() =~= w);
        }
    }
}

/// Whitespace in the needle is ignored: `tra bin` and `trabin` are the
/// same query.
pub proof fn law_needle_whitespace_is_ignored(haystack: Seq<char>, needle: Seq<char>)
    ensures
        score_spec(haystack, needle) == score_spec(haystack, without_space(needle)),
{
    lemma_without_space_idempotent(needle);
}

proof fn lemma_all_space(s: Seq<char>)
    requires
        forall|i: int| 0 <= i < s.len() ==> white_space(#[trigger] s[i]),
    ensures
        without_space(s).len() == 0,
    decreases s.len(),
{
    if s.len() > 0 {
        assert(white_space(s[s.len() - 1]));
        lemma_all_space(s.drop_last());
    }
}

/// A needle with nothing but whitespace (the empty one among them) scores
/// 0 against every haystack.
pub proof fn law_an_empty_needle_scores_zero(haystack: Seq<char>, needle: Seq<char>)
    requires
        forall|i: int| 0 <= i < needle.len() ==> white_space(#[trigger] needle[i]),
    ensures
        score_spec(haystack, needle) == Some(0int),
{
    lemma_all_space(needle);
    assert(without_space(needle) =~= Seq::<char>::empty());
}

proof fn lemma_same_but_case(a: char, b: char)
    requires
        ascii_lower(a) == ascii_lower(b),
    ensures
        lower(a) == lower(b),
        white_space(a) == white_space(b),
{
    if a != b {
        assert(('A' <= a && a <= 'Z') || ('A' <= b && b <= 'Z'));
        assert((a as u32) < 128 && (b as u32) < 128);
    }
}

proof fn lemma_same_but_case_seq(s1: Seq<char>, s2: Seq<char>)
    requires
        ascii_lowered(s1) == ascii_lowered(s2),
    ensures
        lowered(s1) == lowered(s2),
        ascii_lowered(without_space(s1)) == ascii_lowered(without_space(s2)),
    decreases s1.len(),
{
    assert(s1.len() == ascii_lowered(s1).len());
    assert(s2.len() == ascii_lowered(s2).len());
    if s1.len() > 0 {
        let n = s1.len() - 1;
        assert(ascii_lowered(s1.drop_last()) =~= ascii_lowered(s1).drop_last());
        assert(ascii_lowered(s2.drop_last()) =~= ascii_lowered(s2).drop_last());
        lemma_same_but_case_seq(s1.drop_last(), s2.drop_last());
        assert(ascii_lowered(s1)[n] == ascii_lowered(s2)[n]);
        assert(ascii_lowered(s1)[n] == ascii_lower(s1[n]));
        assert(ascii_lowered(s2)[n] == ascii_lower(s2[n]));
        lemma_same_but_case(s1.last(), s2.last());
        let w1 = without_space(s1.drop_last());
        let w2 = without_space(s2.drop_last());
        assert(ascii_lowered(w1.push(s1.last())) =~= ascii_lowered(w1).push(ascii_lower(s1.last())));
        assert(ascii_lowered(w2.push(s2.last())) =~= ascii_lowered(w2).push(ascii_lower(s2.last())));
        if !white_space(s1.last()) {
            assert(without_space(s1) == w1.push(s1.last()));
            assert(without_space(s2) == w2.push(s2.last()));
        }
    } else {
        assert(s2.len() == 0);
        assert(without_space(s1) =~= Seq::<char>::empty());
        assert(without_space(s2) =~= Seq::<char>::empty());
    }
}

/// Matching ignores ASCII case on both sides: two haystacks and two
/// needles that differ only in the case of ASCII letters score alike
/// (`shoe` finds `SHOEBOX` exactly as `SHOE` finds `shoebox`).
pub proof fn law_score_ignores_ascii_case(
    h1: Seq<char>,
    n1: Seq<char>,
    h2: Seq<char>,
    n2: Seq<char>,
)
    requires
        ascii_lowered(h1) == ascii_lowered(h2),
        ascii_lowered(n1) == ascii_lowered(n2),
    ensures
        score_spec(h1, n1) == score_spec(h2, n2),
{
    lemma_same_but_case_seq(h1, h2);
    lemma_same_but_case_seq(n1, n2);
    lemma_same_but_case_seq(without_space(n1), without_space(n2));
}

// ------------------------------------------------------- the trigger chord --

/// Is this keystroke the palette's chord? `⌘K` on mac, `Ctrl+K` elsewhere,
/// with the other modifier absent. `/` is never the palette.
pub fn is_palette_chord(key: &str, meta: bool, ctrl: bool, mac: bool) -> (chord: bool)
    ensures
        chord == ((key@ == seq!['k'] || key@ == seq!['K']) && if mac {
            meta && !ctrl
        } else {
            ctrl && !meta
        }),
{
    let cs = chars_of(key);
    if !(cs.len() == 1 && (cs[0] == 'k' || cs[0] == 'K')) {
        proof {
            if key@ == seq!['k'] || key@ == seq!['K'] {
                assert(cs@.len() == 1);
                assert(cs@[0] == key@[0]);
            }
        }
        return false;
    }
    proof {
        assert(key@ =~= seq![cs@[0]]);
    }
    if mac {
        meta && !ctrl
    } else {
        ctrl && !meta
    }
}

// ---------------------------------------------------------------- places --

/// A place the palette can jump to. The key is what the recent ring
/// persists: a collection id or a system slug, never a list index.
#[derive(Clone, Copy, Debug, PartialEq, Eq)]
pub enum PlaceKey {
    AllCards,
    Shopping,
    Catalog,
    MyCards,
    Collection(Id),
}

/// The persisted token of a place key. Slugs cannot collide with an id.
pub open spec fn key_token(k: PlaceKey) -> Seq<char> {
    match k {
        PlaceKey::AllCards => "all"@,
        PlaceKey::Shopping => "shopping"@,
        PlaceKey::Catalog => "catalog"@,
        PlaceKey::MyCards => "my"@,
        PlaceKey::Collection(id) => hyphenated(id),
    }
}

/// The place key a token names, if any.
pub open spec fn key_of_token(t: Seq<char>) -> Option<PlaceKey> {
    if t == "all"@ {
        Some(PlaceKey::AllCards)
    } else if t == "shopping"@ {
        Some(PlaceKey::Shopping)
    } else if t == "catalog"@ {
        Some(PlaceKey::Catalog)
    } else if t == "my"@ {
        Some(PlaceKey::MyCards)
    } else {
        match parse_uuid(t) {
            Some(id) => Some(PlaceKey::Collection(id)),
            None => None,
        }
    }
}

impl PlaceKey {
    /// The persisted token.
    pub fn token(self) -> (t: String)
        ensures
            t@ == key_token(self),
    {
        match self {
            PlaceKey::AllCards => String::from_str("all"),
            PlaceKey::Shopping => String::from_str("shopping"),
            PlaceKey::Catalog => String::from_str("catalog"),
            PlaceKey::MyCards => String::from_str("my"),
            PlaceKey::Collection(id) => uuid_text(id),
        }
    }

    /// Reads a persisted token back.
    pub fn parse(token: &str) -> (k: Option<PlaceKey>)
        ensures
            k == key_of_token(token@),
    {
        if same_text(token, "all") {
            Some(PlaceKey::AllCards)
        } else if same_text(token, "shopping") {
            Some(PlaceKey::Shopping)
        } else if same_text(token, "catalog") {
            Some(PlaceKey::Catalog)
        } else if same_text(token, "my") {
            Some(PlaceKey::MyCards)
        } else {
            match uuid_parse(token) {
                Some(id) => Some(PlaceKey::Collection(id)),
                None => None,
            }
        }
    }
}

fn key_eq(a: PlaceKey, b: PlaceKey) -> (r: bool)
    ensures
        r == (a == b),
{
    match (a, b) {
        (PlaceKey::AllCards, PlaceKey::AllCards) => true,
        (PlaceKey::Shopping, PlaceKey::Shopping) => true,
        (PlaceKey::Catalog, PlaceKey::Catalog) => true,
        (PlaceKey::MyCards, PlaceKey::MyCards) => true,
        (PlaceKey::Collection(x), PlaceKey::Collection(y)) => x == y,
        _ => false,
    }
}

/// One place row: its name, the parent path shown beside it, and where
/// `⏎` goes.
#[derive(Clone, Debug, PartialEq, Eq)]
pub struct Place {
    pub key: PlaceKey,
    pub name: String,
    /// Ancestor path, ` / `-joined. Empty for a root or a system place.
    pub meta: String,
    pub href: String,
    pub icon: &'static str,
    /// Offered as a cold-start row when there is no history yet.
    pub default_row: bool,
}

/// A place row as plain values.
pub struct PlaceView {
    pub key: PlaceKey,
    pub name: Seq<char>,
    pub meta: Seq<char>,
    pub href: Seq<char>,
    pub icon: Seq<char>,
    pub default_row: bool,
}

impl View for Place {
    type V = PlaceView;

    open spec fn view(&self) -> PlaceView {
        PlaceView {
            key: self.key,
            name: self.name@,
            meta: self.meta@,
            href: self.href@,
            icon: self.icon@,
            default_row: self.default_row,
        }
    }
}

impl Place {
    /// A copy of this row.
    pub fn duplicate(&self) -> (p: Place)
        ensures
            p@ == self@,
    {
        Place {
            key: self.key,
            name: self.name.clone(),
            meta: self.meta.clone(),
            href: self.href.clone(),
            icon: self.icon,
            default_row: self.default_row,
        }
    }
}

/// The views of a list of places.
pub open spec fn place_views(v: Seq<Place>) -> Seq<PlaceView> {
    v.map_values(|p: Place| p@)
}

// --------------------------------------------------------- the recent ring --

/// `ring` without `key`, in order.
pub open spec fn without_key(ring: Seq<PlaceKey>, key: PlaceKey) -> Seq<PlaceKey>
    decreases ring.len(),
{
    if ring.len() == 0 {
        ring
    } else if ring.last() == key {
        without_key(ring.drop_last(), key)
    } else {
        without_key(ring.drop_last(), key).push(ring.last())
    }
}

/// Pushes `key` onto the front of the ring, deduplicated, capped at `cap`
/// (at least one).
pub open spec fn push_recent_spec(ring: Seq<PlaceKey>, key: PlaceKey, cap: nat) -> Seq<
    PlaceKey,
> {
    let full = seq![key] + without_key(ring, key);
    let c = if cap < 1 {
        1
    } else {
        cap
    };
    if full.len() <= c {
        full
    } else {
        full.take(c as int)
    }
}

proof fn lemma_without_key_push(s: Seq<PlaceKey>, x: PlaceKey, key: PlaceKey)
    ensures
        without_key(s.push(x), key) == if x == key {
            without_key(s, key)
        } else {
            without_key(s, key).push(x)
        },
{
    assert(s.push(x).drop_last() =~= s);
}

proof fn lemma_without_key(ring: Seq<PlaceKey>, key: PlaceKey)
    ensures
        forall|x: PlaceKey|
            #[trigger] without_key(ring, key).contains(x) <==> (ring.contains(x) && x != key),
        ring.no_duplicates() ==> without_key(ring, key).no_duplicates(),
        without_key(ring, key).len() <= ring.len(),
    decreases ring.len(),
{
    if ring.len() == 0 {
        assert forall|x: PlaceKey| !ring.contains(x) by {}
    } else {
        let front = ring.drop_last();
        let l = ring.last();
        lemma_without_key(front, key);
        let w = without_key(front, key);
        assert(front.push(l) =~= ring);
        assert forall|x: PlaceKey| ring.contains(x) <==> (front.contains(x) || x == l) by {
            if ring.contains(x) {
                let i = choose|i: int| 0 <= i < ring.len() && ring[i] == x;
                if i < ring.len() - 1 {
                    assert(front[i] == x);
                }
            }
            if front.contains(x) {
                let i = choose|i: int| 0 <= i < front.len() && front[i] == x;
                assert(ring[i] == x);
            }
            if x == l {
                assert(ring[ring.len() - 1] == x);
            }
        }
        if l != key {
            assert(without_key(ring, key) == w.push(l));
        } else {
            assert(without_key(ring, key) == w);
        }
        assert forall|x: PlaceKey|
            #[trigger] without_key(ring, key).contains(x) <==> (ring.contains(x) && x != key) by {
            assert(w.contains(x) <==> (front.contains(x) && x != key));
            assert(ring.contains(x) <==> (front.contains(x) || x == l));
            if l != key {
                assert(w.push(l).contains(x) <==> (w.contains(x) || x == l)) by {
                    if w.push(l).contains(x) {
                        let i = choose|i: int| 0 <= i < w.push(l).len() && w.push(l)[i] == x;
                        if i < w.len() {
                            assert(w[i] == x);
                        }
                    }
                    if w.contains(x) {
                        let i = choose|i: int| 0 <= i < w.len() && w[i] == x;
                        assert(w.push(l)[i] == x);
                    }
                    if x == l {
                        assert(w.push(l)[w.len() as int] == x);
                    }
                }
            }
        }
        if l != key {
            if ring.no_duplicates() {
                assert(front.no_duplicates()) by {
                    assert forall|i: int, j: int|
                        0 <= i < front.len() && 0 <= j < front.len() && i != j implies front[i]
                        != front[j] by {
                        assert(ring[i] != ring[j]);
                    }
                }
                assert(!front.contains(l)) by {
                    if front.contains(l) {
                        let i = choose|i: int| 0 <= i < front.len() && front[i] == l;
                        assert(ring[i] == ring[ring.len() - 1]);
                    }
                }
                assert(!w.contains(l));
                assert forall|i: int, j: int|
                    0 <= i < w.push(l).len() && 0 <= j < w.push(l).len() && i != j implies w.push(
                    l,
                )[i] != w.push(l)[j] by {
                    if i < w.len() && j < w.len() {
                    } else if i < w.len() {
                        assert(w.contains(w[i]));
                    } else if j < w.len() {
                        assert(w.contains(w[j]));
                    }
                }
            }
        } else {
            if ring.no_duplicates() {
                assert(front.no_duplicates()) by {
                    assert forall|i: int, j: int|
                        0 <= i < front.len() && 0 <= j < front.len() && i != j implies front[i]
                        != front[j] by {
                        assert(ring[i] != ring[j]);
                    }
                }
            }
        }
    }
}

/// The recent ring is most recent first, deduplicated and capped: the key
/// just visited leads, occurs nowhere else, every other entry was already
/// in the ring (in its old order), a ring without repeats stays without
/// them, and the ring never outgrows its cap (at least one).
pub proof fn law_the_ring_is_most_recent_first_deduplicated_and_capped(
    ring: Seq<PlaceKey>,
    key: PlaceKey,
    cap: nat,
)
    ensures
        ({
            let next = push_recent_spec(ring, key, cap);
            &&& next.len() >= 1
            &&& next[0] == key
            &&& next.len() <= if cap < 1 { 1 } else { cap }
            &&& forall|j: int| 1 <= j < next.len() ==> #[trigger] next[j] != key
            &&& forall|x: PlaceKey| #[trigger] next.contains(x) ==> x == key || ring.contains(x)
            &&& next.drop_first() =~= without_key(ring, key).take(next.len() - 1)
            &&& ring.no_duplicates() ==> next.no_duplicates()
        }),
{
    lemma_without_key(ring, key);
    let w = without_key(ring, key);
    let full = seq![key] + w;
    let next = push_recent_spec(ring, key, cap);
    let c: nat = if cap < 1 { 1 } else { cap };
    assert(next =~= full.take(if full.len() <= c { full.len() as int } else { c as int }));
    assert forall|j: int| 1 <= j < next.len() implies #[trigger] next[j] != key by {
        assert(next[j] == w[j - 1]);
        assert(w.contains(w[j - 1]));
    }
    assert forall|x: PlaceKey| #[trigger] next.contains(x) implies x == key || ring.contains(x) by {
        let i = choose|i: int| 0 <= i < next.len() && next[i] == x;
        if i > 0 {
            assert(w[i - 1] == x);
            assert(w.contains(x));
        }
    }
    if ring.no_duplicates() {
        assert forall|i: int, j: int|
            0 <= i < next.len() && 0 <= j < next.len() && i != j implies next[i] != next[j] by {
            if i > 0 && j > 0 {
                assert(next[i] == w[i - 1] && next[j] == w[j - 1]);
            } else if i > 0 {
                assert(w.contains(w[i - 1]));
            } else {
                assert(w.contains(w[j - 1]));
            }
        }
    }
}

/// Pushes `key` onto the front of the ring, deduplicated, capped.
pub fn push_recent(ring: &[PlaceKey], key: PlaceKey, cap: usize) -> (next: Vec<PlaceKey>)
    ensures
        next@ == push_recent_spec(ring@, key, cap as nat),
{
    let mut next: Vec<PlaceKey> = Vec::new();
    next.push(key);
    let mut i: usize = 0;
    while i < ring.len()
        invariant
            i <= ring@.len(),
            next@ == seq![key] + without_key(ring@.take(i as int), key),
        decreases ring@.len() - i,
    {
        let k = ring[i];
        proof {
            assert(ring@.take(i + 1) =~= ring@.take(i as int).push(k));
            lemma_without_key_push(ring@.take(i as int), k, key);
        }
        if !key_eq(k, key) {
            next.push(k);
            proof {
                assert(next@ =~= seq![key] + without_key(ring@.take(i + 1), key));
            }
        }
        i = i + 1;
    }
    proof {
        assert(ring@.take(ring@.len() as int) =~= ring@);
    }
    let c = if cap < 1 {
        1
    } else {
        cap
    };
    if next.len() > c {
        next.truncate(c);
    }
    next
}

/// The ring as the comma-joined token list that storage keeps.
pub open spec fn serialized(ring: Seq<PlaceKey>) -> Seq<char> {
    joined(ring.map_values(|k: PlaceKey| key_token(k)), seq![','])
}

/// Writes the ring for storage: its tokens, comma-joined.
pub fn serialize_recents(ring: &[PlaceKey]) -> (s: String)
    ensures
        s@ == serialized(ring@),
{
    let mut out = String::new();
    let ghost toks = ring@.map_values(|k: PlaceKey| key_token(k));
    let mut i: usize = 0;
    while i < ring.len()
        invariant
            i <= ring@.len(),
            toks == ring@.map_values(|k: PlaceKey| key_token(k)),
            out@ == joined(toks.take(i as int), seq![',']),
        decreases ring@.len() - i,
    {
        let t = ring[i].token();
        let ghost before = out@;
        if i > 0 {
            push_char(&mut out, ',');
        }
        push_str(&mut out, t.as_str());
        proof {
            let tk = toks.take(i + 1);
            assert(tk.drop_last() =~= toks.take(i as int));
            assert(tk.last() == t@);
            if i == 0 {
                assert(out@ =~= tk[0]);
            } else {
                assert(out@ =~= before + seq![','] + t@);
            }
        }
        i = i + 1;
    }
    proof {
        assert(toks.take(ring@.len() as int) =~= toks);
    }
    out
}

/// The ring that storage held: the comma-separated tokens, trimmed, with
/// empty and unreadable tokens dropped.
pub open spec fn parsed_ring(pieces: Seq<Seq<char>>) -> Seq<PlaceKey>
    decreases pieces.len(),
{
    if pieces.len() == 0 {
        Seq::empty()
    } else {
        let before = parsed_ring(pieces.drop_last());
        let t = trimmed(pieces.last());
        if t.len() == 0 {
            before
        } else {
            match key_of_token(t) {
                Some(k) => before.push(k),
                None => before,
            }
        }
    }
}

/// Reads the stored ring back. A corrupt ring degrades rather than failing:
/// unreadable tokens drop out and the rest survive.
pub fn parse_recents(raw: &str) -> (ring: Vec<PlaceKey>)
    ensures
        ring@ == parsed_ring(split_on(raw@, ',')),
{
    let cs = chars_of(raw);
    let pieces = split_chars(cs.as_slice(), ',');
    let ghost ps = pieces@.map_values(|v: Vec<char>| v@);
    let mut out: Vec<PlaceKey> = Vec::new();
    let mut i: usize = 0;
    while i < pieces.len()
        invariant
            i <= pieces@.len(),
            ps == pieces@.map_values(|v: Vec<char>| v@),
            out@ == parsed_ring(ps.take(i as int)),
        decreases pieces@.len() - i,
    {
        let t = trim_chars(pieces[i].as_slice());
        proof {
            assert(ps.take(i + 1).drop_last() =~= ps.take(i as int));
            assert(ps.take(i + 1).last() == pieces@[i as int]@);
        }
        if t.len() > 0 {
            let ts = string_of(t.as_slice());
            match PlaceKey::parse(ts.as_str()) {
                Some(k) => out.push(k),
                None => {},
            }
        }
        i = i + 1;
    }
    proof {
        assert(ps.take(pieces@.len() as int) =~= ps);
    }
    out
}

/// Every stored token is non-empty, free of commas and surrounding
/// whitespace, and reads back as the key that wrote it.
proof fn lemma_token_reads_back(k: PlaceKey)
    ensures
        key_token(k).len() > 0,
        trimmed(key_token(k)) == key_token(k),
        key_of_token(key_token(k)) == Some(k),
        forall|j: int| 0 <= j < key_token(k).len() ==> #[trigger] key_token(k)[j] != ',',
{
    reveal_strlit("all");
    reveal_strlit("shopping");
    reveal_strlit("catalog");
    reveal_strlit("my");
    let t = key_token(k);
    match k {
        PlaceKey::Collection(id) => {
            crate::ids::lemma_hyphenated_shape(id);
            crate::ids::law_an_id_reads_back_as_itself(id);
            assert(t.len() == 36);
            assert(t != "all"@ && t != "shopping"@ && t != "catalog"@ && t != "my"@);
            assert(t[0] == '-' || crate::ids::is_hex(t[0]));
            assert(t[35] == '-' || crate::ids::is_hex(t[35]));
            assert(t.last() == t[35]);
            lemma_trimmed_unchanged(t);
            assert forall|j: int| 0 <= j < t.len() implies #[trigger] t[j] != ',' by {
                assert(t[j] == '-' || crate::ids::is_hex(t[j]));
            }
        },
        _ => {
            assert(t.len() > 0);
            assert(!white_space(t[0]));
            assert(!white_space(t.last()));
            lemma_trimmed_unchanged(t);
        },
    }
}

proof fn lemma_tokens_read_back(ring: Seq<PlaceKey>)
    ensures
        parsed_ring(ring.map_values(|k: PlaceKey| key_token(k))) == ring,
    decreases ring.len(),
{
    if ring.len() > 0 {
        let toks = ring.map_values(|k: PlaceKey| key_token(k));
        lemma_tokens_read_back(ring.drop_last());
        assert(toks.drop_last() =~= ring.drop_last().map_values(|k: PlaceKey| key_token(k)));
        lemma_token_reads_back(ring.last());
        assert(toks.last() == key_token(ring.last()));
        assert(ring.drop_last().push(ring.last()) =~= ring);
    } else {
        assert(ring =~= Seq::<PlaceKey>::empty());
    }
}

/// What [`serialize_recents`] writes, [`parse_recents`] reads back as the
/// same ring, in the same order.
pub proof fn law_the_ring_round_trips_through_storage(ring: Seq<PlaceKey>)
    ensures
        parsed_ring(split_on(serialized(ring), ',')) == ring,
{
    let toks = ring.map_values(|k: PlaceKey| key_token(k));
    if ring.len() == 0 {
        assert(toks.len() == 0);
        assert(serialized(ring) =~= Seq::<char>::empty());
        let pieces = split_on(serialized(ring), ',');
        assert(pieces =~= seq![Seq::<char>::empty()]);
        assert(pieces.drop_last() =~= Seq::<Seq<char>>::empty());
        assert(ring =~= Seq::<PlaceKey>::empty());
        assert(trimmed(pieces.last()).len() == 0);
        assert(parsed_ring(pieces.drop_last()) == Seq::<PlaceKey>::empty());
    } else {
        assert forall|i: int, j: int|
            0 <= i < toks.len() && 0 <= j < toks[i].len() implies #[trigger] toks[i][j]
            != ',' by {
            lemma_token_reads_back(ring[i]);
            assert(toks[i] == key_token(ring[i]));
        }
        lemma_split_joined(toks, ',');
        lemma_tokens_read_back(ring);
        assert(serialized(ring) == joined(toks, seq![',']));
        assert(split_on(serialized(ring), ',') == toks);
    }
}

/// `s` with every trailing `/` removed.
pub open spec fn trim_trailing_slashes(s: Seq<char>) -> Seq<char>
    decreases s.len(),
{
    if s.len() > 0 && s.last() == '/' {
        trim_trailing_slashes(s.drop_last())
    } else {
        s
    }
}

/// Which place a pathname is, for the recent ring: `/my`, `/my/shopping`,
/// or a collection (its subpages count as the collection). Nothing else is
/// a place — the mode jumps are shortcuts, not somewhere you were.
pub open spec fn key_for_path(path: Seq<char>) -> Option<PlaceKey> {
    let t = trim_trailing_slashes(path);
    if t == "/my"@ {
        Some(PlaceKey::AllCards)
    } else if t == "/my/shopping"@ {
        Some(PlaceKey::Shopping)
    } else if starts_with(t, "/my/collections/"@) {
        match parse_uuid(split_on(t.skip("/my/collections/"@.len() as int), '/')[0]) {
            Some(id) => Some(PlaceKey::Collection(id)),
            None => None,
        }
    } else {
        None
    }
}

/// Which place a pathname is, if any.
pub fn place_key_for_path(path: &str) -> (k: Option<PlaceKey>)
    ensures
        k == key_for_path(path@),
{
    let cs = chars_of(path);
    let mut end = cs.len();
    proof {
        assert(cs@.take(end as int) =~= cs@);
    }
    while end > 0 && cs[end - 1] == '/'
        invariant
            end <= cs@.len(),
            cs@ == path@,
            trim_trailing_slashes(path@) == trim_trailing_slashes(cs@.take(end as int)),
        decreases end,
    {
        proof {
            assert(cs@.take(end as int).drop_last() =~= cs@.take(end - 1));
        }
        end = end - 1;
    }
    let t = slice_range(cs.as_slice(), 0, end);
    proof {
        assert(t@ =~= cs@.take(end as int));
        assert(trim_trailing_slashes(t@) == t@);
    }
    let my = chars_of("/my");
    let shopping = chars_of("/my/shopping");
    let prefix = chars_of("/my/collections/");
    if chars_equal(t.as_slice(), my.as_slice()) {
        Some(PlaceKey::AllCards)
    } else if chars_equal(t.as_slice(), shopping.as_slice()) {
        Some(PlaceKey::Shopping)
    } else if has_prefix(t.as_slice(), prefix.as_slice()) {
        let rest = slice_range(t.as_slice(), prefix.len(), t.len());
        let pieces = split_chars(rest.as_slice(), '/');
        proof {
            assert(rest@ =~= t@.skip(prefix@.len() as int));
            lemma_split_nonempty(rest@, '/');
            assert(pieces@.map_values(|v: Vec<char>| v@)[0] == pieces@[0]@);
        }
        let seg = string_of(pieces[0].as_slice());
        match uuid_parse(seg.as_str()) {
            Some(id) => Some(PlaceKey::Collection(id)),
            None => None,
        }
    } else {
        None
    }
}

/// The first row of `index` with key `k`.
pub open spec fn find_place(index: Seq<PlaceView>, k: PlaceKey) -> Option<PlaceView>
    decreases index.len(),
{
    if index.len() == 0 {
        None
    } else if index[0].key == k {
        Some(index[0])
    } else {
        find_place(index.drop_first(), k)
    }
}

/// The ring resolved against the index, most recent first: the current
/// place and any key the index no longer has are dropped.
pub open spec fn recent_rows(index: Seq<PlaceView>, ring: Seq<PlaceKey>, current: Option<
    PlaceKey,
>) -> Seq<PlaceView>
    decreases ring.len(),
{
    if ring.len() == 0 {
        Seq::empty()
    } else {
        let before = recent_rows(index, ring.drop_last(), current);
        let k = ring.last();
        if Some(k) == current {
            before
        } else {
            match find_place(index, k) {
                Some(p) => before.push(p),
                None => before,
            }
        }
    }
}

proof fn lemma_find_place(index: Seq<PlaceView>, k: PlaceKey)
    ensures
        find_place(index, k) matches Some(p) ==> p.key == k && index.contains(p),
    decreases index.len(),
{
    if index.len() > 0 && index[0].key != k {
        lemma_find_place(index.drop_first(), k);
        if let Some(p) = find_place(index.drop_first(), k) {
            let i = choose|i: int| 0 <= i < index.drop_first().len() && index.drop_first()[i] == p;
            assert(index[i + 1] == p);
        }
    } else if index.len() > 0 {
        assert(index[0] == index[0]);
    }
}

/// The place you are on never shows as recent, and every recent row is a
/// live place of the index whose key the ring holds.
pub proof fn law_the_current_place_is_never_recent(
    index: Seq<PlaceView>,
    ring: Seq<PlaceKey>,
    current: Option<PlaceKey>,
)
    ensures
        forall|j: int|
            0 <= j < recent_rows(index, ring, current).len() ==> {
                let row = #[trigger] recent_rows(index, ring, current)[j];
                &&& Some(row.key) != current
                &&& index.contains(row)
                &&& ring.contains(row.key)
            },
    decreases ring.len(),
{
    if ring.len() > 0 {
        let front = ring.drop_last();
        let k = ring.last();
        law_the_current_place_is_never_recent(index, front, current);
        lemma_find_place(index, k);
        let before = recent_rows(index, front, current);
        assert forall|j: int| 0 <= j < recent_rows(index, ring, current).len() implies {
            let row = #[trigger] recent_rows(index, ring, current)[j];
            &&& Some(row.key) != current
            &&& index.contains(row)
            &&& ring.contains(row.key)
        } by {
            let row = recent_rows(index, ring, current)[j];
            if j < before.len() {
                assert(row == before[j]);
                let i = choose|i: int| 0 <= i < front.len() && front[i] == row.key;
                assert(ring[i] == row.key);
            } else {
                assert(row.key == k);
                assert(ring[ring.len() - 1] == k);
            }
        }
    }
}

/// The rows offered on a cold start.
pub open spec fn default_rows(index: Seq<PlaceView>) -> Seq<PlaceView>
    decreases index.len(),
{
    if index.len() == 0 {
        Seq::empty()
    } else if index.last().default_row {
        default_rows(index.drop_last()).push(index.last())
    } else {
        default_rows(index.drop_last())
    }
}

/// The at-rest group: `Recent` normally; `Places` on a cold start, because
/// calling a place never visited "recent" would be a lie.
#[derive(Clone, Debug, PartialEq, Eq)]
pub struct AtRest {
    pub label: &'static str,
    pub places: Vec<Place>,
}

fn find_in(index: &[Place], k: PlaceKey) -> (r: Option<usize>)
    ensures
        match r {
            Some(i) => i < index@.len() && find_place(place_views(index@), k) == Some(
                index@[i as int]@,
            ),
            None => find_place(place_views(index@), k) is None,
        },
{
    let mut i: usize = 0;
    proof {
        assert(place_views(index@).skip(0) =~= place_views(index@));
    }
    while i < index.len()
        invariant
            i <= index@.len(),
            find_place(place_views(index@), k) == find_place(place_views(index@).skip(i as int), k),
        decreases index@.len() - i,
    {
        proof {
            let rest = place_views(index@).skip(i as int);
            assert(rest.drop_first() =~= place_views(index@).skip(i + 1));
            assert(rest[0] == index@[i as int]@);
        }
        if key_eq(index[i].key, k) {
            return Some(i);
        }
        i = i + 1;
    }
    proof {
        assert(place_views(index@).skip(i as int).len() == 0);
    }
    None
}

/// Resolves the recent ring against the live index, most recent first, at
/// most `cap` rows: a deleted collection is dropped (a row every `⏎` would
/// 404 on), the place you are on is dropped (so `⌘K ⏎` bounces back), and an
/// empty result falls back to the cold-start places.
pub fn at_rest(index: &[Place], ring: &[PlaceKey], current: Option<PlaceKey>, cap: usize) -> (rest:
    AtRest)
    ensures
        ({
            let recent = recent_rows(place_views(index@), ring@, current);
            let shown = if recent.len() <= cap {
                recent
            } else {
                recent.take(cap as int)
            };
            if shown.len() == 0 {
                rest.label@ == "Places"@ && place_views(rest.places@) == default_rows(
                    place_views(index@),
                )
            } else {
                rest.label@ == "Recent"@ && place_views(rest.places@) == shown
            }
        }),
{
    let ghost views = place_views(index@);
    let mut places: Vec<Place> = Vec::new();
    let mut i: usize = 0;
    while i < ring.len()
        invariant
            i <= ring@.len(),
            views == place_views(index@),
            place_views(places@) == recent_rows(views, ring@.take(i as int), current),
        decreases ring@.len() - i,
    {
        let k = ring[i];
        proof {
            assert(ring@.take(i + 1).drop_last() =~= ring@.take(i as int));
            assert(ring@.take(i + 1).last() == k);
        }
        let skip = match current {
            Some(c) => key_eq(k, c),
            None => false,
        };
        if !skip {
            match find_in(index, k) {
                Some(at) => {
                    let p = index[at].duplicate();
                    places.push(p);
                    proof {
                        assert(place_views(places@) =~= recent_rows(
                            views,
                            ring@.take(i as int),
                            current,
                        ).push(index@[at as int]@));
                    }
                },
                None => {},
            }
        }
        i = i + 1;
    }
    proof {
        assert(ring@.take(ring@.len() as int) =~= ring@);
    }
    if places.len() > cap {
        places.truncate(cap);
        proof {
            assert(place_views(places@) =~= recent_rows(views, ring@, current).take(cap as int));
        }
    }
    if places.len() == 0 {
        let mut defaults: Vec<Place> = Vec::new();
        let mut j: usize = 0;
        while j < index.len()
            invariant
                j <= index@.len(),
                views == place_views(index@),
                place_views(defaults@) == default_rows(views.take(j as int)),
            decreases index@.len() - j,
        {
            proof {
                assert(views.take(j + 1).drop_last() =~= views.take(j as int));
                assert(views.take(j + 1).last() == index@[j as int]@);
            }
            if index[j].default_row {
                let p = index[j].duplicate();
                defaults.push(p);
                proof {
                    assert(place_views(defaults@) =~= default_rows(views.take(j as int)).push(
                        index@[j as int]@,
                    ));
                }
            }
            j = j + 1;
        }
        proof {
            assert(views.take(index@.len() as int) =~= views);
        }
        AtRest { label: "Places", places: defaults }
    } else {
        AtRest { label: "Recent", places }
    }
}

// --------------------------------------------------------------- ranking --

/// Does the row with key `a` rank above the row with key `b`? A key is
/// (score, name length, registry position): higher score first, then the
/// shorter name, then registry order.
pub open spec fn ranks_before(a: (int, int, int), b: (int, int, int)) -> bool {
    a.0 > b.0 || (a.0 == b.0 && (a.1 < b.1 || (a.1 == b.1 && a.2 < b.2)))
}

/// The ranking key of row `i`.
pub open spec fn rank_key(scores: Seq<Option<int>>, lens: Seq<int>, i: int) -> (int, int, int) {
    (scores[i]->Some_0, lens[i], i)
}

/// `order` lists exactly the rows that matched (`Some` score), best first.
pub open spec fn ranked_order(scores: Seq<Option<int>>, lens: Seq<int>, order: Seq<int>) -> bool {
    &&& forall|k: int|
        0 <= k < order.len() ==> 0 <= #[trigger] order[k] < scores.len() && scores[order[k]] is Some
    &&& forall|i: int|
        0 <= i < scores.len() && #[trigger] scores[i] is Some ==> order.contains(i)
    &&& forall|a: int, b: int|
        0 <= a < b < order.len() ==> ranks_before(
            rank_key(scores, lens, #[trigger] order[a]),
            rank_key(scores, lens, #[trigger] order[b]),
        )
}

/// The rows `0..n` that matched, as `ranked_order` but over a prefix.
spec fn ranked_prefix(scores: Seq<Option<int>>, lens: Seq<int>, order: Seq<int>, n: int) -> bool {
    &&& forall|k: int|
        0 <= k < order.len() ==> 0 <= #[trigger] order[k] < n && scores[order[k]] is Some
    &&& forall|i: int| 0 <= i < n && #[trigger] scores[i] is Some ==> order.contains(i)
    &&& forall|a: int, b: int|
        0 <= a < b < order.len() ==> ranks_before(
            rank_key(scores, lens, #[trigger] order[a]),
            rank_key(scores, lens, #[trigger] order[b]),
        )
}

fn key_before(sa: i32, la: usize, ia: usize, sb: i32, lb: usize, ib: usize) -> (r: bool)
    ensures
        r == ranks_before((sa as int, la as int, ia as int), (sb as int, lb as int, ib as int)),
{
    sa > sb || (sa == sb && (la < lb || (la == lb && ia < ib)))
}

/// The ids of the matching rows (those with a score), best first.
fn rank(scores: &Vec<Option<i32>>, lens: &Vec<usize>) -> (order: Vec<usize>)
    requires
        scores@.len() == lens@.len(),
    ensures
        ranked_order(
            scores@.map_values(|x: Option<i32>| as_int(x)),
            lens@.map_values(|x: usize| x as int),
            order@.map_values(|x: usize| x as int),
        ),
{
    let ghost sc = scores@.map_values(|x: Option<i32>| as_int(x));
    let ghost ln = lens@.map_values(|x: usize| x as int);
    let mut order: Vec<usize> = Vec::new();
    let mut i: usize = 0;
    while i < scores.len()
        invariant
            i <= scores@.len(),
            scores@.len() == lens@.len(),
            sc == scores@.map_values(|x: Option<i32>| as_int(x)),
            ln == lens@.map_values(|x: usize| x as int),
            ranked_prefix(sc, ln, order@.map_values(|x: usize| x as int), i as int),
        decreases scores@.len() - i,
    {
        let ghost ord = order@.map_values(|x: usize| x as int);
        match scores[i] {
            Some(si) => {
                let li = lens[i];
                let mut k: usize = 0;
                proof {
                    assert forall|j: int| 0 <= j < order@.len() implies (#[trigger] order@[j])
                        < scores@.len() && scores@[order@[j] as int] is Some by {
                        assert(ord[j] == order@[j] as int);
                    }
                }
                while k < order.len() && !key_before(
                    si,
                    li,
                    i,
                    scores[order[k]].unwrap(),
                    lens[order[k]],
                    order[k],
                )
                    invariant
                        k <= order@.len(),
                        i < scores@.len(),
                        scores@.len() == lens@.len(),
                        scores@[i as int] == Some(si),
                        lens@[i as int] == li,
                        sc == scores@.map_values(|x: Option<i32>| as_int(x)),
                        ln == lens@.map_values(|x: usize| x as int),
                        ord == order@.map_values(|x: usize| x as int),
                        forall|j: int|
                            0 <= j < order@.len() ==> (#[trigger] order@[j]) < scores@.len()
                                && scores@[order@[j] as int] is Some,
                        ranked_prefix(sc, ln, ord, i as int),
                        forall|j: int|
                            0 <= j < k ==> ranks_before(
                                rank_key(sc, ln, #[trigger] ord[j]),
                                rank_key(sc, ln, i as int),
                            ),
                    decreases order@.len() - k,
                {
                    proof {
                        assert(ord[k as int] == order@[k as int] as int);
                        assert(0 <= ord[k as int] < i);
                        let o = ord[k as int];
                        assert(sc[o] is Some);
                        assert(rank_key(sc, ln, o) == (
                            scores@[o]->Some_0 as int,
                            lens@[o] as int,
                            o,
                        ));
                    }
                    k = k + 1;
                }
                proof {
                    if k < order@.len() {
                        let o = ord[k as int];
                        assert(0 <= o < i);
                        assert(sc[o] is Some);
                        assert(rank_key(sc, ln, o) == (
                            scores@[o]->Some_0 as int,
                            lens@[o] as int,
                            o,
                        ));
                        assert(ranks_before(rank_key(sc, ln, i as int), rank_key(sc, ln, o)));
                    }
                }
                order.insert(k, i);
                proof {
                    let nord = order@.map_values(|x: usize| x as int);
                    assert(nord =~= ord.insert(k as int, i as int));
                    assert(sc[i as int] == Some(si as int));
                    assert forall|a: int, b: int| 0 <= a < b < nord.len() implies ranks_before(
                        rank_key(sc, ln, #[trigger] nord[a]),
                        rank_key(sc, ln, #[trigger] nord[b]),
                    ) by {
                        if b < k {
                            assert(nord[a] == ord[a] && nord[b] == ord[b]);
                        } else if b == k {
                            assert(nord[a] == ord[a]);
                        } else if a == k {
                            assert(nord[b] == ord[b - 1]);
                            if b - 1 > k {
                                assert(ranks_before(
                                    rank_key(sc, ln, ord[k as int]),
                                    rank_key(sc, ln, ord[b - 1]),
                                ));
                            }
                        } else if a < k {
                            assert(nord[a] == ord[a] && nord[b] == ord[b - 1]);
                        } else {
                            assert(nord[a] == ord[a - 1] && nord[b] == ord[b - 1]);
                        }
                    }
                    assert forall|q: int|
                        0 <= q < i + 1 && #[trigger] sc[q] is Some implies nord.contains(q) by {
                        if q == i {
                            assert(nord[k as int] == i);
                        } else {
                            assert(ord.contains(q));
                            let w = choose|w: int| 0 <= w < ord.len() && ord[w] == q;
                            if w < k {
                                assert(nord[w] == q);
                            } else {
                                assert(nord[w + 1] == q);
                            }
                        }
                    }
                }
            },
            None => {
                proof {
                    assert forall|q: int|
                        0 <= q < i + 1 && #[trigger] sc[q] is Some implies ord.contains(q) by {
                        assert(q != i);
                    }
                }
            },
        }
        i = i + 1;
    }
    order
}

// -------------------------------------------------------------- commands --

/// The fixed command registry. Three entries, deliberately: `Sign out` was
/// considered and dropped.
#[derive(Clone, Copy, Debug, PartialEq, Eq)]
pub enum PaletteCommand {
    NewBinder,
    NewDeck,
    UndoLastMove,
}

/// A command's row label.
pub open spec fn command_label(c: PaletteCommand) -> Seq<char> {
    match c {
        PaletteCommand::NewBinder => "New binder…"@,
        PaletteCommand::NewDeck => "New deck…"@,
        PaletteCommand::UndoLastMove => "Undo last move"@,
    }
}

/// A command's stable slug.
pub open spec fn command_slug(c: PaletteCommand) -> Seq<char> {
    match c {
        PaletteCommand::NewBinder => "new-binder"@,
        PaletteCommand::NewDeck => "new-deck"@,
        PaletteCommand::UndoLastMove => "undo-last-move"@,
    }
}

/// The registry, in its fixed order.
pub open spec fn registry() -> Seq<PaletteCommand> {
    seq![PaletteCommand::NewBinder, PaletteCommand::NewDeck, PaletteCommand::UndoLastMove]
}

impl PaletteCommand {
    /// The whole registry, in order.
    pub const ALL: [PaletteCommand; 3] = [
        PaletteCommand::NewBinder,
        PaletteCommand::NewDeck,
        PaletteCommand::UndoLastMove,
    ];

    /// The row label.
    pub fn label(self) -> (l: &'static str)
        ensures
            l@ == command_label(self),
    {
        match self {
            PaletteCommand::NewBinder => "New binder…",
            PaletteCommand::NewDeck => "New deck…",
            PaletteCommand::UndoLastMove => "Undo last move",
        }
    }

    /// The slug.
    pub fn slug(self) -> (s: &'static str)
        ensures
            s@ == command_slug(self),
    {
        match self {
            PaletteCommand::NewBinder => "new-binder",
            PaletteCommand::NewDeck => "new-deck",
            PaletteCommand::UndoLastMove => "undo-last-move",
        }
    }
}

/// A query's matches, grouped the way the palette draws them.
#[derive(Clone, Debug, PartialEq, Eq)]
pub struct Ranked {
    pub places: Vec<Place>,
    pub commands: Vec<PaletteCommand>,
    /// Whether COMMANDS is drawn above the places group.
    pub commands_first: bool,
}

/// The places' scores against `q`.
pub open spec fn place_scores(index: Seq<PlaceView>, q: Seq<char>) -> Seq<Option<int>> {
    index.map_values(|p: PlaceView| score_spec(p.name, q))
}

/// The places' name lengths, in characters.
pub open spec fn place_lens(index: Seq<PlaceView>) -> Seq<int> {
    index.map_values(|p: PlaceView| p.name.len() as int)
}

/// The commands' scores against `q`.
pub open spec fn command_scores(q: Seq<char>) -> Seq<Option<int>> {
    registry().map_values(|c: PaletteCommand| score_spec(command_label(c), q))
}

/// Ranks the index and the command registry against a query. Places order
/// by score, then the shorter name, then index order; commands by score,
/// then registry order — so the pre-selected first row is deterministic.
/// COMMANDS leads only when its best match strictly outscores the best
/// place; a tie keeps places first.
pub fn ranked(index: &[Place], query: &str) -> (r: Ranked)
    ensures
        exists|order: Seq<int>|
            ranked_order(place_scores(place_views(index@), query@), place_lens(place_views(index@)), order)
                && place_views(r.places@) == order.map_values(|i: int| place_views(index@)[i]),
        exists|order: Seq<int>|
            ranked_order(command_scores(query@), seq![0int, 0int, 0int], order)
                && r.commands@ == order.map_values(|i: int| registry()[i]),
        r.commands_first == (r.places@.len() > 0 && r.commands@.len() > 0 && score_spec(
            command_label(r.commands@[0]),
            query@,
        )->Some_0 > score_spec(r.places@[0].name@, query@)->Some_0),
{
    let ghost views = place_views(index@);
    let mut scores: Vec<Option<i32>> = Vec::new();
    let mut lens: Vec<usize> = Vec::new();
    let mut i: usize = 0;
    while i < index.len()
        invariant
            i <= index@.len(),
            views == place_views(index@),
            scores@.len() == i,
            lens@.len() == i,
            forall|k: int|
                0 <= k < i ==> as_int(#[trigger] scores@[k]) == score_spec(views[k].name, query@),
            forall|k: int| 0 <= k < i ==> (#[trigger] lens@[k]) as int == views[k].name.len(),
        decreases index@.len() - i,
    {
        scores.push(score(index[i].name.as_str(), query));
        lens.push(index[i].name.as_str().unicode_len());
        i = i + 1;
    }
    proof {
        assert(scores@.map_values(|x: Option<i32>| as_int(x)) =~= place_scores(views, query@));
        assert(lens@.map_values(|x: usize| x as int) =~= place_lens(views));
    }
    let order = rank(&scores, &lens);
    let ghost pord = order@.map_values(|x: usize| x as int);
    let mut places: Vec<Place> = Vec::new();
    let mut k: usize = 0;
    while k < order.len()
        invariant
            k <= order@.len(),
            views == place_views(index@),
            pord == order@.map_values(|x: usize| x as int),
            forall|j: int| 0 <= j < pord.len() ==> 0 <= #[trigger] pord[j] < index@.len(),
            place_views(places@) == pord.take(k as int).map_values(|i: int| views[i]),
        decreases order@.len() - k,
    {
        proof {
            assert(pord[k as int] == order@[k as int] as int);
        }
        let p = index[order[k]].duplicate();
        let ghost before = places@;
        places.push(p);
        proof {
            assert(views[pord[k as int]] == index@[order@[k as int] as int]@);
            assert(place_views(places@) =~= place_views(before).push(p@));
            assert(pord.take(k + 1).map_values(|i: int| views[i]) =~= pord.take(k as int).map_values(
                |i: int| views[i],
            ).push(views[pord[k as int]]));
        }
        k = k + 1;
    }
    proof {
        assert(pord.take(order@.len() as int) =~= pord);
    }
    let all = [PaletteCommand::NewBinder, PaletteCommand::NewDeck, PaletteCommand::UndoLastMove];
    let mut cscores: Vec<Option<i32>> = Vec::new();
    let mut clens: Vec<usize> = Vec::new();
    let mut c: usize = 0;
    while c < 3
        invariant
            c <= 3,
            all@ == registry(),
            cscores@.len() == c,
            clens@.len() == c,
            forall|k: int|
                0 <= k < c ==> as_int(#[trigger] cscores@[k]) == score_spec(
                    command_label(registry()[k]),
                    query@,
                ),
            forall|k: int| 0 <= k < c ==> (#[trigger] clens@[k]) == 0,
        decreases 3 - c,
    {
        cscores.push(score(all[c].label(), query));
        clens.push(0);
        c = c + 1;
    }
    proof {
        assert(cscores@.map_values(|x: Option<i32>| as_int(x)) =~= command_scores(query@));
        assert(clens@.map_values(|x: usize| x as int) =~= seq![0int, 0int, 0int]);
    }
    let corder = rank(&cscores, &clens);
    let ghost cord = corder@.map_values(|x: usize| x as int);
    let mut commands: Vec<PaletteCommand> = Vec::new();
    let mut m: usize = 0;
    while m < corder.len()
        invariant
            m <= corder@.len(),
            all@ == registry(),
            cord == corder@.map_values(|x: usize| x as int),
            forall|j: int| 0 <= j < cord.len() ==> 0 <= #[trigger] cord[j] < 3,
            commands@ == cord.take(m as int).map_values(|i: int| registry()[i]),
        decreases corder@.len() - m,
    {
        proof {
            assert(cord[m as int] == corder@[m as int] as int);
        }
        commands.push(all[corder[m]]);
        proof {
            assert(commands@ =~= cord.take(m + 1).map_values(|i: int| registry()[i]));
        }
        m = m + 1;
    }
    proof {
        assert(cord.take(corder@.len() as int) =~= cord);
    }
    let commands_first = if order.len() > 0 && corder.len() > 0 {
        proof {
            assert(pord[0] == order@[0] as int);
            assert(cord[0] == corder@[0] as int);
            assert(0 <= pord[0] < scores@.len());
            assert(place_scores(views, query@)[pord[0]] is Some);
            assert(scores@.map_values(|x: Option<i32>| as_int(x))[pord[0]] == as_int(
                scores@[pord[0]],
            ));
            assert(command_scores(query@)[cord[0]] is Some);
            assert(cscores@.map_values(|x: Option<i32>| as_int(x))[cord[0]] == as_int(
                cscores@[cord[0]],
            ));
            assert(place_views(places@)[0] == places@[0]@);
            assert(pord.take(order@.len() as int).map_values(|i: int| views[i])[0] == views[pord[0]]);
            assert(commands@[0] == registry()[cord[0]]);
        }
        let ps = scores[order[0]].unwrap();
        let cs = cscores[corder[0]].unwrap();
        cs > ps
    } else {
        false
    };
    Ranked { places, commands, commands_first }
}

// ------------------------------------------------------------- the index --

/// The row a collection takes in the index.
pub open spec fn collection_row(node: TreeNode, ancestors: Seq<Seq<char>>) -> PlaceView {
    PlaceView {
        key: PlaceKey::Collection(node.summary.id),
        name: node.summary.name@,
        meta: joined(ancestors, " / "@),
        href: "/my/collections/"@ + hyphenated(node.summary.id),
        icon: if node.summary.is_inbox {
            "📥"@
        } else if node.summary.kind == CollectionKind::Deck {
            "🎴"@
        } else {
            "🗂"@
        },
        default_row: node.summary.is_inbox,
    }
}

/// A subtree flattened depth-first, each row carrying its ancestors' names.
pub open spec fn subtree_rows(node: TreeNode, ancestors: Seq<Seq<char>>) -> Seq<PlaceView>
    decreases node, 1int,
{
    seq![collection_row(node, ancestors)] + forest_rows(
        node.children@,
        ancestors.push(node.summary.name@),
    )
}

/// A list of subtrees flattened in order.
pub open spec fn forest_rows(nodes: Seq<TreeNode>, ancestors: Seq<Seq<char>>) -> Seq<PlaceView>
    decreases nodes, 0int,
{
    if nodes.len() == 0 {
        Seq::empty()
    } else {
        forest_rows(nodes.drop_last(), ancestors) + subtree_rows(nodes.last(), ancestors)
    }
}

/// The fixed rows around the tree.
pub open spec fn system_row(
    key: PlaceKey,
    name: Seq<char>,
    meta: Seq<char>,
    href: Seq<char>,
    icon: Seq<char>,
    default_row: bool,
) -> PlaceView {
    PlaceView { key, name, meta, href, icon, default_row }
}

/// The whole place index, in sidebar order: All cards, the tree, the
/// Shopping list, then the two mode jumps. The Inbox is a tree row and is
/// not added a second time.
pub open spec fn place_index_spec(roots: Option<Seq<TreeNode>>) -> Seq<PlaceView> {
    seq![system_row(PlaceKey::AllCards, "All cards"@, Seq::empty(), "/my"@, "🗂"@, true)] + (
    match roots {
        Some(r) => forest_rows(r, Seq::empty()),
        None => Seq::empty(),
    }) + seq![
        system_row(PlaceKey::Shopping, "Shopping list"@, Seq::empty(), "/my/shopping"@, "🛒"@, true),
        system_row(PlaceKey::Catalog, "Go to Catalog"@, "Mode"@, "/catalog"@, "📖"@, false),
        system_row(PlaceKey::MyCards, "Go to My cards"@, "Mode"@, "/my"@, "🗂"@, false),
    ]
}

fn join_names(ancestors: &Vec<String>) -> (s: String)
    ensures
        s@ == joined(ancestors@.map_values(|a: String| a@), " / "@),
{
    let ghost names = ancestors@.map_values(|a: String| a@);
    let mut out = String::new();
    let mut i: usize = 0;
    while i < ancestors.len()
        invariant
            i <= ancestors@.len(),
            names == ancestors@.map_values(|a: String| a@),
            out@ == joined(names.take(i as int), " / "@),
        decreases ancestors@.len() - i,
    {
        let ghost before = out@;
        if i > 0 {
            push_str(&mut out, " / ");
        }
        push_str(&mut out, ancestors[i].as_str());
        proof {
            let t = names.take(i + 1);
            assert(t.drop_last() =~= names.take(i as int));
            assert(t.last() == ancestors@[i as int]@);
            if i == 0 {
                assert(out@ =~= t[0]);
            }
        }
        i = i + 1;
    }
    proof {
        assert(names.take(ancestors@.len() as int) =~= names);
    }
    out
}

fn push_subtree(node: &TreeNode, ancestors: &mut Vec<String>, out: &mut Vec<Place>)
    ensures
        place_views(final(out)@) == place_views(old(out)@) + subtree_rows(
            *node,
            old(ancestors)@.map_values(|a: String| a@),
        ),
        final(ancestors)@.map_values(|a: String| a@) == old(ancestors)@.map_values(|a: String| a@),
    decreases node, 1int,
{
    let ghost anc = ancestors@.map_values(|a: String| a@);
    let id = node.summary.id;
    let mut href = String::from_str("/my/collections/");
    let idt = uuid_text(id);
    push_str(&mut href, idt.as_str());
    let icon: &'static str = if node.summary.is_inbox {
        "📥"
    } else {
        match node.summary.kind {
            CollectionKind::Deck => "🎴",
            CollectionKind::Binder => "🗂",
        }
    };
    let row = Place {
        key: PlaceKey::Collection(id),
        name: node.summary.name.clone(),
        meta: join_names(ancestors),
        href,
        icon,
        default_row: node.summary.is_inbox,
    };
    let ghost before = out@;
    out.push(row);
    proof {
        assert(place_views(out@) =~= place_views(before).push(collection_row(*node, anc)));
    }
    ancestors.push(node.summary.name.clone());
    let ghost deeper = ancestors@.map_values(|a: String| a@);
    proof {
        assert(deeper =~= anc.push(node.summary.name@));
    }
    let ghost mid = out@;
    push_forest(&node.children, ancestors, out);
    proof {
        assert(place_views(out@) =~= place_views(before) + (seq![collection_row(*node, anc)]
            + forest_rows(node.children@, deeper)));
    }
    let ghost pre = ancestors@;
    ancestors.pop();
    proof {
        assert(pre.map_values(|a: String| a@) == deeper);
        assert(ancestors@ == pre.drop_last());
        assert(ancestors@.map_values(|a: String| a@) =~= pre.map_values(|a: String| a@).drop_last());
        assert(ancestors@.map_values(|a: String| a@) =~= anc);
    }
}

fn push_forest(nodes: &Vec<TreeNode>, ancestors: &mut Vec<String>, out: &mut Vec<Place>)
    ensures
        place_views(final(out)@) == place_views(old(out)@) + forest_rows(
            nodes@,
            old(ancestors)@.map_values(|a: String| a@),
        ),
        final(ancestors)@.map_values(|a: String| a@) == old(ancestors)@.map_values(|a: String| a@),
    decreases nodes, 0int,
{
    let ghost anc = ancestors@.map_values(|a: String| a@);
    let ghost start = out@;
    let mut i: usize = 0;
    while i < nodes.len()
        invariant
            i <= nodes@.len(),
            ancestors@.map_values(|a: String| a@) == anc,
            place_views(out@) == place_views(start) + forest_rows(nodes@.take(i as int), anc),
        decreases nodes@.len() - i,
    {
        proof {
            assert(nodes@.take(i + 1).drop_last() =~= nodes@.take(i as int));
            assert(nodes@.take(i + 1).last() == nodes@[i as int]);
        }
        push_subtree(&nodes[i], ancestors, out);
        i = i + 1;
    }
    proof {
        assert(nodes@.take(nodes@.len() as int) =~= nodes@);
    }
}

fn system_place(
    key: PlaceKey,
    name: &str,
    meta: &str,
    href: &str,
    icon: &'static str,
    default_row: bool,
) -> (p: Place)
    ensures
        p@ == system_row(key, name@, meta@, href@, icon@, default_row),
{
    Place {
        key,
        name: String::from_str(name),
        meta: String::from_str(meta),
        href: String::from_str(href),
        icon,
        default_row,
    }
}

/// The whole place index, in the order the sidebar reads top to bottom: All
/// cards, the tree (depth first, each row with its parent path), Shopping
/// list, then the two mode jumps. The Inbox is a tree row, so it is not
/// added again as a system place.
pub fn place_index(tree: Option<&AssembledTree>) -> (index: Vec<Place>)
    ensures
        place_views(index@) == place_index_spec(
            match tree {
                Some(t) => Some(t.roots@),
                None => None,
            },
        ),
{
    let mut out: Vec<Place> = Vec::new();
    out.push(system_place(PlaceKey::AllCards, "All cards", "", "/my", "🗂", true));
    let ghost first = place_views(out@);
    proof {
        reveal_strlit("");
        assert(""@ =~= Seq::<char>::empty());
    }
    match tree {
        Some(t) => {
            let mut ancestors: Vec<String> = Vec::new();
            proof {
                assert(ancestors@.map_values(|a: String| a@) =~= Seq::<Seq<char>>::empty());
            }
            push_forest(&t.roots, &mut ancestors, &mut out);
        },
        None => {},
    }
    let ghost mid = place_views(out@);
    let a = system_place(PlaceKey::Shopping, "Shopping list", "", "/my/shopping", "🛒", true);
    let b = system_place(PlaceKey::Catalog, "Go to Catalog", "Mode", "/catalog", "📖", false);
    let c = system_place(PlaceKey::MyCards, "Go to My cards", "Mode", "/my", "🗂", false);
    let ghost (av, bv, cv) = (a@, b@, c@);
    let ghost o0 = out@;
    out.push(a);
    out.push(b);
    out.push(c);
    proof {
        reveal_strlit("");
        assert(""@ =~= Seq::<char>::empty());
        assert(place_views(out@) =~= place_views(o0).push(av).push(bv).push(cv));
        let roots = match tree {
            Some(t) => Some(t.roots@),
            None => None,
        };
        assert(mid == first + match roots {
            Some(r) => forest_rows(r, Seq::empty()),
            None => Seq::empty(),
        });
        assert(place_views(out@) =~= place_index_spec(roots));
    }
    out
}

/// The rows on screen: one places group and the commands group.
#[derive(Clone, Debug, PartialEq, Eq)]
pub struct RowSet {
    pub places_label: &'static str,
    pub places: Vec<Place>,
    pub commands: Vec<PaletteCommand>,
    /// COMMANDS above the places group.
    pub commands_first: bool,
}

/// The identity of a rendered list: its label, its group order, every
/// place's key and name, every command's slug — each entry behind a unit
/// separator.
pub open spec fn row_set_key(
    label: Seq<char>,
    commands_first: bool,
    places: Seq<PlaceView>,
    commands: Seq<PaletteCommand>,
) -> Seq<char> {
    label.push(if commands_first {
        '^'
    } else {
        'v'
    }) + place_entries(places) + command_entries(commands)
}

/// The places' part of a row-set key.
pub open spec fn place_entries(places: Seq<PlaceView>) -> Seq<char>
    decreases places.len(),
{
    if places.len() == 0 {
        Seq::empty()
    } else {
        place_entries(places.drop_last()).push('\u{1f}') + key_token(places.last().key).push(
            '\u{1f}',
        ) + places.last().name
    }
}

/// The commands' part of a row-set key.
pub open spec fn command_entries(commands: Seq<PaletteCommand>) -> Seq<char>
    decreases commands.len(),
{
    if commands.len() == 0 {
        Seq::empty()
    } else {
        command_entries(commands.drop_last()).push('\u{1f}') + command_slug(commands.last())
    }
}

impl RowSet {
    /// An identity that changes whenever the rendered list changes — its
    /// contents, their names, or their order — so a list keyed on it is
    /// remounted rather than patched in place.
    pub fn key(&self) -> (k: String)
        ensures
            k@ == row_set_key(
                self.places_label@,
                self.commands_first,
                place_views(self.places@),
                self.commands@,
            ),
    {
        let mut key = String::from_str(self.places_label);
        push_char(&mut key, if self.commands_first {
            '^'
        } else {
            'v'
        });
        let ghost head = key@;
        let ghost views = place_views(self.places@);
        let mut i: usize = 0;
        while i < self.places.len()
            invariant
                i <= self.places@.len(),
                views == place_views(self.places@),
                key@ == head + place_entries(views.take(i as int)),
            decreases self.places@.len() - i,
        {
            let ghost before = key@;
            push_char(&mut key, '\u{1f}');
            let t = self.places[i].key.token();
            push_str(&mut key, t.as_str());
            push_char(&mut key, '\u{1f}');
            push_str(&mut key, self.places[i].name.as_str());
            proof {
                let tk = views.take(i + 1);
                assert(tk.drop_last() =~= views.take(i as int));
                assert(tk.last() == self.places@[i as int]@);
                assert(key@ =~= head + place_entries(tk));
            }
            i = i + 1;
        }
        proof {
            assert(views.take(self.places@.len() as int) =~= views);
        }
        let ghost mid = key@;
        let mut c: usize = 0;
        while c < self.commands.len()
            invariant
                c <= self.commands@.len(),
                key@ == mid + command_entries(self.commands@.take(c as int)),
            decreases self.commands@.len() - c,
        {
            push_char(&mut key, '\u{1f}');
            push_str(&mut key, self.commands[c].slug());
            proof {
                let tk = self.commands@.take(c + 1);
                assert(tk.drop_last() =~= self.commands@.take(c as int));
                assert(tk.last() == self.commands@[c as int]);
                assert(key@ =~= mid + command_entries(tk));
            }
            c = c + 1;
        }
        proof {
            assert(self.commands@.take(self.commands@.len() as int) =~= self.commands@);
        }
        key
    }
}


/// No unit separator (`\u{1f}`) occurs in `s`.
pub open spec fn free_of_unit_sep(s: Seq<char>) -> bool {
    forall|j: int| 0 <= j < s.len() ==> s[j] != '\u{1f}'
}

/// What a row-set key reads of each place: its key and its name.
pub open spec fn key_names(places: Seq<PlaceView>) -> Seq<(PlaceKey, Seq<char>)> {
    places.map_values(|v: PlaceView| (v.key, v.name))
}

/// The fields the places contribute to a key: token, then name, per place.
spec fn place_fields(p: Seq<PlaceView>) -> Seq<Seq<char>>
    decreases p.len(),
{
    if p.len() == 0 {
        Seq::empty()
    } else {
        place_fields(p.drop_last()) + seq![key_token(p.last().key), p.last().name]
    }
}

/// The fields the commands contribute: one slug each.
spec fn command_fields(c: Seq<PaletteCommand>) -> Seq<Seq<char>> {
    c.map_values(|x: PaletteCommand| command_slug(x))
}

/// Each field behind a unit separator.
spec fn prefixed(f: Seq<Seq<char>>) -> Seq<char>
    decreases f.len(),
{
    if f.len() == 0 {
        Seq::empty()
    } else {
        prefixed(f.drop_last()).push('\u{1f}') + f.last()
    }
}

proof fn lemma_prefixed_concat(a: Seq<Seq<char>>, b: Seq<Seq<char>>)
    ensures
        prefixed(a + b) == prefixed(a) + prefixed(b),
    decreases b.len(),
{
    if b.len() == 0 {
        assert(a + b =~= a);
    } else {
        lemma_prefixed_concat(a, b.drop_last());
        assert((a + b).drop_last() =~= a + b.drop_last());
        assert((a + b).last() == b.last());
    }
}

proof fn lemma_place_entries_fields(p: Seq<PlaceView>)
    ensures
        place_entries(p) == prefixed(place_fields(p)),
        place_fields(p).len() == 2 * p.len(),
    decreases p.len(),
{
    if p.len() > 0 {
        lemma_place_entries_fields(p.drop_last());
        let f = place_fields(p.drop_last());
        let t = key_token(p.last().key);
        let n = p.last().name;
        lemma_prefixed_concat(f, seq![t, n]);
        let e = seq![t].drop_last();
        assert(e =~= Seq::<Seq<char>>::empty());
        assert(prefixed(e) == Seq::<char>::empty());
        assert(prefixed(seq![t]) =~= seq!['\u{1f}'] + t);
        assert(seq![t, n].drop_last() =~= seq![t]);
        assert(prefixed(seq![t, n]) =~= (seq!['\u{1f}'] + t).push('\u{1f}') + n);
        assert(place_entries(p) =~= prefixed(f) + prefixed(seq![t, n]));
    }
}

proof fn lemma_command_entries_fields(c: Seq<PaletteCommand>)
    ensures
        command_entries(c) == prefixed(command_fields(c)),
    decreases c.len(),
{
    if c.len() > 0 {
        lemma_command_entries_fields(c.drop_last());
        assert(command_fields(c).drop_last() =~= command_fields(c.drop_last()));
    }
}

proof fn lemma_head_joined(h: Seq<char>, r: Seq<Seq<char>>)
    ensures
        h + prefixed(r) == joined(seq![h] + r, seq!['\u{1f}']),
    decreases r.len(),
{
    if r.len() == 0 {
        assert(seq![h] + r =~= seq![h]);
        assert(h + prefixed(r) =~= h);
    } else {
        lemma_head_joined(h, r.drop_last());
        assert((seq![h] + r).drop_last() =~= seq![h] + r.drop_last());
        assert((seq![h] + r).last() == r.last());
        assert(h + prefixed(r) =~= h + prefixed(r.drop_last()) + seq!['\u{1f}'] + r.last());
    }
}

proof fn lemma_token_free_of_unit_sep(k: PlaceKey)
    ensures
        free_of_unit_sep(key_token(k)),
{
    reveal_strlit("all");
    reveal_strlit("shopping");
    reveal_strlit("catalog");
    reveal_strlit("my");
    if let PlaceKey::Collection(id) = k {
        crate::ids::lemma_hyphenated_shape(id);
        let t = key_token(k);
        assert forall|j: int| 0 <= j < t.len() implies t[j] != '\u{1f}' by {
            assert(t[j] == '-' || crate::ids::is_hex(t[j]));
        }
    }
}

proof fn lemma_slugs(c: PaletteCommand, d: PaletteCommand, k: PlaceKey)
    ensures
        free_of_unit_sep(command_slug(c)),
        command_slug(c) == command_slug(d) ==> c == d,
        command_slug(c) != key_token(k),
{
    reveal_strlit("new-binder");
    reveal_strlit("new-deck");
    reveal_strlit("undo-last-move");
    reveal_strlit("all");
    reveal_strlit("shopping");
    reveal_strlit("catalog");
    reveal_strlit("my");
    if let PlaceKey::Collection(id) = k {
        crate::ids::lemma_hyphenated_shape(id);
    }
    if command_slug(c) == command_slug(d) && c != d {
        assert(command_slug(c).len() != command_slug(d).len() || command_slug(c)[0]
            != command_slug(d)[0] || command_slug(c)[4] != command_slug(d)[4]);
    }
    if command_slug(c) == key_token(k) {
        assert(command_slug(c).len() != key_token(k).len() || command_slug(c)[0] != key_token(
            k,
        )[0]);
    }
}

proof fn lemma_place_fields_front(p: Seq<PlaceView>)
    requires
        p.len() > 0,
    ensures
        place_fields(p) == seq![key_token(p[0].key), p[0].name] + place_fields(p.drop_first()),
    decreases p.len(),
{
    if p.len() == 1 {
        assert(p.drop_last() =~= Seq::<PlaceView>::empty());
        assert(p.drop_first() =~= Seq::<PlaceView>::empty());
        assert(place_fields(p.drop_last()) == Seq::<Seq<char>>::empty());
        assert(p.last() == p[0]);
        assert(place_fields(p) =~= seq![key_token(p[0].key), p[0].name]);
        assert(place_fields(p.drop_first()) =~= Seq::<Seq<char>>::empty());
    } else {
        lemma_place_fields_front(p.drop_last());
        assert(p.drop_last().drop_first() =~= p.drop_first().drop_last());
        assert(p.drop_first().last() == p.last());
        assert(place_fields(p) =~= seq![key_token(p[0].key), p[0].name] + place_fields(
            p.drop_first(),
        ));
    }
}

proof fn lemma_fields_parse_back(
    p1: Seq<PlaceView>,
    c1: Seq<PaletteCommand>,
    p2: Seq<PlaceView>,
    c2: Seq<PaletteCommand>,
)
    requires
        place_fields(p1) + command_fields(c1) == place_fields(p2) + command_fields(c2),
    ensures
        key_names(p1) == key_names(p2),
        c1 == c2,
    decreases p1.len() + p2.len(),
{
    let r1 = place_fields(p1) + command_fields(c1);
    let r2 = place_fields(p2) + command_fields(c2);
    lemma_place_entries_fields(p1);
    lemma_place_entries_fields(p2);
    if p1.len() > 0 && p2.len() > 0 {
        lemma_place_fields_front(p1);
        lemma_place_fields_front(p2);
        let (k1, k2) = (p1[0].key, p2[0].key);
        assert(r1[0] == key_token(k1) && r2[0] == key_token(k2));
        assert(r1[1] == p1[0].name && r2[1] == p2[0].name);
        lemma_token_reads_back(k1);
        lemma_token_reads_back(k2);
        assert(r1.skip(2) =~= place_fields(p1.drop_first()) + command_fields(c1));
        assert(r2.skip(2) =~= place_fields(p2.drop_first()) + command_fields(c2));
        lemma_fields_parse_back(p1.drop_first(), c1, p2.drop_first(), c2);
        assert(key_names(p1) =~= seq![(k1, p1[0].name)] + key_names(p1.drop_first()));
        assert(key_names(p2) =~= seq![(k2, p2[0].name)] + key_names(p2.drop_first()));
    } else if p1.len() > 0 {
        lemma_place_fields_front(p1);
        assert(r1[0] == key_token(p1[0].key));
        assert(r2 =~= command_fields(c2));
        assert(r2.len() > 0);
        lemma_slugs(c2[0], c2[0], p1[0].key);
        assert(r2[0] == command_slug(c2[0]));
    } else if p2.len() > 0 {
        lemma_place_fields_front(p2);
        assert(r2[0] == key_token(p2[0].key));
        assert(r1 =~= command_fields(c1));
        assert(r1.len() > 0);
        lemma_slugs(c1[0], c1[0], p2[0].key);
        assert(r1[0] == command_slug(c1[0]));
    } else {
        assert(r1 =~= command_fields(c1));
        assert(r2 =~= command_fields(c2));
        assert(c1.len() == c2.len());
        assert forall|i: int| 0 <= i < c1.len() implies c1[i] == c2[i] by {
            assert(r1[i] == command_slug(c1[i]) && r2[i] == command_slug(c2[i]));
            lemma_slugs(c1[i], c2[i], PlaceKey::AllCards);
        }
        assert(c1 =~= c2);
        assert(key_names(p1) =~= key_names(p2));
    }
}

proof fn lemma_place_fields_key_names(p1: Seq<PlaceView>, p2: Seq<PlaceView>)
    requires
        key_names(p1) == key_names(p2),
    ensures
        place_fields(p1) == place_fields(p2),
    decreases p1.len(),
{
    assert(p1.len() == key_names(p1).len() && p2.len() == key_names(p2).len());
    if p1.len() > 0 {
        let n = p1.len() - 1;
        assert(key_names(p1)[n] == key_names(p2)[n]);
        assert(key_names(p1.drop_last()) =~= key_names(p1).drop_last());
        assert(key_names(p2.drop_last()) =~= key_names(p2).drop_last());
        lemma_place_fields_key_names(p1.drop_last(), p2.drop_last());
    }
}

/// The key of a rendered list names it: two lists whose labels and place
/// names hold no unit separator have the same key exactly when they agree
/// on the label, the group order, every place's key and name in order, and
/// the commands in order. A reorder, a group swap, a rename, a label
/// change or a command change all change the key; an identical list keeps
/// it.
pub proof fn law_the_row_set_key_names_the_list(
    l1: Seq<char>,
    f1: bool,
    p1: Seq<PlaceView>,
    c1: Seq<PaletteCommand>,
    l2: Seq<char>,
    f2: bool,
    p2: Seq<PlaceView>,
    c2: Seq<PaletteCommand>,
)
    requires
        free_of_unit_sep(l1),
        free_of_unit_sep(l2),
        forall|i: int| 0 <= i < p1.len() ==> free_of_unit_sep(#[trigger] p1[i].name),
        forall|i: int| 0 <= i < p2.len() ==> free_of_unit_sep(#[trigger] p2[i].name),
    ensures
        row_set_key(l1, f1, p1, c1) == row_set_key(l2, f2, p2, c2) <==> (l1 == l2 && f1 == f2
            && key_names(p1) == key_names(p2) && c1 == c2),
{
    lemma_place_entries_fields(p1);
    lemma_place_entries_fields(p2);
    lemma_command_entries_fields(c1);
    lemma_command_entries_fields(c2);
    let h1 = l1.push(if f1 { '^' } else { 'v' });
    let h2 = l2.push(if f2 { '^' } else { 'v' });
    let r1 = place_fields(p1) + command_fields(c1);
    let r2 = place_fields(p2) + command_fields(c2);
    lemma_prefixed_concat(place_fields(p1), command_fields(c1));
    lemma_prefixed_concat(place_fields(p2), command_fields(c2));
    lemma_head_joined(h1, r1);
    lemma_head_joined(h2, r2);
    assert(row_set_key(l1, f1, p1, c1) =~= h1 + prefixed(r1));
    assert(row_set_key(l2, f2, p2, c2) =~= h2 + prefixed(r2));
    if row_set_key(l1, f1, p1, c1) == row_set_key(l2, f2, p2, c2) {
        assert(seq![h1] + r1 =~= seq![h1] + place_fields(p1) + command_fields(c1));
        assert(seq![h2] + r2 =~= seq![h2] + place_fields(p2) + command_fields(c2));
        assert(free_of_unit_sep(h1)) by {
            assert forall|j: int| 0 <= j < h1.len() implies h1[j] != '\u{1f}' by {
                if j < l1.len() {
                    assert(h1[j] == l1[j]);
                }
            }
        }
        assert(free_of_unit_sep(h2)) by {
            assert forall|j: int| 0 <= j < h2.len() implies h2[j] != '\u{1f}' by {
                if j < l2.len() {
                    assert(h2[j] == l2[j]);
                }
            }
        }
        lemma_fields_free(h1, p1, c1);
        lemma_fields_free(h2, p2, c2);
        lemma_split_joined(seq![h1] + r1, '\u{1f}');
        lemma_split_joined(seq![h2] + r2, '\u{1f}');
        assert(seq![h1] + r1 == seq![h2] + r2);
        assert((seq![h1] + r1)[0] == h1);
        assert((seq![h2] + r2)[0] == h2);
        assert(h1 == h2);
        assert(l1 =~= h1.drop_last());
        assert(l2 =~= h2.drop_last());
        assert((seq![h1] + r1).drop_first() =~= r1);
        assert((seq![h2] + r2).drop_first() =~= r2);
        lemma_fields_parse_back(p1, c1, p2, c2);
        assert(f1 == f2) by {
            assert(h1.last() == h2.last());
        }
    }
    if l1 == l2 && f1 == f2 && key_names(p1) == key_names(p2) && c1 == c2 {
        lemma_place_fields_key_names(p1, p2);
        assert(r1 == r2);
        assert(h1 == h2);
    }
}

proof fn lemma_fields_free(h: Seq<char>, p: Seq<PlaceView>, c: Seq<PaletteCommand>)
    requires
        free_of_unit_sep(h),
        forall|k: int| 0 <= k < p.len() ==> free_of_unit_sep(#[trigger] p[k].name),
    ensures
        forall|i: int, j: int|
            0 <= i < (seq![h] + place_fields(p) + command_fields(c)).len() && 0 <= j < (seq![h]
                + place_fields(p) + command_fields(c))[i].len() ==> #[trigger] (seq![h]
                + place_fields(p) + command_fields(c))[i][j] != '\u{1f}',
{
    let w = seq![h] + place_fields(p) + command_fields(c);
    lemma_place_entries_fields(p);
    assert forall|i: int, j: int| 0 <= i < w.len() && 0 <= j < w[i].len() implies #[trigger] w[i][j]
        != '\u{1f}' by {
        if i == 0 {
            assert(w[0] == h);
        } else if i <= place_fields(p).len() {
            lemma_place_field_free(p, i - 1);
            assert(w[i] == place_fields(p)[i - 1]);
        } else {
            let m = i - 1 - place_fields(p).len();
            assert(w[i] == command_slug(c[m]));
            lemma_slugs(c[m], c[m], PlaceKey::AllCards);
        }
    }
}

proof fn lemma_place_field_free(p: Seq<PlaceView>, i: int)
    requires
        forall|k: int| 0 <= k < p.len() ==> free_of_unit_sep(#[trigger] p[k].name),
        0 <= i < place_fields(p).len(),
    ensures
        free_of_unit_sep(place_fields(p)[i]),
    decreases p.len(),
{
    lemma_place_entries_fields(p);
    let f = place_fields(p.drop_last());
    lemma_place_entries_fields(p.drop_last());
    if i < f.len() {
        lemma_place_field_free(p.drop_last(), i);
    } else if i == f.len() {
        lemma_token_free_of_unit_sep(p.last().key);
    } else {
        assert(p.last() == p[p.len() - 1]);
    }
}

// ------------------------------------------------------------- the surface --

/// The palette dialog's id.
pub const PALETTE_ID: &'static str = "command-palette";

/// The palette's search field id, for focusing it when the dialog opens.
pub const PALETTE_INPUT_ID: &'static str = "command-palette-input";

/// The media query under which the palette is a desktop surface.
pub const DESKTOP_MEDIA: &'static str = "(min-width: 768px) and (pointer: fine)";

/// How many recent places the ring keeps.
pub const RECENT_CAP: usize = 5;

/// Where the recent-places ring is stored.
pub const RECENT_STORAGE_KEY: &'static str = "tr_recent_places";

/// What activating a row does: go to a path, or run a command.
#[derive(Clone, Debug, PartialEq, Eq)]
pub enum PaletteAction {
    Go(String),
    Run(PaletteCommand),
}

/// One of the two row groups.
#[derive(Clone, Copy, Debug, PartialEq, Eq)]
pub enum PaletteGroup {
    Places,
    Commands,
}

/// The groups in document order: empty groups drop out entirely, and the
/// commands lead when they outrank every place.
pub open spec fn group_order_spec(places: bool, commands: bool, commands_first: bool) -> Seq<
    PaletteGroup,
> {
    let p: Seq<PaletteGroup> = if places {
        seq![PaletteGroup::Places]
    } else {
        Seq::empty()
    };
    let c: Seq<PaletteGroup> = if commands {
        seq![PaletteGroup::Commands]
    } else {
        Seq::empty()
    };
    if commands_first {
        c + p
    } else {
        p + c
    }
}

/// The groups a row set shows, in order.
pub fn group_order(set: &RowSet) -> (groups: Vec<PaletteGroup>)
    ensures
        groups@ == group_order_spec(set.places@.len() > 0, set.commands@.len() > 0, set.commands_first),
{
    let mut groups: Vec<PaletteGroup> = Vec::new();
    let places = set.places.len() > 0;
    let commands = set.commands.len() > 0;
    if set.commands_first {
        if commands {
            groups.push(PaletteGroup::Commands);
        }
        if places {
            groups.push(PaletteGroup::Places);
        }
    } else {
        if places {
            groups.push(PaletteGroup::Places);
        }
        if commands {
            groups.push(PaletteGroup::Commands);
        }
    }
    proof {
        assert(groups@ =~= group_order_spec(places, commands, set.commands_first));
    }
    groups
}

/// Is the browser's platform string a Mac's? Its lower-cased form holds
/// `mac`; no platform string is not a Mac.
pub fn platform_is_mac(platform: Option<&str>) -> (mac: bool)
    ensures
        mac == match platform {
            Some(p) => occurs_in("mac"@, lowercase_of(p@)),
            None => false,
        },
{
    match platform {
        Some(p) => {
            let low = str_lowercase(p);
            let hay = chars_of(low.as_str());
            let needle = chars_of("mac");
            contains_chars(&hay, &needle)
        },
        None => false,
    }
}

} // verus!
