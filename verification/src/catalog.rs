//! The catalog screen's pure half: the canonical `/catalog` URL, the page
//! parameter, the count lines, and the numbered page strip.

use vstd::prelude::*;

use vstd::string::{StrSliceExecFns, StringSliceAdditionalSpecFns};

use crate::page_band::band_numbers;
use crate::quick_add::QuickAddKind;
use crate::states::{api_message, strip, ApiError, ServerFnError};
use crate::text::{
    chars_of, decimal, has_prefix, push_char, push_i64, push_str, push_u64, same_text,
    signed_decimal, starts_with,
};

verus! {

// --------------------------------------------------------------- the URL --

/// The catalog's own page size: 60 divides evenly by every column count of
/// [`GRID_CLASS`] (2, 3, 4, 6, 10), so a full page always tiles into whole rows.
pub const CATALOG_PAGE_SIZE: u32 = 60;

/// The results grid's column tiers.
pub const GRID_CLASS: &'static str =
    "grid grid-cols-2 gap-4 sm:grid-cols-3 lg:grid-cols-4 xl:grid-cols-6 3xl:grid-cols-10";

/// The highest page number the screen will parse out of a URL or hand on.
pub const MAX_PAGE: usize = 1_000_000;

/// Is `c` a decimal digit?
pub open spec fn is_digit(c: char) -> bool {
    '0' <= c && c <= '9'
}

/// The value of a run of decimal digits.
pub open spec fn digits_value(s: Seq<char>) -> nat
    decreases s.len(),
{
    if s.len() == 0 {
        0
    } else {
        digits_value(s.drop_last()) * 10 + ((s.last() as int - '0' as int) as nat)
    }
}

/// `s` without one leading `+`.
pub open spec fn unsigned_body(s: Seq<char>) -> Seq<char> {
    if s.len() > 0 && s[0] == '+' {
        s.drop_first()
    } else {
        s
    }
}

/// Every character is a decimal digit.
pub open spec fn all_digits(s: Seq<char>) -> bool {
    forall|i: int| 0 <= i < s.len() ==> is_digit(#[trigger] s[i])
}

/// What `str::parse::<usize>` accepts: an optional `+`, then at least one
/// decimal digit and nothing else, naming a value that fits a `usize`.
pub open spec fn parse_usize(s: Seq<char>) -> Option<usize> {
    let body = unsigned_body(s);
    if body.len() > 0 && all_digits(body) && digits_value(body) <= usize::MAX {
        Some(digits_value(body) as usize)
    } else {
        None
    }
}

proof fn lemma_digits_value_grows(s: Seq<char>, k: int)
    requires
        0 <= k <= s.len(),
        forall|i: int| 0 <= i < s.len() ==> is_digit(#[trigger] s[i]),
    ensures
        digits_value(s.take(k)) <= digits_value(s),
    decreases s.len() - k,
{
    if k < s.len() {
        let t = s.drop_last();
        assert forall|i: int| 0 <= i < t.len() implies is_digit(#[trigger] t[i]) by {
            assert(t[i] == s[i]);
        }
        lemma_digits_value_grows(t, k);
        assert(t.take(k) =~= s.take(k));
        assert(is_digit(s[s.len() - 1]));
    } else {
        assert(s.take(k) =~= s);
    }
}

/// Parses a `usize` the way `str::parse` does.
pub fn parse_usize_text(s: &str) -> (r: Option<usize>)
    ensures
        r == parse_usize(s@),
{
    let cs = chars_of(s);
    let start: usize = if cs.len() > 0 && cs[0] == '+' {
        1
    } else {
        0
    };
    let ghost body = unsigned_body(s@);
    proof {
        assert(body =~= s@.skip(start as int));
    }
    if start >= cs.len() {
        return None;
    }
    let mut v: usize = 0;
    let mut i: usize = start;
    while i < cs.len()
        invariant
            start <= i <= cs@.len(),
            cs@ == s@,
            body == s@.skip(start as int),
            body == unsigned_body(s@),
            forall|j: int| start <= j < i ==> is_digit(#[trigger] cs@[j]),
            v as nat == digits_value(body.take(i - start)),
        decreases cs@.len() - i,
    {
        let ch = cs[i];
        proof {
            assert(body.take(i - start + 1).drop_last() =~= body.take(i - start));
            assert(body.take(i - start + 1).last() == ch);
        }
        if !('0' <= ch && ch <= '9') {
            proof {
                assert(body[i - start] == ch);
                assert(!is_digit(body[i - start]));
            }
            return None;
        }
        let d: usize = ch_value(ch);
        if v > (usize::MAX - d) / 10 {
            proof {
                assert(v * 10 + d > usize::MAX) by (nonlinear_arith)
                    requires
                        v > (usize::MAX - d) / 10,
                        d <= 9,
                ;
                if all_digits(body) {
                    lemma_digits_value_grows(body, i - start + 1);
                    assert(digits_value(body.take(i - start + 1)) == v * 10 + d);
                }
            }
            return None;
        }
        v = v * 10 + d;
        i = i + 1;
    }
    proof {
        assert(body.take(i - start) =~= body);
        assert forall|j: int| 0 <= j < body.len() implies is_digit(#[trigger] body[j]) by {
            assert(body[j] == cs@[start + j]);
        }
    }
    Some(v)
}

fn ch_value(ch: char) -> (d: usize)
    requires
        '0' <= ch <= '9',
    ensures
        d == ch as int - '0' as int,
        d <= 9,
{
    (ch as u32 - '0' as u32) as usize
}

/// The page `?page=` names: unparsable, absent or zero is page 1, and
/// anything above [`MAX_PAGE`] is clamped to it.
pub open spec fn parse_page_spec(raw: Option<Seq<char>>) -> usize {
    match raw {
        Some(t) => match parse_usize(t) {
            Some(p) => if p == 0 {
                1
            } else if p > MAX_PAGE {
                MAX_PAGE
            } else {
                p
            },
            None => 1,
        },
        None => 1,
    }
}

/// Parses `?page=`, clamped to `1..=MAX_PAGE`; nothing here can panic or
/// wrap, however large the number in the URL.
pub fn parse_page(raw: Option<&str>) -> (page: usize)
    ensures
        page == parse_page_spec(match raw {
            Some(t) => Some(t@),
            None => None,
        }),
        1 <= page <= MAX_PAGE,
{
    match raw {
        Some(t) => match parse_usize_text(t) {
            Some(p) => if p == 0 {
                1
            } else if p > MAX_PAGE {
                MAX_PAGE
            } else {
                p
            },
            None => 1,
        },
        None => 1,
    }
}

/// Characters a query value keeps as they are; everything else is
/// percent-encoded byte by byte.
pub open spec fn unreserved(b: u8) -> bool {
    is_unreserved_byte(b)
}

/// `A-Z`, `a-z`, `0-9`, `-`, `_`, `.` and `~`, by their ASCII codes.
pub open spec fn is_unreserved_byte(b: u8) -> bool {
    (65 <= b <= 90) || (97 <= b <= 122) || (48 <= b <= 57) || b == 45 || b == 95 || b == 46
        || b == 126
}

/// The upper-case hexadecimal digit for `d < 16`.
pub open spec fn hex_upper(d: int) -> char {
    if d < 10 {
        (d + 48) as char
    } else {
        (d + 55) as char
    }
}

/// One byte as it appears in an encoded query value.
pub open spec fn encode_byte(b: u8) -> Seq<char> {
    if unreserved(b) {
        seq![b as char]
    } else {
        seq!['%', hex_upper(b as int / 16), hex_upper(b as int % 16)]
    }
}

/// The percent-encoding of a byte string.
pub open spec fn percent_encoded(bytes: Seq<u8>) -> Seq<char>
    decreases bytes.len(),
{
    if bytes.len() == 0 {
        Seq::empty()
    } else {
        percent_encoded(bytes.drop_last()) + encode_byte(bytes.last())
    }
}

fn hex_digit(d: u8) -> (c: char)
    requires
        d < 16,
    ensures
        c == hex_upper(d as int),
{
    match d {
        0 => '0',
        1 => '1',
        2 => '2',
        3 => '3',
        4 => '4',
        5 => '5',
        6 => '6',
        7 => '7',
        8 => '8',
        9 => '9',
        10 => 'A',
        11 => 'B',
        12 => 'C',
        13 => 'D',
        14 => 'E',
        _ => 'F',
    }
}

/// Appends the percent-encoding of `s`'s UTF-8 bytes.
fn push_encoded(out: &mut String, s: &str)
    ensures
        final(out)@ == old(out)@ + percent_encoded(s.spec_bytes()),
{
    let bytes = s.as_bytes();
    let mut i: usize = 0;
    while i < bytes.len()
        invariant
            i <= bytes@.len(),
            bytes@ == s.spec_bytes(),
            out@ == old(out)@ + percent_encoded(bytes@.take(i as int)),
        decreases bytes@.len() - i,
    {
        let b = bytes[i];
        let ghost before = out@;
        if (65 <= b && b <= 90) || (97 <= b && b <= 122) || (48 <= b && b <= 57) || b == 45 || b
            == 95 || b == 46 || b == 126 {
            push_char(out, b as char);
        } else {
            push_char(out, '%');
            push_char(out, hex_digit(b / 16));
            push_char(out, hex_digit(b % 16));
        }
        proof {
            let t = bytes@.take(i + 1);
            assert(t.drop_last() =~= bytes@.take(i as int));
            assert(t.last() == b);
            assert(out@ =~= before + encode_byte(b));
        }
        i = i + 1;
    }
    proof {
        assert(bytes@.take(bytes@.len() as int) =~= bytes@);
    }
}

/// Percent-encodes a query value. Conservative on purpose: the search
/// grammar is punctuation-heavy, and `&`, `#`, `+` and friends would
/// otherwise be read as URL structure or as a space.
pub fn encode_query_value(s: &str) -> (encoded: String)
    ensures
        encoded@ == percent_encoded(s.spec_bytes()),
{
    let mut out = String::new();
    push_encoded(&mut out, s);
    proof {
        assert(Seq::<char>::empty() + percent_encoded(s.spec_bytes()) =~= percent_encoded(
            s.spec_bytes(),
        ));
    }
    out
}

/// The query-string parts of a catalog URL, in their fixed order; an empty
/// query, the grid view, an empty cursor and page 1 are all left out.
pub open spec fn url_parts(
    q: Seq<char>,
    q_bytes: Seq<u8>,
    list_view: bool,
    cursor: Option<(Seq<char>, Seq<u8>)>,
    page: Option<usize>,
) -> Seq<Seq<char>> {
    (if q.len() > 0 {
        seq!["q="@ + percent_encoded(q_bytes)]
    } else {
        Seq::empty()
    }) + (if list_view {
        seq!["view=list"@]
    } else {
        Seq::empty()
    }) + (match cursor {
        Some((c, c_bytes)) => if c.len() > 0 {
            seq!["cursor="@ + percent_encoded(c_bytes)]
        } else {
            Seq::empty()
        },
        None => Seq::empty(),
    }) + (match page {
        Some(p) => if p > 1 {
            seq!["page="@ + decimal(p as nat)]
        } else {
            Seq::empty()
        },
        None => Seq::empty(),
    })
}

/// Query-string parts joined onto a path: `?` before the first, `&` between.
pub open spec fn with_query(path: Seq<char>, parts: Seq<Seq<char>>) -> Seq<char>
    decreases parts.len(),
{
    if parts.len() == 0 {
        path
    } else {
        let before = with_query(path, parts.drop_last());
        before + (if parts.len() == 1 {
            seq!['?']
        } else {
            seq!['&']
        }) + parts.last()
    }
}

fn push_part(url: &mut String, first: bool, key: &str, value: &[char])
    ensures
        final(url)@ == old(url)@ + (if first {
            seq!['?']
        } else {
            seq!['&']
        }) + (key@ + value@),
{
    push_char(url, if first {
        '?'
    } else {
        '&'
    });
    push_str(url, key);
    crate::text::push_chars(url, value);
    proof {
        assert(url@ =~= old(url)@ + (if first {
            seq!['?']
        } else {
            seq!['&']
        }) + (key@ + value@));
    }
}

proof fn lemma_with_query_push(path: Seq<char>, parts: Seq<Seq<char>>, part: Seq<char>)
    ensures
        with_query(path, parts.push(part)) == with_query(path, parts) + (if parts.len() == 0 {
            seq!['?']
        } else {
            seq!['&']
        }) + part,
{
    assert(parts.push(part).drop_last() =~= parts);
}

/// Builds `/catalog?q=…&view=…&cursor=…&page=…`, omitting empty parts — the
/// single place a catalog URL is made, so its canonical form cannot drift.
/// Every caller that changes the query passes no cursor and no page: a
/// cursor is a position in the previous query's results.
pub fn catalog_url(q: &str, list_view: bool, cursor: Option<&str>, page: Option<usize>) -> (url:
    String)
    ensures
        url@ == with_query(
            "/catalog"@,
            url_parts(
                q@,
                q.spec_bytes(),
                list_view,
                match cursor {
                    Some(c) => Some((c@, c.spec_bytes())),
                    None => None,
                },
                page,
            ),
        ),
{
    let mut url = String::from_str("/catalog");
    let ghost mut parts: Seq<Seq<char>> = Seq::empty();
    let mut first = true;
    if q.unicode_len() > 0 {
        let mut v = String::new();
        push_encoded(&mut v, q);
        let vc = chars_of(v.as_str());
        push_part(&mut url, first, "q=", vc.as_slice());
        proof {
            lemma_with_query_push("/catalog"@, parts, "q="@ + percent_encoded(q.spec_bytes()));
            parts = parts.push("q="@ + percent_encoded(q.spec_bytes()));
            assert(Seq::<char>::empty() + percent_encoded(q.spec_bytes()) =~= percent_encoded(q.spec_bytes()));
        }
        first = false;
    }
    let ghost p1 = parts;
    if list_view {
        let lv = chars_of("list");
        push_part(&mut url, first, "view=", lv.as_slice());
        proof {
            reveal_strlit("view=");
            reveal_strlit("list");
            reveal_strlit("view=list");
            assert("view="@ + "list"@ =~= "view=list"@);
            lemma_with_query_push("/catalog"@, parts, "view=list"@);
            parts = parts.push("view=list"@);
        }
        first = false;
    }
    let ghost p2 = parts;
    match cursor {
        Some(c) => {
            if c.unicode_len() > 0 {
                let mut v = String::new();
                push_encoded(&mut v, c);
                let vc = chars_of(v.as_str());
                push_part(&mut url, first, "cursor=", vc.as_slice());
                proof {
                    lemma_with_query_push(
                        "/catalog"@,
                        parts,
                        "cursor="@ + percent_encoded(c.spec_bytes()),
                    );
                    parts = parts.push("cursor="@ + percent_encoded(c.spec_bytes()));
                    assert(Seq::<char>::empty() + percent_encoded(c.spec_bytes()) =~= percent_encoded(c.spec_bytes()));
                }
                first = false;
            }
        },
        None => {},
    }
    let ghost p3 = parts;
    match page {
        Some(p) => {
            if p > 1 {
                let mut v = String::new();
                push_u64(&mut v, p as u64);
                let vc = chars_of(v.as_str());
                push_part(&mut url, first, "page=", vc.as_slice());
                proof {
                    assert(Seq::<char>::empty() + decimal(p as nat) =~= decimal(p as nat));
                    lemma_with_query_push("/catalog"@, parts, "page="@ + decimal(p as nat));
                    parts = parts.push("page="@ + decimal(p as nat));
                }
            }
        },
        None => {},
    }
    proof {
        let cur = match cursor {
            Some(c) => Some((c@, c.spec_bytes())),
            None => None,
        };
        assert(parts =~= url_parts(q@, q.spec_bytes(), list_view, cur, page));
    }
    url
}

// ------------------------------------------------------------- page strip --

/// One element of the numbered page strip.
#[derive(Debug, Clone, Copy, PartialEq, Eq)]
pub enum PageSlot {
    /// A page number, rendered as a link.
    Number(usize),
    /// The current page, always plain text, never a link.
    Current(usize),
    /// A gap of unrendered page numbers between two shown ones.
    Ellipsis,
}

/// The slot a shown page number takes: `Current` for the current page.
pub open spec fn slot_for(p: int, c: int) -> PageSlot {
    if p == c {
        PageSlot::Current(p as usize)
    } else {
        PageSlot::Number(p as usize)
    }
}

/// Renders ascending page numbers as slots, with an `Ellipsis` wherever two
/// neighbours are more than one apart.
pub open spec fn render(nums: Seq<int>, c: int) -> Seq<PageSlot>
    decreases nums.len(),
{
    if nums.len() == 0 {
        Seq::empty()
    } else {
        let before = render(nums.drop_last(), c);
        let p = nums.last();
        let gapped = nums.len() > 1 && p > nums[nums.len() - 2] + 1;
        (if gapped {
            before.push(PageSlot::Ellipsis)
        } else {
            before
        }).push(slot_for(p, c))
    }
}

/// The consecutive numbers `lo..=hi`.
pub open spec fn span(lo: int, hi: int) -> Seq<int> {
    Seq::new((hi - lo + 1) as nat, |i: int| lo + i)
}

/// The band of consecutive pages shown around current page `c` when there
/// are `l > 6` pages: four counting up from `c`, or — once that would reach
/// `l` — four counting down to `c`; grown by one wherever page 1 or page `l`
/// already falls inside it, so that six numbers show in all.
pub open spec fn strip_band(c: int, l: int) -> (int, int) {
    if c + 3 < l {
        if c == 1 {
            (1, 5)
        } else {
            (c, c + 3)
        }
    } else if c == l {
        (l - 4, l)
    } else if c == 4 {
        (1, 5)
    } else {
        (c - 3, c)
    }
}

/// The page numbers the strip shows for current page `c` of `l`, ascending:
/// every page when there are at most six; otherwise page 1, the band, and
/// page `l`.
pub open spec fn strip_numbers(c: int, l: int) -> Seq<int> {
    if l <= 6 {
        span(1, l)
    } else {
        let (lo, hi) = strip_band(c, l);
        (if lo > 1 {
            seq![1int]
        } else {
            Seq::empty()
        }) + span(lo, hi) + (if hi < l {
            seq![l]
        } else {
            Seq::empty()
        })
    }
}

/// The strip when the total is unknown: page 1 (with a gap when the current
/// page is past 2), the current page, and the one after it (saturating).
pub open spec fn unknown_total_strip(c: int) -> Seq<PageSlot> {
    (if c > 1 {
        seq![PageSlot::Number(1)]
    } else {
        Seq::empty()
    }) + (if c > 2 {
        seq![PageSlot::Ellipsis]
    } else {
        Seq::empty()
    }) + seq![
        PageSlot::Current(c as usize),
        PageSlot::Number(if c < usize::MAX {
            (c + 1) as usize
        } else {
            usize::MAX
        }),
    ]
}

/// The whole strip for `page_strip(current, last)`: the current page is
/// taken as at least 1, and a known last page as at least the current one.
pub open spec fn page_strip_spec(current: usize, last: Option<usize>) -> Seq<PageSlot> {
    let c: int = if current < 1 {
        1
    } else {
        current as int
    };
    match last {
        None => unknown_total_strip(c),
        Some(l0) => {
            let l: int = if (l0 as int) < c {
                c
            } else {
                l0 as int
            };
            render(strip_numbers(c, l), c)
        },
    }
}

fn render_numbers(nums: &Vec<usize>, c: usize) -> (out: Vec<PageSlot>)
    ensures
        out@ == render(ints(nums@), c as int),
{
    let ghost ns = ints(nums@);
    let mut out: Vec<PageSlot> = Vec::new();
    let mut i: usize = 0;
    while i < nums.len()
        invariant
            i <= nums@.len(),
            ns == ints(nums@),
            out@ == render(ns.take(i as int), c as int),
        decreases nums@.len() - i,
    {
        let p = nums[i];
        proof {
            let t = ns.take(i + 1);
            assert(t.drop_last() =~= ns.take(i as int));
            assert(t.last() == p as int);
            if i > 0 {
                assert(t[t.len() - 2] == nums@[i - 1] as int);
            }
        }
        if i > 0 && p > nums[i - 1] && p - nums[i - 1] > 1 {
            out.push(PageSlot::Ellipsis);
        }
        if p == c {
            out.push(PageSlot::Current(p));
        } else {
            out.push(PageSlot::Number(p));
        }
        i = i + 1;
    }
    proof {
        assert(ns.take(nums@.len() as int) =~= ns);
    }
    out
}

/// The pages as mathematical integers.
pub open spec fn ints(v: Seq<usize>) -> Seq<int> {
    v.map_values(|p: usize| p as int)
}

fn push_span(nums: &mut Vec<usize>, lo: usize, hi: usize)
    requires
        1 <= lo <= hi,
    ensures
        ints(final(nums)@) == ints(old(nums)@) + span(lo as int, hi as int),
{
    let n = hi - lo;
    let mut k: usize = 0;
    while k <= n
        invariant
            n == hi - lo,
            1 <= lo <= hi,
            k <= n + 1,
            ints(nums@) == ints(old(nums)@) + span(lo as int, lo + k - 1),
        decreases n + 1 - k,
    {
        let ghost before = nums@;
        nums.push(lo + k);
        proof {
            assert(ints(nums@) =~= ints(before).push((lo + k) as int));
            assert(span(lo as int, lo + k) =~= span(lo as int, lo + k - 1).push((lo + k) as int));
        }
        k = k + 1;
    }
}

/// Computes the numbered page strip: up to six numbers — always page 1 and
/// `last` when `last` is known — around a band of four counting up from
/// `current`, or down to it once counting up would run into `last`; `...`
/// fills any gap wider than one. `current` always renders as `Current`.
///
/// `last = None` means the total is not known: the strip then names only
/// page 1, the current page, and the next one. Nothing here can overflow,
/// whatever `current` is.
pub fn page_strip(current: usize, last: Option<usize>) -> (strip: Vec<PageSlot>)
    ensures
        strip@ == page_strip_spec(current, last),
{
    let c = if current < 1 {
        1
    } else {
        current
    };
    match last {
        None => {
            let mut out: Vec<PageSlot> = Vec::new();
            if c > 1 {
                out.push(PageSlot::Number(1));
                if c > 2 {
                    out.push(PageSlot::Ellipsis);
                }
            }
            out.push(PageSlot::Current(c));
            let next = if c < usize::MAX {
                c + 1
            } else {
                usize::MAX
            };
            out.push(PageSlot::Number(next));
            proof {
                assert(out@ =~= unknown_total_strip(c as int));
            }
            out
        },
        Some(l0) => {
            let l = if l0 < c {
                c
            } else {
                l0
            };
            let mut nums: Vec<usize> = Vec::new();
            if l <= 6 {
                push_span(&mut nums, 1, l);
                proof {
                    assert(ints(nums@) =~= strip_numbers(c as int, l as int));
                }
            } else {
                nums = band_numbers(c, l);
            }
            render_numbers(&nums, c)
        },
    }
}

/// The page numbers a strip shows, in order, without the gaps.
pub open spec fn numbered(s: Seq<PageSlot>) -> Seq<int>
    decreases s.len(),
{
    if s.len() == 0 {
        Seq::empty()
    } else {
        let before = numbered(s.drop_last());
        match s.last() {
            PageSlot::Number(p) => before.push(p as int),
            PageSlot::Current(p) => before.push(p as int),
            PageSlot::Ellipsis => before,
        }
    }
}

/// Strictly increasing.
pub open spec fn ascending(s: Seq<int>) -> bool {
    forall|i: int, j: int| 0 <= i < j < s.len() ==> s[i] < s[j]
}

/// Every number fits a `usize` page number.
pub open spec fn page_numbers(s: Seq<int>) -> bool {
    forall|i: int| 0 <= i < s.len() ==> 1 <= #[trigger] s[i] <= usize::MAX
}

proof fn lemma_render_numbered(nums: Seq<int>, c: int)
    requires
        page_numbers(nums),
    ensures
        numbered(render(nums, c)) == nums,
        forall|k: int|
            0 <= k < render(nums, c).len() ==> match #[trigger] render(nums, c)[k] {
                PageSlot::Current(p) => p as int == c,
                PageSlot::Number(p) => p as int != c,
                PageSlot::Ellipsis => true,
            },
    decreases nums.len(),
{
    if nums.len() > 0 {
        let init = nums.drop_last();
        assert(page_numbers(init));
        lemma_render_numbered(init, c);
        let before = render(init, c);
        let p = nums.last();
        assert(1 <= nums[nums.len() - 1] <= usize::MAX);
        let gapped = nums.len() > 1 && p > nums[nums.len() - 2] + 1;
        let mid = if gapped {
            before.push(PageSlot::Ellipsis)
        } else {
            before
        };
        assert(render(nums, c) == mid.push(slot_for(p, c)));
        assert(render(nums, c).drop_last() =~= mid);
        if gapped {
            assert(mid.drop_last() =~= before);
        }
        assert(numbered(mid) == init);
        assert(init.push(p) =~= nums);
    }
}

proof fn lemma_span(lo: int, hi: int)
    requires
        lo <= hi + 1,
    ensures
        span(lo, hi).len() == hi - lo + 1,
        forall|k: int| 0 <= k < span(lo, hi).len() ==> #[trigger] span(lo, hi)[k] == lo + k,
{
}

proof fn lemma_strip_numbers(c: int, l: int)
    requires
        1 <= c <= l <= usize::MAX,
    ensures
        ({
            let ns = strip_numbers(c, l);
            &&& ns.len() == if l <= 6 {
                l
            } else {
                6
            }
            &&& ns[0] == 1
            &&& ns.last() == l
            &&& ns.contains(c)
            &&& ascending(ns)
            &&& forall|i: int| 0 <= i < ns.len() ==> 1 <= #[trigger] ns[i] <= l
        }),
{
    let ns = strip_numbers(c, l);
    if l <= 6 {
        lemma_span(1, l);
        assert(ns[c - 1] == c);
    } else {
        let (lo, hi) = strip_band(c, l);
        lemma_span(lo, hi);
        let head: Seq<int> = if lo > 1 {
            seq![1int]
        } else {
            Seq::empty()
        };
        let tail: Seq<int> = if hi < l {
            seq![l]
        } else {
            Seq::empty()
        };
        let band = span(lo, hi);
        assert(ns == head + band + tail);
        assert(forall|k: int| 0 <= k < band.len() ==> band[k] == lo + k);
        assert(forall|k: int| 0 <= k < head.len() ==> (head + band)[k] == head[k]);
        assert(forall|k: int|
            0 <= k < band.len() ==> (head + band)[head.len() + k] == band[k]);
        assert(forall|k: int|
            0 <= k < (head + band).len() ==> ns[k] == (head + band)[k]);
        assert(forall|k: int| 0 <= k < tail.len() ==> ns[(head + band).len() + k] == tail[k]);
        assert(ns.len() == 6);
        assert(ns.contains(c)) by {
            assert(lo <= c <= hi);
            assert(ns[head.len() + (c - lo)] == c);
        }
        assert forall|i: int, j: int| 0 <= i < j < ns.len() implies ns[i] < ns[j] by {
            let hb = head.len();
            if i < hb {
                assert(ns[i] == 1);
            }
            if j >= hb + band.len() {
                assert(ns[j] == l);
            }
            if i >= hb && i < hb + band.len() {
                assert(ns[i] == lo + (i - hb));
            }
            if j >= hb && j < hb + band.len() {
                assert(ns[j] == lo + (j - hb));
            }
        }
        assert forall|i: int| 0 <= i < ns.len() implies 1 <= #[trigger] ns[i] <= l by {
            let hb = head.len();
            if i >= hb && i < hb + band.len() {
                assert(ns[i] == lo + (i - hb));
            }
        }
        if lo == 1 {
            assert(ns[0] == band[0]);
        }
        if hi == l {
            assert(ns.last() == band.last());
        }
    }
}

/// The page strip's promises when the total is known: exactly six numbers
/// once there are six pages or more (every page otherwise), always page 1
/// and the last page, the current page among them and marked as such (and
/// no other), all in increasing order within `1..=last`.
pub proof fn law_strip_with_known_total(current: usize, last: usize)
    ensures
        ({
            let c: int = if current < 1 {
                1
            } else {
                current as int
            };
            let l: int = if (last as int) < c {
                c
            } else {
                last as int
            };
            let strip = page_strip_spec(current, Some(last));
            let ns = numbered(strip);
            &&& ns.len() == if l <= 6 {
                l
            } else {
                6
            }
            &&& ns[0] == 1
            &&& ns.last() == l
            &&& ns.contains(c)
            &&& ascending(ns)
            &&& forall|i: int| 0 <= i < ns.len() ==> 1 <= #[trigger] ns[i] <= l
            &&& forall|k: int|
                0 <= k < strip.len() ==> match #[trigger] strip[k] {
                    PageSlot::Current(p) => p as int == c,
                    PageSlot::Number(p) => p as int != c,
                    PageSlot::Ellipsis => true,
                }
        }),
{
    let c: int = if current < 1 {
        1
    } else {
        current as int
    };
    let l: int = if (last as int) < c {
        c
    } else {
        last as int
    };
    lemma_strip_numbers(c, l);
    let ns = strip_numbers(c, l);
    assert(page_numbers(ns)) by {
        assert forall|i: int| 0 <= i < ns.len() implies 1 <= #[trigger] ns[i] <= usize::MAX by {
            assert(1 <= ns[i] <= l);
        }
    }
    lemma_render_numbered(ns, c);
}

/// Without a known total the strip names page 1 (when it is not the current
/// page), the current page, and the page after it — never more than four
/// slots, whatever the current page, with no wrap-around at the top.
pub proof fn law_strip_with_unknown_total(current: usize)
    ensures
        page_strip_spec(current, None).len() <= 4,
        page_strip_spec(current, None).contains(
            PageSlot::Current(if current < 1 {
                1
            } else {
                current
            }),
        ),
        page_strip_spec(current, None).last() == PageSlot::Number(
            if current == usize::MAX {
                usize::MAX
            } else if current < 1 {
                2
            } else {
                (current + 1) as usize
            },
        ),
{
    let s = page_strip_spec(current, None);
    assert(s[s.len() - 2] == PageSlot::Current(if current < 1 { 1 } else { current }));
}

// ---------------------------------------------------------- count lines --

/// The result-count phrase, and the whole claim keyset paging supports:
/// page one speaks for the result set (`23 results`, or `50+ results` when
/// more follow); past page one only for itself (`50 results on this page`).
pub fn count_label(n: usize, has_more: bool, paged: bool) -> (label: String)
    ensures
        label@ == decimal(n as nat) + if paged {
            " results on this page"@
        } else if has_more {
            "+ results"@
        } else {
            " results"@
        },
{
    let mut out = String::new();
    push_u64(&mut out, n as u64);
    if paged {
        push_str(&mut out, " results on this page");
    } else if has_more {
        push_str(&mut out, "+ results");
    } else {
        push_str(&mut out, " results");
    }
    proof {
        assert(Seq::<char>::empty() + decimal(n as nat) =~= decimal(n as nat));
    }
    out
}

/// The header's count line for a filtered query: the exact count, and
/// nothing at all for zero (or a nonsensical negative).
pub fn filtered_count_label(n: i64) -> (label: Option<String>)
    ensures
        match label {
            Some(l) => n > 0 && l@ == signed_decimal(n as int) + " cards match."@,
            None => n <= 0,
        },
{
    if n > 0 {
        let mut out = String::new();
        push_i64(&mut out, n);
        push_str(&mut out, " cards match.");
        proof {
            assert(Seq::<char>::empty() + signed_decimal(n as int) =~= signed_decimal(n as int));
        }
        Some(out)
    } else {
        None
    }
}

/// Is the query now in the box an edit of the one the kept results answer?
/// A prefix in either direction: appending or backspacing a term keeps the
/// two related, replacing the string does not.
pub fn same_search(kept: &str, now: &str) -> (same: bool)
    ensures
        same == (starts_with(kept@, now@) || starts_with(now@, kept@)),
{
    let k = chars_of(kept);
    let n = chars_of(now);
    has_prefix(k.as_slice(), n.as_slice()) || has_prefix(n.as_slice(), k.as_slice())
}

/// Does this page have anywhere to go? A single page of results has neither
/// a page before it nor one after, and gets no pagination landmark at all.
pub fn pager_is_needed(paged: bool, has_next: bool) -> (needed: bool)
    ensures
        needed == (paged || has_next),
{
    paged || has_next
}

/// `⌈n / d⌉`.
pub open spec fn div_ceil(n: nat, d: nat) -> nat
    recommends
        d > 0,
{
    if n % d == 0 {
        n / d
    } else {
        n / d + 1
    }
}

/// The true last page, as far as it is known: the page on screen when
/// nothing follows it; otherwise the page count of the total, once the count
/// query has answered (and only for a positive page size); otherwise
/// unknown.
pub fn pager_last_page(page: usize, has_more: bool, count: Option<i64>, page_size: usize) -> (last:
    Option<usize>)
    ensures
        last == if !has_more {
            Some(page)
        } else {
            match count {
                Some(total) => if page_size > 0 {
                    Some(
                        div_ceil(
                            (if total < 0 {
                                0
                            } else {
                                total
                            }) as usize as nat,
                            page_size as nat,
                        ) as usize,
                    )
                } else {
                    None
                },
                None => None,
            }
        },
{
    if !has_more {
        return Some(page);
    }
    match count {
        Some(total) => {
            if page_size == 0 {
                return None;
            }
            let rows: usize = (if total < 0 {
                0
            } else {
                total
            }) as usize;
            let q = rows / page_size;
            let r = rows % page_size;
            if r == 0 {
                Some(q)
            } else {
                assert(q < usize::MAX) by (nonlinear_arith)
                    requires
                        q == rows / page_size,
                        page_size > 0,
                        r == rows % page_size,
                        r > 0,
                        rows <= usize::MAX,
                ;
                Some(q + 1)
            }
        },
        None => None,
    }
}


// ------------------------------------------------------------ the errors --

/// How a catalog search error is blamed, for display.
#[derive(Debug, Clone, Copy, PartialEq, Eq)]
pub enum QueryErrorKind {
    /// The grammar rejected a term in the query: shown inline, verbatim.
    Grammar,
    /// The query is fine; the page reference in it is stale or corrupt.
    Cursor,
    /// Anything else: genuine breakage.
    Other,
}

/// The text a failed call shows when it carries no typed API error.
pub open spec fn wire_text(e: ServerFnError) -> Seq<char> {
    match e {
        ServerFnError::WrappedServerError(api) => api_message(api),
        ServerFnError::ServerError(m) => m@,
        ServerFnError::Other(t) => t@,
    }
}

/// A typed validation error is the grammar's, a typed bad cursor is the
/// page reference's, any other typed error is breakage; untyped text is read
/// by its `validation: ` or `bad cursor: ` prefix, and is breakage without one.
pub open spec fn describe_error_spec(e: ServerFnError) -> (QueryErrorKind, Seq<char>) {
    match e {
        ServerFnError::WrappedServerError(api) => match api {
            ApiError::Validation(m) => (QueryErrorKind::Grammar, m@),
            ApiError::BadCursor(m) => (QueryErrorKind::Cursor, m@),
            other => (QueryErrorKind::Other, api_message(other)),
        },
        _ => {
            let raw = wire_text(e);
            if starts_with(raw, "validation: "@) {
                (QueryErrorKind::Grammar, raw.skip("validation: "@.len() as int))
            } else if starts_with(raw, "bad cursor: "@) {
                (QueryErrorKind::Cursor, raw.skip("bad cursor: "@.len() as int))
            } else {
                (QueryErrorKind::Other, raw)
            }
        },
    }
}

/// Pulls the human-facing message out of a failed search and says whom to
/// blame: the query's grammar, its page reference, or something else.
pub fn describe_error(e: &ServerFnError) -> (r: (QueryErrorKind, String))
    ensures
        (r.0, r.1@) == describe_error_spec(*e),
{
    let raw: &str = match e {
        ServerFnError::WrappedServerError(api) => {
            return match api {
                ApiError::Validation(m) => (QueryErrorKind::Grammar, m.clone()),
                ApiError::BadCursor(m) => (QueryErrorKind::Cursor, m.clone()),
                other => (QueryErrorKind::Other, String::from_str(other.message())),
            };
        },
        ServerFnError::ServerError(m) => m.as_str(),
        ServerFnError::Other(t) => t.as_str(),
    };
    let cs = chars_of(raw);
    if let Some(rest) = strip(raw, &cs, "validation: ") {
        return (QueryErrorKind::Grammar, String::from_str(rest));
    }
    if let Some(rest) = strip(raw, &cs, "bad cursor: ") {
        return (QueryErrorKind::Cursor, String::from_str(rest));
    }
    (QueryErrorKind::Other, String::from_str(raw))
}

/// Is the page on screen displaced by a search that has not landed yet?
/// It is when the URL's query or the text in the box has moved off the query
/// the page was rendered for: its pager would point at the old query.
pub fn displaced_by(rendered_q: &str, url_q: &str, query_text: &str) -> (displaced: bool)
    ensures
        displaced == (url_q@ != rendered_q@ || query_text@ != rendered_q@),
{
    !same_text(url_q, rendered_q) || !same_text(query_text, rendered_q)
}

// ------------------------------------------------------ the quick actions --

/// Which of the two quick actions a button is.
#[derive(Debug, Clone, Copy, PartialEq, Eq)]
pub enum AddKind {
    Want,
    Have,
}

impl AddKind {
    /// The word the button and its toast use.
    pub fn noun(self) -> (s: &'static str)
        ensures
            s@ == match self {
                AddKind::Want => "Want"@,
                AddKind::Have => "Have"@,
            },
    {
        match self {
            AddKind::Want => "Want",
            AddKind::Have => "Have",
        }
    }

    /// The kind the add request carries.
    pub fn wire(self) -> (k: QuickAddKind)
        ensures
            k == match self {
                AddKind::Want => QuickAddKind::Want,
                AddKind::Have => QuickAddKind::Have,
            },
    {
        match self {
            AddKind::Want => QuickAddKind::Want,
            AddKind::Have => QuickAddKind::Have,
        }
    }
}


/// A quick add can go ahead: a want always can; a have needs a printing,
/// since holdings are per printing.
pub fn addable(kind: AddKind, has_printing: bool) -> (ok: bool)
    ensures
        ok == (kind == AddKind::Want || has_printing),
{
    match kind {
        AddKind::Want => true,
        AddKind::Have => has_printing,
    }
}

/// Is a quick-add button inert? While its add is in flight, until the
/// destination is known, and when the card cannot be added this way.
pub fn quick_add_disabled(pending: bool, has_destination: bool, can_add: bool) -> (disabled: bool)
    ensures
        disabled == (pending || !has_destination || !can_add),
{
    pending || !has_destination || !can_add
}

/// The bytes of the page to come back to: its path, and `?` and its query
/// when it has one.
pub open spec fn here_bytes(path: Seq<u8>, search: Seq<u8>) -> Seq<u8> {
    if search.len() == 0 {
        path
    } else {
        path + seq![63u8] + search
    }
}

/// Where a signed-out visitor's `+ Want` / `+ Have` goes: the sign-in page,
/// told to come back to this page.
pub open spec fn sign_in_href_spec(path: Seq<u8>, search: Seq<u8>) -> Seq<char> {
    "/login?next="@ + percent_encoded(here_bytes(path, search))
}

/// Encoding a byte string piece by piece is encoding it whole.
proof fn lemma_percent_encoded_concat(a: Seq<u8>, b: Seq<u8>)
    ensures
        percent_encoded(a + b) == percent_encoded(a) + percent_encoded(b),
    decreases b.len(),
{
    if b.len() == 0 {
        assert(a + b =~= a);
        assert(percent_encoded(a) + percent_encoded(b) =~= percent_encoded(a));
    } else {
        lemma_percent_encoded_concat(a, b.drop_last());
        assert((a + b).drop_last() =~= a + b.drop_last());
        assert((a + b).last() == b.last());
        assert(percent_encoded(a + b) =~= percent_encoded(a) + percent_encoded(b));
    }
}

/// The sign-in link for a signed-out visitor's quick action.
pub fn sign_in_href(path: &str, search: &str) -> (href: String)
    ensures
        href@ == sign_in_href_spec(path.spec_bytes(), search.spec_bytes()),
{
    let mut href = String::new();
    push_str(&mut href, "/login?next=");
    push_encoded(&mut href, path);
    let sb = search.as_bytes();
    if sb.len() > 0 {
        push_str(&mut href, "%3F");
        push_encoded(&mut href, search);
        proof {
            reveal_strlit("%3F");
            let q = seq![63u8];
            assert(q.drop_last() =~= Seq::<u8>::empty());
            assert(q.last() == 63u8);
            assert(percent_encoded(q) =~= percent_encoded(Seq::<u8>::empty()) + encode_byte(63u8));
            assert(encode_byte(63u8) =~= "%3F"@);
            lemma_percent_encoded_concat(path.spec_bytes(), q);
            lemma_percent_encoded_concat(path.spec_bytes() + q, search.spec_bytes());
        }
    }
    proof {
        assert(href@ =~= sign_in_href_spec(path.spec_bytes(), search.spec_bytes()));
    }
    href
}

/// The toast after a quick add: `Wanted 1 Bolt → 📥 Inbox` /
/// `Added 4 Bolt → 🗂 Shoebox`.
pub open spec fn add_toast_spec(kind: QuickAddKind, quantity: u32, name: Seq<char>, dest: Seq<char>) -> Seq<char> {
    (match kind {
        QuickAddKind::Want => "Wanted"@,
        QuickAddKind::Have => "Added"@,
    }) + seq![' '] + decimal(quantity as nat) + seq![' '] + name + seq![' ', '\u{2192}', ' '] + dest
}

/// The toast after a quick add; `dest_label` is the destination's label.
pub fn add_toast_message(kind: QuickAddKind, quantity: u32, name: &str, dest_label: &str) -> (m: String)
    ensures
        m@ == add_toast_spec(kind, quantity, name@, dest_label@),
{
    let mut m = String::new();
    push_str(
        &mut m,
        match kind {
            QuickAddKind::Want => "Wanted",
            QuickAddKind::Have => "Added",
        },
    );
    push_char(&mut m, ' ');
    push_u64(&mut m, quantity as u64);
    push_char(&mut m, ' ');
    push_str(&mut m, name);
    push_char(&mut m, ' ');
    push_char(&mut m, '\u{2192}');
    push_char(&mut m, ' ');
    push_str(&mut m, dest_label);
    proof {
        assert(m@ =~= add_toast_spec(kind, quantity, name@, dest_label@));
    }
    m
}


/// What a failed search shows: a rejected term verbatim; a dead page link
/// as such; anything else as a failed search with its message.
pub open spec fn search_error_spec(kind: QueryErrorKind, message: Seq<char>) -> Seq<char> {
    match kind {
        QueryErrorKind::Grammar => message,
        QueryErrorKind::Cursor => "This page link is no longer valid."@,
        QueryErrorKind::Other => "Search failed: "@ + message,
    }
}

/// The line a failed search shows.
pub fn search_error_text(kind: QueryErrorKind, message: &str) -> (t: String)
    ensures
        t@ == search_error_spec(kind, message@),
{
    match kind {
        QueryErrorKind::Grammar => String::from_str(message),
        QueryErrorKind::Cursor => String::from_str("This page link is no longer valid."),
        QueryErrorKind::Other => {
            let mut t = String::from_str("Search failed: ");
            push_str(&mut t, message);
            t
        },
    }
}

/// The arguments a search is fetched with: the cursor when there is one
/// (it wins over a page number), else the page number when it is above
/// one, as an explicit jump. Page one sends neither.
pub fn search_args(cursor: &str, page: usize) -> (args: (Option<String>, Option<u32>))
    ensures
        match args.0 {
            Some(c) => cursor@.len() > 0 && c@ == cursor@,
            None => cursor@.len() == 0,
        },
        args.1 == if cursor@.len() == 0 && page > 1 {
            Some(page as u32)
        } else {
            None
        },
{
    let empty = cursor.unicode_len() == 0;
    let cursor_arg = if empty {
        None
    } else {
        Some(String::from_str(cursor))
    };
    let page_arg = if empty && page > 1 {
        Some(page as u32)
    } else {
        None
    };
    (cursor_arg, page_arg)
}

/// The result set kept under a failed search, after one search answered:
/// an unambiguous first page (no cursor, page one at most) that came back
/// is kept with the query it answered; any other page that came back
/// forgets what was kept; an error keeps whatever is there.
pub open spec fn last_good_spec<C, E>(
    last: Option<(Seq<char>, C)>,
    q: Seq<char>,
    cursor: Seq<char>,
    page: int,
    outcome: Result<C, E>,
) -> Option<(Seq<char>, C)> {
    match outcome {
        Ok(cards) => if cursor.len() == 0 && page <= 1 {
            Some((q, cards))
        } else {
            None
        },
        Err(_) => last,
    }
}

/// Updates the kept first page once a search answers.
pub fn last_good_after<C, E>(
    last: Option<(String, C)>,
    q: String,
    cursor: &str,
    page: usize,
    outcome: Result<C, E>,
) -> (kept: Option<(String, C)>)
    ensures
        (match kept {
            Some((k, c)) => Some((k@, c)),
            None => None,
        }) == last_good_spec(
            match last {
                Some((k, c)) => Some((k@, c)),
                None => None,
            },
            q@,
            cursor@,
            page as int,
            outcome,
        ),
{
    match outcome {
        Ok(cards) => if cursor.unicode_len() == 0 && page <= 1 {
            Some((q, cards))
        } else {
            None
        },
        Err(_) => last,
    }
}

/// Is a result page past the first: reached by a cursor, or by a page
/// number above one?
pub fn is_paged(cursor: &str, page: usize) -> (paged: bool)
    ensures
        paged == (cursor@.len() > 0 || page > 1),
{
    cursor.unicode_len() > 0 || page > 1
}

/// Where the grid/list switch goes: the same query, cursor and page, in the
/// other view; an empty cursor and a page that is not a positive number are
/// left out.
pub fn view_switch_url(q: &str, cursor: &str, page: Option<&str>, list: bool) -> (url: String)
    ensures
        url@ == with_query(
            "/catalog"@,
            url_parts(
                q@,
                q.spec_bytes(),
                list,
                if cursor@.len() > 0 {
                    Some((cursor@, cursor.spec_bytes()))
                } else {
                    None
                },
                match page {
                    Some(p) => match parse_usize(p@) {
                        Some(n) => if n > 0 {
                            Some(n)
                        } else {
                            None
                        },
                        None => None,
                    },
                    None => None,
                },
            ),
        ),
{
    let n = match page {
        Some(p) => match parse_usize_text(p) {
            Some(n) => if n > 0 {
                Some(n)
            } else {
                None
            },
            None => None,
        },
        None => None,
    };
    if cursor.unicode_len() > 0 {
        catalog_url(q, list, Some(cursor), n)
    } else {
        catalog_url(q, list, None, n)
    }
}


/// One pager arrow: the page it points at, and whether it is inert.
#[derive(Debug, Clone, Copy, PartialEq, Eq)]
pub struct PagerArrow {
    pub page: usize,
    pub inert: bool,
}

/// The pager's two arrows. `← Prev` points one back and is inert on page
/// one; `Next →` points one on and is inert when nothing follows. A stale
/// page (its search displaced) makes every link inert.
pub fn pager_arrows(page: usize, has_more: bool, stale: bool) -> (r: (PagerArrow, PagerArrow))
    ensures
        r.0 == (PagerArrow {
            page: if page == 0 {
                0
            } else {
                (page - 1) as usize
            },
            inert: stale || page <= 1,
        }),
        r.1 == (PagerArrow {
            page: if page == usize::MAX {
                usize::MAX
            } else {
                (page + 1) as usize
            },
            inert: stale || !has_more,
        }),
{
    let prev = if page == 0 {
        0
    } else {
        page - 1
    };
    let next = if page == usize::MAX {
        usize::MAX
    } else {
        page + 1
    };
    (PagerArrow { page: prev, inert: stale || page <= 1 }, PagerArrow {
        page: next,
        inert: stale || !has_more,
    })
}

} // verus!
