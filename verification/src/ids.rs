//! Ids: collections, cards and printings are named by UUIDs, held here as
//! their 128-bit value and written and read through the `uuid` crate.

use vstd::prelude::*;

verus! {

/// A UUID, as its 128-bit big-endian value.
pub type Id = u128;

/// The lower-case hexadecimal digit for `d < 16`.
pub open spec fn hex_lower(d: nat) -> char {
    if d < 10 {
        (d + 48) as char
    } else {
        (d + 87) as char
    }
}

/// The last `n` hexadecimal digits of `v`, most significant first.
pub open spec fn hex_digits(v: nat, n: nat) -> Seq<char>
    decreases n,
{
    if n == 0 {
        Seq::empty()
    } else {
        hex_digits(v / 16, (n - 1) as nat).push(hex_lower(v % 16))
    }
}

/// The hyphenated lower-case form of an id: 32 hex digits in groups of
/// 8-4-4-4-12.
pub open spec fn hyphenated(id: u128) -> Seq<char> {
    let h = hex_digits(id as nat, 32);
    h.subrange(0, 8) + seq!['-'] + h.subrange(8, 12) + seq!['-'] + h.subrange(12, 16) + seq!['-']
        + h.subrange(16, 20) + seq!['-'] + h.subrange(20, 32)
}

/// Is `c` a hexadecimal digit of either case?
pub open spec fn is_hex(c: char) -> bool {
    ('0' <= c && c <= '9') || ('a' <= c && c <= 'f') || ('A' <= c && c <= 'F')
}

/// The value of one hexadecimal digit.
pub open spec fn hex_value_of(c: char) -> nat {
    if '0' <= c && c <= '9' {
        (c as int - '0' as int) as nat
    } else if 'a' <= c && c <= 'f' {
        (c as int - 'a' as int + 10) as nat
    } else {
        (c as int - 'A' as int + 10) as nat
    }
}

/// The value of a run of hexadecimal digits.
pub open spec fn hex_value(s: Seq<char>) -> nat
    decreases s.len(),
{
    if s.len() == 0 {
        0
    } else {
        hex_value(s.drop_last()) * 16 + hex_value_of(s.last())
    }
}

/// Every character is a hexadecimal digit.
pub open spec fn all_hex(s: Seq<char>) -> bool {
    forall|i: int| 0 <= i < s.len() ==> is_hex(#[trigger] s[i])
}

/// Thirty-two hex digits, as an id.
pub open spec fn simple_form(s: Seq<char>) -> Option<u128> {
    if s.len() == 32 && all_hex(s) {
        Some(hex_value(s) as u128)
    } else {
        None
    }
}

/// The 8-4-4-4-12 hyphenated form, as an id.
pub open spec fn hyphenated_form(s: Seq<char>) -> Option<u128> {
    if s.len() == 36 && s[8] == '-' && s[13] == '-' && s[18] == '-' && s[23] == '-' {
        simple_form(
            s.subrange(0, 8) + s.subrange(9, 13) + s.subrange(14, 18) + s.subrange(19, 23)
                + s.subrange(24, 36),
        )
    } else {
        None
    }
}

/// ASCII case-folding to lower case.
pub open spec fn fold_ascii(c: char) -> char {
    if 'A' <= c && c <= 'Z' {
        ((c as u32) + 32) as char
    } else {
        c
    }
}

/// What `uuid::Uuid::parse_str` accepts: the simple form, the hyphenated
/// form, the hyphenated form in braces, or `urn:uuid:` (any case) followed
/// by the hyphenated form.
pub open spec fn parse_uuid(s: Seq<char>) -> Option<u128> {
    if s.len() == 32 {
        simple_form(s)
    } else if s.len() == 36 {
        hyphenated_form(s)
    } else if s.len() == 38 && s[0] == '{' && s[37] == '}' {
        hyphenated_form(s.subrange(1, 37))
    } else if s.len() == 45 && s.take(9).map_values(|c: char| fold_ascii(c)) == "urn:uuid:"@ {
        hyphenated_form(s.skip(9))
    } else {
        None
    }
}

/// `Uuid::from_u128(id).to_string()`: the hyphenated lower-case form
/// (`Display` for `Uuid` writes the `LowerHex` hyphenated form of its
/// big-endian bytes).
#[verifier::external_body]
pub(crate) fn uuid_text(id: Id) -> (s: String)
    ensures
        s@ == hyphenated(id),
{
    uuid::Uuid::from_u128(id).to_string()
}

/// `Uuid::parse_str`, as the 128-bit value. Accepts exactly the forms
/// [`parse_uuid`] describes (hex digits of either case); anything else,
/// including any non-ASCII text, is `None`.
#[verifier::external_body]
pub(crate) fn uuid_parse(s: &str) -> (id: Option<Id>)
    ensures
        id == parse_uuid(s@),
{
    match uuid::Uuid::parse_str(s) {
        Ok(u) => Some(u.as_u128()),
        Err(_) => None,
    }
}


// ---------------------------------------------------------- reading back --

/// Sixteen to the `n`.
pub open spec fn p16(n: nat) -> nat
    decreases n,
{
    if n == 0 {
        1
    } else {
        16 * p16((n - 1) as nat)
    }
}

proof fn lemma_p16_positive(n: nat)
    ensures
        p16(n) > 0,
    decreases n,
{
    if n > 0 {
        lemma_p16_positive((n - 1) as nat);
    }
}

proof fn lemma_hex_digit_reads_back(d: nat)
    requires
        d < 16,
    ensures
        is_hex(hex_lower(d)),
        hex_value_of(hex_lower(d)) == d,
{
}

/// The digits written for `v` are hex digits, `n` of them, worth `v` modulo
/// sixteen to the `n`.
proof fn lemma_hex_digits_read_back(v: nat, n: nat)
    ensures
        hex_digits(v, n).len() == n,
        all_hex(hex_digits(v, n)),
        hex_value(hex_digits(v, n)) == v % p16(n),
    decreases n,
{
    if n > 0 {
        lemma_hex_digits_read_back(v / 16, (n - 1) as nat);
        lemma_hex_digit_reads_back(v % 16);
        lemma_p16_positive((n - 1) as nat);
        let h = hex_digits(v, n);
        assert(h.drop_last() =~= hex_digits(v / 16, (n - 1) as nat));
        assert forall|i: int| 0 <= i < h.len() implies is_hex(#[trigger] h[i]) by {
            if i < h.len() - 1 {
                assert(h[i] == hex_digits(v / 16, (n - 1) as nat)[i]);
            }
        }
        vstd::arithmetic::div_mod::lemma_breakdown(v as int, 16, p16((n - 1) as nat) as int);
    } else {
        assert(v % 1 == 0) by (nonlinear_arith);
    }
}

/// An id's written form reads back as that same id: what [`uuid_text`]
/// writes, [`uuid_parse`] accepts and returns unchanged.
pub proof fn law_an_id_reads_back_as_itself(id: Id)
    ensures
        parse_uuid(hyphenated(id)) == Some(id),
{
    let h = hex_digits(id as nat, 32);
    lemma_hex_digits_read_back(id as nat, 32);
    assert(p16(32) == 0x1_0000_0000_0000_0000_0000_0000_0000_0000nat) by {
        reveal_with_fuel(p16, 33);
    }
    vstd::arithmetic::div_mod::lemma_small_mod(id as nat, p16(32));
    let s = hyphenated(id);
    assert(s.len() == 36);
    assert(s[8] == '-' && s[13] == '-' && s[18] == '-' && s[23] == '-');
    assert(s.subrange(0, 8) + s.subrange(9, 13) + s.subrange(14, 18) + s.subrange(19, 23)
        + s.subrange(24, 36) =~= h);
}


/// An id's written form: thirty-six characters, each a hex digit or a
/// hyphen.
pub(crate) proof fn lemma_hyphenated_shape(id: Id)
    ensures
        hyphenated(id).len() == 36,
        forall|i: int|
            0 <= i < 36 ==> #[trigger] hyphenated(id)[i] == '-' || is_hex(hyphenated(id)[i]),
{
    let h = hex_digits(id as nat, 32);
    lemma_hex_digits_read_back(id as nat, 32);
    let s = hyphenated(id);
    assert forall|i: int| 0 <= i < 36 implies #[trigger] s[i] == '-' || is_hex(s[i]) by {
        if i < 8 {
            assert(s[i] == h[i]);
        } else if 8 < i < 13 {
            assert(s[i] == h[i - 1]);
        } else if 13 < i < 18 {
            assert(s[i] == h[i - 2]);
        } else if 18 < i < 23 {
            assert(s[i] == h[i - 3]);
        } else if 23 < i {
            assert(s[i] == h[i - 4]);
        }
    }
}

} // verus!
