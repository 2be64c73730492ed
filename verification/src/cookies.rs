//! The two cookies the app keeps, readable on both sides of the wire: the
//! chosen destination (`tr_dest`, an id) and the theme override
//! (`tr_theme`, `light` or `dark`). Reading one out of a `Cookie` header's
//! text, and writing the `Set-Cookie` value that stores it.

use vstd::prelude::*;

use crate::ids::{
    hyphenated, is_hex, law_an_id_reads_back_as_itself, lemma_hyphenated_shape, parse_uuid,
    uuid_parse, uuid_text, Id,
};
use crate::text::{
    chars_of, has_prefix, lemma_split_first_piece, lemma_trimmed_unchanged, push_str, split_chars,
    split_on, starts_with, string_of, suffix_from, trim_chars, trimmed, white_space,
};

verus! {

/// The cookie holding the chosen destination's id.
pub const DEST_COOKIE: &'static str = "tr_dest";

/// The theme-override cookie. Its absence is the dark default.
pub const THEME_COOKIE: &'static str = "tr_theme";

/// The value one `;`-separated pair holds for `name`: the pair, trimmed,
/// minus its leading `name=`.
pub open spec fn pair_value(pair: Seq<char>, name: Seq<char>) -> Option<Seq<char>> {
    let t = trimmed(pair);
    let key = name.push('=');
    if starts_with(t, key) {
        Some(t.skip(key.len() as int))
    } else {
        None
    }
}

/// The value of the first pair that holds `name`.
pub open spec fn first_value(pairs: Seq<Seq<char>>, name: Seq<char>) -> Option<Seq<char>>
    decreases pairs.len(),
{
    if pairs.len() == 0 {
        None
    } else {
        match first_value(pairs.drop_last(), name) {
            Some(v) => Some(v),
            None => pair_value(pairs.last(), name),
        }
    }
}

/// The value a `Cookie` header's text holds for `name`.
pub open spec fn cookie_value_spec(cookies: Seq<char>, name: Seq<char>) -> Option<Seq<char>> {
    first_value(split_on(cookies, ';'), name)
}

/// Reads the cookie `name` out of a `Cookie` header's text: the first pair
/// that holds it wins.
pub fn cookie_value(cookies: &str, name: &str) -> (v: Option<Vec<char>>)
    ensures
        match v {
            Some(x) => cookie_value_spec(cookies@, name@) == Some(x@),
            None => cookie_value_spec(cookies@, name@) is None,
        },
{
    let cs = chars_of(cookies);
    let pieces = split_chars(cs.as_slice(), ';');
    let ghost ps = pieces@.map_values(|p: Vec<char>| p@);
    let mut key = chars_of(name);
    key.push('=');
    let mut i: usize = 0;
    while i < pieces.len()
        invariant
            i <= pieces@.len(),
            ps == pieces@.map_values(|p: Vec<char>| p@),
            ps == split_on(cookies@, ';'),
            key@ == name@.push('='),
            first_value(ps.take(i as int), name@) is None,
        decreases pieces@.len() - i,
    {
        proof {
            assert(ps.take(i + 1).drop_last() =~= ps.take(i as int));
            assert(ps.take(i + 1).last() == pieces@[i as int]@);
        }
        let t = trim_chars(pieces[i].as_slice());
        if has_prefix(t.as_slice(), key.as_slice()) {
            let v = suffix_from(t.as_slice(), key.len());
            proof {
                lemma_first_value_prefix(ps, i + 1, name@);
            }
            return Some(v);
        }
        i = i + 1;
    }
    proof {
        assert(ps.take(ps.len() as int) =~= ps);
    }
    None
}

/// A value found among the first pairs is the value of them all.
proof fn lemma_first_value_prefix(pairs: Seq<Seq<char>>, n: int, name: Seq<char>)
    requires
        0 <= n <= pairs.len(),
        first_value(pairs.take(n), name) is Some,
    ensures
        first_value(pairs, name) == first_value(pairs.take(n), name),
    decreases pairs.len(),
{
    if pairs.len() == n {
        assert(pairs.take(n) =~= pairs);
    } else {
        assert(pairs.drop_last().take(n) =~= pairs.take(n));
        lemma_first_value_prefix(pairs.drop_last(), n, name);
    }
}

/// The destination a `Cookie` header's text remembers: the `tr_dest` value
/// read as an id.
pub open spec fn destination_in(cookies: Seq<char>) -> Option<Id> {
    match cookie_value_spec(cookies, "tr_dest"@) {
        Some(v) => parse_uuid(v),
        None => None,
    }
}

/// Reads the remembered destination out of a `Cookie` header's text. A
/// `tr_dest` value that is not an id remembers nothing.
pub fn destination_in_cookies(cookies: &str) -> (id: Option<Id>)
    ensures
        id == destination_in(cookies@),
{
    proof {
        reveal_strlit("tr_dest");
    }
    match cookie_value(cookies, DEST_COOKIE) {
        Some(v) => {
            let s = string_of(v.as_slice());
            uuid_parse(s.as_str())
        },
        None => None,
    }
}

/// The first of several `Cookie` headers that remembers a destination.
pub open spec fn destination_in_headers(headers: Seq<Seq<char>>) -> Option<Id>
    decreases headers.len(),
{
    if headers.len() == 0 {
        None
    } else {
        match destination_in_headers(headers.drop_last()) {
            Some(id) => Some(id),
            None => destination_in(headers.last()),
        }
    }
}

/// The remembered destination, read from the request's `Cookie` headers in
/// order (on the server) or from the document's one cookie string (in the
/// browser): the first header that names an id wins.
pub fn stored_destination_id(headers: &Vec<String>) -> (id: Option<Id>)
    ensures
        id == destination_in_headers(headers@.map_values(|h: String| h@)),
{
    let ghost hs = headers@.map_values(|h: String| h@);
    let mut i: usize = 0;
    while i < headers.len()
        invariant
            i <= headers@.len(),
            hs == headers@.map_values(|h: String| h@),
            destination_in_headers(hs.take(i as int)) is None,
        decreases headers@.len() - i,
    {
        proof {
            assert(hs.take(i + 1).drop_last() =~= hs.take(i as int));
            assert(hs.take(i + 1).last() == headers@[i as int]@);
        }
        let found = destination_in_cookies(headers[i].as_str());
        if found.is_some() {
            proof {
                lemma_headers_prefix(hs, i + 1);
            }
            return found;
        }
        i = i + 1;
    }
    proof {
        assert(hs.take(hs.len() as int) =~= hs);
    }
    None
}

proof fn lemma_headers_prefix(hs: Seq<Seq<char>>, n: int)
    requires
        0 <= n <= hs.len(),
        destination_in_headers(hs.take(n)) is Some,
    ensures
        destination_in_headers(hs) == destination_in_headers(hs.take(n)),
    decreases hs.len(),
{
    if hs.len() == n {
        assert(hs.take(n) =~= hs);
    } else {
        assert(hs.drop_last().take(n) =~= hs.take(n));
        lemma_headers_prefix(hs.drop_last(), n);
    }
}

/// The `Set-Cookie` value that remembers a destination for a year.
pub open spec fn destination_cookie_spec(id: Id) -> Seq<char> {
    "tr_dest="@ + hyphenated(id) + "; Path=/; Max-Age=31536000; SameSite=Lax"@
}

/// Writes the `Set-Cookie` value that remembers a destination.
pub fn destination_cookie(id: Id) -> (c: String)
    ensures
        c@ == destination_cookie_spec(id),
{
    let mut c = String::new();
    push_str(&mut c, "tr_dest=");
    let t = uuid_text(id);
    push_str(&mut c, t.as_str());
    push_str(&mut c, "; Path=/; Max-Age=31536000; SameSite=Lax");
    proof {
        assert(c@ =~= destination_cookie_spec(id));
    }
    c
}

/// What a `Cookie` header's text says of the theme: `Some(dark)` when it
/// holds `tr_theme` (anything but `light` is dark), `None` when it does not.
pub open spec fn theme_in(cookies: Seq<char>) -> Option<bool> {
    match cookie_value_spec(cookies, "tr_theme"@) {
        Some(v) => Some(v != "light"@),
        None => None,
    }
}

/// Reads the theme override out of a `Cookie` header's text.
pub fn theme_in_cookies(cookies: &str) -> (dark: Option<bool>)
    ensures
        dark == theme_in(cookies@),
{
    proof {
        reveal_strlit("tr_theme");
    }
    match cookie_value(cookies, THEME_COOKIE) {
        Some(v) => {
            let light = chars_of("light");
            Some(!crate::text::chars_equal(v.as_slice(), light.as_slice()))
        },
        None => None,
    }
}

/// The first of several `Cookie` headers that says something of the theme.
pub open spec fn theme_in_headers(headers: Seq<Seq<char>>) -> Option<bool>
    decreases headers.len(),
{
    if headers.len() == 0 {
        None
    } else {
        match theme_in_headers(headers.drop_last()) {
            Some(d) => Some(d),
            None => theme_in(headers.last()),
        }
    }
}

/// Is the theme dark? The first `Cookie` header that holds `tr_theme`
/// decides; with none, dark is the default.
pub fn cookie_theme_is_dark(headers: &Vec<String>) -> (dark: bool)
    ensures
        dark == match theme_in_headers(headers@.map_values(|h: String| h@)) {
            Some(d) => d,
            None => true,
        },
{
    let ghost hs = headers@.map_values(|h: String| h@);
    let mut i: usize = 0;
    while i < headers.len()
        invariant
            i <= headers@.len(),
            hs == headers@.map_values(|h: String| h@),
            theme_in_headers(hs.take(i as int)) is None,
        decreases headers@.len() - i,
    {
        proof {
            assert(hs.take(i + 1).drop_last() =~= hs.take(i as int));
            assert(hs.take(i + 1).last() == headers@[i as int]@);
        }
        match theme_in_cookies(headers[i].as_str()) {
            Some(d) => {
                proof {
                    lemma_theme_headers_prefix(hs, i + 1);
                }
                return d;
            },
            None => {},
        }
        i = i + 1;
    }
    proof {
        assert(hs.take(hs.len() as int) =~= hs);
    }
    true
}

proof fn lemma_theme_headers_prefix(hs: Seq<Seq<char>>, n: int)
    requires
        0 <= n <= hs.len(),
        theme_in_headers(hs.take(n)) is Some,
    ensures
        theme_in_headers(hs) == theme_in_headers(hs.take(n)),
    decreases hs.len(),
{
    if hs.len() == n {
        assert(hs.take(n) =~= hs);
    } else {
        assert(hs.drop_last().take(n) =~= hs.take(n));
        lemma_theme_headers_prefix(hs.drop_last(), n);
    }
}

/// The `Set-Cookie` value that stores a theme choice for a year.
pub open spec fn theme_cookie_spec(dark: bool) -> Seq<char> {
    "tr_theme="@ + (if dark {
        "dark"@
    } else {
        "light"@
    }) + "; Path=/; Max-Age=31536000; SameSite=Lax"@
}

/// Writes the `Set-Cookie` value that stores a theme choice.
pub fn theme_cookie(dark: bool) -> (c: String)
    ensures
        c@ == theme_cookie_spec(dark),
{
    let mut c = String::new();
    push_str(&mut c, "tr_theme=");
    push_str(
        &mut c,
        if dark {
            "dark"
        } else {
            "light"
        },
    );
    push_str(&mut c, "; Path=/; Max-Age=31536000; SameSite=Lax");
    proof {
        assert(c@ =~= theme_cookie_spec(dark));
    }
    c
}


// --------------------------------------------------------------- the laws --

/// The first pair holds the value when it holds the name.
proof fn lemma_first_pair_decides(pairs: Seq<Seq<char>>, name: Seq<char>)
    requires
        pairs.len() >= 1,
        pair_value(pairs[0], name) is Some,
    ensures
        first_value(pairs, name) == pair_value(pairs[0], name),
{
    let first = pairs.take(1);
    assert(first.drop_last() =~= Seq::<Seq<char>>::empty());
    assert(first_value(first.drop_last(), name) is None);
    assert(first.last() == pairs[0]);
    assert(first_value(first, name) == pair_value(pairs[0], name));
    lemma_first_value_prefix(pairs, 1, name);
}

/// A cookie written as `name=value` ahead of its attributes reads back as
/// `value`, when neither holds `;` and the pair has no whitespace at its ends.
proof fn lemma_written_pair_reads_back(name: Seq<char>, value: Seq<char>, rest: Seq<char>)
    requires
        name.len() > 0,
        value.len() > 0,
        forall|j: int| 0 <= j < name.len() ==> #[trigger] name[j] != ';',
        forall|j: int| 0 <= j < value.len() ==> #[trigger] value[j] != ';',
        !white_space(name[0]),
        !white_space(value.last()),
        rest.len() > 0,
        rest[0] == ';',
    ensures
        cookie_value_spec(name.push('=') + value + rest, name) == Some(value),
{
    let pair = name.push('=') + value;
    let s = pair + rest;
    assert forall|j: int| 0 <= j < pair.len() implies s[j] != ';' by {
        if j < name.len() {
            assert(s[j] == name[j]);
        } else if j > name.len() {
            assert(s[j] == value[j - name.len() - 1]);
        }
    }
    lemma_split_first_piece(s, ';', pair.len() as int);
    assert(s.take(pair.len() as int) =~= pair);
    assert(pair[0] == name[0]);
    assert(pair.last() == value.last());
    lemma_trimmed_unchanged(pair);
    assert(pair.take(name.push('=').len() as int) =~= name.push('='));
    assert(pair.skip(name.push('=').len() as int) =~= value);
    lemma_first_pair_decides(split_on(s, ';'), name);
}

/// The destination a written cookie remembers is the one it was written
/// for: [`destination_cookie`] read back by [`destination_in_cookies`].
pub proof fn law_a_remembered_destination_reads_back(id: Id)
    ensures
        destination_in(destination_cookie_spec(id)) == Some(id),
{
    reveal_strlit("tr_dest");
    reveal_strlit("tr_dest=");
    reveal_strlit("; Path=/; Max-Age=31536000; SameSite=Lax");
    lemma_hyphenated_shape(id);
    let h = hyphenated(id);
    assert forall|j: int| 0 <= j < h.len() implies #[trigger] h[j] != ';' by {
        assert(h[j] == '-' || is_hex(h[j]));
    }
    assert(h.last() == h[35]);
    assert(h[35] == '-' || is_hex(h[35]));
    let rest = "; Path=/; Max-Age=31536000; SameSite=Lax"@;
    assert("tr_dest="@ =~= "tr_dest"@.push('='));
    lemma_written_pair_reads_back("tr_dest"@, h, rest);
    assert(destination_cookie_spec(id) =~= "tr_dest"@.push('=') + h + rest);
    law_an_id_reads_back_as_itself(id);
}

/// The theme a written cookie stores is the one read back: dark as dark,
/// light as light.
pub proof fn law_a_stored_theme_reads_back(dark: bool)
    ensures
        theme_in(theme_cookie_spec(dark)) == Some(dark),
{
    reveal_strlit("tr_theme");
    reveal_strlit("tr_theme=");
    reveal_strlit("dark");
    reveal_strlit("light");
    reveal_strlit("; Path=/; Max-Age=31536000; SameSite=Lax");
    let v = if dark {
        "dark"@
    } else {
        "light"@
    };
    let rest = "; Path=/; Max-Age=31536000; SameSite=Lax"@;
    assert("tr_theme="@ =~= "tr_theme"@.push('='));
    assert(v.last() == v[v.len() - 1]);
    lemma_written_pair_reads_back("tr_theme"@, v, rest);
    assert(theme_cookie_spec(dark) =~= "tr_theme"@.push('=') + v + rest);
    if dark {
        assert("dark"@.len() != "light"@.len());
    }
}

} // verus!
