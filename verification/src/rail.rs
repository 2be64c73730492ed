//! The catalog filter rail's pure half: which widget owns which term of a
//! query, what the widgets show, and how one widget's edit rewrites the query.
//!
//! The query text stays canonical: the rail is a view over its terms. A rail
//! edit rewrites its own term, in the place that term held, and re-emits
//! every other term exactly as it was typed. The terms come in already read
//! by the search grammar, each with the text it was read from.

use vstd::prelude::*;
use vstd::string::StringSliceAdditionalSpecFns;

use crate::catalog::{catalog_url, url_parts, with_query};
use crate::text::{
    ascii_lowercase_chars, ascii_lowered, chars_of, copy_chars, copy_strings, join_words, joined,
    push_char, push_str, same_text, split_chars, split_on, string_of, texts, trim_chars, trim_text,
    trimmed,
};

verus! {

// ------------------------------------------------------------- the terms --

/// A numeric comparison of the grammar.
#[derive(Debug, Clone, Copy, PartialEq, Eq, Structural)]
pub enum Cmp {
    Eq,
    Lt,
    Le,
    Gt,
    Ge,
}

/// What a term filters on, as the grammar reads it. A mana value is held by
/// the bits of its number, which is how it is told apart and found again.
#[derive(Debug, Clone, PartialEq, Eq)]
pub enum Pred {
    /// A card-name word or phrase. `bare` says whether the value, written as
    /// it is, reads back as this same name term (no space, no key, no
    /// leading `-`).
    Name { value: String, bare: bool },
    OracleText(String),
    SetCodes(Vec<String>),
    TypeLine(Vec<String>),
    Rarity(Vec<String>),
    Colors(Vec<char>),
    Colorless,
    ManaValue(Cmp, u64),
    Identity(Vec<char>),
}

/// A term: its predicate, possibly negated.
#[derive(Debug, Clone, PartialEq, Eq)]
pub struct Term {
    pub negated: bool,
    pub pred: Pred,
}

/// A term together with the exact text it was read from.
#[derive(Debug, Clone, PartialEq, Eq)]
pub struct Token {
    pub raw: String,
    pub term: Term,
}

/// The rail's widgets, one per field, and the unit a rail edit replaces.
#[derive(Debug, Clone, Copy, PartialEq, Eq, Structural)]
pub enum Field {
    Name,
    Text,
    SetCodes,
    Color,
    Type,
    Rarity,
    ManaValue,
}

/// Which widget owns a term. Negated terms belong to no widget (none has a
/// "not" affordance), and neither does a color-identity term.
pub open spec fn field_spec(term: Term) -> Option<Field> {
    if term.negated {
        None
    } else {
        match term.pred {
            Pred::Name { .. } => Some(Field::Name),
            Pred::OracleText(_) => Some(Field::Text),
            Pred::SetCodes(_) => Some(Field::SetCodes),
            Pred::TypeLine(_) => Some(Field::Type),
            Pred::Rarity(_) => Some(Field::Rarity),
            Pred::Colors(_) => Some(Field::Color),
            Pred::Colorless => Some(Field::Color),
            Pred::ManaValue(..) => Some(Field::ManaValue),
            Pred::Identity(_) => None,
        }
    }
}

/// Which widget owns a term, if any.
pub fn field_of(term: &Term) -> (f: Option<Field>)
    ensures
        f == field_spec(*term),
{
    if term.negated {
        return None;
    }
    match term.pred {
        Pred::Name { .. } => Some(Field::Name),
        Pred::OracleText(_) => Some(Field::Text),
        Pred::SetCodes(_) => Some(Field::SetCodes),
        Pred::TypeLine(_) => Some(Field::Type),
        Pred::Rarity(_) => Some(Field::Rarity),
        Pred::Colors(_) | Pred::Colorless => Some(Field::Color),
        Pred::ManaValue(..) => Some(Field::ManaValue),
        Pred::Identity(_) => None,
    }
}

/// Does this field own every term of its kind, or only the first? Only the
/// name box owns a run: bare words are together what it holds. A keyed
/// facet owns its first term; a repeat of its key is an AND that its one
/// widget cannot show, so the repeat stays hand-written text.
pub fn owns_every_match(field: Field) -> (every: bool)
    ensures
        every == (field == Field::Name),
{
    field == Field::Name
}

/// Is `t` a term of `field`?
pub open spec fn is_of(t: Token, field: Field) -> bool {
    field_spec(t.term) == Some(field)
}

/// The position of the first term that `field` owns, if it has one.
pub open spec fn first_owned(ts: Seq<Token>, field: Field) -> Option<int>
    decreases ts.len(),
{
    if ts.len() == 0 {
        None
    } else {
        match first_owned(ts.drop_last(), field) {
            Some(i) => Some(i),
            None => if is_of(ts.last(), field) {
                Some(ts.len() - 1)
            } else {
                None
            },
        }
    }
}

/// A first term found in a prefix is the first term of the whole.
proof fn lemma_first_owned_prefix(ts: Seq<Token>, n: int, field: Field)
    requires
        0 <= n <= ts.len(),
        first_owned(ts.take(n), field) is Some,
    ensures
        first_owned(ts, field) == first_owned(ts.take(n), field),
    decreases ts.len(),
{
    if ts.len() == n {
        assert(ts.take(n) =~= ts);
    } else {
        assert(ts.drop_last().take(n) =~= ts.take(n));
        lemma_first_owned_prefix(ts.drop_last(), n, field);
    }
}

/// What the first term of a field is, read off a prefix.
proof fn lemma_first_owned_step(ts: Seq<Token>, i: int, field: Field)
    requires
        0 <= i < ts.len(),
    ensures
        first_owned(ts.take(i + 1), field) == match first_owned(ts.take(i), field) {
            Some(j) => Some(j),
            None => if is_of(ts[i], field) {
                Some(i)
            } else {
                None
            },
        },
{
    assert(ts.take(i + 1).drop_last() =~= ts.take(i));
}

/// Where a first term stands, and that none of its field comes before it.
proof fn lemma_first_owned_is_first(ts: Seq<Token>, field: Field)
    ensures
        match first_owned(ts, field) {
            Some(i) => 0 <= i < ts.len() && is_of(ts[i], field) && first_owned(ts.take(i), field)
                is None,
            None => forall|j: int| 0 <= j < ts.len() ==> !is_of(#[trigger] ts[j], field),
        },
    decreases ts.len(),
{
    if ts.len() > 0 {
        lemma_first_owned_is_first(ts.drop_last(), field);
        match first_owned(ts.drop_last(), field) {
            Some(i) => {
                assert(ts.drop_last().take(i) =~= ts.take(i));
            },
            None => {
                assert(ts.take(ts.len() - 1) =~= ts.drop_last());
                assert forall|j: int| 0 <= j < ts.len() - 1 implies !is_of(#[trigger] ts[j], field) by {
                    assert(ts[j] == ts.drop_last()[j]);
                }
            },
        }
    }
}

/// The position of the first term `field` owns.
pub fn find_first(tokens: &[Token], field: Field) -> (r: Option<usize>)
    ensures
        match r {
            Some(i) => i < tokens@.len() && first_owned(tokens@, field) == Some(i as int),
            None => first_owned(tokens@, field) is None,
        },
{
    let mut i: usize = 0;
    while i < tokens.len()
        invariant
            i <= tokens@.len(),
            first_owned(tokens@.take(i as int), field) is None,
        decreases tokens@.len() - i,
    {
        proof {
            lemma_first_owned_step(tokens@, i as int, field);
        }
        let hit = match field_of(&tokens[i].term) {
            Some(f) => f == field,
            None => false,
        };
        if hit {
            proof {
                lemma_first_owned_prefix(tokens@, i + 1, field);
            }
            return Some(i);
        }
        i = i + 1;
    }
    proof {
        assert(tokens@.take(tokens@.len() as int) =~= tokens@);
    }
    None
}

// ------------------------------------------------------------- the names --

/// `s` without its double quotes.
pub open spec fn unquoted(s: Seq<char>) -> Seq<char>
    decreases s.len(),
{
    if s.len() == 0 {
        Seq::empty()
    } else if s.last() == '"' {
        unquoted(s.drop_last())
    } else {
        unquoted(s.drop_last()).push(s.last())
    }
}

/// `s` in double quotes, its own quotes dropped: it can only read as one
/// name phrase.
pub open spec fn quoted(s: Seq<char>) -> Seq<char> {
    seq!['"'] + unquoted(s) + seq!['"']
}

/// Quotes unconditionally, so that the result can only read as a name term.
pub fn force_quote(s: &str) -> (q: String)
    ensures
        q@ == quoted(s@),
{
    let cs = chars_of(s);
    quote_chars(&cs)
}

fn quote_chars(cs: &Vec<char>) -> (q: String)
    ensures
        q@ == quoted(cs@),
{
    let mut q = String::new();
    push_char(&mut q, '"');
    let mut i: usize = 0;
    while i < cs.len()
        invariant
            i <= cs@.len(),
            q@ == seq!['"'] + unquoted(cs@.take(i as int)),
        decreases cs@.len() - i,
    {
        proof {
            assert(cs@.take(i + 1).drop_last() =~= cs@.take(i as int));
        }
        if cs[i] != '"' {
            push_char(&mut q, cs[i]);
        }
        i = i + 1;
    }
    push_char(&mut q, '"');
    proof {
        assert(cs@.take(cs@.len() as int) =~= cs@);
    }
    q
}

/// What the name box shows for one name term: its value as it is when that
/// reads back as the same term, else quoted.
pub open spec fn name_shown(value: Seq<char>, bare: bool) -> Seq<char> {
    if bare {
        value
    } else {
        quoted(value)
    }
}

/// The words the name box shows for one token.
pub open spec fn name_word(t: Token) -> Seq<Seq<char>> {
    if is_of(t, Field::Name) {
        match t.term.pred {
            Pred::Name { value, bare } => seq![name_shown(value@, bare)],
            _ => Seq::empty(),
        }
    } else {
        Seq::empty()
    }
}

/// The words the name box shows: one per non-negated name term, in order.
pub open spec fn name_words(ts: Seq<Token>) -> Seq<Seq<char>>
    decreases ts.len(),
{
    if ts.len() == 0 {
        Seq::empty()
    } else {
        name_words(ts.drop_last()) + name_word(ts.last())
    }
}

/// Serializes one name value into the token the box shows.
pub fn name_token(value: &str, bare: bool) -> (t: String)
    ensures
        t@ == name_shown(value@, bare),
{
    if bare {
        String::from_str(value)
    } else {
        force_quote(value)
    }
}

fn name_run(tokens: &[Token]) -> (words: Vec<String>)
    ensures
        texts(words@) == name_words(tokens@),
{
    let mut words: Vec<String> = Vec::new();
    let mut i: usize = 0;
    while i < tokens.len()
        invariant
            i <= tokens@.len(),
            texts(words@) == name_words(tokens@.take(i as int)),
        decreases tokens@.len() - i,
    {
        let ghost before = words@;
        proof {
            assert(tokens@.take(i + 1).drop_last() =~= tokens@.take(i as int));
            assert(tokens@.take(i + 1).last() == tokens@[i as int]);
        }
        let t = &tokens[i];
        if !t.term.negated {
            if let Pred::Name { value, bare } = &t.term.pred {
                words.push(name_token(value.as_str(), *bare));
                proof {
                    assert(texts(words@) =~= texts(before) + name_word(tokens@[i as int]));
                }
            }
        }
        proof {
            assert(texts(words@) =~= name_words(tokens@.take(i as int)) + name_word(
                tokens@[i as int],
            ));
        }
        i = i + 1;
    }
    proof {
        assert(tokens@.take(tokens@.len() as int) =~= tokens@);
    }
    words
}

// ------------------------------------------------------- the rail's state --

/// Everything the rail's widgets show, as values.
pub struct RailView {
    pub name: Seq<char>,
    pub text: Seq<char>,
    pub set: Seq<char>,
    pub colors: Seq<char>,
    pub colorless: bool,
    pub types: Seq<Seq<char>>,
    pub rarities: Seq<Seq<char>>,
    pub mana_value: Option<(Cmp, u64)>,
}

/// Everything the rail's widgets show, read out of a query.
#[derive(Debug, Clone, PartialEq)]
pub struct RailState {
    /// The bare-word run, re-joined as the box shows it.
    pub name: String,
    pub text: String,
    /// Set codes as one comma-joined string: the widget is a text field.
    pub set: String,
    pub colors: Vec<char>,
    /// `c:colorless`: a color filter with no checkbox, kept so it counts.
    pub colorless: bool,
    pub types: Vec<String>,
    pub rarities: Vec<String>,
    pub mana_value: Option<(Cmp, u64)>,
}

impl View for RailState {
    type V = RailView;

    open spec fn view(&self) -> RailView {
        RailView {
            name: self.name@,
            text: self.text@,
            set: self.set@,
            colors: self.colors@,
            colorless: self.colorless,
            types: texts(self.types@),
            rarities: texts(self.rarities@),
            mana_value: self.mana_value,
        }
    }
}

/// The rail with nothing in it.
pub open spec fn empty_rail() -> RailView {
    RailView {
        name: Seq::empty(),
        text: Seq::empty(),
        set: Seq::empty(),
        colors: Seq::empty(),
        colorless: false,
        types: Seq::empty(),
        rarities: Seq::empty(),
        mana_value: None,
    }
}

impl Default for RailState {
    fn default() -> (st: RailState)
        ensures
            st@ == empty_rail(),
    {
        let st = RailState {
            name: String::new(),
            text: String::new(),
            set: String::new(),
            colors: Vec::new(),
            colorless: false,
            types: Vec::new(),
            rarities: Vec::new(),
            mana_value: None,
        };
        proof {
            assert(texts(st.types@) =~= Seq::empty());
            assert(texts(st.rarities@) =~= Seq::empty());
        }
        st
    }
}

/// The predicate of the first term `field` owns.
pub open spec fn owned_pred(ts: Seq<Token>, field: Field) -> Option<Pred> {
    match first_owned(ts, field) {
        Some(i) => Some(ts[i].term.pred),
        None => None,
    }
}

/// What the widgets show: the name box every name term, each keyed facet
/// its first term only.
pub open spec fn read_spec(ts: Seq<Token>) -> RailView {
    RailView {
        name: joined(name_words(ts), " "@),
        text: match owned_pred(ts, Field::Text) {
            Some(Pred::OracleText(v)) => v@,
            _ => Seq::empty(),
        },
        set: match owned_pred(ts, Field::SetCodes) {
            Some(Pred::SetCodes(codes)) => joined(texts(codes@), ","@),
            _ => Seq::empty(),
        },
        colors: match owned_pred(ts, Field::Color) {
            Some(Pred::Colors(cs)) => cs@,
            _ => Seq::empty(),
        },
        colorless: owned_pred(ts, Field::Color) == Some(Pred::Colorless),
        types: match owned_pred(ts, Field::Type) {
            Some(Pred::TypeLine(vals)) => texts(vals@),
            _ => Seq::empty(),
        },
        rarities: match owned_pred(ts, Field::Rarity) {
            Some(Pred::Rarity(vals)) => texts(vals@),
            _ => Seq::empty(),
        },
        mana_value: match owned_pred(ts, Field::ManaValue) {
            Some(Pred::ManaValue(c, n)) => Some((c, n)),
            _ => None,
        },
    }
}

/// Reads a query's terms into rail state. A repeated facet key shows its
/// first term only; the rest stay hand-written text.
pub fn read(tokens: &[Token]) -> (st: RailState)
    ensures
        st@ == read_spec(tokens@),
{
    let names = name_run(tokens);
    let name = join_words(&names, " ");
    let text = match find_first(tokens, Field::Text) {
        Some(i) => match &tokens[i].term.pred {
            Pred::OracleText(v) => v.clone(),
            _ => String::new(),
        },
        None => String::new(),
    };
    let set = match find_first(tokens, Field::SetCodes) {
        Some(i) => match &tokens[i].term.pred {
            Pred::SetCodes(codes) => join_words(codes, ","),
            _ => String::new(),
        },
        None => String::new(),
    };
    let (colors, colorless) = match find_first(tokens, Field::Color) {
        Some(i) => match &tokens[i].term.pred {
            Pred::Colors(cs) => (copy_chars(cs), false),
            Pred::Colorless => (Vec::new(), true),
            _ => (Vec::new(), false),
        },
        None => (Vec::new(), false),
    };
    let types = match find_first(tokens, Field::Type) {
        Some(i) => match &tokens[i].term.pred {
            Pred::TypeLine(vals) => copy_strings(vals),
            _ => Vec::new(),
        },
        None => Vec::new(),
    };
    let rarities = match find_first(tokens, Field::Rarity) {
        Some(i) => match &tokens[i].term.pred {
            Pred::Rarity(vals) => copy_strings(vals),
            _ => Vec::new(),
        },
        None => Vec::new(),
    };
    let mana_value = match find_first(tokens, Field::ManaValue) {
        Some(i) => match &tokens[i].term.pred {
            Pred::ManaValue(c, n) => Some((*c, *n)),
            _ => None,
        },
        None => None,
    };
    let st = RailState { name, text, set, colors, colorless, types, rarities, mana_value };
    proof {
        assert(texts(Seq::<String>::empty()) =~= Seq::empty());
        assert(st@ == read_spec(tokens@));
    }
    st
}


// ---------------------------------------------------------- the rewriting --

/// A replacement's text, if there is one.
pub open spec fn opt_text(o: Option<String>) -> Option<Seq<char>> {
    match o {
        Some(r) => Some(r@),
        None => None,
    }
}

/// What an edit of `field` makes of the token at `i`: the field's first term
/// gives way to the replacement (or to nothing), a later name word goes with
/// the run it belonged to, and every other token stays exactly as typed.
pub open spec fn edited_word(ts: Seq<Token>, field: Field, repl: Option<Seq<char>>, i: int) -> Seq<
    Seq<char>,
> {
    if is_of(ts[i], field) && first_owned(ts.take(i), field) is None {
        match repl {
            Some(r) => seq![r],
            None => Seq::empty(),
        }
    } else if is_of(ts[i], field) && field == Field::Name {
        Seq::empty()
    } else {
        seq![ts[i].raw@]
    }
}

/// The words an edit of `field` leaves of the first `n` tokens.
pub open spec fn edited_words(ts: Seq<Token>, field: Field, repl: Option<Seq<char>>, n: nat) -> Seq<
    Seq<char>,
>
    decreases n,
{
    if n == 0 {
        Seq::empty()
    } else {
        edited_words(ts, field, repl, (n - 1) as nat) + edited_word(ts, field, repl, n - 1)
    }
}

/// The words of the rewritten query: each token as the edit leaves it, and
/// the replacement at the end when the field had no term to stand in for.
pub open spec fn rewrite_words(ts: Seq<Token>, field: Field, repl: Option<Seq<char>>) -> Seq<
    Seq<char>,
> {
    let words = edited_words(ts, field, repl, ts.len());
    match (first_owned(ts, field), repl) {
        (None, Some(r)) => words.push(r),
        _ => words,
    }
}

/// Replaces `field`'s term in the query with `replacement` (or removes it
/// when `None`), in the position the old term held, and leaves every other
/// token exactly as typed. Only what the widget showed is replaced: the
/// whole name run, or a facet's first term.
pub fn rewrite(tokens: &[Token], field: Field, replacement: Option<String>) -> (q: String)
    ensures
        q@ == joined(rewrite_words(tokens@, field, opt_text(replacement)), " "@),
{
    let ghost repl = opt_text(replacement);
    let mut out: Vec<String> = Vec::new();
    let mut placed = false;
    let mut i: usize = 0;
    while i < tokens.len()
        invariant
            i <= tokens@.len(),
            repl == opt_text(replacement),
            texts(out@) == edited_words(tokens@, field, repl, i as nat),
            placed == first_owned(tokens@.take(i as int), field) is Some,
        decreases tokens@.len() - i,
    {
        proof {
            lemma_first_owned_step(tokens@, i as int, field);
        }
        let ghost before = out@;
        let owned = match field_of(&tokens[i].term) {
            Some(f) => f == field,
            None => false,
        };
        if owned && (!placed || field == Field::Name) {
            if !placed {
                placed = true;
                match &replacement {
                    Some(r) => {
                        out.push(r.clone());
                    },
                    None => {},
                }
            }
        } else {
            out.push(tokens[i].raw.clone());
        }
        proof {
            assert(texts(out@) =~= texts(before) + edited_word(tokens@, field, repl, i as int));
        }
        i = i + 1;
    }
    proof {
        assert(tokens@.take(tokens@.len() as int) =~= tokens@);
    }
    if !placed {
        match replacement {
            Some(r) => {
                let ghost before = out@;
                out.push(r);
                proof {
                    assert(texts(out@) =~= texts(before).push(r@));
                }
            },
            None => {},
        }
    }
    join_words(&out, " ")
}

/// Does reset drop the token at `i`? Every name word goes, and the first
/// term of each keyed facet; everything else is not the rail's to clear.
pub open spec fn reset_drops(ts: Seq<Token>, i: int) -> bool {
    match field_spec(ts[i].term) {
        Some(f) => f == Field::Name || first_owned(ts.take(i), f) is None,
        None => false,
    }
}

/// The words reset leaves of the first `n` tokens.
pub open spec fn reset_words(ts: Seq<Token>, n: nat) -> Seq<Seq<char>>
    decreases n,
{
    if n == 0 {
        Seq::empty()
    } else {
        reset_words(ts, (n - 1) as nat) + if reset_drops(ts, n - 1) {
            Seq::empty()
        } else {
            seq![ts[n - 1].raw@]
        }
    }
}

fn has_field(seen: &Vec<Field>, f: Field) -> (r: bool)
    ensures
        r == seen@.contains(f),
{
    let mut i: usize = 0;
    while i < seen.len()
        invariant
            i <= seen@.len(),
            forall|j: int| 0 <= j < i ==> seen@[j] != f,
        decreases seen@.len() - i,
    {
        if seen[i] == f {
            return true;
        }
        i = i + 1;
    }
    false
}

/// Drops every term the rail owns (the name run and each facet's first
/// term) and keeps everything else: reset clears the filters, not the query.
pub fn reset(tokens: &[Token]) -> (q: String)
    ensures
        q@ == joined(reset_words(tokens@, tokens@.len()), " "@),
{
    let mut out: Vec<String> = Vec::new();
    let mut seen: Vec<Field> = Vec::new();
    let mut i: usize = 0;
    while i < tokens.len()
        invariant
            i <= tokens@.len(),
            texts(out@) == reset_words(tokens@, i as nat),
            forall|f: Field| #[trigger]
                seen@.contains(f) <==> first_owned(tokens@.take(i as int), f) is Some,
        decreases tokens@.len() - i,
    {
        assert forall|f: Field|
            #[trigger] first_owned(tokens@.take(i + 1), f) == match first_owned(
                tokens@.take(i as int),
                f,
            ) {
                Some(j) => Some(j),
                None => if is_of(tokens@[i as int], f) {
                    Some(i as int)
                } else {
                    None
                },
            } by {
            lemma_first_owned_step(tokens@, i as int, f);
        }
        let ghost before = out@;
        let ghost seen_before = seen@;
        let drop = match field_of(&tokens[i].term) {
            Some(f) => {
                let first = !has_field(&seen, f);
                if first {
                    seen.push(f);
                }
                f == Field::Name || first
            },
            None => false,
        };
        if !drop {
            out.push(tokens[i].raw.clone());
        }
        proof {
            assert(texts(out@) =~= reset_words(tokens@, (i + 1) as nat));
            assert forall|g: Field| #[trigger]
                seen@.contains(g) <==> first_owned(tokens@.take(i + 1), g) is Some by {
                if seen_before.contains(g) {
                    let j = choose|j: int| 0 <= j < seen_before.len() && seen_before[j] == g;
                    assert(seen@[j] == g);
                }
                if seen@.contains(g) && !seen_before.contains(g) {
                    let j = choose|j: int| 0 <= j < seen@.len() && seen@[j] == g;
                    if j < seen_before.len() {
                        assert(seen_before[j] == g);
                    }
                }
                if seen@.len() > seen_before.len() {
                    assert(seen@[seen@.len() - 1] == seen@.last());
                }
            }
        }
        i = i + 1;
    }
    proof {
        assert(tokens@.take(tokens@.len() as int) =~= tokens@);
    }
    join_words(&out, " ")
}

// ------------------------------------------------------------ the widgets --

/// One piece of the set field as a code: trimmed and ASCII lower-cased.
pub open spec fn set_code(piece: Seq<char>) -> Seq<char> {
    ascii_lowered(trimmed(piece))
}

/// The codes of the pieces, the blank ones dropped.
pub open spec fn set_codes_of(pieces: Seq<Seq<char>>) -> Seq<Seq<char>>
    decreases pieces.len(),
{
    if pieces.len() == 0 {
        Seq::empty()
    } else if set_code(pieces.last()).len() > 0 {
        set_codes_of(pieces.drop_last()).push(set_code(pieces.last()))
    } else {
        set_codes_of(pieces.drop_last())
    }
}

/// The codes a comma-separated set field holds.
pub open spec fn codes_in(s: Seq<char>) -> Seq<Seq<char>> {
    set_codes_of(split_on(s, ','))
}

/// Comma-splits a set field into codes, dropping blanks so that a comma
/// typed mid-word does not make a valueless term.
pub fn split_codes(s: &str) -> (codes: Vec<String>)
    ensures
        texts(codes@) == codes_in(s@),
{
    let cs = chars_of(s);
    let pieces = split_chars(cs.as_slice(), ',');
    let ghost ps = pieces@.map_values(|v: Vec<char>| v@);
    let mut codes: Vec<String> = Vec::new();
    let mut i: usize = 0;
    while i < pieces.len()
        invariant
            i <= pieces@.len(),
            ps == pieces@.map_values(|v: Vec<char>| v@),
            texts(codes@) == set_codes_of(ps.take(i as int)),
        decreases pieces@.len() - i,
    {
        proof {
            assert(ps.take(i + 1).drop_last() =~= ps.take(i as int));
            assert(ps.take(i + 1).last() == pieces@[i as int]@);
        }
        let t = trim_chars(pieces[i].as_slice());
        let low = ascii_lowercase_chars(t.as_slice());
        if low.len() > 0 {
            let ghost before = codes@;
            codes.push(string_of(low.as_slice()));
            proof {
                assert(texts(codes@) =~= texts(before).push(low@));
            }
        }
        i = i + 1;
    }
    proof {
        assert(ps.take(ps.len() as int) =~= ps);
    }
    codes
}

/// One when `b` holds, else none.
pub open spec fn flag(b: bool) -> nat {
    if b {
        1
    } else {
        0
    }
}

/// How many filters a widget group contributes: the section's badge.
pub open spec fn rail_count(v: RailView, field: Field) -> nat {
    match field {
        Field::Name => flag(v.name.len() > 0),
        Field::Text => flag(v.text.len() > 0),
        Field::SetCodes => codes_in(v.set).len(),
        Field::Color => v.colors.len() + flag(v.colorless),
        Field::Type => v.types.len(),
        Field::Rarity => v.rarities.len(),
        Field::ManaValue => flag(v.mana_value is Some),
    }
}

/// All active filters: the mobile filter button's badge.
pub open spec fn rail_total(v: RailView) -> nat {
    rail_count(v, Field::Name) + rail_count(v, Field::Text) + rail_count(v, Field::SetCodes)
        + rail_count(v, Field::Color) + rail_count(v, Field::Type) + rail_count(v, Field::Rarity)
        + rail_count(v, Field::ManaValue)
}

impl RailState {
    /// How many filters this widget group contributes.
    pub fn count(&self, field: Field) -> (n: usize)
        requires
            field == Field::Color ==> self.colors@.len() + flag(self.colorless) <= usize::MAX,
        ensures
            n == rail_count(self@, field),
    {
        match field {
            Field::Name => if self.name.unicode_len() > 0 {
                1
            } else {
                0
            },
            Field::Text => if self.text.unicode_len() > 0 {
                1
            } else {
                0
            },
            Field::SetCodes => {
                let codes = self.set_codes();
                proof {
                    assert(texts(codes@).len() == codes@.len());
                }
                codes.len()
            },
            Field::Color => self.colors.len() + if self.colorless {
                1
            } else {
                0
            },
            Field::Type => {
                proof {
                    assert(texts(self.types@).len() == self.types@.len());
                }
                self.types.len()
            },
            Field::Rarity => {
                proof {
                    assert(texts(self.rarities@).len() == self.rarities@.len());
                }
                self.rarities.len()
            },
            Field::ManaValue => if self.mana_value.is_some() {
                1
            } else {
                0
            },
        }
    }

    /// Total active filters.
    pub fn total(&self) -> (n: usize)
        requires
            rail_total(self@) <= usize::MAX,
        ensures
            n == rail_total(self@),
    {
        self.count(Field::Name) + self.count(Field::Text) + self.count(Field::SetCodes)
            + self.count(Field::Color) + self.count(Field::Type) + self.count(Field::Rarity)
            + self.count(Field::ManaValue)
    }

    /// The set field's codes.
    pub fn set_codes(&self) -> (codes: Vec<String>)
        ensures
            texts(codes@) == codes_in(self.set@),
    {
        split_codes(self.set.as_str())
    }
}

/// What the name box writes for one token of its text: a name word as it
/// was typed, anything else quoted so that it stays a name.
pub open spec fn name_box_word(t: Token) -> Seq<char> {
    if is_of(t, Field::Name) {
        t.raw@
    } else {
        quoted(t.raw@)
    }
}

/// The name box's text as terms, given how the grammar reads the trimmed
/// text (`None` when it rejects it, as with an unclosed quote mid-typing).
pub open spec fn name_terms_spec(text: Seq<char>, parsed: Option<Seq<Token>>) -> Option<Seq<char>> {
    if trimmed(text).len() == 0 {
        None
    } else {
        match parsed {
            None => Some(quoted(trimmed(text))),
            Some(ts) => if ts.len() == 0 {
                None
            } else {
                Some(joined(ts.map_values(|t: Token| name_box_word(t)), " "@))
            },
        }
    }
}

/// Serializes what the name box holds back into bare-word terms. Anything
/// that would read as a keyed term or a negation is quoted: typing
/// `t:instant` into the name box means a name holding that text. `parsed`
/// is the grammar's reading of the trimmed text.
pub fn name_terms(text: &str, parsed: Option<&[Token]>) -> (terms: Option<String>)
    ensures
        opt_text(terms) == name_terms_spec(
            text@,
            match parsed {
                Some(ts) => Some(ts@),
                None => None,
            },
        ),
{
    let t = trim_text(text);
    if t.len() == 0 {
        return None;
    }
    match parsed {
        None => Some(quote_chars(&t)),
        Some(tokens) => {
            if tokens.len() == 0 {
                return None;
            }
            let ghost ws = tokens@.map_values(|tok: Token| name_box_word(tok));
            let mut out: Vec<String> = Vec::new();
            let mut i: usize = 0;
            while i < tokens.len()
                invariant
                    i <= tokens@.len(),
                    ws == tokens@.map_values(|tok: Token| name_box_word(tok)),
                    texts(out@) == ws.take(i as int),
                decreases tokens@.len() - i,
            {
                let tok = &tokens[i];
                let w = if !tok.term.negated && matches!(tok.term.pred, Pred::Name { .. }) {
                    tok.raw.clone()
                } else {
                    force_quote(tok.raw.as_str())
                };
                let ghost before = out@;
                out.push(w);
                proof {
                    assert(texts(out@) =~= texts(before).push(w@));
                    assert(ws.take(i + 1) =~= ws.take(i as int).push(ws[i as int]));
                }
                i = i + 1;
            }
            proof {
                assert(ws.take(ws.len() as int) =~= ws);
            }
            Some(join_words(&out, " "))
        },
    }
}

/// The color facet's term: the letters concatenated (`c:ur`), since `c:`
/// means "has all of these"; no term when nothing is checked.
pub fn color_term(vals: &[String]) -> (term: Option<String>)
    ensures
        terms_match(term, vals@),
{
    if vals.len() == 0 {
        return None;
    }
    let mut s = String::new();
    push_str(&mut s, "c:");
    let mut i: usize = 0;
    while i < vals.len()
        invariant
            i <= vals@.len(),
            s@ == "c:"@ + joined(texts(vals@.take(i as int)), Seq::empty()),
        decreases vals@.len() - i,
    {
        proof {
            assert(texts(vals@.take(i + 1)).drop_last() =~= texts(vals@.take(i as int)));
            if i == 0 {
                assert(texts(vals@.take(1)) =~= seq![vals@[0]@]);
            }
        }
        push_str(&mut s, vals[i].as_str());
        proof {
            assert(s@ =~= "c:"@ + joined(texts(vals@.take(i + 1)), Seq::empty()));
        }
        i = i + 1;
    }
    proof {
        assert(vals@.take(vals@.len() as int) =~= vals@);
    }
    Some(s)
}

/// The color term for the checked letters.
pub open spec fn terms_match(term: Option<String>, vals: Seq<String>) -> bool {
    if vals.len() == 0 {
        term is None
    } else {
        term is Some && term->0@ == "c:"@ + joined(texts(vals), Seq::empty())
    }
}

/// The comparison a mana-value selector shows: `<`, `<=`, `>`, `>=`, and
/// equality for anything else.
pub open spec fn cmp_of(s: Seq<char>) -> Cmp {
    if s == "<"@ {
        Cmp::Lt
    } else if s == "<="@ {
        Cmp::Le
    } else if s == ">"@ {
        Cmp::Gt
    } else if s == ">="@ {
        Cmp::Ge
    } else {
        Cmp::Eq
    }
}

/// Reads the mana-value selector's operator.
pub fn cmp_from_str(s: &str) -> (c: Cmp)
    ensures
        c == cmp_of(s@),
{
    if same_text(s, "<") {
        Cmp::Lt
    } else if same_text(s, "<=") {
        Cmp::Le
    } else if same_text(s, ">") {
        Cmp::Gt
    } else if same_text(s, ">=") {
        Cmp::Ge
    } else {
        Cmp::Eq
    }
}

/// The selector's text for a comparison.
pub open spec fn cmp_text(c: Cmp) -> Seq<char> {
    match c {
        Cmp::Eq => "="@,
        Cmp::Lt => "<"@,
        Cmp::Le => "<="@,
        Cmp::Gt => ">"@,
        Cmp::Ge => ">="@,
    }
}

/// Writes a comparison for the selector.
pub fn cmp_to_str(c: Cmp) -> (s: &'static str)
    ensures
        s@ == cmp_text(c),
{
    match c {
        Cmp::Eq => "=",
        Cmp::Lt => "<",
        Cmp::Le => "<=",
        Cmp::Gt => ">",
        Cmp::Ge => ">=",
    }
}


// ------------------------------------------------------------ navigation --

/// Where a rail edit navigates, and whether it replaces the history entry:
/// the rewritten query keeps the page's view, drops any cursor or page, and
/// replaces the entry while a search is already under way (the first filter
/// on a bare catalog pushes, so Back returns to browse-all).
pub fn rail_navigation(current_q: &str, view: Option<&str>, next: &str) -> (r: (String, bool))
    ensures
        r.0@ == with_query(
            "/catalog"@,
            url_parts(
                next@,
                next.spec_bytes(),
                match view {
                    Some(v) => v@ == "list"@,
                    None => false,
                },
                None,
                None,
            ),
        ),
        r.1 == (current_q@.len() > 0),
{
    let list_view = match view {
        Some(v) => same_text(v, "list"),
        None => false,
    };
    let url = catalog_url(next, list_view, None, None);
    (url, current_q.unicode_len() > 0)
}

// --------------------------------------------------------------- the laws --

/// The tokens' texts exactly as typed.
pub open spec fn raws(ts: Seq<Token>) -> Seq<Seq<char>> {
    ts.map_values(|t: Token| t.raw@)
}

/// A term of `field` that is not its first comes after the first.
proof fn lemma_later_term(ts: Seq<Token>, field: Field, i: int)
    requires
        0 <= i < ts.len(),
        is_of(ts[i], field),
        first_owned(ts, field) != Some(i),
    ensures
        first_owned(ts.take(i), field) is Some,
{
    lemma_first_owned_is_first(ts, field);
    let k = first_owned(ts, field)->0;
    lemma_first_owned_is_first(ts.take(k), field);
    if i < k {
        assert(ts.take(k)[i] == ts[i]);
    }
    lemma_first_owned_step(ts, k, field);
    assert(ts.take(i).take(k + 1) =~= ts.take(k + 1));
    lemma_first_owned_prefix(ts.take(i), k + 1, field);
}

/// A rail edit re-emits, character for character, every token it does not
/// own: terms of other fields, terms no widget owns (negations, color
/// identity), and the repeats of a facet's key after its first term.
pub proof fn law_edit_keeps_what_it_does_not_own(
    ts: Seq<Token>,
    field: Field,
    repl: Option<Seq<char>>,
    i: int,
)
    requires
        0 <= i < ts.len(),
        !is_of(ts[i], field) || (field != Field::Name && first_owned(ts, field) != Some(i)),
    ensures
        edited_word(ts, field, repl, i) == seq![ts[i].raw@],
{
    if is_of(ts[i], field) {
        lemma_later_term(ts, field, i);
    }
}

/// The widget's term and the edit's target are the same term: the first one
/// of the field, which is also the one the rail shows.
pub proof fn law_edit_lands_where_the_shown_term_stood(ts: Seq<Token>, field: Field, r: Seq<char>)
    requires
        first_owned(ts, field) is Some,
    ensures
        edited_word(ts, field, Some(r), first_owned(ts, field)->0) == seq![r],
        owned_pred(ts, field) == Some(ts[first_owned(ts, field)->0].term.pred),
        rewrite_words(ts, field, Some(r)) == edited_words(ts, field, Some(r), ts.len()),
{
    lemma_first_owned_is_first(ts, field);
}

/// The words of the first `n` tokens when none of them is the field's.
proof fn lemma_untouched_prefix(ts: Seq<Token>, field: Field, repl: Option<Seq<char>>, n: nat)
    requires
        n <= ts.len(),
        forall|j: int| 0 <= j < ts.len() ==> !is_of(#[trigger] ts[j], field),
    ensures
        edited_words(ts, field, repl, n) == raws(ts.take(n as int)),
    decreases n,
{
    if n > 0 {
        lemma_untouched_prefix(ts, field, repl, (n - 1) as nat);
        assert(!is_of(ts[n - 1], field));
        assert(raws(ts.take(n as int)) =~= raws(ts.take(n - 1)).push(ts[n - 1].raw@));
    }
}

/// A facet absent from the query gains its term at the end, everything
/// before it unchanged; clearing an absent facet changes nothing.
pub proof fn law_an_absent_field_appends(ts: Seq<Token>, field: Field, repl: Option<Seq<char>>)
    requires
        first_owned(ts, field) is None,
    ensures
        rewrite_words(ts, field, repl) == match repl {
            Some(r) => raws(ts).push(r),
            None => raws(ts),
        },
{
    lemma_first_owned_is_first(ts, field);
    lemma_untouched_prefix(ts, field, repl, ts.len());
    assert(ts.take(ts.len() as int) =~= ts);
}

/// Reset drops a token exactly when clearing some widget's field would drop
/// it: reset is every widget cleared, and nothing more.
pub proof fn law_reset_is_every_widget_cleared(ts: Seq<Token>, i: int)
    requires
        0 <= i < ts.len(),
    ensures
        reset_drops(ts, i) <==> exists|field: Field|
            #[trigger] edited_word(ts, field, None, i) == Seq::<Seq<char>>::empty(),
{
    if reset_drops(ts, i) {
        let f = field_spec(ts[i].term)->0;
        assert(edited_word(ts, f, None, i) == Seq::<Seq<char>>::empty());
    }
    if exists|field: Field| #[trigger]
        edited_word(ts, field, None, i) == Seq::<Seq<char>>::empty() {
        let f = choose|field: Field| #[trigger]
            edited_word(ts, field, None, i) == Seq::<Seq<char>>::empty();
        assert(seq![ts[i].raw@].len() == 1);
    }
}

} // verus!
