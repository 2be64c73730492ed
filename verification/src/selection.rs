//! The cross-view card selection behind the docked tray: what an entry
//! addresses (its grain), its stable token, and the toggle and removal that
//! keep the selection in the order it was made.

use vstd::prelude::*;

use crate::ids::{hyphenated, law_an_id_reads_back_as_itself, lemma_hyphenated_shape, uuid_text, Id};
use crate::text::{decimal, push_str, push_u64, same_text};

verus! {

/// Which board of a deck a copy sits on.
#[derive(Debug, Clone, Copy, PartialEq, Eq, Structural)]
pub enum Board {
    Main,
    Side,
}

/// The board's stored name.
pub open spec fn board_text(b: Board) -> Seq<char> {
    match b {
        Board::Main => "main"@,
        Board::Side => "side"@,
    }
}

impl Board {
    /// The board's stored name: `main` or `side`.
    pub fn to_pg(self) -> (s: &'static str)
        ensures
            s@ == board_text(self),
    {
        match self {
            Board::Main => "main",
            Board::Side => "side",
        }
    }
}

/// What one tray entry addresses: copies of one printing on one board in
/// one collection, or one oracle card wherever its copies are.
#[derive(Debug, Clone, Copy, PartialEq, Eq, Structural)]
pub enum SelectionKey {
    Held { collection_id: Id, printing_id: Id, board: Board },
    Card { oracle_id: Id },
}

/// A key's token: `held:<collection>:<printing>:<board>` or `card:<oracle>`.
pub open spec fn token_spec(k: SelectionKey) -> Seq<char> {
    match k {
        SelectionKey::Held { collection_id, printing_id, board } => "held:"@ + hyphenated(
            collection_id,
        ) + ":"@ + hyphenated(printing_id) + ":"@ + board_text(board),
        SelectionKey::Card { oracle_id } => "card:"@ + hyphenated(oracle_id),
    }
}

impl SelectionKey {
    /// A stable, DOM-safe identifier for the entry.
    pub fn token(&self) -> (t: String)
        ensures
            t@ == token_spec(*self),
    {
        let mut t = String::new();
        match self {
            SelectionKey::Held { collection_id, printing_id, board } => {
                push_str(&mut t, "held:");
                let c = uuid_text(*collection_id);
                push_str(&mut t, c.as_str());
                push_str(&mut t, ":");
                let p = uuid_text(*printing_id);
                push_str(&mut t, p.as_str());
                push_str(&mut t, ":");
                push_str(&mut t, board.to_pg());
            },
            SelectionKey::Card { oracle_id } => {
                push_str(&mut t, "card:");
                let o = uuid_text(*oracle_id);
                push_str(&mut t, o.as_str());
            },
        }
        proof {
            assert(t@ =~= token_spec(*self));
        }
        t
    }
}

/// One selected row: what it addresses, plus what the tray renders.
#[derive(Debug, Clone, PartialEq)]
pub struct SelectedCard {
    pub key: SelectionKey,
    pub oracle_id: Id,
    pub name: String,
    pub image_uri: Option<String>,
}

/// The position of the entry with this key, if any.
pub open spec fn position_of(items: Seq<SelectedCard>, key: SelectionKey) -> Option<int>
    decreases items.len(),
{
    if items.len() == 0 {
        None
    } else {
        match position_of(items.drop_last(), key) {
            Some(i) => Some(i),
            None => if items.last().key == key {
                Some(items.len() - 1)
            } else {
                None
            },
        }
    }
}

proof fn lemma_position_prefix(items: Seq<SelectedCard>, n: int, key: SelectionKey)
    requires
        0 <= n <= items.len(),
        position_of(items.take(n), key) is Some,
    ensures
        position_of(items, key) == position_of(items.take(n), key),
    decreases items.len(),
{
    if items.len() == n {
        assert(items.take(n) =~= items);
    } else {
        assert(items.drop_last().take(n) =~= items.take(n));
        lemma_position_prefix(items.drop_last(), n, key);
    }
}

proof fn lemma_position_is_first(items: Seq<SelectedCard>, key: SelectionKey)
    ensures
        match position_of(items, key) {
            Some(i) => 0 <= i < items.len() && items[i].key == key && forall|j: int|
                0 <= j < i ==> #[trigger] items[j].key != key,
            None => forall|j: int| 0 <= j < items.len() ==> #[trigger] items[j].key != key,
        },
    decreases items.len(),
{
    if items.len() > 0 {
        let d = items.drop_last();
        lemma_position_is_first(d, key);
        assert forall|j: int| 0 <= j < items.len() - 1 implies #[trigger] items[j] == d[j] by {}
        match position_of(d, key) {
            Some(i) => {
                assert(items[i] == d[i]);
                assert forall|j: int| 0 <= j < i implies #[trigger] items[j].key != key by {
                    assert(items[j] == d[j]);
                }
            },
            None => {
                assert forall|j: int| 0 <= j < items.len() - 1 implies #[trigger] items[j].key
                    != key by {
                    assert(items[j] == d[j]);
                }
                assert(items.last() == items[items.len() - 1]);
            },
        }
    }
}

fn find_key(items: &Vec<SelectedCard>, key: SelectionKey) -> (r: Option<usize>)
    ensures
        match r {
            Some(i) => i < items@.len() && position_of(items@, key) == Some(i as int),
            None => position_of(items@, key) is None,
        },
{
    let mut i: usize = 0;
    while i < items.len()
        invariant
            i <= items@.len(),
            position_of(items@.take(i as int), key) is None,
        decreases items@.len() - i,
    {
        proof {
            assert(items@.take(i + 1).drop_last() =~= items@.take(i as int));
            assert(items@.take(i + 1).last() == items@[i as int]);
        }
        if items[i].key == key {
            proof {
                lemma_position_prefix(items@, i + 1, key);
            }
            return Some(i);
        }
        i = i + 1;
    }
    proof {
        assert(items@.take(items@.len() as int) =~= items@);
    }
    None
}

/// The selection after a checkbox toggles `card`: its entry removed if it
/// had one (the rest closing the gap), else `card` added at the end.
pub open spec fn toggled(items: Seq<SelectedCard>, card: SelectedCard) -> Seq<SelectedCard> {
    match position_of(items, card.key) {
        Some(i) => items.remove(i),
        None => items.push(card),
    }
}

/// Adds the row if absent, drops it if present.
pub fn toggle_in(items: &mut Vec<SelectedCard>, card: SelectedCard)
    ensures
        final(items)@ == toggled(old(items)@, card),
{
    match find_key(items, card.key) {
        Some(i) => {
            items.remove(i);
        },
        None => items.push(card),
    }
}

/// Is `t` among the tokens?
pub open spec fn named(tokens: Seq<String>, t: Seq<char>) -> bool {
    exists|i: int| 0 <= i < tokens.len() && tokens[i]@ == t
}

/// The entries whose tokens are not named, in order.
pub open spec fn untokened(items: Seq<SelectedCard>, tokens: Seq<String>) -> Seq<SelectedCard>
    decreases items.len(),
{
    if items.len() == 0 {
        Seq::empty()
    } else if named(tokens, token_spec(items.last().key)) {
        untokened(items.drop_last(), tokens)
    } else {
        untokened(items.drop_last(), tokens).push(items.last())
    }
}

fn names_token(tokens: &[String], t: &str) -> (r: bool)
    ensures
        r == named(tokens@, t@),
{
    let mut i: usize = 0;
    while i < tokens.len()
        invariant
            i <= tokens@.len(),
            forall|j: int| 0 <= j < i ==> tokens@[j]@ != t@,
        decreases tokens@.len() - i,
    {
        if same_text(tokens[i].as_str(), t) {
            return true;
        }
        i = i + 1;
    }
    false
}

/// Drops exactly the entries the tokens name, keeping the rest in order.
pub fn retain_untokened(items: &mut Vec<SelectedCard>, tokens: &[String])
    ensures
        final(items)@ == untokened(old(items)@, tokens@),
{
    let ghost src = items@;
    let mut kept: Vec<SelectedCard> = Vec::new();
    let mut rest: Vec<SelectedCard> = Vec::new();
    std::mem::swap(&mut rest, items);
    let n = rest.len();
    assert(src.len() == n);
    let mut i: usize = 0;
    while rest.len() > 0
        invariant
            i + rest@.len() == src.len(),
            src.len() <= usize::MAX,
            rest@ == src.skip(i as int),
            kept@ == untokened(src.take(i as int), tokens@),
        decreases rest@.len(),
    {
        let c = rest.remove(0);
        proof {
            assert(c == src[i as int]);
            assert(rest@ =~= src.skip(i + 1));
            assert(src.take(i + 1).drop_last() =~= src.take(i as int));
            assert(src.take(i + 1).last() == c);
        }
        let t = c.key.token();
        if !names_token(tokens, t.as_str()) {
            kept.push(c);
        }
        i = i + 1;
    }
    proof {
        assert(src.take(src.len() as int) =~= src);
    }
    *items = kept;
}

/// The tray's count line: `1 card`, else `n cards`.
pub fn count_label(n: usize) -> (s: String)
    ensures
        s@ == if n == 1 {
            "1 card"@
        } else {
            decimal(n as nat) + " cards"@
        },
{
    if n == 1 {
        String::from_str("1 card")
    } else {
        let mut s = String::new();
        push_u64(&mut s, n as u64);
        push_str(&mut s, " cards");
        proof {
            assert(s@ =~= decimal(n as nat) + " cards"@);
        }
        s
    }
}

/// The selection, in the order it was made (the order the thumbnail stack
/// shows).
#[derive(Debug)]
pub struct SelectionState {
    items: Vec<SelectedCard>,
}

impl View for SelectionState {
    type V = Seq<SelectedCard>;

    closed spec fn view(&self) -> Seq<SelectedCard> {
        self.items@
    }
}

/// Every entry has its own key.
pub open spec fn distinct_keys(items: Seq<SelectedCard>) -> bool {
    forall|i: int, j: int| 0 <= i < j < items.len() ==> #[trigger] items[i].key != #[trigger] items[j].key
}

impl SelectionState {
    /// An empty selection.
    pub fn new() -> (s: SelectionState)
        ensures
            s@ == Seq::<SelectedCard>::empty(),
    {
        SelectionState { items: Vec::new() }
    }

    /// The selection in the order it was made.
    pub fn items(&self) -> (v: &Vec<SelectedCard>)
        ensures
            v@ == self@,
    {
        &self.items
    }

    /// How many entries.
    pub fn len(&self) -> (n: usize)
        ensures
            n == self@.len(),
    {
        self.items.len()
    }

    /// Is nothing selected?
    pub fn is_empty(&self) -> (e: bool)
        ensures
            e == (self@.len() == 0),
    {
        self.items.len() == 0
    }

    /// Is the row with this key selected?
    pub fn selected(&self, key: SelectionKey) -> (s: bool)
        ensures
            s == (position_of(self@, key) is Some),
    {
        find_key(&self.items, key).is_some()
    }

    /// A row's checkbox: add it if absent, drop it if present.
    pub fn toggle(&mut self, card: SelectedCard)
        ensures
            final(self)@ == toggled(old(self)@, card),
    {
        toggle_in(&mut self.items, card);
    }

    /// Drops everything.
    pub fn clear(&mut self)
        ensures
            final(self)@ == Seq::<SelectedCard>::empty(),
    {
        self.items.clear();
    }

    /// Drops exactly the entries a batch move moved, named by token; the
    /// refusals stay selected.
    pub fn remove_tokens(&mut self, tokens: &[String])
        ensures
            final(self)@ == untokened(old(self)@, tokens@),
    {
        retain_untokened(&mut self.items, tokens);
    }
}

// --------------------------------------------------------------- the laws --

/// Toggling a row that was not selected, then toggling it again, leaves the
/// selection as it was.
pub proof fn law_toggle_twice_restores(items: Seq<SelectedCard>, card: SelectedCard)
    requires
        position_of(items, card.key) is None,
    ensures
        toggled(toggled(items, card), card) == items,
{
    let once = items.push(card);
    lemma_position_is_first(items, card.key);
    assert(once.drop_last() =~= items);
    assert(position_of(once, card.key) == Some(items.len() as int));
    assert(once.remove(items.len() as int) =~= items);
}

/// A toggle keeps every entry's key its own, and leaves the row's key
/// selected exactly when it was not before.
pub proof fn law_toggle_keeps_keys_distinct(items: Seq<SelectedCard>, card: SelectedCard)
    requires
        distinct_keys(items),
    ensures
        distinct_keys(toggled(items, card)),
        (position_of(toggled(items, card), card.key) is Some) == (position_of(items, card.key)
            is None),
{
    lemma_position_is_first(items, card.key);
    let after = toggled(items, card);
    lemma_position_is_first(after, card.key);
    match position_of(items, card.key) {
        Some(p) => {
            assert forall|i: int, j: int| 0 <= i < j < after.len() implies #[trigger] after[i].key
                != #[trigger] after[j].key by {
                let oi = if i < p {
                    i
                } else {
                    i + 1
                };
                let oj = if j < p {
                    j
                } else {
                    j + 1
                };
                assert(after[i] == items[oi]);
                assert(after[j] == items[oj]);
            }
            assert forall|j: int| 0 <= j < after.len() implies #[trigger] after[j].key != card.key by {
                let oj = if j < p {
                    j
                } else {
                    j + 1
                };
                assert(after[j] == items[oj]);
                assert(items[p].key == card.key);
                if oj < p {
                    assert(items[oj].key != card.key);
                } else {
                    assert(items[p].key != items[oj].key);
                }
            }
        },
        None => {
            assert forall|i: int, j: int| 0 <= i < j < after.len() implies #[trigger] after[i].key
                != #[trigger] after[j].key by {
                if j == items.len() {
                    assert(after[i] == items[i]);
                } else {
                    assert(after[i] == items[i] && after[j] == items[j]);
                }
            }
            assert(after[items.len() as int] == card);
        },
    }
}

/// Removing by token is idempotent: a re-fired removal is harmless.
pub proof fn law_removal_is_idempotent(items: Seq<SelectedCard>, tokens: Seq<String>)
    ensures
        untokened(untokened(items, tokens), tokens) == untokened(items, tokens),
    decreases items.len(),
{
    if items.len() > 0 {
        law_removal_is_idempotent(items.drop_last(), tokens);
        let rest = untokened(items.drop_last(), tokens);
        if !named(tokens, token_spec(items.last().key)) {
            let r = rest.push(items.last());
            assert(r.drop_last() =~= rest);
        }
    }
}

/// Two keys with one token are one key: a token names a single grain, so
/// removal by token drops exactly the entries of that grain.
pub proof fn law_a_token_names_one_key(a: SelectionKey, b: SelectionKey)
    requires
        token_spec(a) == token_spec(b),
    ensures
        a == b,
{
    reveal_strlit("held:");
    reveal_strlit("card:");
    reveal_strlit(":");
    reveal_strlit("main");
    reveal_strlit("side");
    let t = token_spec(a);
    match a {
        SelectionKey::Held { collection_id: ca, printing_id: pa, board: ba } => {
            lemma_hyphenated_shape(ca);
            lemma_hyphenated_shape(pa);
            match b {
                SelectionKey::Held { collection_id: cb, printing_id: pb, board: bb } => {
                    lemma_hyphenated_shape(cb);
                    lemma_hyphenated_shape(pb);
                    let ta = token_spec(a);
                    let tb = token_spec(b);
                    assert(ta.subrange(5, 41) =~= hyphenated(ca));
                    assert(tb.subrange(5, 41) =~= hyphenated(cb));
                    assert(ta.subrange(42, 78) =~= hyphenated(pa));
                    assert(tb.subrange(42, 78) =~= hyphenated(pb));
                    law_an_id_reads_back_as_itself(ca);
                    law_an_id_reads_back_as_itself(cb);
                    law_an_id_reads_back_as_itself(pa);
                    law_an_id_reads_back_as_itself(pb);
                    assert(ta[79] == tb[79]);
                },
                SelectionKey::Card { oracle_id } => {
                    assert(token_spec(b)[0] == 'c');
                    assert(t[0] == 'h');
                },
            }
        },
        SelectionKey::Card { oracle_id: oa } => {
            match b {
                SelectionKey::Held { .. } => {
                    assert(token_spec(b)[0] == 'h');
                    assert(t[0] == 'c');
                },
                SelectionKey::Card { oracle_id: ob } => {
                    lemma_hyphenated_shape(oa);
                    lemma_hyphenated_shape(ob);
                    assert(token_spec(a).skip(5) =~= hyphenated(oa));
                    assert(token_spec(b).skip(5) =~= hyphenated(ob));
                    law_an_id_reads_back_as_itself(oa);
                    law_an_id_reads_back_as_itself(ob);
                },
            }
        },
    }
}

} // verus!
