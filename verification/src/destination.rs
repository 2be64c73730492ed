//! Where `+ Want` / `+ Have` add: the destination choice, how it is seeded
//! and kept in line with the live collection list, and the order the picker
//! offers collections in.

use vstd::prelude::*;

use crate::collections::CollectionSummary;
use crate::ids::Id;
use crate::text::{
    chars_less, chars_of, lemma_text_less_total, lemma_text_less_transitive, push_char, push_str,
    text_less,
};

verus! {

/// The chosen destination: which collection, its live name, and whether it
/// is the Inbox.
#[derive(Clone, Debug, PartialEq, Eq)]
pub struct Destination {
    pub id: Id,
    pub name: String,
    pub is_inbox: bool,
}

/// The icon the trigger shows: 📥 for the Inbox, 🗂 for any other.
pub open spec fn icon(is_inbox: bool) -> char {
    if is_inbox {
        '\u{1F4E5}'
    } else {
        '\u{1F5C2}'
    }
}

impl Destination {
    /// `📥 Inbox` / `🗂 Shoebox`: the icon, a space, the name.
    pub fn label(&self) -> (s: String)
        ensures
            s@ == seq![icon(self.is_inbox), ' '] + self.name@,
    {
        let mut s = String::new();
        push_char(
            &mut s,
            if self.is_inbox {
                '\u{1F4E5}'
            } else {
                '\u{1F5C2}'
            },
        );
        push_char(&mut s, ' ');
        push_str(&mut s, self.name.as_str());
        proof {
            assert(s@ =~= seq![icon(self.is_inbox), ' '] + self.name@);
        }
        s
    }
}

/// One row a picker offers: where it points, and an optional right-hand
/// hint (`wants 3`).
#[derive(Clone, Debug, PartialEq, Eq)]
pub struct DestinationChoice {
    pub dest: Destination,
    pub hint: Option<String>,
}

impl DestinationChoice {
    /// A row with no hint.
    pub fn plain(dest: Destination) -> (c: DestinationChoice)
        ensures
            c.dest == dest,
            c.hint is None,
    {
        DestinationChoice { dest, hint: None }
    }
}

/// A destination as values: id, name, Inbox or not.
pub open spec fn dest_view(d: Destination) -> (Id, Seq<char>, bool) {
    (d.id, d.name@, d.is_inbox)
}

/// The destination a collection makes.
pub open spec fn dest_of(c: CollectionSummary) -> (Id, Seq<char>, bool) {
    (c.id, c.name@, c.is_inbox)
}

/// An optional destination as values.
pub open spec fn opt_dest_view(d: Option<Destination>) -> Option<(Id, Seq<char>, bool)> {
    match d {
        Some(x) => Some(dest_view(x)),
        None => None,
    }
}

/// The position of the first element that satisfies `p`.
pub open spec fn first_where<A>(s: Seq<A>, p: spec_fn(A) -> bool) -> Option<int>
    decreases s.len(),
{
    if s.len() == 0 {
        None
    } else {
        match first_where(s.drop_last(), p) {
            Some(i) => Some(i),
            None => if p(s.last()) {
                Some(s.len() - 1)
            } else {
                None
            },
        }
    }
}

proof fn lemma_first_where_prefix<A>(s: Seq<A>, n: int, p: spec_fn(A) -> bool)
    requires
        0 <= n <= s.len(),
        first_where(s.take(n), p) is Some,
    ensures
        first_where(s, p) == first_where(s.take(n), p),
    decreases s.len(),
{
    if s.len() == n {
        assert(s.take(n) =~= s);
    } else {
        assert(s.drop_last().take(n) =~= s.take(n));
        lemma_first_where_prefix(s.drop_last(), n, p);
    }
}

/// Where a first match stands, and that nothing before it matches.
proof fn lemma_first_where_is_first<A>(s: Seq<A>, p: spec_fn(A) -> bool)
    ensures
        match first_where(s, p) {
            Some(i) => 0 <= i < s.len() && p(s[i]) && forall|j: int|
                0 <= j < i ==> !p(#[trigger] s[j]),
            None => forall|j: int| 0 <= j < s.len() ==> !p(#[trigger] s[j]),
        },
    decreases s.len(),
{
    if s.len() > 0 {
        let d = s.drop_last();
        lemma_first_where_is_first(d, p);
        match first_where(d, p) {
            Some(i) => {
                assert(s[i] == d[i]);
                assert forall|j: int| 0 <= j < i implies !p(#[trigger] s[j]) by {
                    assert(s[j] == d[j]);
                }
            },
            None => {
                assert forall|j: int| 0 <= j < s.len() - 1 implies !p(#[trigger] s[j]) by {
                    assert(s[j] == d[j]);
                }
                assert(s.last() == s[s.len() - 1]);
            },
        }
    }
}

/// The collection with this id: the first one, if any.
pub open spec fn with_id(id: Id) -> spec_fn(CollectionSummary) -> bool {
    |c: CollectionSummary| c.id == id
}

/// The Inbox.
pub open spec fn is_inbox() -> spec_fn(CollectionSummary) -> bool {
    |c: CollectionSummary| c.is_inbox
}

fn find_id(collections: &[CollectionSummary], id: Id) -> (r: Option<usize>)
    ensures
        match r {
            Some(i) => i < collections@.len() && first_where(collections@, with_id(id)) == Some(
                i as int,
            ),
            None => first_where(collections@, with_id(id)) is None,
        },
{
    let mut i: usize = 0;
    while i < collections.len()
        invariant
            i <= collections@.len(),
            first_where(collections@.take(i as int), with_id(id)) is None,
        decreases collections@.len() - i,
    {
        proof {
            assert(collections@.take(i + 1).drop_last() =~= collections@.take(i as int));
            assert(collections@.take(i + 1).last() == collections@[i as int]);
        }
        if collections[i].id == id {
            proof {
                lemma_first_where_prefix(collections@, i + 1, with_id(id));
            }
            return Some(i);
        }
        i = i + 1;
    }
    proof {
        assert(collections@.take(collections@.len() as int) =~= collections@);
    }
    None
}

fn find_inbox(collections: &[CollectionSummary]) -> (r: Option<usize>)
    ensures
        match r {
            Some(i) => i < collections@.len() && first_where(collections@, is_inbox()) == Some(
                i as int,
            ),
            None => first_where(collections@, is_inbox()) is None,
        },
{
    let mut i: usize = 0;
    while i < collections.len()
        invariant
            i <= collections@.len(),
            first_where(collections@.take(i as int), is_inbox()) is None,
        decreases collections@.len() - i,
    {
        proof {
            assert(collections@.take(i + 1).drop_last() =~= collections@.take(i as int));
            assert(collections@.take(i + 1).last() == collections@[i as int]);
        }
        if collections[i].is_inbox {
            proof {
                lemma_first_where_prefix(collections@, i + 1, is_inbox());
            }
            return Some(i);
        }
        i = i + 1;
    }
    proof {
        assert(collections@.take(collections@.len() as int) =~= collections@);
    }
    None
}

/// Which collection to start on: the remembered one if it still exists,
/// else the Inbox, else the first collection; none for an empty list.
pub open spec fn initial_index(cs: Seq<CollectionSummary>, remembered: Option<Id>) -> Option<int> {
    let by_id = match remembered {
        Some(id) => first_where(cs, with_id(id)),
        None => None,
    };
    match by_id {
        Some(i) => Some(i),
        None => match first_where(cs, is_inbox()) {
            Some(i) => Some(i),
            None => if cs.len() > 0 {
                Some(0)
            } else {
                None
            },
        },
    }
}

/// The destination to start on, as values.
pub open spec fn initial_spec(cs: Seq<CollectionSummary>, remembered: Option<Id>) -> Option<
    (Id, Seq<char>, bool),
> {
    match initial_index(cs, remembered) {
        Some(i) => Some(dest_of(cs[i])),
        None => None,
    }
}

fn destination_at(collections: &[CollectionSummary], i: usize) -> (d: Destination)
    requires
        i < collections@.len(),
    ensures
        dest_view(d) == dest_of(collections@[i as int]),
{
    let c = &collections[i];
    Destination { id: c.id, name: c.name.clone(), is_inbox: c.is_inbox }
}

/// Picks the destination to start on, resolved against the live list so
/// that a deleted or renamed collection degrades gracefully.
pub fn initial_destination(collections: &[CollectionSummary], remembered: Option<Id>) -> (d:
    Option<Destination>)
    ensures
        opt_dest_view(d) == initial_spec(collections@, remembered),
{
    proof {
        lemma_first_where_is_first(collections@, is_inbox());
        if let Some(id) = remembered {
            lemma_first_where_is_first(collections@, with_id(id));
        }
    }
    let by_id = match remembered {
        Some(id) => find_id(collections, id),
        None => None,
    };
    let chosen = match by_id {
        Some(i) => Some(i),
        None => match find_inbox(collections) {
            Some(i) => Some(i),
            None => if collections.len() > 0 {
                Some(0)
            } else {
                None
            },
        },
    };
    match chosen {
        Some(i) => Some(destination_at(collections, i)),
        None => None,
    }
}

/// The choice brought in line with a freshly fetched list: a live choice
/// keeps its id and takes the list's name and Inbox flag; a deleted one, or
/// none, starts over as [`initial_spec`] says.
pub open spec fn reconcile_spec(
    cs: Seq<CollectionSummary>,
    current: Option<(Id, Seq<char>, bool)>,
    remembered: Option<Id>,
) -> Option<(Id, Seq<char>, bool)> {
    match current {
        Some(cur) => match first_where(cs, with_id(cur.0)) {
            Some(i) => Some(dest_of(cs[i])),
            None => initial_spec(cs, remembered),
        },
        None => initial_spec(cs, remembered),
    }
}

/// Brings the current choice back in line with a freshly fetched list.
pub fn reconcile(
    collections: &[CollectionSummary],
    current: Option<Destination>,
    remembered: Option<Id>,
) -> (d: Option<Destination>)
    ensures
        opt_dest_view(d) == reconcile_spec(collections@, opt_dest_view(current), remembered),
{
    match current {
        Some(cur) => match find_id(collections, cur.id) {
            Some(i) => Some(destination_at(collections, i)),
            None => initial_destination(collections, remembered),
        },
        None => initial_destination(collections, remembered),
    }
}

// ------------------------------------------------------------- the order --

/// What `str::to_lowercase` makes of a text.
pub uninterp spec fn lowercase_of(s: Seq<char>) -> Seq<char>;

/// `str::to_lowercase`: the full Unicode lower-casing of a text, named.
#[verifier::external_body]
pub(crate) fn str_lowercase(s: &str) -> (l: String)
    ensures
        l@ == lowercase_of(s@),
{
    s.to_lowercase()
}

/// A collection's place in the picker: Inbox or not, then its lower-cased
/// name.
pub open spec fn picker_key(c: CollectionSummary) -> (bool, Seq<char>) {
    (c.is_inbox, lowercase_of(c.name@))
}

/// Does key `a` come before key `b`? The Inbox first, then by name in
/// code-point order.
pub open spec fn key_less(a: (bool, Seq<char>), b: (bool, Seq<char>)) -> bool {
    (a.0 && !b.0) || (a.0 == b.0 && text_less(a.1, b.1))
}

/// Does the collection at `i` come before the one at `j`? By key, and by
/// list position where the keys are equal: the order is stable.
pub open spec fn picker_before(cs: Seq<CollectionSummary>, i: int, j: int) -> bool {
    key_less(picker_key(cs[i]), picker_key(cs[j])) || (picker_key(cs[i]) == picker_key(cs[j])
        && i < j)
}

/// `order` puts the positions `0..cs.len()` in picker order: each once,
/// each before the next.
pub open spec fn picker_sorted(cs: Seq<CollectionSummary>, order: Seq<int>) -> bool {
    &&& order.len() == cs.len()
    &&& forall|k: int| 0 <= k < order.len() ==> 0 <= #[trigger] order[k] < cs.len()
    &&& forall|a: int, b: int|
        0 <= a < b < order.len() ==> picker_before(cs, #[trigger] order[a], #[trigger] order[b])
}

proof fn lemma_key_order(a: (bool, Seq<char>), b: (bool, Seq<char>), c: (bool, Seq<char>))
    ensures
        key_less(a, b) && key_less(b, c) ==> key_less(a, c),
        a == b || key_less(a, b) || key_less(b, a),
        !(key_less(a, b) && key_less(b, a)),
        !key_less(a, a),
{
    lemma_text_less_total(a.1, b.1);
    lemma_text_less_total(a.1, a.1);
    if key_less(a, b) && key_less(b, c) && a.0 == b.0 && b.0 == c.0 {
        lemma_text_less_transitive(a.1, b.1, c.1);
    }
}

fn comes_before(a: &CollectionSummary, b: &CollectionSummary) -> (r: bool)
    ensures
        r == key_less(picker_key(*a), picker_key(*b)),
{
    if a.is_inbox != b.is_inbox {
        return a.is_inbox;
    }
    let la = str_lowercase(a.name.as_str());
    let lb = str_lowercase(b.name.as_str());
    let ca = chars_of(la.as_str());
    let cb = chars_of(lb.as_str());
    chars_less(ca.as_slice(), cb.as_slice())
}

/// The order the picker shows collections in: the Inbox pinned to the top,
/// then the rest by lower-cased name; collections whose keys tie keep their
/// list order.
pub fn picker_order(collections: Vec<CollectionSummary>) -> (out: Vec<CollectionSummary>)
    ensures
        exists|order: Seq<int>|
            picker_sorted(collections@, order) && out@ == order.map_values(
                |k: int| collections@[k],
            ),
{
    let ghost cs = collections@;
    let mut rest = collections;
    let n = rest.len();
    assert(cs.len() == n);
    let mut out: Vec<CollectionSummary> = Vec::new();
    let ghost mut ord: Seq<int> = Seq::empty();
    let mut i: usize = 0;
    while rest.len() > 0
        invariant
            i + rest@.len() == cs.len(),
            cs.len() <= usize::MAX,
            rest@ == cs.skip(i as int),
            ord.len() == i,
            forall|k: int| 0 <= k < ord.len() ==> 0 <= #[trigger] ord[k] < i,
            forall|a: int, b: int|
                0 <= a < b < ord.len() ==> picker_before(cs, #[trigger] ord[a], #[trigger] ord[b]),
            out@ == ord.map_values(|k: int| cs[k]),
        decreases rest@.len(),
    {
        let item = rest.remove(0);
        proof {
            assert(item == cs[i as int]);
            assert(rest@ =~= cs.skip(i + 1));
        }
        let mut k: usize = 0;
        while k < out.len() && !comes_before(&item, &out[k])
            invariant
                k <= out@.len(),
                out@.len() == ord.len(),
                item == cs[i as int],
                i < cs.len(),
                forall|m: int| 0 <= m < ord.len() ==> 0 <= #[trigger] ord[m] < i,
                out@ == ord.map_values(|m: int| cs[m]),
                forall|m: int| 0 <= m < k ==> picker_before(cs, #[trigger] ord[m], i as int),
            decreases out@.len() - k,
        {
            proof {
                let o = ord[k as int];
                assert(out@[k as int] == cs[o]);
                lemma_key_order(picker_key(cs[o]), picker_key(cs[i as int]), picker_key(cs[o]));
            }
            k = k + 1;
        }
        proof {
            if k < out@.len() {
                assert(out@[k as int] == cs[ord[k as int]]);
            }
        }
        out.insert(k, item);
        proof {
            let nord = ord.insert(k as int, i as int);
            assert(out@ =~= nord.map_values(|m: int| cs[m]));
            assert forall|a: int, b: int| 0 <= a < b < nord.len() implies picker_before(
                cs,
                #[trigger] nord[a],
                #[trigger] nord[b],
            ) by {
                if b < k {
                    assert(nord[a] == ord[a] && nord[b] == ord[b]);
                } else if b == k {
                    assert(nord[a] == ord[a]);
                } else if a == k {
                    assert(nord[b] == ord[b - 1]);
                    let o = ord[k as int];
                    let ob = ord[b - 1];
                    if b - 1 > k {
                        assert(picker_before(cs, o, ob));
                    }
                    lemma_key_order(picker_key(cs[i as int]), picker_key(cs[o]), picker_key(cs[ob]));
                } else if a < k {
                    assert(nord[a] == ord[a] && nord[b] == ord[b - 1]);
                } else {
                    assert(nord[a] == ord[a - 1] && nord[b] == ord[b - 1]);
                }
            }
            assert forall|m: int| 0 <= m < nord.len() implies 0 <= #[trigger] nord[m] < i + 1 by {
                if m < k {
                    assert(nord[m] == ord[m]);
                } else if m > k {
                    assert(nord[m] == ord[m - 1]);
                }
            }
            ord = nord;
        }
        i = i + 1;
    }
    proof {
        assert(picker_sorted(cs, ord) && out@ == ord.map_values(|k: int| cs[k]));
    }
    out
}

// --------------------------------------------------------------- the laws --

/// In the picker's order the Inbox comes before every other collection.
pub proof fn law_the_inbox_is_pinned_first(cs: Seq<CollectionSummary>, order: Seq<int>, a: int, b: int)
    requires
        picker_sorted(cs, order),
        0 <= a < b < order.len(),
    ensures
        cs[order[b]].is_inbox ==> cs[order[a]].is_inbox,
{
    assert(picker_before(cs, order[a], order[b]));
}

/// Some collection of the list has the remembered id.
pub open spec fn remembered_is_live(cs: Seq<CollectionSummary>, remembered: Option<Id>) -> bool {
    exists|i: int| 0 <= i < cs.len() && Some(#[trigger] cs[i].id) == remembered
}

/// Some collection of the list is the Inbox.
pub open spec fn has_inbox(cs: Seq<CollectionSummary>) -> bool {
    exists|i: int| 0 <= i < cs.len() && #[trigger] cs[i].is_inbox
}

/// `k` is the first collection with the remembered id.
pub open spec fn first_remembered(cs: Seq<CollectionSummary>, remembered: Option<Id>, k: int) -> bool {
    &&& 0 <= k < cs.len()
    &&& Some(cs[k].id) == remembered
    &&& forall|j: int| 0 <= j < k ==> Some(#[trigger] cs[j].id) != remembered
}

/// `k` is the first Inbox of the list.
pub open spec fn first_inbox(cs: Seq<CollectionSummary>, k: int) -> bool {
    &&& 0 <= k < cs.len()
    &&& cs[k].is_inbox
    &&& forall|j: int| 0 <= j < k ==> !(#[trigger] cs[j].is_inbox)
}

proof fn lemma_by_id(cs: Seq<CollectionSummary>, id: Id)
    ensures
        match first_where(cs, with_id(id)) {
            Some(k) => first_remembered(cs, Some(id), k),
            None => !remembered_is_live(cs, Some(id)),
        },
{
    lemma_first_where_is_first(cs, with_id(id));
    match first_where(cs, with_id(id)) {
        Some(k) => {
            assert(with_id(id)(cs[k]));
            assert forall|j: int| 0 <= j < k implies Some(#[trigger] cs[j].id) != Some(id) by {
                assert(!with_id(id)(cs[j]));
            }
        },
        None => {
            if remembered_is_live(cs, Some(id)) {
                let i = choose|i: int| 0 <= i < cs.len() && Some(#[trigger] cs[i].id) == Some(id);
                assert(!with_id(id)(cs[i]));
            }
        },
    }
}

proof fn lemma_by_inbox(cs: Seq<CollectionSummary>)
    ensures
        match first_where(cs, is_inbox()) {
            Some(k) => first_inbox(cs, k),
            None => !has_inbox(cs),
        },
{
    lemma_first_where_is_first(cs, is_inbox());
    match first_where(cs, is_inbox()) {
        Some(k) => {
            assert(is_inbox()(cs[k]));
            assert forall|j: int| 0 <= j < k implies !(#[trigger] cs[j].is_inbox) by {
                assert(!is_inbox()(cs[j]));
            }
        },
        None => {
            if has_inbox(cs) {
                let i = choose|i: int| 0 <= i < cs.len() && #[trigger] cs[i].is_inbox;
                assert(!is_inbox()(cs[i]));
            }
        },
    }
}

/// Where a quick-add session starts: on the remembered collection if one
/// of the list still has its id (the first such); failing that on the
/// Inbox (the first collection marked so); failing that on the first
/// collection; and nowhere only when there are no collections at all.
pub proof fn law_the_start_is_remembered_else_inbox_else_first(
    cs: Seq<CollectionSummary>,
    remembered: Option<Id>,
)
    ensures
        (initial_spec(cs, remembered) is None) <==> cs.len() == 0,
        remembered_is_live(cs, remembered) ==> exists|k: int|
            #[trigger] first_remembered(cs, remembered, k) && initial_spec(cs, remembered) == Some(
                dest_of(cs[k]),
            ),
        !remembered_is_live(cs, remembered) && has_inbox(cs) ==> exists|k: int|
            #[trigger] first_inbox(cs, k) && initial_spec(cs, remembered) == Some(dest_of(cs[k])),
        !remembered_is_live(cs, remembered) && !has_inbox(cs) && cs.len() > 0 ==> initial_spec(
            cs,
            remembered,
        ) == Some(dest_of(cs[0])),
{
    lemma_by_inbox(cs);
    match remembered {
        Some(id) => {
            lemma_by_id(cs, id);
        },
        None => {
            assert(!remembered_is_live(cs, remembered));
        },
    }
    match initial_index(cs, remembered) {
        Some(k) => {
            if remembered_is_live(cs, remembered) {
                assert(first_remembered(cs, remembered, k));
            } else if has_inbox(cs) {
                assert(first_inbox(cs, k));
            }
        },
        None => {},
    }
}

/// A choice that is still in the list keeps its id through a reconcile,
/// whatever the remembered cookie says, and takes the list's current name.
pub proof fn law_reconcile_keeps_a_live_choice(
    cs: Seq<CollectionSummary>,
    current: (Id, Seq<char>, bool),
    remembered: Option<Id>,
    i: int,
)
    requires
        0 <= i < cs.len(),
        cs[i].id == current.0,
    ensures
        match reconcile_spec(cs, Some(current), remembered) {
            Some(d) => d.0 == current.0,
            None => false,
        },
{
    lemma_first_where_is_first(cs, with_id(current.0));
    assert(with_id(current.0)(cs[i]));
}

/// A choice whose collection is gone is dropped: the result is what a
/// fresh start would pick.
pub proof fn law_reconcile_drops_a_deleted_choice(
    cs: Seq<CollectionSummary>,
    current: (Id, Seq<char>, bool),
    remembered: Option<Id>,
)
    requires
        forall|i: int| 0 <= i < cs.len() ==> #[trigger] cs[i].id != current.0,
    ensures
        reconcile_spec(cs, Some(current), remembered) == initial_spec(cs, remembered),
{
    lemma_first_where_is_first(cs, with_id(current.0));
}

/// Reconciling twice against the same list is reconciling once, when the
/// list's ids are distinct.
pub proof fn law_reconcile_settles(
    cs: Seq<CollectionSummary>,
    current: Option<(Id, Seq<char>, bool)>,
    remembered: Option<Id>,
)
    requires
        forall|i: int, j: int| 0 <= i < j < cs.len() ==> #[trigger] cs[i].id != #[trigger] cs[j].id,
    ensures
        reconcile_spec(cs, reconcile_spec(cs, current, remembered), remembered) == reconcile_spec(
            cs,
            current,
            remembered,
        ),
{
    let once = reconcile_spec(cs, current, remembered);
    lemma_first_where_is_first(cs, is_inbox());
    if let Some(cur) = current {
        lemma_first_where_is_first(cs, with_id(cur.0));
    }
    if let Some(id) = remembered {
        lemma_first_where_is_first(cs, with_id(id));
    }
    if let Some(d) = once {
        let k: int = match current {
            Some(cur) => match first_where(cs, with_id(cur.0)) {
                Some(i) => i,
                None => initial_index(cs, remembered)->0,
            },
            None => initial_index(cs, remembered)->0,
        };
        assert(0 <= k < cs.len() && dest_of(cs[k]) == d);
        lemma_first_where_is_first(cs, with_id(d.0));
        assert(with_id(d.0)(cs[k]));
        let j = first_where(cs, with_id(d.0))->0;
        assert(cs[j].id == d.0);
        if j != k {
            if j < k {
                assert(cs[j].id != cs[k].id);
            } else {
                assert(cs[k].id != cs[j].id);
            }
        }
    }
}

} // verus!
