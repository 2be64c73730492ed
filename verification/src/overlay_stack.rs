//! The overlay stack: open overlays register their id, and an Escape handler
//! acts only when its own id is on top, so one keypress closes exactly the
//! topmost overlay.

use vstd::prelude::*;

use crate::text::{same_text, texts};

verus! {

/// The ids of the open overlays, bottom first. No id appears twice.
pub struct OverlayStack {
    ids: Vec<String>,
}

/// No id is held twice.
pub open spec fn distinct(s: Seq<Seq<char>>) -> bool {
    forall|i: int, j: int| 0 <= i < s.len() && 0 <= j < s.len() && i != j ==> s[i] != s[j]
}

/// `s` without any occurrence of `id`, the rest in order.
pub open spec fn without(s: Seq<Seq<char>>, id: Seq<char>) -> Seq<Seq<char>>
    decreases s.len(),
{
    if s.len() == 0 {
        s
    } else if s.last() == id {
        without(s.drop_last(), id)
    } else {
        without(s.drop_last(), id).push(s.last())
    }
}

proof fn lemma_without_push(s: Seq<Seq<char>>, x: Seq<char>, id: Seq<char>)
    ensures
        without(s.push(x), id) == if x == id { without(s, id) } else { without(s, id).push(x) },
{
    assert(s.push(x).drop_last() =~= s);
}

impl View for OverlayStack {
    type V = Seq<Seq<char>>;

    closed spec fn view(&self) -> Seq<Seq<char>> {
        texts(self.ids@)
    }
}

impl OverlayStack {
    /// Well-formed: no overlay is registered twice.
    pub open spec fn wf(&self) -> bool {
        distinct(self@)
    }

    /// Is `id` the topmost entry of `s`?
    pub open spec fn top_is(s: Seq<Seq<char>>, id: Seq<char>) -> bool {
        s.len() > 0 && s.last() == id
    }

    /// An empty stack: nothing is open.
    pub fn new() -> (s: Self)
        ensures
            s@ == Seq::<Seq<char>>::empty(),
            s.wf(),
    {
        OverlayStack { ids: Vec::new() }
    }
}

proof fn lemma_without_sub(s: Seq<Seq<char>>, id: Seq<char>, k: int)
    requires
        0 <= k < without(s, id).len(),
    ensures
        s.contains(without(s, id)[k]),
        without(s, id)[k] != id,
    decreases s.len(),
{
    if s.len() > 0 {
        let init = s.drop_last();
        assert(s =~= init.push(s.last()));
        lemma_without_push(init, s.last(), id);
        if k < without(init, id).len() {
            lemma_without_sub(init, id, k);
            let j = choose|j: int| 0 <= j < init.len() && init[j] == without(init, id)[k];
            assert(s[j] == init[j]);
        } else {
            assert(s[s.len() - 1] == s.last());
        }
    }
}

proof fn lemma_without_distinct(s: Seq<Seq<char>>, id: Seq<char>)
    requires
        distinct(s),
    ensures
        distinct(without(s, id)),
        !without(s, id).contains(id),
    decreases s.len(),
{
    if s.len() > 0 {
        let init = s.drop_last();
        assert(distinct(init));
        lemma_without_distinct(init, id);
        assert(s =~= init.push(s.last()));
        lemma_without_push(init, s.last(), id);
        let f = without(init, id);
        if s.last() != id {
            assert(without(s, id) == f.push(s.last()));
            assert(!init.contains(s.last())) by {
                if init.contains(s.last()) {
                    let k = choose|k: int| 0 <= k < init.len() && init[k] == s.last();
                    assert(s[k] == s[s.len() - 1]);
                }
            }
            assert(!f.contains(s.last())) by {
                if f.contains(s.last()) {
                    let k = choose|k: int| 0 <= k < f.len() && f[k] == s.last();
                    lemma_without_sub(init, id, k);
                }
            }
            assert forall|i: int, j: int|
                0 <= i < without(s, id).len() && 0 <= j < without(s, id).len() && i != j implies
                without(s, id)[i] != without(s, id)[j] by {
                if i < f.len() && j < f.len() {
                } else if i == f.len() {
                    assert(f.contains(f[j]));
                } else {
                    assert(f.contains(f[i]));
                }
            }
        } else {
            assert(without(s, id) == f);
        }
    }
}

/// Removes every entry equal to `id`, keeping the rest in order.
fn retain_other(ids: &Vec<String>, id: &str) -> (out: Vec<String>)
    ensures
        texts(out@) == without(texts(ids@), id@),
{
    let mut out: Vec<String> = Vec::new();
    let mut i: usize = 0;
    while i < ids.len()
        invariant
            i <= ids@.len(),
            texts(out@) == without(texts(ids@).take(i as int), id@),
        decreases ids@.len() - i,
    {
        let ghost before = texts(ids@).take(i as int);
        proof {
            assert(texts(ids@).take(i + 1) =~= before.push(ids@[i as int]@));
            lemma_without_push(before, ids@[i as int]@, id@);
        }
        if !same_text(ids[i].as_str(), id) {
            let ghost kept = out@;
            out.push(ids[i].clone());
            proof {
                assert(texts(out@) =~= texts(kept).push(ids@[i as int]@));
            }
        }
        i = i + 1;
    }
    proof {
        assert(texts(ids@).take(ids@.len() as int) =~= texts(ids@));
    }
    out
}

/// Registers `id` as the topmost overlay. Idempotent: pushing an id that is
/// already open moves it to the top rather than adding a second entry.
pub fn push(stack: &mut OverlayStack, id: &str)
    requires
        old(stack).wf(),
    ensures
        final(stack).wf(),
        final(stack)@ == without(old(stack)@, id@).push(id@),
{
    let mut next = retain_other(&stack.ids, id);
    next.push(String::from_str(id));
    proof {
        lemma_without_distinct(old(stack)@, id@);
        let f = without(old(stack)@, id@);
        assert(texts(next@) =~= f.push(id@));
        assert forall|i: int, j: int|
            0 <= i < f.push(id@).len() && 0 <= j < f.push(id@).len() && i != j implies
            f.push(id@)[i] != f.push(id@)[j] by {
            if i < f.len() && j < f.len() {
            } else if i == f.len() {
                assert(f.contains(f[j]));
            } else {
                assert(f.contains(f[i]));
            }
        }
    }
    stack.ids = next;
}

/// Drops `id` from the stack (its overlay closed or unmounted).
pub fn remove(stack: &mut OverlayStack, id: &str)
    requires
        old(stack).wf(),
    ensures
        final(stack).wf(),
        final(stack)@ == without(old(stack)@, id@),
{
    let next = retain_other(&stack.ids, id);
    proof {
        lemma_without_distinct(old(stack)@, id@);
    }
    stack.ids = next;
}

/// Is `id` the topmost open overlay? The Escape gate.
pub fn is_top(stack: &OverlayStack, id: &str) -> (top: bool)
    ensures
        top == OverlayStack::top_is(stack@, id@),
{
    let n = stack.ids.len();
    if n == 0 {
        false
    } else {
        same_text(stack.ids[n - 1].as_str(), id)
    }
}


proof fn lemma_without_absent(s: Seq<Seq<char>>, id: Seq<char>)
    requires
        !s.contains(id),
    ensures
        without(s, id) == s,
    decreases s.len(),
{
    if s.len() > 0 {
        let init = s.drop_last();
        assert(s =~= init.push(s.last()));
        assert(!init.contains(id)) by {
            if init.contains(id) {
                let k = choose|k: int| 0 <= k < init.len() && init[k] == id;
                assert(s[k] == id);
            }
        }
        lemma_without_absent(init, id);
        lemma_without_push(init, s.last(), id);
        assert(s[s.len() - 1] != id);
    }
}

/// Pushing an overlay makes it the one Escape closes: it is on top, and no
/// other id is.
pub proof fn law_push_makes_top(s: Seq<Seq<char>>, id: Seq<char>, other: Seq<char>)
    requires
        other != id,
    ensures
        OverlayStack::top_is(without(s, id).push(id), id),
        !OverlayStack::top_is(without(s, id).push(id), other),
{
}

/// Opening an overlay and then closing it leaves the stack as it was, minus
/// that overlay: the overlays below it are untouched and in order.
pub proof fn law_remove_undoes_push(s: Seq<Seq<char>>, id: Seq<char>)
    requires
        distinct(s),
    ensures
        without(without(s, id).push(id), id) == without(s, id),
        !s.contains(id) ==> without(without(s, id).push(id), id) == s,
{
    lemma_without_push(without(s, id), id, id);
    lemma_without_distinct(s, id);
    lemma_without_absent(without(s, id), id);
    if !s.contains(id) {
        lemma_without_absent(s, id);
    }
}

/// Pushing the same overlay twice is the same as pushing it once.
pub proof fn law_push_idempotent(s: Seq<Seq<char>>, id: Seq<char>)
    requires
        distinct(s),
    ensures
        without(without(s, id).push(id), id).push(id) == without(s, id).push(id),
{
    law_remove_undoes_push(s, id);
}

/// Closing an overlay that is not on top leaves the top where it was: one
/// Escape still closes the same topmost overlay.
pub proof fn law_remove_below_keeps_top(s: Seq<Seq<char>>, id: Seq<char>, top: Seq<char>)
    requires
        OverlayStack::top_is(s, top),
        top != id,
    ensures
        OverlayStack::top_is(without(s, id), top),
{
    let init = s.drop_last();
    assert(s =~= init.push(s.last()));
    lemma_without_push(init, s.last(), id);
}

/// At most one overlay answers "I am on top".
pub proof fn law_single_top(s: Seq<Seq<char>>, a: Seq<char>, b: Seq<char>)
    requires
        OverlayStack::top_is(s, a),
        OverlayStack::top_is(s, b),
    ensures
        a == b,
{
}

} // verus!
