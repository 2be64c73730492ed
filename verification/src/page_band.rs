//! The page numbers of a pager strip whose last page is known and above
//! six: page 1, the last page and a band of four around the current page,
//! collected in a `BTreeSet` that grows the band by one wherever page 1 or
//! the last page already falls inside it, then read back in order.

use std::collections::BTreeSet;

use vstd::prelude::*;
use vstd::std_specs::cmp::OrdSpec;
use vstd::std_specs::iter::IteratorSpec;

use crate::catalog::{ints, span, strip_band, strip_numbers};

verus! {

broadcast use {vstd::std_specs::btree::group_btree_axioms, vstd::laws_cmp::group_laws_cmp};

/// The pages 1, `l` and `lo..=hi`, as a set.
pub open spec fn band_set(lo: int, hi: int, l: int) -> Set<usize> {
    Set::new(|p: usize| p == 1 || p == l || (lo <= p && p <= hi))
}

/// The same pages in ascending order.
pub open spec fn band_seq(lo: int, hi: int, l: int) -> Seq<usize> {
    (if lo > 1 {
        seq![1usize]
    } else {
        Seq::empty()
    }) + Seq::new((hi - lo + 1) as nat, |i: int| (lo + i) as usize) + (if hi < l {
        seq![l as usize]
    } else {
        Seq::empty()
    })
}

/// Strictly increasing.
pub open spec fn increasing(s: Seq<usize>) -> bool {
    forall|i: int, j: int| 0 <= i < j < s.len() ==> s[i] < s[j]
}

proof fn lemma_band(lo: int, hi: int, l: int)
    requires
        1 <= lo <= hi <= l <= usize::MAX,
    ensures
        increasing(band_seq(lo, hi, l)),
        band_seq(lo, hi, l).to_set() == band_set(lo, hi, l),
        band_set(lo, hi, l).len() == band_seq(lo, hi, l).len(),
        band_seq(lo, hi, l).len() == (if lo > 1 {
            1int
        } else {
            0
        }) + (hi - lo + 1) + (if hi < l {
            1int
        } else {
            0
        }),
        ints(band_seq(lo, hi, l)) == (if lo > 1 {
            seq![1int]
        } else {
            Seq::empty()
        }) + span(lo, hi) + (if hi < l {
            seq![l]
        } else {
            Seq::empty()
        }),
{
    let s = band_seq(lo, hi, l);
    let hb: int = if lo > 1 {
        1
    } else {
        0
    };
    let nb = hi - lo + 1;
    assert(s.len() == hb + nb + (if hi < l {
        1int
    } else {
        0
    }));
    assert forall|k: int| 0 <= k < s.len() implies #[trigger] s[k] as int == if k < hb {
        1
    } else if k < hb + nb {
        lo + (k - hb)
    } else {
        l
    } by {}
    assert forall|i: int, j: int| 0 <= i < j < s.len() implies s[i] < s[j] by {
        assert(s[i] as int == if i < hb {
            1
        } else if i < hb + nb {
            lo + (i - hb)
        } else {
            l
        });
        assert(s[j] as int == if j < hb {
            1
        } else if j < hb + nb {
            lo + (j - hb)
        } else {
            l
        });
    }
    assert forall|p: usize| #[trigger] s.to_set().contains(p) <==> band_set(lo, hi, l).contains(
        p,
    ) by {
        if band_set(lo, hi, l).contains(p) {
            if p == 1 && lo > 1 {
                assert(s[0] == p);
            } else if p == l && hi < l {
                assert(s[s.len() - 1] as int == l);
            } else {
                assert(s[hb + (p - lo)] == p);
            }
        }
        if s.to_set().contains(p) {
            let k = choose|k: int| 0 <= k < s.len() && s[k] == p;
            assert(s[k] as int == if k < hb {
                1
            } else if k < hb + nb {
                lo + (k - hb)
            } else {
                l
            });
        }
    }
    assert(s.to_set() =~= band_set(lo, hi, l));
    assert(s.no_duplicates()) by {
        assert forall|i: int, j: int|
            0 <= i < s.len() && 0 <= j < s.len() && i != j implies s[i] != s[j] by {
            if i < j {
                assert(s[i] < s[j]);
            } else {
                assert(s[j] < s[i]);
            }
        }
    }
    s.unique_seq_to_set();
    assert(ints(s) =~= (if lo > 1 {
        seq![1int]
    } else {
        Seq::empty()
    }) + span(lo, hi) + (if hi < l {
        seq![l]
    } else {
        Seq::empty()
    }));
}

/// Two increasing sequences holding the same numbers are the same.
proof fn lemma_increasing_unique(a: Seq<usize>, b: Seq<usize>)
    requires
        increasing(a),
        increasing(b),
        forall|x: usize| a.contains(x) <==> b.contains(x),
    ensures
        a == b,
    decreases a.len(),
{
    if a.len() == 0 {
        if b.len() > 0 {
            assert(b.contains(b[0]));
        }
        assert(a =~= b);
    } else {
        assert(a.contains(a[0]));
        let k = choose|k: int| 0 <= k < b.len() && b[k] == a[0];
        assert(b.contains(b[0]));
        let m = choose|m: int| 0 <= m < a.len() && a[m] == b[0];
        if k > 0 {
            assert(b[0] < b[k]);
        }
        if m > 0 {
            assert(a[0] < a[m]);
        }
        assert(a[0] == b[0]);
        let a1 = a.drop_first();
        let b1 = b.drop_first();
        assert forall|x: usize| a1.contains(x) <==> b1.contains(x) by {
            if a1.contains(x) {
                let i = choose|i: int| 0 <= i < a1.len() && a1[i] == x;
                assert(a[i + 1] == x && a[0] < a[i + 1]);
                assert(a.contains(x));
                let j = choose|j: int| 0 <= j < b.len() && b[j] == x;
                assert(j > 0);
                assert(b1[j - 1] == x);
            }
            if b1.contains(x) {
                let i = choose|i: int| 0 <= i < b1.len() && b1[i] == x;
                assert(b[i + 1] == x && b[0] < b[i + 1]);
                assert(b.contains(x));
                let j = choose|j: int| 0 <= j < a.len() && a[j] == x;
                assert(j > 0);
                assert(a1[j - 1] == x);
            }
        }
        lemma_increasing_unique(a1, b1);
        assert(a =~= seq![a[0]] + a1);
        assert(b =~= seq![b[0]] + b1);
    }
}

/// A `BTreeSet` walks its keys in increasing order.
proof fn lemma_keys_increasing(keys: Seq<&usize>)
    requires
        vstd::std_specs::btree::increasing_seq(keys),
    ensures
        forall|i: int, j: int| 0 <= i < j < keys.len() ==> *keys[i] < *keys[j],
{
    assert(vstd::laws_cmp::obeys_cmp::<usize>());
    assert(vstd::laws_cmp::obeys_cmp::<&usize>());
    vstd::std_specs::btree::axiom_increasing_seq_meaning::<&usize>(keys);
    assert forall|i: int, j: int| 0 <= i < j < keys.len() implies *keys[i] < *keys[j] by {
        assert((&keys[i]).cmp_spec(&keys[j]) is Less);
        assert((*keys[i]).cmp_spec(&*keys[j]) is Less);
    }
}

/// The set's numbers, ascending.
fn ascending_pages(set: &BTreeSet<usize>) -> (v: Vec<usize>)
    ensures
        increasing(v@),
        forall|x: usize| v@.contains(x) <==> set@.contains(x),
{
    let mut v: Vec<usize> = Vec::new();
    let ghost keys = vstd::std_specs::btree::spec_btree_keys_iter(set).remaining();
    for p in it: set.iter()
        invariant
            it.seq() == keys,
            v@ == keys.take(it.index() as int).map_values(|r: &usize| *r),
    {
        v.push(*p);
        proof {
            assert(keys.take(it.index() + 1) =~= keys.take(it.index() as int).push(p));
        }
    }
    proof {
        assert(v@ =~= keys.unref());
        lemma_keys_increasing(keys);
        assert forall|x: usize| v@.contains(x) <==> set@.contains(x) by {
            assert(keys.unref().to_set().contains(x) == set@.contains(x));
        }
    }
    v
}

/// The numbers the strip shows for current page `c` of `l > 6` pages,
/// ascending: page 1, the band around `c` and page `l`, six in all.
pub(crate) fn band_numbers(c: usize, l: usize) -> (nums: Vec<usize>)
    requires
        1 <= c <= l,
        l > 6,
    ensures
        ints(nums@) == strip_numbers(c as int, l as int),
{
    // Count up from `c` unless that would run into `l`; then count down to
    // `c`.
    let counting_up = c < l - 3;
    let (mut lo, mut hi): (usize, usize) = if counting_up {
        (c, c + 3)
    } else if c > 3 {
        (c - 3, c)
    } else {
        (1, c)
    };
    let ghost init = (lo as int, hi as int);
    let mut set: BTreeSet<usize> = BTreeSet::new();
    set.insert(1);
    set.insert(l);
    let n = hi - lo + 1;
    let mut k: usize = 0;
    while k < n
        invariant
            n == hi - lo + 1,
            1 <= lo <= hi <= l,
            k <= n,
            set@ == band_set(lo as int, lo + k - 1, l as int),
        decreases n - k,
    {
        set.insert(lo + k);
        proof {
            assert(set@ =~= band_set(lo as int, lo + k, l as int));
        }
        k = k + 1;
    }
    proof {
        lemma_band(lo as int, hi as int, l as int);
        let (blo, bhi) = strip_band(c as int, l as int);
        lemma_band(blo, bhi, l as int);
    }
    // Where page 1 or page `l` already lies in the band, the slot it frees
    // widens the band by one more page in the same direction.
    while set.len() < 6
        invariant
            1 <= c <= l,
            l > 6,
            1 <= lo <= hi <= l,
            counting_up == (c + 3 < l),
            init == (if counting_up {
                (c as int, c + 3)
            } else {
                (c - 3, c as int)
            }),
            (lo as int, hi as int) == strip_band(c as int, l as int) || (lo as int, hi as int)
                == init,
            set@ == band_set(lo as int, hi as int, l as int),
            set@.len() == band_seq(lo as int, hi as int, l as int).len(),
            band_seq(strip_band(c as int, l as int).0, strip_band(c as int, l as int).1, l as int).len()
                == 6,
        ensures
            (lo as int, hi as int) == strip_band(c as int, l as int),
            set@ == band_set(lo as int, hi as int, l as int),
        decreases (l - hi) + lo,
    {
        let grew = if counting_up {
            if hi < l {
                hi = hi + 1;
                set.insert(hi);
                true
            } else if lo > 1 {
                lo = lo - 1;
                set.insert(lo);
                true
            } else {
                false
            }
        } else if lo > 1 {
            lo = lo - 1;
            set.insert(lo);
            true
        } else if hi < l {
            hi = hi + 1;
            set.insert(hi);
            true
        } else {
            false
        };
        proof {
            if grew {
                assert(set@ =~= band_set(lo as int, hi as int, l as int));
                lemma_band(lo as int, hi as int, l as int);
            }
        }
        if !grew {
            break;
        }
    }
    let v = ascending_pages(&set);
    proof {
        let (blo, bhi) = strip_band(c as int, l as int);
        lemma_band(blo, bhi, l as int);
        let b = band_seq(blo, bhi, l as int);
        assert forall|x: usize| v@.contains(x) <==> b.contains(x) by {
            assert(b.to_set().contains(x) == b.contains(x));
        }
        lemma_increasing_unique(v@, b);
    }
    v
}

} // verus!
