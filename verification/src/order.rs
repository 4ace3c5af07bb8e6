//! Stable ordering by an integer key. Several lists in the library are kept
//! in a documented order (hymns by number, cross-references by votes, overlay
//! spans by token); the sort here keeps items with equal keys in the order
//! they came in, which is what makes those orders reproducible.

use vstd::prelude::*;

verus! {

/// Something with an integer sort key.
pub trait SortKey {
    /// The key, as a mathematical integer.
    spec fn sort_key(&self) -> int;

    /// The key, computed.
    fn key_of(&self) -> (k: i64)
        ensures
            k as int == self.sort_key(),
    ;
}

/// Keys never decrease along `s`.
pub open spec fn sorted_by_key<T: SortKey>(s: Seq<T>) -> bool {
    forall|i: int, j: int| 0 <= i <= j < s.len() ==> s[i].sort_key() <= s[j].sort_key()
}

/// The items of a list whose key is `k`.
pub open spec fn key_is<T: SortKey>(k: int) -> spec_fn(T) -> bool {
    |x: T| x.sort_key() == k
}

/// `r` is `v` put in key order, items with equal keys keeping their order.
pub open spec fn stable_sorted<T: SortKey>(v: Seq<T>, r: Seq<T>) -> bool {
    &&& sorted_by_key(r)
    &&& forall|k: int| #[trigger] r.filter(key_is::<T>(k)) == v.filter(key_is::<T>(k))
}

proof fn lemma_filter_insert<T: SortKey>(out: Seq<T>, p: int, x: T, k: int)
    requires
        0 <= p <= out.len(),
        forall|i: int| 0 <= i < p ==> (#[trigger] out[i]).sort_key() < x.sort_key(),
        forall|i: int| p <= i < out.len() ==> (#[trigger] out[i]).sort_key() >= x.sort_key(),
        sorted_by_key(out),
    ensures
        out.insert(p, x).filter(key_is::<T>(k)) == (if x.sort_key() == k {
            seq![x]
        } else {
            Seq::empty()
        }) + out.filter(key_is::<T>(k)),
{
    let f = key_is::<T>(k);
    let a = out.subrange(0, p);
    let b = out.subrange(p, out.len() as int);
    assert(out == a + b);
    assert(out.insert(p, x) == a + (seq![x] + b));
    Seq::filter_distributes_over_add(a, seq![x] + b, f);
    Seq::filter_distributes_over_add(a, b, f);
    b.lemma_filter_prepend(x, f);
    if x.sort_key() == k {
        assert forall|i: int| 0 <= i < a.len() implies !f(a[i]) by {
            assert(a[i] == out[i]);
        }
        lemma_filter_none(a, f);
    }
}

proof fn lemma_filter_none<T>(s: Seq<T>, f: spec_fn(T) -> bool)
    requires
        forall|i: int| 0 <= i < s.len() ==> !f(s[i]),
    ensures
        s.filter(f) == Seq::<T>::empty(),
    decreases s.len(),
{
    reveal(Seq::filter);
    if s.len() > 0 {
        lemma_filter_none(s.drop_last(), f);
    }
}

/// `v` in key order; items with equal keys keep the order they had in `v`.
pub fn stable_sort<T: SortKey>(v: Vec<T>) -> (r: Vec<T>)
    ensures
        stable_sorted(v@, r@),
        r@.len() == v@.len(),
{
    let ghost orig = v@;
    let mut rest = v;
    let mut out: Vec<T> = Vec::new();
    while rest.len() > 0
        invariant
            rest@ == orig.take(rest@.len() as int),
            rest@.len() <= orig.len(),
            out@.len() + rest@.len() == orig.len(),
            sorted_by_key(out@),
            forall|k: int| #[trigger] out@.filter(key_is::<T>(k)) == orig.skip(
                rest@.len() as int,
            ).filter(key_is::<T>(k)),
        decreases rest@.len(),
    {
        let ghost n = rest@.len() as int;
        let x = rest.pop().unwrap();
        assert(x == orig[n - 1]);
        let kx = x.key_of();
        let mut p: usize = 0;
        while p < out.len()
            invariant
                p <= out@.len(),
                forall|i: int| 0 <= i < p ==> (#[trigger] out@[i]).sort_key() < kx,
            ensures
                p <= out@.len(),
                forall|i: int| 0 <= i < p ==> (#[trigger] out@[i]).sort_key() < kx,
                p == out@.len() || out@[p as int].sort_key() >= kx,
            decreases out@.len() - p,
        {
            if out[p].key_of() >= kx {
                break;
            }
            p = p + 1;
        }
        let ghost old_out = out@;
        proof {
            assert forall|i: int| p <= i < old_out.len() implies (#[trigger] old_out[i]).sort_key()
                >= x.sort_key() by {
                assert(old_out[p as int].sort_key() <= old_out[i].sort_key());
            }
        }
        out.insert(p, x);
        proof {
            assert(orig.skip(n - 1) == seq![x] + orig.skip(n));
            assert forall|k: int| #[trigger] out@.filter(key_is::<T>(k)) == orig.skip(
                n - 1,
            ).filter(key_is::<T>(k)) by {
                lemma_filter_insert(old_out, p as int, x, k);
                orig.skip(n).lemma_filter_prepend(x, key_is::<T>(k));
            }
            assert forall|i: int, j: int| 0 <= i <= j < out@.len() implies out@[i].sort_key()
                <= out@[j].sort_key() by {
                if i < p && j > p {
                    assert(out@[j] == old_out[j - 1]);
                } else if i > p {
                    assert(out@[i] == old_out[i - 1]);
                    assert(out@[j] == old_out[j - 1]);
                } else if i == p && j > p {
                    assert(out@[j] == old_out[j - 1]);
                }
            }
            assert(rest@ == orig.take(n - 1));
        }
    }
    assert(orig.skip(0) == orig);
    out
}

} // verus!
