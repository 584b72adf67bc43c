//! A vector sorted by an explicit order key rather than by the item's own
//! ordering. The engine keys everything by 16-bit relevance, so the order
//! key is fixed to `u16`.

use vstd::prelude::*;
use crate::topk::{beats, is_top_k, top_k_indices};

verus! {

/// Inserting anywhere adds exactly one occurrence to the multiset.
proof fn lemma_insert_to_multiset<T>(s: Seq<(T, u16)>, i: int, x: (T, u16))
    requires
        0 <= i <= s.len(),
    ensures
        s.insert(i, x).to_multiset() == s.to_multiset().insert(x),
{
    broadcast use vstd::seq_lib::group_to_multiset_ensures;

    let a = s.take(i);
    let b = s.skip(i);
    assert(s =~= a + b);
    assert(s.insert(i, x) =~= a.push(x) + b);
    vstd::seq_lib::lemma_multiset_commutative(a, b);
    vstd::seq_lib::lemma_multiset_commutative(a.push(x), b);
    assert(a.push(x).to_multiset() == a.to_multiset().insert(x));
    assert(a.to_multiset().insert(x).add(b.to_multiset()) =~= a.to_multiset().add(
        b.to_multiset(),
    ).insert(x));
}

/// Whether the keyed sequence is sorted by ascending key.
pub open spec fn sorted_by_key<T>(s: Seq<(T, u16)>) -> bool {
    forall|p: int, q: int| 0 <= p < q < s.len() ==> (#[trigger] s[p]).1 <= (#[trigger] s[q]).1
}

/// A vector of items, each carrying the key it is ordered by.
pub struct SortVec<T> {
    pub inner: Vec<(T, u16)>,
}

impl<T> SortVec<T> {
    /// Creates a new empty vector.
    pub fn new() -> (r: SortVec<T>)
        ensures
            r.inner@.len() == 0,
    {
        SortVec { inner: Vec::new() }
    }

    /// Creates a new empty vector with room for `capacity` items.
    pub fn with_capacity(capacity: usize) -> (r: SortVec<T>)
        ensures
            r.inner@.len() == 0,
    {
        SortVec { inner: Vec::with_capacity(capacity) }
    }

    /// Wraps existing keyed items.
    pub fn from_tuple_vec(inner: Vec<(T, u16)>) -> (r: SortVec<T>)
        ensures
            r.inner@ == inner@,
    {
        SortVec { inner }
    }

    /// Pairs items with their keys positionally; extra entries of the
    /// longer side are dropped.
    pub fn from_vec(inner: Vec<T>, order: Vec<u16>) -> (r: SortVec<T>)
        ensures
            r.inner@.len() == vstd::math::min(inner@.len() as int, order@.len() as int),
            forall|i: int|
                0 <= i < r.inner@.len() ==> (#[trigger] r.inner@[i]).1 == order@[i] && r.inner@[i].0
                    == inner@[i],
    {
        let mut out: Vec<(T, u16)> = Vec::new();
        let mut rest = inner;
        let n = if rest.len() <= order.len() {
            rest.len()
        } else {
            order.len()
        };
        let ghost items0 = rest@;
        let mut i: usize = 0;
        while i < n
            invariant
                i <= n,
                n <= items0.len(),
                n <= order@.len(),
                rest@ == items0.skip(i as int),
                out@.len() == i,
                forall|t: int|
                    0 <= t < i ==> (#[trigger] out@[t]).1 == order@[t] && out@[t].0 == items0[t],
            decreases n - i,
        {
            proof {
                assert(rest@.len() == items0.len() - i);
            }
            let x = rest.remove(0);
            out.push((x, order[i]));
            i += 1;
            proof {
                assert(rest@ =~= items0.skip(i as int));
            }
        }
        SortVec { inner: out }
    }

    /// Adds an item under the given order key.
    pub fn push(&mut self, item: T, ord: u16)
        ensures
            final(self).inner@ == old(self).inner@.push((item, ord)),
    {
        self.inner.push((item, ord));
    }

    /// The entry at `pos`, if any.
    pub fn get(&self, pos: usize) -> (r: Option<&(T, u16)>)
        ensures
            match r {
                Some(e) => pos < self.inner@.len() && *e == self.inner@[pos as int],
                None => pos >= self.inner@.len(),
            },
    {
        if pos < self.inner.len() {
            Some(&self.inner[pos])
        } else {
            None
        }
    }

    /// How many items the vector holds.
    pub fn len(&self) -> (r: usize)
        ensures
            r == self.inner@.len(),
    {
        self.inner.len()
    }

    /// Whether the vector is empty.
    pub fn is_empty(&self) -> (r: bool)
        ensures
            r == (self.inner@.len() == 0),
    {
        self.inner.len() == 0
    }

    /// Hands the keyed items back.
    pub fn into_inner(self) -> (r: Vec<(T, u16)>)
        ensures
            r@ == self.inner@,
    {
        self.inner
    }

    /// The keyed items sorted by ascending key: a permutation of the
    /// contents, smallest key first.
    pub fn sort_ll(self) -> (r: Vec<(T, u16)>)
        ensures
            sorted_by_key(r@),
            r@.to_multiset() == self.inner@.to_multiset(),
    {
        broadcast use vstd::seq_lib::group_to_multiset_ensures;

        let mut v = self.inner;
        if v.len() <= 1 {
            return v;
        }
        let mut i: usize = 1;
        while i < v.len()
            invariant
                1 <= i <= v@.len(),
                v@.to_multiset() == self.inner@.to_multiset(),
                sorted_by_key(v@.take(i as int)),
            decreases v@.len() - i,
        {
            let ghost before = v@;
            let x = v.remove(i);
            let ghost mid = v@;
            let mut pos: usize = 0;
            while pos < i && v[pos].1 <= x.1
                invariant
                    pos <= i,
                    i < before.len(),
                    v@ == mid,
                    mid.len() == before.len() - 1,
                    forall|t: int| 0 <= t < pos ==> (#[trigger] mid[t]).1 <= x.1,
                decreases i - pos,
            {
                pos += 1;
            }
            v.insert(pos, x);
            proof {
                assert(v@ == mid.insert(pos as int, x));
                assert(v@.to_multiset() == before.to_multiset()) by {
                    assert(mid =~= before.remove(i as int));
                    before.to_multiset_ensures();
                    mid.to_multiset_ensures();
                    assert(before[i as int] == x);
                    lemma_insert_to_multiset(mid, pos as int, x);
                }
                assert(sorted_by_key(v@.take(i + 1))) by {
                    assert forall|p: int, q: int| 0 <= p < q < i + 1 implies (#[trigger] v@.take(
                        i + 1,
                    )[p]).1 <= (#[trigger] v@.take(i + 1)[q]).1 by {
                        assert(before.take(i as int) =~= mid.take(i as int));
                        if q < pos {
                        } else if p == pos {
                            assert(v@[q] == mid[q - 1]);
                            assert(mid[q - 1].1 > x.1 || q - 1 >= i);
                        } else if q == pos {
                            assert(v@[p] == mid[p]);
                        } else if p < pos && q > pos {
                            assert(v@[p] == mid[p] && v@[q] == mid[q - 1]);
                            assert(mid[q - 1].1 > x.1 || q - 1 >= i);
                        } else if p > pos {
                            assert(v@[p] == mid[p - 1] && v@[q] == mid[q - 1]);
                        }
                    }
                }
            }
            i += 1;
        }
        proof {
            assert(v@.take(v@.len() as int) =~= v@);
        }
        v
    }
}

/// The order key of each entry.
pub open spec fn pair_keys<T>(s: Seq<(T, u16)>) -> Seq<u64> {
    s.map_values(|e: (T, u16)| e.1 as u64)
}

impl<T> SortVec<T> {
    /// Rearranges the entries with a caller-supplied comparator; the result
    /// holds exactly the entries of the vector. What order the comparator
    /// imposes is its caller's business and is not claimed here.
    pub fn sort_by<F: Fn(&(T, u16), &(T, u16)) -> core::cmp::Ordering>(self, ord: F) -> (r: Vec<
        (T, u16),
    >)
        requires
            forall|a: (T, u16), b: (T, u16)| #[trigger] ord.requires((&a, &b)),
        ensures
            r@.to_multiset() == self.inner@.to_multiset(),
    {
        broadcast use vstd::seq_lib::group_to_multiset_ensures;

        let mut v = self.inner;
        if v.len() <= 1 {
            return v;
        }
        let mut i: usize = 1;
        while i < v.len()
            invariant
                1 <= i <= v@.len(),
                v@.to_multiset() == self.inner@.to_multiset(),
                forall|a: (T, u16), b: (T, u16)| #[trigger] ord.requires((&a, &b)),
            decreases v@.len() - i,
        {
            let ghost before = v@;
            let x = v.remove(i);
            let ghost mid = v@;
            let mut pos: usize = 0;
            while pos < i && !matches!(ord(&v[pos], &x), core::cmp::Ordering::Greater)
                invariant
                    pos <= i,
                    i < before.len(),
                    v@ == mid,
                    mid.len() == before.len() - 1,
                    forall|a: (T, u16), b: (T, u16)| #[trigger] ord.requires((&a, &b)),
                decreases i - pos,
            {
                pos += 1;
            }
            v.insert(pos, x);
            proof {
                assert(v@ == mid.insert(pos as int, x));
                assert(v@.to_multiset() == before.to_multiset()) by {
                    assert(mid =~= before.remove(i as int));
                    before.to_multiset_ensures();
                    mid.to_multiset_ensures();
                    assert(before[i as int] == x);
                    lemma_insert_to_multiset(mid, pos as int, x);
                }
            }
            i += 1;
        }
        v
    }
}

impl<T: Copy> SortVec<T> {
    /// The `n` entries with the greatest keys, best first, ties broken
    /// towards the earlier entry: an [`is_top_k`] selection over the keys.
    pub fn get_biggest(&self, n: usize) -> (r: Vec<(T, u16)>)
        ensures
            r@.len() == vstd::math::min(n as int, self.inner@.len() as int),
            forall|p: int, q: int|
                0 <= p < q < r@.len() ==> (#[trigger] r@[p]).1 >= (#[trigger] r@[q]).1,
            forall|p: int| 0 <= p < r@.len() ==> self.inner@.contains(#[trigger] r@[p]),
            exists|sel: Seq<usize>|
                #![trigger is_top_k(pair_keys(self.inner@), n as int, sel)]
                is_top_k(pair_keys(self.inner@), n as int, sel) && r@.len() == sel.len() && (forall|
                    p: int,
                | 0 <= p < r@.len() ==> #[trigger] r@[p] == self.inner@[sel[p] as int]),
    {
        let mut keys: Vec<u64> = Vec::new();
        let mut i: usize = 0;
        while i < self.inner.len()
            invariant
                i <= self.inner@.len(),
                keys@.len() == i,
                forall|t: int| 0 <= t < i ==> keys@[t] == (#[trigger] self.inner@[t]).1 as u64,
            decreases self.inner@.len() - i,
        {
            keys.push(self.inner[i].1 as u64);
            i += 1;
        }
        let chosen = top_k_indices(&keys, n);
        let mut out: Vec<(T, u16)> = Vec::new();
        let mut j: usize = 0;
        while j < chosen.len()
            invariant
                j <= chosen@.len(),
                is_top_k(keys@, n as int, chosen@),
                keys@.len() == self.inner@.len(),
                forall|t: int| 0 <= t < keys@.len() ==> keys@[t] == (#[trigger] self.inner@[t]).1 as u64,
                out@.len() == j,
                forall|t: int|
                    0 <= t < j ==> #[trigger] out@[t] == self.inner@[chosen@[t] as int],
            decreases chosen@.len() - j,
        {
            out.push(self.inner[chosen[j]]);
            j += 1;
        }
        proof {
            assert forall|p: int, q: int| 0 <= p < q < out@.len() implies (#[trigger] out@[p]).1
                >= (#[trigger] out@[q]).1 by {
                assert(beats(keys@, chosen@[p] as int, chosen@[q] as int));
            }
            assert forall|p: int| 0 <= p < out@.len() implies self.inner@.contains(
                #[trigger] out@[p],
            ) by {
                assert(out@[p] == self.inner@[chosen@[p] as int]);
            }
            assert(keys@ =~= pair_keys(self.inner@));
            assert(exists|sel: Seq<usize>|
                #![trigger is_top_k(pair_keys(self.inner@), n as int, sel)]
                is_top_k(pair_keys(self.inner@), n as int, sel) && out@.len() == sel.len() && (
                forall|p: int|
                    0 <= p < out@.len() ==> #[trigger] out@[p] == self.inner@[sel[p] as int])) by {
                assert(is_top_k(pair_keys(self.inner@), n as int, chosen@) && out@.len()
                    == chosen@.len() && (forall|p: int|
                    0 <= p < out@.len() ==> #[trigger] out@[p] == self.inner@[chosen@[
                        p
                    ] as int]));
            }
        }
        out
    }

    /// Like [`SortVec::get_biggest`], consuming the vector.
    pub fn into_biggest(self, n: usize) -> (r: Vec<(T, u16)>)
        ensures
            r@.len() == vstd::math::min(n as int, self.inner@.len() as int),
            forall|p: int, q: int|
                0 <= p < q < r@.len() ==> (#[trigger] r@[p]).1 >= (#[trigger] r@[q]).1,
            forall|p: int| 0 <= p < r@.len() ==> self.inner@.contains(#[trigger] r@[p]),
            exists|sel: Seq<usize>|
                #![trigger is_top_k(pair_keys(self.inner@), n as int, sel)]
                is_top_k(pair_keys(self.inner@), n as int, sel) && r@.len() == sel.len() && (forall|
                    p: int,
                | 0 <= p < r@.len() ==> #[trigger] r@[p] == self.inner@[sel[p] as int]),
    {
        self.get_biggest(n)
    }
}

} // verus!
