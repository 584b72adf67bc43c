//! The bounded top-k ordering primitive: out of a sequence of keyed
//! candidates, keep the `k` greatest, ranked by key descending with ties
//! broken towards the earlier candidate.
//!
//! Every ranking step of the engine (prefix predictions, the fallback
//! extensions, query and task merging) funnels through this primitive.

use vstd::prelude::*;

verus! {

/// The deterministic total order the engine ranks by: position `i` beats
/// position `j` when its key is greater, or on equal keys when it came first.
pub open spec fn beats(keys: Seq<u64>, i: int, j: int) -> bool {
    keys[i] > keys[j] || (keys[i] == keys[j] && i < j)
}

/// The result of a bounded top-k selection over `keys`, as positions into
/// `keys`: the `min(k, n)` best positions under [`beats`], best first.
pub open spec fn is_top_k(keys: Seq<u64>, k: int, r: Seq<usize>) -> bool {
    &&& r.len() == if k <= keys.len() {
        k
    } else {
        keys.len() as int
    }
    &&& forall|p: int| 0 <= p < r.len() ==> (#[trigger] r[p]) < keys.len()
    &&& forall|p: int, q: int|
        0 <= p < q < r.len() ==> beats(keys, #[trigger] r[p] as int, #[trigger] r[q] as int)
    &&& forall|p: int, j: usize|
        #![trigger r[p], r.contains(j)]
        0 <= p < r.len() && j < keys.len() && !r.contains(j) ==> beats(keys, r[p] as int, j as int)
}

/// A top-k selection never lists a position twice: the order is strict.
pub proof fn lemma_top_k_distinct(keys: Seq<u64>, k: int, r: Seq<usize>)
    requires
        is_top_k(keys, k, r),
    ensures
        r.no_duplicates(),
{
    assert forall|p: int, q: int| 0 <= p < r.len() && 0 <= q < r.len() && p != q implies r[p]
        != r[q] by {
        if p < q {
            assert(beats(keys, r[p] as int, r[q] as int));
        } else {
            assert(beats(keys, r[q] as int, r[p] as int));
        }
    }
}

/// Ranks every position of `keys` under [`beats`], best first.
fn rank_all(keys: &Vec<u64>) -> (r: Vec<usize>)
    ensures
        r@.len() == keys@.len(),
        forall|p: int| 0 <= p < r@.len() ==> (#[trigger] r@[p]) < keys@.len(),
        forall|p: int, q: int|
            0 <= p < q < r@.len() ==> beats(keys@, #[trigger] r@[p] as int, #[trigger] r@[q] as int),
        forall|j: usize| j < keys@.len() ==> r@.contains(j),
{
    let n = keys.len();
    let mut out: Vec<usize> = Vec::new();
    let mut idx: usize = 0;
    while idx < n
        invariant
            idx <= n,
            n == keys@.len(),
            out@.len() == idx,
            forall|p: int| 0 <= p < out@.len() ==> (#[trigger] out@[p]) < idx,
            forall|p: int, q: int|
                0 <= p < q < out@.len() ==> beats(
                    keys@,
                    #[trigger] out@[p] as int,
                    #[trigger] out@[q] as int,
                ),
            forall|j: usize| j < idx ==> out@.contains(j),
        decreases n - idx,
    {
        let ghost prev = out@;
        let key = keys[idx];
        let mut pos: usize = 0;
        while pos < out.len() && keys[out[pos]] >= key
            invariant
                pos <= out@.len(),
                n == keys@.len(),
                idx < n,
                key == keys@[idx as int],
                forall|p: int| 0 <= p < out@.len() ==> (#[trigger] out@[p]) < idx,
                forall|p: int| 0 <= p < pos ==> keys@[#[trigger] out@[p] as int] >= key,
            decreases out@.len() - pos,
        {
            pos += 1;
        }
        out.insert(pos, idx);
        proof {
            assert(out@ == prev.insert(pos as int, idx));
            assert forall|p: int, q: int| 0 <= p < q < out@.len() implies beats(
                keys@,
                out@[p] as int,
                out@[q] as int,
            ) by {
                if q < pos {
                    assert(out@[p] == prev[p] && out@[q] == prev[q]);
                } else if p > pos {
                    assert(out@[p] == prev[p - 1] && out@[q] == prev[q - 1]);
                } else if p == pos && q > pos {
                    assert(out@[p] == idx && out@[q] == prev[q - 1]);
                    assert(keys@[prev[q - 1] as int] < key);
                } else if q == pos && p < pos {
                    assert(out@[p] == prev[p] && out@[q] == idx);
                    assert(keys@[prev[p] as int] >= key);
                } else if p < pos && q > pos {
                    assert(out@[p] == prev[p] && out@[q] == prev[q - 1]);
                }
            }
            assert forall|j: usize| j < idx + 1 implies out@.contains(j) by {
                if j == idx {
                    assert(out@[pos as int] == idx);
                } else {
                    assert(prev.contains(j));
                    let w = choose|w: int| 0 <= w < prev.len() && prev[w] == j;
                    assert(prev[w] == j);
                    if w < pos {
                        assert(out@[w] == j);
                    } else {
                        assert(out@[w + 1] == j);
                    }
                }
            }
        }
        idx += 1;
    }
    out
}

/// Selects the `k` positions with the greatest keys, best first, ties broken
/// towards the earlier position.
pub fn top_k_indices(keys: &Vec<u64>, k: usize) -> (r: Vec<usize>)
    ensures
        is_top_k(keys@, k as int, r@),
{
    let mut full = rank_all(keys);
    let ghost whole = full@;
    if k < full.len() {
        full.truncate(k);
        proof {
            assert(full@ =~= whole.take(k as int));
        }
    }
    proof {
        assert forall|p: int, j: usize|
            0 <= p < full@.len() && j < keys@.len() && !full@.contains(j) implies beats(
            keys@,
            full@[p] as int,
            j as int,
        ) by {
            let q = choose|q: int| 0 <= q < whole.len() && whole[q] == j;
            assert(whole.contains(j));
            if q < full@.len() {
                assert(full@[q] == j);
            } else {
                assert(full@[p] == whole[p]);
                assert(beats(keys@, whole[p] as int, whole[q] as int));
            }
        }
    }
    full
}

} // verus!
