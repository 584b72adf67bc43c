//! The raw n-gram index: every lookup, even the primary one, goes through
//! n-gram similarity over the vector index.

pub mod builder;
pub mod item;

pub use item::Item;

use vstd::prelude::*;
use crate::index::ngram_ext::{lemma_overlap_to_set, padded_chars, spec_dice_milli, spec_overlap, spec_padded, NGIndex};
use crate::relevance::item::{EngineItem, IndexEntry};
use crate::text::{chars_of, string_from_chars};
use crate::topk::{beats, is_top_k, top_k_indices};

verus! {

/// Wraps `word` in `n - 1` sentinels on either side, the pad width the raw
/// n-gram index uses.
pub fn padded(word: &str, n: usize) -> (r: String)
    requires
        n >= 1,
    ensures
        r@ == spec_padded(word@, n - 1),
{
    let chars = chars_of(word);
    let p = padded_chars(&chars, n - 1);
    string_from_chars(&p)
}

/// An index answering every lookup through n-gram similarity.
pub struct NgramIndex {
    /// All words; the position is the term id.
    pub terms: Vec<Item>,
    /// The vector index over the words' n-grams.
    pub index: NGIndex,
    /// The window width.
    pub n: usize,
}

/// A candidate id paired with the exact Dice score of the document that
/// listed it.
pub open spec fn candidate_scored(ix: NgramIndex, q: Seq<char>, w: int, c: (u32, u16)) -> bool {
    exists|d: int|
        #![trigger ix.index.docs@[d]]
        {
            let ng = ix.index;
            &&& 0 <= d < ng.docs@.len()
            &&& ng.docs@[d].ids@.contains(c.0)
            &&& c.1 == spec_dice_milli(
                ng.spec_query_dims(q).intersect(ng.docs@[d].dims@.to_set()).len() as int,
                ng.spec_query_dims(q).len() as int,
                ng.docs@[d].dims@.len() as int,
                w,
            )
        }
}

impl NgramIndex {
    /// Every stored payload id is live and every term is well formed.
    pub open spec fn wf(self) -> bool {
        &&& self.terms@.len() <= 0xFFFF_FFFF
        &&& forall|i: int|
            0 <= i < self.terms@.len() ==> ((#[trigger] self.terms@[i]).frequency <= 1_000_000
                && self.terms@[i].word@.len() < 0x100_0000)
        &&& self.index.wf()
        &&& self.index.n <= 16
        &&& forall|d: int, u: int|
            #![trigger self.index.docs@[d].ids@[u]]
            0 <= d < self.index.docs@.len() && 0 <= u < self.index.docs@[d].ids@.len()
                ==> self.index.docs@[d].ids@[u] < self.terms@.len()
    }

    /// The raw item behind a term id.
    pub fn get_item(&self, id: u32) -> (r: &Item)
        requires
            self.wf(),
            id < self.terms@.len(),
        ensures
            *r == self.terms@[id as int],
    {
        &self.terms[id as usize]
    }

    /// `e` is a stored term of this index.
    pub open spec fn stored_term(self, e: IndexEntry) -> bool {
        exists|id: u32|
            #![auto]
            id < self.terms@.len() && e == IndexEntry::Basic(self.terms@[id as int])
    }

    /// `e` is a true n-gram hit: a stored term listed by some indexed
    /// document, its relevance exactly the Dice similarity of the query's
    /// dimension set against that document's.
    pub open spec fn ngram_hit(self, q: Seq<char>, w: int, e: EngineItem) -> bool {
        exists|d: int, id: u32|
            #![trigger self.index.docs@[d].ids@.contains(id)]
            {
                let ng = self.index;
                &&& 0 <= d < ng.docs@.len()
                &&& ng.docs@[d].ids@.contains(id)
                &&& id < self.terms@.len()
                &&& e.item == IndexEntry::Basic(self.terms@[id as int])
                &&& e.relevance == spec_dice_milli(
                    ng.spec_query_dims(q).intersect(ng.docs@[d].dims@.to_set()).len() as int,
                    ng.spec_query_dims(q).len() as int,
                    ng.docs@[d].dims@.len() as int,
                    w,
                )
            }
    }

    /// Everything [`NgramIndex::predictions`] guarantees of its result.
    pub open spec fn predictions_post(self, inp: Seq<char>, limit: int, r: Seq<EngineItem>) -> bool {
        &&& r.len() <= limit
        &&& forall|i: int|
            0 <= i < r.len() ==> (#[trigger] r[i]).relevance <= 1000 && self.stored_term(r[i].item)
                && self.ngram_hit(inp, 500, r[i]) && r[i].item.wf()
        &&& forall|p: int, q: int|
            0 <= p < q < r.len() ==> (#[trigger] r[p]).relevance >= (#[trigger] r[q]).relevance
    }

    /// The up-to-`limit` most similar terms, by descending Dice score, the
    /// per-mille score left in the relevance field.
    pub fn predictions(&self, inp: &str, limit: usize) -> (r: Vec<EngineItem>)
        requires
            self.wf(),
            inp@.len() < 0xFF_0000,
        ensures
            r@.len() <= limit,
            forall|i: int|
                0 <= i < r@.len() ==> (#[trigger] r@[i]).relevance <= 1000 && self.stored_term(
                    r@[i].item,
                ) && self.ngram_hit(inp@, 500, r@[i]) && r@[i].item.wf(),
            forall|p: int, q: int|
                0 <= p < q < r@.len() ==> (#[trigger] r@[p]).relevance >= (
                #[trigger] r@[q]).relevance,
    {
        self.lookup(inp, limit, false)
    }

    /// The terms whose n-gram set matches the query's exactly (a full Dice
    /// score), each carried with relevance 1000.
    pub fn exact(&self, inp: &str) -> (r: Vec<EngineItem>)
        requires
            self.wf(),
            inp@.len() < 0xFF_0000,
        ensures
            forall|i: int|
                0 <= i < r@.len() ==> (#[trigger] r@[i]).relevance == 1000 && self.stored_term(
                    r@[i].item,
                ) && self.ngram_hit(inp@, 500, r@[i]) && r@[i].item.wf(),
    {
        self.lookup(inp, usize::MAX, true)
    }

    /// Shared lookup: query the vector index, keep either everything or
    /// only perfect scores, rank by score descending.
    fn lookup(&self, inp: &str, limit: usize, only_exact: bool) -> (r: Vec<EngineItem>)
        requires
            self.wf(),
            inp@.len() < 0xFF_0000,
        ensures
            r@.len() <= limit,
            forall|i: int|
                0 <= i < r@.len() ==> (#[trigger] r@[i]).relevance <= 1000 && self.stored_term(
                    r@[i].item,
                ) && self.ngram_hit(inp@, 500, r@[i]) && r@[i].item.wf(),
            only_exact ==> forall|i: int| 0 <= i < r@.len() ==> (#[trigger] r@[i]).relevance
                == 1000,
            forall|p: int, q: int|
                0 <= p < q < r@.len() ==> (#[trigger] r@[p]).relevance >= (
                #[trigger] r@[q]).relevance,
    {
        let mut out: Vec<EngineItem> = Vec::new();
        let qvec = match self.index.query_vec(inp) {
            Some(v) => v,
            None => {
                return out;
            },
        };
        let found = self.index.find(&qvec);
        let mut cands: Vec<(u32, u16)> = Vec::new();
        let mut keys: Vec<u64> = Vec::new();
        let mut i: usize = 0;
        while i < found.len()
            invariant
                self.wf(),
                i <= found@.len(),
                qvec@.no_duplicates(),
                forall|x: int|
                    0 <= x < qvec@.len() ==> (#[trigger] qvec@[x]) < self.index.terms@.len(),
                forall|x: int|
                    0 <= x < qvec@.len() ==> self.index.dim_is_window(
                        #[trigger] qvec@[x],
                        spec_padded(inp@, self.index.n - 1),
                    ),
                forall|t: int|
                    0 <= t < self.index.terms@.len() && self.index.dim_is_window(
                        t as u32,
                        spec_padded(inp@, self.index.n - 1),
                    ) ==> qvec@.contains(#[trigger] (t as u32)),
                forall|t: int|
                    0 <= t < found@.len() ==> (#[trigger] found@[t]).1 <= 1000
                        && self.index.result_matches(qvec@, 500, found@[t]),
                cands@.len() == keys@.len(),
                forall|t: int|
                    0 <= t < cands@.len() ==> {
                        let c = #[trigger] cands@[t];
                        &&& c.0 < self.terms@.len()
                        &&& c.1 <= 1000
                        &&& (only_exact ==> c.1 == 1000)
                        &&& keys@[t] == c.1 as u64
                        &&& candidate_scored(*self, inp@, 500, c)
                    },
            decreases found@.len() - i,
        {
            let ids = &found[i].0;
            let sim = found[i].1;
            proof {
                assert(self.index.result_matches(qvec@, 500, found@[i as int]));
            }
            if !only_exact || sim == 1000 {
                let mut u: usize = 0;
                while u < ids.len()
                    invariant
                        self.wf(),
                        i < found@.len(),
                        ids == &found@[i as int].0,
                        sim == found@[i as int].1,
                        sim <= 1000,
                        only_exact ==> sim == 1000,
                        self.index.result_matches(qvec@, 500, found@[i as int]),
                        qvec@.no_duplicates(),
                        forall|x: int|
                            0 <= x < qvec@.len() ==> (#[trigger] qvec@[x])
                                < self.index.terms@.len(),
                        forall|x: int|
                            0 <= x < qvec@.len() ==> self.index.dim_is_window(
                                #[trigger] qvec@[x],
                                spec_padded(inp@, self.index.n - 1),
                            ),
                        forall|t: int|
                            0 <= t < self.index.terms@.len() && self.index.dim_is_window(
                                t as u32,
                                spec_padded(inp@, self.index.n - 1),
                            ) ==> qvec@.contains(#[trigger] (t as u32)),
                        u <= ids@.len(),
                        cands@.len() == keys@.len(),
                        forall|t: int|
                            0 <= t < cands@.len() ==> {
                                let c = #[trigger] cands@[t];
                                &&& c.0 < self.terms@.len()
                                &&& c.1 <= 1000
                                &&& (only_exact ==> c.1 == 1000)
                                &&& keys@[t] == c.1 as u64
                                &&& candidate_scored(*self, inp@, 500, c)
                            },
                    decreases ids@.len() - u,
                {
                    let id = ids[u];
                    if (id as usize) < self.terms.len() {
                        proof {
                            let ng = self.index;
                            let d = choose|d: int|
                                0 <= d < ng.docs@.len() && (#[trigger] ng.docs@[d]).ids@ == found@[
                                    i as int
                                ].0@ && found@[i as int].1 == spec_dice_milli(
                                    spec_overlap(qvec@, ng.docs@[d].dims@),
                                    qvec@.len() as int,
                                    ng.docs@[d].dims@.len() as int,
                                    500,
                                );
                            ng.lemma_query_vec_set(inp@, qvec@);
                            lemma_overlap_to_set(qvec@, ng.docs@[d].dims@);
                            assert(ng.docs@[d].ids@.contains(id)) by {
                                assert(ng.docs@[d].ids@[u as int] == id);
                            }
                            assert(candidate_scored(*self, inp@, 500, (id, sim)));
                        }
                        cands.push((id, sim));
                        keys.push(sim as u64);
                    }
                    u += 1;
                }
            }
            i += 1;
        }
        let chosen = top_k_indices(&keys, limit);
        let mut j: usize = 0;
        while j < chosen.len()
            invariant
                self.wf(),
                is_top_k(keys@, limit as int, chosen@),
                keys@.len() == cands@.len(),
                forall|t: int|
                    0 <= t < cands@.len() ==> {
                        let c = #[trigger] cands@[t];
                        &&& c.0 < self.terms@.len()
                        &&& c.1 <= 1000
                        &&& (only_exact ==> c.1 == 1000)
                        &&& keys@[t] == c.1 as u64
                        &&& candidate_scored(*self, inp@, 500, c)
                    },
                j <= chosen@.len(),
                out@.len() == j,
                forall|t: int|
                    0 <= t < j ==> {
                        let e = #[trigger] out@[t];
                        &&& e.relevance <= 1000
                        &&& e.relevance == cands@[chosen@[t] as int].1
                        &&& (only_exact ==> e.relevance == 1000)
                        &&& self.stored_term(e.item)
                        &&& self.ngram_hit(inp@, 500, e)
                        &&& e.item.wf()
                    },
            decreases chosen@.len() - j,
        {
            let (id, sim) = cands[chosen[j]];
            let item = self.terms[id as usize].duplicate();
            proof {
                assert(candidate_scored(*self, inp@, 500, (id, sim)));
                let d = choose|d: int|
                    0 <= d < self.index.docs@.len() && (
                    #[trigger] self.index.docs@[d]).ids@.contains(id) && sim as int
                        == spec_dice_milli(
                        self.index.spec_query_dims(inp@).intersect(
                            self.index.docs@[d].dims@.to_set(),
                        ).len() as int,
                        self.index.spec_query_dims(inp@).len() as int,
                        self.index.docs@[d].dims@.len() as int,
                        500,
                    );
                assert(self.index.docs@[d].ids@.contains(id));
            }
            out.push(EngineItem::new(IndexEntry::Basic(item), sim));
            j += 1;
        }
        proof {
            assert forall|p: int, q: int| 0 <= p < q < out@.len() implies (
            #[trigger] out@[p]).relevance >= (#[trigger] out@[q]).relevance by {
                assert(beats(keys@, chosen@[p] as int, chosen@[q] as int));
            }
        }
        out
    }

    /// The record behind a term id, if the id is live.
    pub fn get_word(&self, id: u32) -> (r: Option<EngineItem>)
        requires
            self.wf(),
        ensures
            r is Some <==> id < self.terms@.len(),
            r is Some ==> r->0.item == IndexEntry::Basic(self.terms@[id as int]) && r->0.relevance
                == 0,
    {
        if (id as usize) < self.terms.len() {
            let item = self.terms[id as usize].duplicate();
            Some(EngineItem::new(IndexEntry::Basic(item), 0))
        } else {
            None
        }
    }

    /// How many terms the index holds.
    pub fn len(&self) -> (r: usize)
        ensures
            r == self.terms@.len(),
    {
        self.terms.len()
    }
}

} // verus!
