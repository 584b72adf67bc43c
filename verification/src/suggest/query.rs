//! A suggestion query: one primary prefix lookup over one index, followed
//! by an ordered pipeline of fallback extensions, merged without duplicate
//! suggestions and cut to the result budget.

use vstd::prelude::*;
use crate::index::IndexRef;
use crate::relevance::{spec_calc, RelevanceCalc, RelevanceWeights};
use crate::relevance::item::{distinct_identities, EngineItem};
use crate::suggest::extension::SuggestExtension;
use crate::topk::{beats, is_top_k, top_k_indices};

verus! {

/// The position of the entry standing for the same suggestion as `e`, if
/// one is already listed.
fn find_identity(r: &Vec<EngineItem>, e: &EngineItem) -> (pos: Option<usize>)
    ensures
        match pos {
            Some(j) => j < r@.len() && r@[j as int].item.spec_identity()
                == e.item.spec_identity(),
            None => forall|t: int|
                0 <= t < r@.len() ==> (#[trigger] r@[t]).item.spec_identity()
                    != e.item.spec_identity(),
        },
{
    let mut j: usize = 0;
    while j < r.len()
        invariant
            j <= r@.len(),
            forall|t: int|
                0 <= t < j ==> (#[trigger] r@[t]).item.spec_identity() != e.item.spec_identity(),
        decreases r@.len() - j,
    {
        if r[j].same_identity(e) {
            return Some(j);
        }
        j += 1;
    }
    None
}

/// Some entry of `s` stands for the suggestion with identity `id`.
pub open spec fn has_identity(s: Seq<EngineItem>, id: (Seq<Seq<char>>, u32)) -> bool {
    exists|i: int| #![auto] 0 <= i < s.len() && s[i].item.spec_identity() == id
}

/// Merges `items` into `acc`, collapsing entries that stand for the same
/// suggestion; the greater relevance wins. The result carries exactly the
/// identities of both inputs, each once, each at its greatest offered
/// relevance.
pub fn merge_unique(acc: Vec<EngineItem>, items: Vec<EngineItem>) -> (r: Vec<EngineItem>)
    requires
        distinct_identities(acc@),
        forall|i: int| 0 <= i < acc@.len() ==> (#[trigger] acc@[i]).item.wf(),
        forall|i: int| 0 <= i < items@.len() ==> (#[trigger] items@[i]).item.wf(),
    ensures
        distinct_identities(r@),
        forall|i: int| 0 <= i < r@.len() ==> (#[trigger] r@[i]).item.wf(),
        r@.len() <= acc@.len() + items@.len(),
        r@.len() >= acc@.len(),
        items@.len() > 0 ==> r@.len() > 0,
        forall|i: int|
            0 <= i < r@.len() ==> has_identity(acc@, (#[trigger] r@[i]).item.spec_identity())
                || has_identity(items@, r@[i].item.spec_identity()),
        forall|j: int|
            0 <= j < acc@.len() ==> has_identity(r@, (#[trigger] acc@[j]).item.spec_identity()),
        forall|j: int|
            0 <= j < items@.len() ==> has_identity(r@, (#[trigger] items@[j]).item.spec_identity()),
        forall|i: int, j: int|
            0 <= i < r@.len() && 0 <= j < acc@.len() && (#[trigger] r@[i]).item.spec_identity() == (
            #[trigger] acc@[j]).item.spec_identity() ==> r@[i].relevance >= acc@[j].relevance,
        forall|i: int, j: int|
            0 <= i < r@.len() && 0 <= j < items@.len() && (#[trigger] r@[i]).item.spec_identity()
                == (#[trigger] items@[j]).item.spec_identity() ==> r@[i].relevance
                >= items@[j].relevance,
{
    let mut r = acc;
    let ghost acc0 = r@;
    let mut i: usize = 0;
    while i < items.len()
        invariant
            i <= items@.len(),
            acc0 == acc@,
            distinct_identities(acc@),
            distinct_identities(r@),
            forall|t: int| 0 <= t < r@.len() ==> (#[trigger] r@[t]).item.wf(),
            forall|t: int| 0 <= t < items@.len() ==> (#[trigger] items@[t]).item.wf(),
            r@.len() <= acc@.len() + i,
            r@.len() >= acc@.len(),
            i > 0 ==> r@.len() > 0,
            forall|t: int|
                0 <= t < r@.len() ==> has_identity(acc@, (#[trigger] r@[t]).item.spec_identity())
                    || has_identity(items@.take(i as int), r@[t].item.spec_identity()),
            forall|j: int|
                0 <= j < acc@.len() ==> has_identity(
                    r@,
                    (#[trigger] acc@[j]).item.spec_identity(),
                ),
            forall|j: int|
                0 <= j < i ==> has_identity(r@, (#[trigger] items@[j]).item.spec_identity()),
            forall|t: int, j: int|
                0 <= t < r@.len() && 0 <= j < acc@.len() && (#[trigger] r@[t]).item.spec_identity()
                    == (#[trigger] acc@[j]).item.spec_identity() ==> r@[t].relevance
                    >= acc@[j].relevance,
            forall|t: int, j: int|
                0 <= t < r@.len() && 0 <= j < i && (#[trigger] r@[t]).item.spec_identity() == (
                #[trigger] items@[j]).item.spec_identity() ==> r@[t].relevance
                    >= items@[j].relevance,
        decreases items@.len() - i,
    {
        let ghost before = r@;
        let e = items[i].duplicate();
        match find_identity(&r, &e) {
            Some(j) => {
                if e.relevance > r[j].relevance {
                    let oldv = r.remove(j);
                    let upd = EngineItem::new(oldv.item, e.relevance);
                    r.insert(j, upd);
                    proof {
                        assert(r@ =~= before.update(j as int, upd));
                        assert(upd.item.spec_identity() == before[j as int].item.spec_identity());
                        assert(upd.item.wf() == before[j as int].item.wf());
                        assert forall|p: int, q: int| 0 <= p < q < r@.len() implies (
                        #[trigger] r@[p]).item.spec_identity() != (
                        #[trigger] r@[q]).item.spec_identity() by {
                            assert(before[p].item.spec_identity() != before[q].item.spec_identity());
                        }
                    }
                }
            },
            None => {
                r.push(e);
            },
        }
        proof {
            assert(items@.take(i + 1).drop_last() =~= items@.take(i as int));
            assert(items@.take(i + 1).last() == items@[i as int]);
            assert(r@.len() >= before.len());
            assert forall|t: int|
                0 <= t < before.len() implies r@[t].item.spec_identity()
                == before[t].item.spec_identity() && r@[t].relevance >= before[t].relevance by {}
            assert(has_identity(r@, items@[i as int].item.spec_identity())) by {
                if r@.len() > before.len() {
                    assert(r@[r@.len() - 1].item.spec_identity()
                        == items@[i as int].item.spec_identity());
                } else {
                    let j0 = choose|j0: int|
                        #![auto]
                        0 <= j0 < before.len() && before[j0].item.spec_identity() == items@[
                            i as int
                        ].item.spec_identity();
                    assert(r@[j0].item.spec_identity() == items@[i as int].item.spec_identity());
                }
            }
            assert forall|t: int|
                0 <= t < r@.len() implies has_identity(
                acc@,
                (#[trigger] r@[t]).item.spec_identity(),
            ) || has_identity(items@.take(i + 1), r@[t].item.spec_identity()) by {
                if t < before.len() {
                    if has_identity(items@.take(i as int), before[t].item.spec_identity()) {
                        let w = choose|w: int|
                            #![auto]
                            0 <= w < i && items@.take(i as int)[w].item.spec_identity()
                                == before[t].item.spec_identity();
                        assert(items@.take(i + 1)[w].item.spec_identity()
                            == r@[t].item.spec_identity());
                    }
                } else {
                    assert(items@.take(i + 1)[i as int].item.spec_identity()
                        == r@[t].item.spec_identity());
                }
            }
            assert forall|j: int|
                0 <= j < acc@.len() implies has_identity(
                r@,
                (#[trigger] acc@[j]).item.spec_identity(),
            ) by {
                let w = choose|w: int|
                    #![auto]
                    0 <= w < before.len() && before[w].item.spec_identity()
                        == acc@[j].item.spec_identity();
                assert(r@[w].item.spec_identity() == acc@[j].item.spec_identity());
            }
            assert forall|j: int|
                0 <= j < i + 1 implies has_identity(
                r@,
                (#[trigger] items@[j]).item.spec_identity(),
            ) by {
                if j < i {
                    let w = choose|w: int|
                        #![auto]
                        0 <= w < before.len() && before[w].item.spec_identity()
                            == items@[j].item.spec_identity();
                    assert(r@[w].item.spec_identity() == items@[j].item.spec_identity());
                }
            }
            assert forall|t: int, j: int|
                0 <= t < r@.len() && 0 <= j < i + 1 && (#[trigger] r@[t]).item.spec_identity() == (
                #[trigger] items@[j]).item.spec_identity() implies r@[t].relevance
                >= items@[j].relevance by {
                if j == i {
                    if r@.len() > before.len() {
                        if t < before.len() {
                            assert(!has_identity(
                                before,
                                items@[i as int].item.spec_identity(),
                            ));
                            assert(before[t].item.spec_identity()
                                != items@[i as int].item.spec_identity());
                        }
                    } else {
                        let j0 = choose|j0: int|
                            #![auto]
                            0 <= j0 < before.len() && before[j0].item.spec_identity() == items@[
                                i as int
                            ].item.spec_identity();
                        if t != j0 {
                            assert(r@[t].item.spec_identity() == before[t].item.spec_identity());
                            assert(before[t].item.spec_identity()
                                != before[j0].item.spec_identity());
                        }
                    }
                }
            }
        }
        i += 1;
    }
    proof {
        assert(items@.take(items@.len() as int) =~= items@);
    }
    r
}

/// The relevance of each entry, as a ranking key.
pub open spec fn relevance_keys(s: Seq<EngineItem>) -> Seq<u64> {
    s.map_values(|e: EngineItem| e.relevance as u64)
}

/// The up-to-`k` best entries by descending relevance, ties broken towards
/// the earlier entry: an [`is_top_k`] selection over the relevance keys.
/// Well-formedness and distinctness carry over.
pub fn top_k_best(items: Vec<EngineItem>, k: usize) -> (r: Vec<EngineItem>)
    ensures
        r@.len() <= k,
        r@.len() <= items@.len(),
        r@.len() == if k <= items@.len() {
            k as int
        } else {
            items@.len() as int
        },
        exists|sel: Seq<usize>|
            #![trigger is_top_k(relevance_keys(items@), k as int, sel)]
            is_top_k(relevance_keys(items@), k as int, sel) && r@.len() == sel.len() && (forall|
                i: int,
            |
                0 <= i < r@.len() ==> {
                    let e = #[trigger] r@[i];
                    &&& e.item.spec_identity() == items@[sel[i] as int].item.spec_identity()
                    &&& e.relevance == items@[sel[i] as int].relevance
                    &&& e.item.wf() == items@[sel[i] as int].item.wf()
                }),
        forall|p: int, q: int|
            0 <= p < q < r@.len() ==> (#[trigger] r@[p]).relevance >= (#[trigger] r@[q]).relevance,
        forall|i: int|
            0 <= i < r@.len() ==> exists|j: int|
                #![auto]
                0 <= j < items@.len() && (#[trigger] r@[i]).item.spec_identity()
                    == items@[j].item.spec_identity() && r@[i].relevance == items@[j].relevance
                    && r@[i].item.wf() == items@[j].item.wf(),
        distinct_identities(items@) ==> distinct_identities(r@),
        (forall|i: int| 0 <= i < items@.len() ==> (#[trigger] items@[i]).item.wf()) ==> forall|
            i: int,
        | 0 <= i < r@.len() ==> (#[trigger] r@[i]).item.wf(),
{
    let mut keys: Vec<u64> = Vec::new();
    let mut i: usize = 0;
    while i < items.len()
        invariant
            i <= items@.len(),
            keys@.len() == i,
            forall|t: int| 0 <= t < i ==> keys@[t] == (#[trigger] items@[t]).relevance as u64,
        decreases items@.len() - i,
    {
        keys.push(items[i].get_relevance() as u64);
        i += 1;
    }
    let chosen = top_k_indices(&keys, k);
    proof {
        crate::topk::lemma_top_k_distinct(keys@, k as int, chosen@);
    }
    let mut out: Vec<EngineItem> = Vec::new();
    let mut j: usize = 0;
    while j < chosen.len()
        invariant
            is_top_k(keys@, k as int, chosen@),
            chosen@.no_duplicates(),
            keys@.len() == items@.len(),
            forall|t: int| 0 <= t < keys@.len() ==> keys@[t] == (#[trigger] items@[t]).relevance as u64,
            j <= chosen@.len(),
            out@.len() == j,
            forall|t: int|
                0 <= t < j ==> {
                    let e = #[trigger] out@[t];
                    &&& e.item.spec_identity() == items@[chosen@[t] as int].item.spec_identity()
                    &&& e.relevance == items@[chosen@[t] as int].relevance
                    &&& e.item.wf() == items@[chosen@[t] as int].item.wf()
                },
        decreases chosen@.len() - j,
    {
        let e = items[chosen[j]].duplicate();
        out.push(e);
        j += 1;
    }
    proof {
        assert forall|p: int, q: int| 0 <= p < q < out@.len() implies (#[trigger] out@[p]).relevance
            >= (#[trigger] out@[q]).relevance by {
            assert(beats(keys@, chosen@[p] as int, chosen@[q] as int));
        }
        if distinct_identities(items@) {
            assert forall|p: int, q: int| 0 <= p < q < out@.len() implies (
            #[trigger] out@[p]).item.spec_identity() != (
            #[trigger] out@[q]).item.spec_identity() by {
                let cp = chosen@[p] as int;
                let cq = chosen@[q] as int;
                assert(chosen@[p] != chosen@[q]);
                if cp < cq {
                    assert(items@[cp].item.spec_identity() != items@[cq].item.spec_identity());
                } else {
                    assert(items@[cq].item.spec_identity() != items@[cp].item.spec_identity());
                }
            }
        }
        assert forall|i2: int| 0 <= i2 < out@.len() implies exists|j2: int|
            #![auto]
            0 <= j2 < items@.len() && (#[trigger] out@[i2]).item.spec_identity()
                == items@[j2].item.spec_identity() && out@[i2].relevance == items@[j2].relevance
                && out@[i2].item.wf() == items@[j2].item.wf() by {
            assert(0 <= chosen@[i2] && (chosen@[i2] as int) < items@.len());
            assert(out@[i2].item.spec_identity() == items@[chosen@[i2] as int].item.spec_identity()
                && out@[i2].relevance == items@[chosen@[i2] as int].relevance && out@[i2].item.wf()
                == items@[chosen@[i2] as int].item.wf());
        }
        let kseq = relevance_keys(items@);
        assert(keys@ =~= kseq);
        assert(is_top_k(kseq, k as int, chosen@));
        assert(exists|sel: Seq<usize>|
            #![trigger is_top_k(relevance_keys(items@), k as int, sel)]
            is_top_k(relevance_keys(items@), k as int, sel) && out@.len() == sel.len() && (forall|
                i: int,
            |
                0 <= i < out@.len() ==> {
                    let e = #[trigger] out@[i];
                    &&& e.item.spec_identity() == items@[sel[i] as int].item.spec_identity()
                    &&& e.relevance == items@[sel[i] as int].relevance
                    &&& e.item.wf() == items@[sel[i] as int].item.wf()
                })) by {
            assert(is_top_k(relevance_keys(items@), k as int, chosen@) && out@.len()
                == chosen@.len() && (forall|i: int|
                0 <= i < out@.len() ==> {
                    let e = #[trigger] out@[i];
                    &&& e.item.spec_identity() == items@[chosen@[i] as int].item.spec_identity()
                    &&& e.relevance == items@[chosen@[i] as int].relevance
                    &&& e.item.wf() == items@[chosen@[i] as int].item.wf()
                }));
        }
    }
    out
}

/// One suggestion query against one index.
pub struct SuggestionQuery<'a> {
    /// The index searched.
    pub index: IndexRef<'a>,
    /// The query string.
    pub query_str: String,
    pub weights: RelevanceWeights,
    /// When positive, this query is skipped once at least this many results
    /// were already found by earlier queries of the task.
    pub threshold: usize,
    /// The fallback pipeline, in registration order.
    pub extensions: Vec<SuggestExtension<'a>>,
}

impl<'a> SuggestionQuery<'a> {
    pub open spec fn wf(self) -> bool {
        &&& self.index.wf()
        &&& self.query_str@.len() < 0xFF_0000
        &&& forall|i: int| 0 <= i < self.extensions@.len() ==> (#[trigger] self.extensions@[i]).wf()
    }

    /// A query over `index` with default weights, no threshold and no
    /// extensions.
    pub fn new(index: IndexRef<'a>, query_str: String) -> (r: SuggestionQuery<'a>)
        requires
            index.wf(),
            query_str@.len() < 0xFF_0000,
        ensures
            r.wf(),
            r.index == index,
            r.query_str@ == query_str@,
            r.threshold == 0,
            r.weights == (RelevanceWeights {
                str_weight: 1000u32,
                freq_weight: 1000u32,
                total_weight: 1000u32,
            }),
            r.extensions@.len() == 0,
    {
        SuggestionQuery {
            index,
            query_str,
            weights: Default::default(),
            threshold: 0,
            extensions: Vec::new(),
        }
    }

    /// The query's length in characters.
    pub fn query_len(&self) -> (r: usize)
        ensures
            r == self.query_str@.len(),
    {
        crate::text::chars_of(self.query_str.as_str()).len()
    }

    /// Appends an extension to the fallback pipeline.
    pub fn add_extension(&mut self, extension: SuggestExtension<'a>)
        requires
            old(self).wf(),
            extension.wf(),
        ensures
            final(self).wf(),
            final(self).index == old(self).index,
            final(self).query_str == old(self).query_str,
            final(self).weights == old(self).weights,
            final(self).threshold == old(self).threshold,
            final(self).extensions@.len() == old(self).extensions@.len() + 1,
    {
        self.extensions.push(extension);
    }

    /// Assigns each candidate its final relevance: the combined score of
    /// its string similarity against this query and its frequency.
    pub fn order_items(&self, inp: Vec<EngineItem>, rel_calc: RelevanceCalc) -> (r: Vec<
        EngineItem,
    >)
        requires
            self.wf(),
            forall|i: int| 0 <= i < inp@.len() ==> (#[trigger] inp@[i]).item.wf(),
        ensures
            r@.len() == inp@.len(),
            forall|i: int|
                0 <= i < r@.len() ==> {
                    let e = #[trigger] r@[i];
                    &&& e.item.spec_identity() == inp@[i].item.spec_identity()
                    &&& e.item.wf()
                    &&& e.relevance == spec_calc(
                        rel_calc.weights,
                        inp@[i].item.spec_frequency(),
                        inp@[i].item.spec_relevance(self.query_str@),
                    )
                },
    {
        let mut out: Vec<EngineItem> = Vec::new();
        let mut i: usize = 0;
        while i < inp.len()
            invariant
                self.wf(),
                i <= inp@.len(),
                forall|t: int| 0 <= t < inp@.len() ==> (#[trigger] inp@[t]).item.wf(),
                out@.len() == i,
                forall|t: int|
                    0 <= t < i ==> {
                        let e = #[trigger] out@[t];
                        &&& e.item.spec_identity() == inp@[t].item.spec_identity()
                        &&& e.item.wf()
                        &&& e.relevance == spec_calc(
                            rel_calc.weights,
                            inp@[t].item.spec_frequency(),
                            inp@[t].item.spec_relevance(self.query_str@),
                        )
                    },
            decreases inp@.len() - i,
        {
            let e = &inp[i];
            let str_rel = e.item.str_relevance(self.query_str.as_str());
            let rel = rel_calc.calc(e, str_rel);
            let mut item = e.duplicate();
            item.set_relevance(rel);
            out.push(item);
            i += 1;
        }
        out
    }

    /// The index holds at least one candidate for this query's primary
    /// prefix lookup.
    pub open spec fn primary_has_candidates(self) -> bool {
        match self.index {
            IndexRef::Basic(ix) => ix.has_key_with_prefix(self.query_str@),
            IndexRef::Japanese(ix) => ix.has_reading_with_prefix(self.query_str@),
            IndexRef::Ngram(_) => false,
        }
    }

    /// Runs the query: primary prefix predictions scored by the relevance
    /// model, then each registered extension that still wants to run, all
    /// merged without duplicate suggestions and cut to the `limit` best.
    /// A primary candidate and a positive budget guarantee a result; every
    /// result identity originates from the primary lookup or an extension.
    pub fn search(&self, limit: usize) -> (r: Vec<EngineItem>)
        requires
            self.wf(),
        ensures
            r@.len() <= limit,
            distinct_identities(r@),
            forall|i: int| 0 <= i < r@.len() ==> (#[trigger] r@[i]).item.wf(),
            forall|p: int, q: int|
                0 <= p < q < r@.len() ==> (#[trigger] r@[p]).relevance >= (
                #[trigger] r@[q]).relevance,
            limit > 0 && self.primary_has_candidates() ==> r@.len() > 0,
            (self.extensions@.len() == 0 && !self.primary_has_candidates() && !(self.index
                is Ngram)) ==> r@.len() == 0,
    {
        let predictions = self.index.predictions(self.query_str.as_str(), limit);
        let ghost have_primary = predictions@.len() > 0;
        proof {
            if limit > 0 && self.primary_has_candidates() {
                assert(have_primary);
            }
        }
        proof {
            if self.extensions@.len() == 0 && !self.primary_has_candidates() && !(self.index
                is Ngram) {
                assert(predictions@.len() == 0);
            }
        }
        let mut pred_len = predictions.len();
        let pred_ordered = self.order_items(predictions, RelevanceCalc::new(self.weights));
        let mut queue = merge_unique(Vec::new(), pred_ordered);
        let mut ei: usize = 0;
        while ei < self.extensions.len()
            invariant
                self.wf(),
                ei <= self.extensions@.len(),
                distinct_identities(queue@),
                forall|t: int| 0 <= t < queue@.len() ==> (#[trigger] queue@[t]).item.wf(),
                have_primary ==> queue@.len() > 0,
                (self.extensions@.len() == 0 && !self.primary_has_candidates() && !(self.index
                    is Ngram)) ==> queue@.len() == 0,
            decreases self.extensions@.len() - ei,
        {
            let ext = &self.extensions[ei];
            if ext.should_run(pred_len, self) {
                let ext_res = ext.run(self, self.weights.total_weight);
                pred_len = if pred_len > usize::MAX - ext_res.len() {
                    usize::MAX
                } else {
                    pred_len + ext_res.len()
                };
                queue = merge_unique(queue, ext_res);
            }
            ei += 1;
        }
        top_k_best(queue, limit)
    }
}

} // verus!
