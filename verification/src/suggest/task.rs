//! A suggestion task: several queries run in registration order under one
//! global result budget, merged without duplicate suggestions, with
//! optional custom entries appended.

use vstd::prelude::*;
use crate::index::output::Output;
use crate::relevance::item::{distinct_identities, EngineItem};
use crate::suggest::query::{merge_unique, top_k_best, SuggestionQuery};

verus! {

/// Whether a query with the given threshold still runs after `added`
/// results were produced by earlier queries: a zero threshold never gates.
pub open spec fn spec_should_run_query(threshold: int, added: int) -> bool {
    threshold == 0 || added < threshold
}

/// Exec twin of [`spec_should_run_query`].
pub fn should_run_query(threshold: usize, added: usize) -> (r: bool)
    ensures
        r == spec_should_run_query(threshold as int, added as int),
{
    threshold == 0 || added < threshold
}

/// Threshold gating: a query whose threshold is zero always runs, and a
/// positive threshold stops it exactly once at least that many results
/// exist.
pub proof fn lemma_threshold_gating(threshold: int, added: int)
    ensures
        threshold == 0 ==> spec_should_run_query(threshold, added),
        threshold > 0 && added >= threshold ==> !spec_should_run_query(threshold, added),
        threshold > 0 && added < threshold ==> spec_should_run_query(threshold, added),
{
}

/// An autocompletion task running several suggestion queries.
pub struct SuggestionTask<'a> {
    /// The queries, in registration order.
    pub queries: Vec<SuggestionQuery<'a>>,
    /// Extra entries merged in after the queries.
    pub custom_entries: Vec<EngineItem>,
    /// The global result budget.
    pub limit: usize,
}

impl<'a> SuggestionTask<'a> {
    pub open spec fn wf(self) -> bool {
        &&& forall|i: int| 0 <= i < self.queries@.len() ==> (#[trigger] self.queries@[i]).wf()
        &&& forall|i: int|
            0 <= i < self.custom_entries@.len() ==> (#[trigger] self.custom_entries@[i]).item.wf()
    }

    /// A task with the given result budget and no queries yet.
    pub fn new(limit: usize) -> (r: SuggestionTask<'a>)
        ensures
            r.wf(),
            r.limit == limit,
            r.queries@.len() == 0,
            r.custom_entries@.len() == 0,
    {
        SuggestionTask { queries: Vec::new(), custom_entries: Vec::new(), limit }
    }

    /// Registers another query; later queries see what earlier ones found.
    pub fn add_query(&mut self, query: SuggestionQuery<'a>)
        requires
            old(self).wf(),
            query.wf(),
        ensures
            final(self).wf(),
            final(self).limit == old(self).limit,
            final(self).queries@.len() == old(self).queries@.len() + 1,
    {
        self.queries.push(query);
    }

    /// Adds caller-provided entries to the final merge.
    pub fn add_custom_entries(&mut self, entries: Vec<EngineItem>)
        requires
            old(self).wf(),
            forall|i: int| 0 <= i < entries@.len() ==> (#[trigger] entries@[i]).item.wf(),
        ensures
            final(self).wf(),
            final(self).limit == old(self).limit,
            final(self).queries@ == old(self).queries@,
    {
        let mut i: usize = 0;
        while i < entries.len()
            invariant
                self.wf(),
                self.limit == old(self).limit,
                self.queries@ == old(self).queries@,
                i <= entries@.len(),
                forall|t: int| 0 <= t < entries@.len() ==> (#[trigger] entries@[t]).item.wf(),
            decreases entries@.len() - i,
        {
            self.custom_entries.push(entries[i].duplicate());
            i += 1;
        }
    }

    /// How many queries the task holds.
    pub fn len(&self) -> (r: usize)
        ensures
            r == self.queries@.len(),
    {
        self.queries.len()
    }

    /// Whether no query was registered.
    pub fn is_empty(&self) -> (r: bool)
        ensures
            r == (self.queries@.len() == 0),
    {
        self.queries.len() == 0
    }

    /// The first registered query always runs (nothing was found before
    /// it), and it finds something when its index holds a primary
    /// candidate and the budget is positive.
    pub open spec fn first_query_yields(self) -> bool {
        self.limit > 0 && self.queries@.len() > 0
            && self.queries@[0].primary_has_candidates()
    }

    /// No registered query can produce anything: each has no extensions,
    /// no primary candidate, and is not backed by the raw n-gram index.
    pub open spec fn no_query_can_yield(self) -> bool {
        forall|qi: int|
            0 <= qi < self.queries@.len() ==> ((#[trigger] self.queries@[qi]).extensions@.len()
                == 0 && !self.queries@[qi].primary_has_candidates() && !(self.queries@[qi].index
                is Ngram))
    }

    /// The merged, de-duplicated, budget-cut candidate list behind
    /// [`SuggestionTask::search`]: no two entries stand for the same
    /// suggestion, and relevance never rises along the list. Each query is
    /// consulted exactly when [`spec_should_run_query`] admits it.
    pub fn search_items(&self) -> (r: Vec<EngineItem>)
        requires
            self.wf(),
        ensures
            r@.len() <= self.limit,
            distinct_identities(r@),
            forall|i: int| 0 <= i < r@.len() ==> (#[trigger] r@[i]).item.wf(),
            forall|p: int, q: int|
                0 <= p < q < r@.len() ==> (#[trigger] r@[p]).relevance >= (
                #[trigger] r@[q]).relevance,
            self.first_query_yields() ==> r@.len() > 0,
            self.no_query_can_yield() && self.custom_entries@.len() == 0 ==> r@.len() == 0,
    {
        let mut merged: Vec<EngineItem> = Vec::new();
        let mut added: usize = 0;
        let mut qi: usize = 0;
        while qi < self.queries.len()
            invariant
                self.wf(),
                qi <= self.queries@.len(),
                distinct_identities(merged@),
                forall|t: int| 0 <= t < merged@.len() ==> (#[trigger] merged@[t]).item.wf(),
                self.first_query_yields() && qi > 0 ==> merged@.len() > 0,
                self.no_query_can_yield() ==> merged@.len() == 0,
                qi == 0 ==> added == 0,
            decreases self.queries@.len() - qi,
        {
            let query = &self.queries[qi];
            if should_run_query(query.threshold, added) {
                let query_res = query.search(self.limit);
                proof {
                    if qi == 0 && self.first_query_yields() {
                        assert(query_res@.len() > 0);
                    }
                    if self.no_query_can_yield() {
                        assert(query_res@.len() == 0);
                    }
                }
                added = if added > usize::MAX - query_res.len() {
                    usize::MAX
                } else {
                    added + query_res.len()
                };
                merged = merge_unique(merged, query_res);
            } else {
                proof {
                    assert(qi != 0);
                }
            }
            qi += 1;
        }
        let mut custom: Vec<EngineItem> = Vec::new();
        let mut ci: usize = 0;
        while ci < self.custom_entries.len()
            invariant
                self.wf(),
                ci <= self.custom_entries@.len(),
                custom@.len() == ci,
                self.no_query_can_yield() ==> merged@.len() == 0,
                forall|t: int| 0 <= t < custom@.len() ==> (#[trigger] custom@[t]).item.wf(),
            decreases self.custom_entries@.len() - ci,
        {
            custom.push(self.custom_entries[ci].duplicate());
            ci += 1;
        }
        let ghost merged_nonempty = merged@.len() > 0;
        let ghost merged_empty = merged@.len() == 0;
        merged = merge_unique(merged, custom);
        proof {
            if self.first_query_yields() {
                assert(merged_nonempty);
                assert(merged@.len() > 0);
            }
            if self.no_query_can_yield() && self.custom_entries@.len() == 0 {
                assert(merged_empty && custom@.len() == 0);
                assert(merged@.len() == 0);
            }
        }
        top_k_best(merged, self.limit)
    }

    /// Performs the search: the best suggestions across all queries, by
    /// descending relevance, at most `limit` of them, never two for the
    /// same underlying suggestion. A budget of zero yields nothing; a
    /// positive budget and a first query with a primary candidate yield at
    /// least one suggestion.
    pub fn search(&self) -> (r: Vec<Output>)
        requires
            self.wf(),
        ensures
            r@.len() <= self.limit,
            self.limit == 0 ==> r@.len() == 0,
            self.first_query_yields() ==> r@.len() > 0,
            self.no_query_can_yield() && self.custom_entries@.len() == 0 ==> r@.len() == 0,
            exists|items: Seq<EngineItem>|
                {
                    &&& #[trigger] distinct_identities(items)
                    &&& items.len() == r@.len()
                    &&& (forall|i: int| 0 <= i < items.len() ==> (#[trigger] items[i]).item.wf())
                    &&& (forall|p: int, q: int|
                        0 <= p < q < items.len() ==> (#[trigger] items[p]).relevance >= (
                        #[trigger] items[q]).relevance)
                    &&& forall|i: int|
                        0 <= i < r@.len() ==> (#[trigger] r@[i]).primary@
                            == items[i].item.spec_terms()[0] && (match items[i].item {
                            crate::relevance::item::IndexEntry::Japanese(it) => r@[i].secondary
                                == it.kanji,
                            _ => r@[i].secondary is None,
                        })
                },
    {
        let items = self.search_items();
        let mut out: Vec<Output> = Vec::new();
        let mut i: usize = 0;
        while i < items.len()
            invariant
                i <= items@.len(),
                items@.len() <= self.limit,
                forall|t: int| 0 <= t < items@.len() ==> (#[trigger] items@[t]).item.wf(),
                forall|p: int, q: int|
                    0 <= p < q < items@.len() ==> (#[trigger] items@[p]).relevance >= (
                    #[trigger] items@[q]).relevance,
                distinct_identities(items@),
                out@.len() == i,
                forall|t: int|
                    0 <= t < i ==> (#[trigger] out@[t]).primary@ == items@[t].item.spec_terms()[0]
                        && (match items@[t].item {
                        crate::relevance::item::IndexEntry::Japanese(it) => out@[t].secondary
                            == it.kanji,
                        _ => out@[t].secondary is None,
                    }),
            decreases items@.len() - i,
        {
            out.push(items[i].to_output());
            i += 1;
        }
        proof {
            assert(exists|s: Seq<EngineItem>|
                {
                    &&& #[trigger] distinct_identities(s)
                    &&& s.len() == out@.len()
                    &&& (forall|t: int| 0 <= t < s.len() ==> (#[trigger] s[t]).item.wf())
                    &&& (forall|p: int, q: int|
                        0 <= p < q < s.len() ==> (#[trigger] s[p]).relevance >= (
                        #[trigger] s[q]).relevance)
                    &&& forall|t: int|
                        0 <= t < out@.len() ==> (#[trigger] out@[t]).primary@
                            == s[t].item.spec_terms()[0] && (match s[t].item {
                            crate::relevance::item::IndexEntry::Japanese(it) => out@[t].secondary
                                == it.kanji,
                            _ => out@[t].secondary is None,
                        })
                }) by {
                assert({
                    &&& distinct_identities(items@)
                    &&& items@.len() == out@.len()
                    &&& (forall|t: int| 0 <= t < items@.len() ==> (#[trigger] items@[t]).item.wf())
                    &&& (forall|p: int, q: int|
                        0 <= p < q < items@.len() ==> (#[trigger] items@[p]).relevance >= (
                        #[trigger] items@[q]).relevance)
                    &&& forall|t: int|
                        0 <= t < out@.len() ==> (#[trigger] out@[t]).primary@
                            == items@[t].item.spec_terms()[0] && (match items@[t].item {
                            crate::relevance::item::IndexEntry::Japanese(it) => out@[t].secondary
                                == it.kanji,
                            _ => out@[t].secondary is None,
                        })
                });
            }
        }
        out
    }
}

} // verus!
