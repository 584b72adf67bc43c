//! Phonetic-similarity fallback: a thin layer over the index's fingerprint
//! neighbours, scoring each candidate by its string similarity corrected
//! downward for phonetic distance.

use vstd::prelude::*;
use super::{combine_weight, ExtensionOptions};
use crate::index::IndexRef;
use crate::relevance::RelevanceCalc;
use crate::relevance::item::EngineItem;
use crate::suggest::query::{top_k_best, SuggestionQuery};

verus! {

/// The phonetic-neighbour extension.
pub struct SimilarTermsExtension<'a> {
    pub options: ExtensionOptions,
    pub index: IndexRef<'a>,
    /// Candidates further away than this are dropped.
    pub max_str_dist: u32,
}

impl<'a> SimilarTermsExtension<'a> {
    /// A phonetic-neighbour extension over `index` with default options.
    pub fn new(index: IndexRef<'a>, max_str_dist: u32) -> (r: SimilarTermsExtension<'a>)
        requires
            index.wf(),
        ensures
            r.index == index,
            r.max_str_dist == max_str_dist,
            r.options == super::spec_default_options(),
    {
        SimilarTermsExtension { options: Default::default(), index, max_str_dist }
    }

    /// Gathers phonetic neighbours, scores each by string similarity minus
    /// five points per unit of phonetic distance, and keeps the best
    /// `limit`.
    pub fn run(&self, query: &SuggestionQuery<'a>, rel_weight: u32) -> (r: Vec<EngineItem>)
        requires
            self.index.wf(),
            query.wf(),
        ensures
            r@.len() <= self.options.limit,
            forall|i: int| 0 <= i < r@.len() ==> (#[trigger] r@[i]).item.wf(),
    {
        let total = combine_weight(rel_weight, self.options.weights.total_weight);
        let rel_calc = RelevanceCalc::new(self.options.weights).with_total_weight(total);
        let mut out: Vec<EngineItem> = Vec::new();
        if query.query_str.as_str().is_empty() {
            return out;
        }
        let wide = if self.options.limit > usize::MAX / 10 {
            usize::MAX
        } else {
            self.options.limit * 10
        };
        let similar = self.index.similar_terms(query.query_str.as_str(), wide, self.max_str_dist);
        let mut i: usize = 0;
        while i < similar.len()
            invariant
                query.wf(),
                i <= similar@.len(),
                forall|t: int| 0 <= t < similar@.len() ==> (#[trigger] similar@[t]).item.wf(),
                out@.len() == i,
                forall|t: int| 0 <= t < out@.len() ==> (#[trigger] out@[t]).item.wf(),
            decreases similar@.len() - i,
        {
            let e = &similar[i];
            let base = e.item.str_relevance(query.query_str.as_str());
            let dist = e.get_relevance();
            let penalty = if dist > 13107 {
                u16::MAX
            } else {
                dist * 5
            };
            let str_rel = if base >= penalty {
                base - penalty
            } else {
                0
            };
            let rel = rel_calc.calc(e, str_rel);
            let mut item = e.duplicate();
            item.set_relevance(rel);
            out.push(item);
            i += 1;
        }
        top_k_best(out, self.options.limit)
    }

    /// Runs while enabled and too few results exist.
    pub fn should_run(&self, already_found: usize) -> (r: bool)
        ensures
            r == (self.options.enabled && already_found < self.options.threshold),
    {
        self.options.enabled && already_found < self.options.threshold
    }
}

} // verus!
