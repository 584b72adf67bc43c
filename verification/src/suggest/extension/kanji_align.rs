//! Kanji reading alignment fallback: surfaces items whose kanji readings
//! align with the query, nearly ignoring frequency so that rare but
//! script-aligned matches come through.

use vstd::prelude::*;
use super::{combine_weight, ExtensionOptions};
use crate::index::IndexRef;
use crate::relevance::RelevanceCalc;
use crate::relevance::item::EngineItem;
use crate::suggest::query::{top_k_best, SuggestionQuery};

verus! {

/// The kanji-alignment extension.
pub struct KanjiAlignExtension<'a> {
    pub options: ExtensionOptions,
    pub index: IndexRef<'a>,
}

impl<'a> KanjiAlignExtension<'a> {
    /// A kanji-alignment extension over `index`; the frequency weight
    /// defaults to a hundredth so alignment dominates.
    pub fn new(index: IndexRef<'a>) -> (r: KanjiAlignExtension<'a>)
        requires
            index.wf(),
        ensures
            r.index == index,
            r.options.weights.freq_weight == 10,
    {
        let mut options: ExtensionOptions = Default::default();
        options.weights.freq_weight = 10;
        KanjiAlignExtension { options, index }
    }

    /// Collects aligned items, scores them against the query, and keeps the
    /// best `limit`.
    pub fn run(&self, query: &SuggestionQuery<'a>, rel_weight: u32) -> (r: Vec<EngineItem>)
        requires
            self.index.wf(),
            query.wf(),
        ensures
            r@.len() <= self.options.limit,
            forall|i: int| 0 <= i < r@.len() ==> (#[trigger] r@[i]).item.wf(),
    {
        let total = combine_weight(rel_weight, self.options.weights.total_weight);
        let rel_calc = RelevanceCalc::new(self.options.weights).with_total_weight(total);
        let aligned = self.index.align_reading(query.query_str.as_str());
        let ordered = query.order_items(aligned, rel_calc);
        top_k_best(ordered, self.options.limit)
    }

    /// Runs while enabled, too few results exist, and the query is long
    /// enough.
    pub fn should_run(&self, already_found: usize, query: &SuggestionQuery<'a>) -> (r: bool)
        requires
            query.wf(),
        ensures
            r == (self.options.enabled && already_found < self.options.threshold
                && query.query_str@.len() >= self.options.min_query_len),
    {
        self.options.enabled && already_found < self.options.threshold && query.query_len()
            >= self.options.min_query_len
    }
}

} // verus!
