//! N-gram similarity fallback: the main recall mechanism when the literal
//! prefix finds nothing. Candidates come from the index's n-gram side; the
//! Dice score doubles as the string-similarity input of the final score.

use vstd::prelude::*;
use super::{combine_weight, ExtensionOptions};
use crate::index::IndexRef;
use crate::relevance::RelevanceCalc;
use crate::relevance::item::EngineItem;
use crate::suggest::query::{top_k_best, SuggestionQuery};

verus! {

/// The n-gram similarity extension.
pub struct NGramExtension<'a> {
    pub options: ExtensionOptions,
    /// Candidates scoring below this per-mille similarity are dropped.
    pub sim_threshold: u16,
    /// How much the query's length weighs against the candidate's, in
    /// thousandths.
    pub query_weigth: u32,
    /// At most this many candidate documents are inspected.
    pub term_limit: usize,
    pub index: IndexRef<'a>,
}

impl<'a> NGramExtension<'a> {
    /// An n-gram extension over `index` with the default 0.45 similarity
    /// cut-off.
    pub fn new(index: IndexRef<'a>) -> (r: NGramExtension<'a>)
        requires
            index.wf(),
        ensures
            r.index == index,
            r.sim_threshold == 450,
            r.query_weigth == 600,
            r.term_limit == 2000,
            r.options.threshold == 10,
    {
        Self::with_sim_threshold(index, 450)
    }

    /// An n-gram extension with a custom per-mille similarity cut-off.
    pub fn with_sim_threshold(index: IndexRef<'a>, sim_threshold: u16) -> (r: NGramExtension<'a>)
        requires
            index.wf(),
        ensures
            r.index == index,
            r.sim_threshold == sim_threshold,
            r.query_weigth == 600,
            r.term_limit == 2000,
            r.options.threshold == 10,
    {
        let mut options: ExtensionOptions = Default::default();
        options.threshold = 10;
        NGramExtension { options, sim_threshold, query_weigth: 600, term_limit: 2000, index }
    }

    /// Queries the n-gram side, drops weak candidates, scores the rest with
    /// the Dice similarity standing in for string similarity, and keeps the
    /// best `limit`.
    pub fn run(&self, query: &SuggestionQuery<'a>, rel_weight: u32) -> (r: Vec<EngineItem>)
        requires
            self.index.wf(),
            query.wf(),
            self.query_weigth <= 1000,
        ensures
            r@.len() <= self.options.limit,
            forall|i: int| 0 <= i < r@.len() ==> (#[trigger] r@[i]).item.wf(),
    {
        let total = combine_weight(rel_weight, self.options.weights.total_weight);
        let rel_calc = RelevanceCalc::new(self.options.weights).with_total_weight(total);
        let found = self.index.similar(
            query.query_str.as_str(),
            self.options.limit,
            self.query_weigth,
            self.term_limit,
        );
        let mut out: Vec<EngineItem> = Vec::new();
        let mut i: usize = 0;
        while i < found.len()
            invariant
                i <= found@.len(),
                forall|t: int| 0 <= t < found@.len() ==> (#[trigger] found@[t]).item.wf(),
                out@.len() <= i,
                forall|t: int| 0 <= t < out@.len() ==> (#[trigger] out@[t]).item.wf(),
            decreases found@.len() - i,
        {
            let e = &found[i];
            let str_rel = e.get_relevance();
            if str_rel >= self.sim_threshold {
                let rel = rel_calc.calc(e, str_rel);
                let mut item = e.duplicate();
                item.set_relevance(rel);
                out.push(item);
            }
            i += 1;
        }
        top_k_best(out, self.options.limit)
    }

    /// Runs while enabled and too few results exist.
    pub fn should_run(&self, already_found: usize) -> (r: bool)
        ensures
            r == (self.options.enabled && already_found < self.options.threshold),
    {
        self.options.enabled && already_found < self.options.threshold
    }
}

} // verus!
