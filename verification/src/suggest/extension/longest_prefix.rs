//! Longest-prefix walk-back: when a prefix yields too little, retry with
//! the prefix shortened one character at a time, merging what each step
//! finds.

use vstd::prelude::*;
use super::{combine_weight, ExtensionOptions};
use crate::index::IndexRef;
use crate::relevance::RelevanceCalc;
use crate::relevance::item::{distinct_identities, EngineItem};
use crate::suggest::query::{merge_unique, top_k_best, SuggestionQuery};
use crate::text::{chars_of, string_from_chars};

verus! {

/// The walk-back extension.
pub struct LongestPrefixExtension<'a> {
    pub options: ExtensionOptions,
    pub index: IndexRef<'a>,
    /// Stop once the prefix is shorter than this many characters.
    pub min_w_len: usize,
    /// Never take more than this many shortening steps.
    pub max_steps: usize,
}

impl<'a> LongestPrefixExtension<'a> {
    /// A walk-back extension over `index` with default options.
    pub fn new(index: IndexRef<'a>, min_w_len: usize, max_steps: usize) -> (r:
        LongestPrefixExtension<'a>)
        requires
            index.wf(),
        ensures
            r.index == index,
            r.min_w_len == min_w_len,
            r.max_steps == max_steps,
            r.options == super::spec_default_options(),
    {
        LongestPrefixExtension { options: Default::default(), index, min_w_len, max_steps }
    }

    /// Queries the index with ever shorter prefixes of `inp`, merging the
    /// results without duplicate suggestions, until enough was found, the
    /// step budget is spent, or the prefix got too short.
    pub fn find_with_longest_prefix(&self, inp: &str) -> (r: Vec<EngineItem>)
        requires
            self.index.wf(),
            inp@.len() < 0xFF_0000,
        ensures
            distinct_identities(r@),
            forall|i: int| 0 <= i < r@.len() ==> (#[trigger] r@[i]).item.wf(),
    {
        let mut out: Vec<EngineItem> = Vec::new();
        let mut q = chars_of(inp);
        if q.len() == 0 {
            return out;
        }
        let mut steps: usize = 0;
        loop
            invariant
                self.index.wf(),
                q@.len() < 0xFF_0000,
                distinct_identities(out@),
                forall|i: int| 0 <= i < out@.len() ==> (#[trigger] out@[i]).item.wf(),
            decreases q@.len(),
        {
            if steps >= self.max_steps || out.len() >= self.options.limit {
                return out;
            }
            let qs = string_from_chars(&q);
            let res = self.index.predictions(qs.as_str(), self.options.limit);
            out = merge_unique(out, res);
            if q.len() == 0 {
                return out;
            }
            let _ = q.pop();
            if q.len() < self.min_w_len || q.len() == 0 {
                return out;
            }
            steps += 1;
        }
    }

    /// Walks back, scores everything against the original query, and keeps
    /// the best `limit` items.
    pub fn run(&self, query: &SuggestionQuery<'a>, rel_weight: u32) -> (r: Vec<EngineItem>)
        requires
            self.index.wf(),
            query.wf(),
        ensures
            r@.len() <= self.options.limit,
            forall|i: int| 0 <= i < r@.len() ==> (#[trigger] r@[i]).item.wf(),
    {
        let total = combine_weight(rel_weight, self.options.weights.total_weight);
        let rel_calc = RelevanceCalc::new(self.options.weights).with_total_weight(total);
        let longest_items = self.find_with_longest_prefix(query.query_str.as_str());
        let ordered = query.order_items(longest_items, rel_calc);
        top_k_best(ordered, self.options.limit)
    }

    /// Runs while enabled and too few results exist.
    pub fn should_run(&self, already_found: usize) -> (r: bool)
        ensures
            r == (self.options.enabled && already_found < self.options.threshold),
    {
        self.options.enabled && already_found < self.options.threshold
    }
}

/// Returns `inp` with `len` tailing characters removed; the empty string
/// when fewer than `len` characters exist.
pub fn strip_str_end(inp: &str, len: usize) -> (r: String)
    ensures
        r@ == if len <= inp@.len() {
            inp@.take(inp@.len() - len)
        } else {
            Seq::<char>::empty()
        },
{
    let mut chars = chars_of(inp);
    if len > chars.len() {
        let empty: Vec<char> = Vec::new();
        return string_from_chars(&empty);
    }
    let keep = chars.len() - len;
    chars.truncate(keep);
    string_from_chars(&chars)
}

} // verus!
