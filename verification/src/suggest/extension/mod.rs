//! Pluggable fallback strategies: each extension decides whether it should
//! run given what was already found, and contributes its own ranked
//! candidates.

pub mod custom;
pub mod kanji_align;
pub mod longest_prefix;
pub mod ngram;
pub mod similar_terms;

use vstd::prelude::*;
use crate::relevance::RelevanceWeights;
use crate::relevance::item::EngineItem;
use crate::suggest::query::SuggestionQuery;

verus! {

/// The knobs every extension shares.
#[derive(Clone, Copy)]
pub struct ExtensionOptions {
    pub enabled: bool,
    /// At most this many items may come back from the extension.
    pub limit: usize,
    /// The extension runs only while fewer results than this exist.
    pub threshold: usize,
    pub weights: RelevanceWeights,
    /// The query must be at least this many characters long.
    pub min_query_len: usize,
}

/// The options every extension starts from: enabled, up to 30 items,
/// running while fewer than 5 results exist, unit weights.
pub open spec fn spec_default_options() -> ExtensionOptions {
    ExtensionOptions {
        enabled: true,
        threshold: 5,
        limit: 30,
        weights: RelevanceWeights { str_weight: 1000u32, freq_weight: 1000u32, total_weight: 1000u32 },
        min_query_len: 0,
    }
}

impl Default for ExtensionOptions {
    /// Enabled, up to 30 items, running while fewer than 5 results exist.
    fn default() -> (r: ExtensionOptions)
        ensures
            r == spec_default_options(),
    {
        ExtensionOptions {
            enabled: true,
            threshold: 5,
            limit: 30,
            weights: RelevanceWeights { str_weight: 1000, freq_weight: 1000, total_weight: 1000 },
            min_query_len: 0,
        }
    }
}

/// The extensions a query can carry, dispatched by variant.
pub enum SuggestExtension<'a> {
    LongestPrefix(longest_prefix::LongestPrefixExtension<'a>),
    SimilarTerms(similar_terms::SimilarTermsExtension<'a>),
    Ngram(ngram::NGramExtension<'a>),
    KanjiAlign(kanji_align::KanjiAlignExtension<'a>),
    Custom(custom::CustomExtension),
}

impl<'a> SuggestExtension<'a> {
    pub open spec fn wf(self) -> bool {
        match self {
            SuggestExtension::LongestPrefix(e) => e.index.wf(),
            SuggestExtension::SimilarTerms(e) => e.index.wf(),
            SuggestExtension::Ngram(e) => e.index.wf() && e.query_weigth <= 1000,
            SuggestExtension::KanjiAlign(e) => e.index.wf(),
            SuggestExtension::Custom(e) => forall|i: int|
                0 <= i < e.items@.len() ==> (#[trigger] e.items@[i]).item.wf(),
        }
    }

    /// This extension's options.
    pub fn get_options(&self) -> (r: &ExtensionOptions)
        ensures
            r == self.spec_options(),
    {
        match self {
            SuggestExtension::LongestPrefix(e) => &e.options,
            SuggestExtension::SimilarTerms(e) => &e.options,
            SuggestExtension::Ngram(e) => &e.options,
            SuggestExtension::KanjiAlign(e) => &e.options,
            SuggestExtension::Custom(e) => &e.options,
        }
    }

    pub open spec fn spec_options(self) -> ExtensionOptions {
        match self {
            SuggestExtension::LongestPrefix(e) => e.options,
            SuggestExtension::SimilarTerms(e) => e.options,
            SuggestExtension::Ngram(e) => e.options,
            SuggestExtension::KanjiAlign(e) => e.options,
            SuggestExtension::Custom(e) => e.options,
        }
    }

    /// Whether the extension wants to run: it must be enabled, too few
    /// results must exist, and the query must be long enough.
    pub fn should_run(&self, already_found: usize, query: &SuggestionQuery<'a>) -> (r: bool)
        requires
            query.wf(),
        ensures
            r == (self.spec_options().enabled && already_found < self.spec_options().threshold
                && query.query_str@.len() >= self.spec_options().min_query_len),
    {
        if query.query_len() < self.get_options().min_query_len {
            return false;
        }
        match self {
            SuggestExtension::LongestPrefix(e) => e.should_run(already_found),
            SuggestExtension::SimilarTerms(e) => e.should_run(already_found),
            SuggestExtension::Ngram(e) => e.should_run(already_found),
            SuggestExtension::KanjiAlign(e) => e.should_run(already_found, query),
            SuggestExtension::Custom(e) => e.should_run(already_found),
        }
    }

    /// Runs the extension against the query.
    pub fn run(&self, query: &SuggestionQuery<'a>, rel_weight: u32) -> (r: Vec<EngineItem>)
        requires
            self.wf(),
            query.wf(),
        ensures
            r@.len() <= self.spec_options().limit,
            forall|i: int| 0 <= i < r@.len() ==> (#[trigger] r@[i]).item.wf(),
    {
        match self {
            SuggestExtension::LongestPrefix(e) => e.run(query, rel_weight),
            SuggestExtension::SimilarTerms(e) => e.run(query, rel_weight),
            SuggestExtension::Ngram(e) => e.run(query, rel_weight),
            SuggestExtension::KanjiAlign(e) => e.run(query, rel_weight),
            SuggestExtension::Custom(e) => e.run(),
        }
    }
}

/// The effective total weight of an extension run: the query's total weight
/// scaled by the extension's own, both per-mille.
pub fn combine_weight(rel_weight: u32, ext_total: u32) -> (r: u32)
    ensures
        r == crate::relevance::min_cap(
            (rel_weight as int) * (ext_total as int) / 1000,
            0xFFFF_FFFF,
        ),
{
    proof {
        assert((rel_weight as int) * (ext_total as int) <= 0xFFFF_FFFFint * 0xFFFF_FFFF) by (
        nonlinear_arith)
            requires
                rel_weight <= 0xFFFF_FFFF,
                ext_total <= 0xFFFF_FFFF,
        ;
        assert((rel_weight as int) * (ext_total as int) >= 0) by (nonlinear_arith)
            requires
                rel_weight >= 0,
                ext_total >= 0,
        ;
        assert((rel_weight as int) * (ext_total as int) / 1000 <= 0xFFFF_FFFFint * 0xFFFF_FFFF
            / 1000) by {
            vstd::arithmetic::div_mod::lemma_div_is_ordered(
                (rel_weight as int) * (ext_total as int),
                0xFFFF_FFFFint * 0xFFFF_FFFF,
                1000,
            );
        }
        vstd::arithmetic::div_mod::lemma_div_pos_is_pos(
            (rel_weight as int) * (ext_total as int),
            1000,
        );
    }
    let prod: u64 = (rel_weight as u64) * (ext_total as u64);
    let scaled: u64 = prod / 1000;
    if scaled > 0xFFFF_FFFF {
        0xFFFF_FFFF
    } else {
        scaled as u32
    }
}

} // verus!
