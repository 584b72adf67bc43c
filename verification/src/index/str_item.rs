//! A minimal index item: just a surface form and a frequency, for callers
//! that bring their own records.

use vstd::prelude::*;
use crate::index::output::Output;
use crate::index::ToOutput;
use crate::strdist::{prefix_score, scaled_sim, spec_prefix_score, spec_scaled_sim};
use crate::text::{chars_of, fold_chars, fold_seq, spec_starts_with, starts_with};

verus! {

/// A word's similarity against a case-folded query, the word taken as it
/// stands: a prefix hit is scored by coverage, anything else by edit
/// distance, both on the per-mille ladder.
pub open spec fn spec_plain_relevance(word: Seq<char>, query: Seq<char>) -> int {
    let fq = fold_seq(query);
    if spec_starts_with(word, fq) {
        spec_prefix_score(word.len() as int, fq.len() as int)
    } else {
        spec_scaled_sim(word, fq, 1000)
    }
}

/// A bare string item.
#[derive(Debug)]
pub struct StringItem {
    pub word: String,
    /// Parts per million, at most [`crate::index::ngram::item::FREQ_SCALE`].
    pub frequency: u32,
}

impl StringItem {
    /// Creates a new string item.
    pub fn new(word: String, frequency: u32) -> (r: StringItem)
        requires
            frequency <= crate::index::ngram::item::FREQ_SCALE,
        ensures
            r.word@ == word@,
            r.frequency == frequency,
    {
        StringItem { word, frequency }
    }

    /// Scores this word against a query; see [`spec_plain_relevance`].
    pub fn str_relevance(&self, query: &str) -> (r: u16)
        requires
            self.word@.len() < 0x100_0000,
            query@.len() < 0x100_0000,
        ensures
            r == spec_plain_relevance(self.word@, query@),
            r <= 1000,
    {
        let wchars = chars_of(self.word.as_str());
        let qchars = chars_of(query);
        let fq = fold_chars(&qchars);
        if starts_with(&wchars, &fq) {
            prefix_score(wchars.len(), fq.len())
        } else {
            scaled_sim(&wchars, &fq, 1000)
        }
    }

    /// A copy of this item.
    pub fn duplicate(&self) -> (r: StringItem)
        ensures
            r == *self,
    {
        StringItem { word: self.word.clone(), frequency: self.frequency }
    }
}

impl ToOutput for StringItem {
    fn to_output(&self) -> (r: Output)
        ensures
            r.primary@ == self.word@,
            r.secondary is None,
    {
        Output { primary: self.word.clone(), secondary: None }
    }
}

} // verus!
