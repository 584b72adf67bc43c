//! The record stored in the generic indices: a surface form, its term id,
//! its relative frequency, and an optional phonetic fingerprint.

use vstd::prelude::*;
use crate::index::output::Output;
use crate::index::ToOutput;
use crate::phonetic::{eudex_hash, eudex_hash_of};
use crate::strdist::{prefix_score, scaled_sim, spec_prefix_score, spec_scaled_sim};
use crate::text::{chars_of, fold_chars, fold_seq, spec_starts_with, starts_with};
use vstd::string::StringSliceAdditionalSpecFns;

verus! {

/// Frequencies are stored in parts per million of the corpus, so `1_000_000`
/// stands for the whole corpus.
pub const FREQ_SCALE: u32 = 1_000_000;

/// A word's similarity against a query: a prefix hit is scored by how much
/// of the word the query covers, anything else by edit distance, both on
/// the per-mille ladder. Both sides are compared case-folded.
pub open spec fn spec_word_relevance(word: Seq<char>, query: Seq<char>) -> int {
    let fq = fold_seq(query);
    if spec_starts_with(fold_seq(word), fq) {
        spec_prefix_score(word.len() as int, fq.len() as int)
    } else {
        spec_scaled_sim(word, fq, 1000)
    }
}

/// An item of a generic index.
#[derive(Debug)]
pub struct Item {
    pub word_id: u32,
    pub word: String,
    /// Parts per million, at most [`FREQ_SCALE`].
    pub frequency: u32,
    /// The phonetic fingerprint, kept only for words of at most 16 bytes.
    pub hash: Option<u64>,
}

impl Item {
    /// The stored frequency is on the parts-per-million ladder.
    pub open spec fn wf(self) -> bool {
        self.frequency <= FREQ_SCALE
    }

    /// Creates a new index item. The frequency must already be normalized.
    pub fn new(word: String, word_id: u32, frequency: u32) -> (r: Item)
        requires
            frequency <= FREQ_SCALE,
            word@.len() < 0x100_0000,
        ensures
            r.wf(),
            r.word@ == word@,
            r.word_id == word_id,
            r.frequency == frequency,
            r.hash is Some <==> vstd::utf8::encode_utf8(word@).len() <= 16,
            r.hash is Some ==> r.hash->0 == eudex_hash_of(word@),
    {
        let ws = word.as_str();
        let nbytes = ws.len();
        proof {
            assert(ws.spec_bytes() == vstd::utf8::encode_utf8(word@));
            crate::text::lemma_encode_len(word@);
        }
        let hash = if nbytes <= 16 {
            Some(eudex_hash(word.as_str()))
        } else {
            None
        };
        Item { word_id, word, frequency, hash }
    }

    /// The surface form.
    pub fn word(&self) -> (r: &str)
        ensures
            r@ == self.word@,
    {
        self.word.as_str()
    }

    /// The stored frequency in parts per million.
    pub fn frequency(&self) -> (r: u32)
        ensures
            r == self.frequency,
    {
        self.frequency
    }

    /// The word's id.
    pub fn word_id(&self) -> (r: u32)
        ensures
            r == self.word_id,
    {
        self.word_id
    }

    /// Scores this word against a query; see [`spec_word_relevance`].
    pub fn str_relevance(&self, query: &str) -> (r: u16)
        requires
            self.word@.len() < 0x100_0000,
            query@.len() < 0x100_0000,
        ensures
            r == spec_word_relevance(self.word@, query@),
            r <= 1000,
    {
        let wchars = chars_of(self.word.as_str());
        let qchars = chars_of(query);
        let fw = fold_chars(&wchars);
        let fq = fold_chars(&qchars);
        if starts_with(&fw, &fq) {
            prefix_score(wchars.len(), fq.len())
        } else {
            scaled_sim(&wchars, &fq, 1000)
        }
    }

    /// A copy of this item.
    pub fn duplicate(&self) -> (r: Item)
        ensures
            r == *self,
    {
        Item {
            word_id: self.word_id,
            word: self.word.clone(),
            frequency: self.frequency,
            hash: self.hash,
        }
    }
}

impl ToOutput for Item {
    fn to_output(&self) -> (r: Output)
        ensures
            r.primary@ == self.word@,
            r.secondary is None,
    {
        Output { primary: self.word.clone(), secondary: None }
    }
}

} // verus!
