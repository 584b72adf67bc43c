//! The index family: the generic index, the Japanese index, the raw n-gram
//! index, and the building blocks they share.

pub mod basic;
pub mod japanese;
pub mod ngram;
pub mod ngram_ext;
pub mod output;
pub mod str_item;

pub use output::Output;

use vstd::prelude::*;
use crate::relevance::item::EngineItem;

verus! {

/// Anything an index can hand back as a suggestion.
pub trait ToOutput {
    fn to_output(&self) -> Output;
}

/// A borrowed index of whichever flavour, so one query pipeline serves them
/// all.
pub enum IndexRef<'a> {
    Basic(&'a basic::BasicIndex),
    Japanese(&'a japanese::JapaneseIndex),
    Ngram(&'a ngram::NgramIndex),
}

impl<'a> IndexRef<'a> {
    pub open spec fn wf(self) -> bool {
        match self {
            IndexRef::Basic(ix) => ix.wf(),
            IndexRef::Japanese(ix) => ix.wf(),
            IndexRef::Ngram(ix) => ix.wf(),
        }
    }

    /// Primary lookup: the index's best prefix (or, for the raw n-gram
    /// index, similarity) matches, at most `limit` of them.
    pub fn predictions(&self, inp: &str, limit: usize) -> (r: Vec<EngineItem>)
        requires
            self.wf(),
            inp@.len() < 0xFF_0000,
        ensures
            r@.len() <= limit,
            forall|i: int| 0 <= i < r@.len() ==> (#[trigger] r@[i]).item.wf(),
            match *self {
                IndexRef::Basic(ix) => ix.predictions_post(inp@, limit as int, r@),
                IndexRef::Japanese(ix) => ix.predictions_post(inp@, limit as int, r@),
                IndexRef::Ngram(ix) => ix.predictions_post(inp@, limit as int, r@),
            },
    {
        match self {
            IndexRef::Basic(ix) => ix.predictions(inp, limit),
            IndexRef::Japanese(ix) => ix.predictions(inp, limit),
            IndexRef::Ngram(ix) => ix.predictions(inp, limit),
        }
    }

    /// The entries stored under exactly this key.
    pub fn exact(&self, inp: &str) -> (r: Vec<EngineItem>)
        requires
            self.wf(),
            inp@.len() < 0xFF_0000,
        ensures
            forall|i: int| 0 <= i < r@.len() ==> (#[trigger] r@[i]).item.wf(),
            match *self {
                IndexRef::Basic(ix) => ix.exact_post(inp@, r@),
                IndexRef::Japanese(ix) => ix.exact_post(inp@, r@),
                IndexRef::Ngram(_) => forall|i: int|
                    0 <= i < r@.len() ==> (#[trigger] r@[i]).relevance == 1000,
            },
    {
        match self {
            IndexRef::Basic(ix) => ix.exact(inp),
            IndexRef::Japanese(ix) => ix.exact(inp),
            IndexRef::Ngram(ix) => ix.exact(inp),
        }
    }

    /// Phonetic neighbours within `max_dist`, closest first; empty for
    /// indices without fingerprints.
    pub fn similar_terms(&self, inp: &str, limit: usize, max_dist: u32) -> (r: Vec<EngineItem>)
        requires
            self.wf(),
            1 <= inp@.len() < 0xFF_0000,
        ensures
            r@.len() <= limit,
            forall|i: int| 0 <= i < r@.len() ==> (#[trigger] r@[i]).item.wf(),
            forall|p: int, q: int|
                0 <= p < q < r@.len() ==> (#[trigger] r@[p]).relevance <= (
                #[trigger] r@[q]).relevance,
            match *self {
                IndexRef::Basic(ix) => ix.similar_terms_post(inp@, limit as int, max_dist, r@),
                IndexRef::Japanese(ix) => ix.similar_terms_post(inp@, limit as int, max_dist, r@),
                IndexRef::Ngram(_) => r@.len() == 0,
            },
    {
        match self {
            IndexRef::Basic(ix) => ix.similar_terms(inp, limit, max_dist),
            IndexRef::Japanese(ix) => ix.similar_terms(inp, limit, max_dist),
            IndexRef::Ngram(_) => Vec::new(),
        }
    }

    /// Approximate n-gram similarity search; empty for indices without an
    /// n-gram side.
    pub fn similar(&self, query: &str, limit: usize, q_weight: u32, term_limit: usize) -> (r: Vec<
        EngineItem,
    >)
        requires
            self.wf(),
            q_weight <= 1000,
            query@.len() < 0xFF_0000,
        ensures
            r@.len() <= limit,
            forall|i: int|
                0 <= i < r@.len() ==> (#[trigger] r@[i]).item.wf() && r@[i].relevance <= 1000,
            match *self {
                IndexRef::Basic(ix) => ix.similar_post(query@, q_weight as int, limit as int, r@),
                IndexRef::Japanese(ix) => ix.similar_post(
                    query@,
                    q_weight as int,
                    limit as int,
                    r@,
                ),
                IndexRef::Ngram(_) => r@.len() == 0,
            },
    {
        match self {
            IndexRef::Basic(ix) => ix.similar(query, limit, q_weight, term_limit),
            IndexRef::Japanese(ix) => ix.similar(query, limit, q_weight, term_limit),
            IndexRef::Ngram(_) => Vec::new(),
        }
    }

    /// Kanji reading alignment; empty for non-Japanese indices.
    pub fn align_reading(&self, query: &str) -> (r: Vec<EngineItem>)
        requires
            self.wf(),
        ensures
            forall|i: int| 0 <= i < r@.len() ==> (#[trigger] r@[i]).item.wf(),
            match *self {
                IndexRef::Japanese(ix) => ix.align_post(query@, r@),
                _ => r@.len() == 0,
            },
    {
        match self {
            IndexRef::Japanese(ix) => ix.align_reading(query),
            _ => Vec::new(),
        }
    }

    /// How many terms the index holds.
    pub fn len(&self) -> (r: usize)
    {
        match self {
            IndexRef::Basic(ix) => ix.len(),
            IndexRef::Japanese(ix) => ix.len(),
            IndexRef::Ngram(ix) => ix.len(),
        }
    }
}

} // verus!
