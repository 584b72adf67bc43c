//! The handle the search pipeline ranks: an index record together with its
//! current relevance. Two handles are the same suggestion when they carry
//! the same surface forms and term id.

use vstd::prelude::*;
use crate::index::output::Output;
use crate::index::ToOutput;
use crate::index::japanese::item::spec_jp_relevance;
use crate::index::ngram::item::{spec_word_relevance, FREQ_SCALE};
use crate::index::str_item::spec_plain_relevance;

verus! {

/// The record behind a suggestion, whichever index produced it.
pub enum IndexEntry {
    Basic(crate::index::ngram::Item),
    Japanese(crate::index::japanese::Item),
    Str(crate::index::str_item::StringItem),
}

impl IndexEntry {
    /// Frequencies stay on the parts-per-million ladder and surface forms
    /// stay indexable.
    pub open spec fn wf(self) -> bool {
        match self {
            IndexEntry::Basic(i) => i.frequency <= FREQ_SCALE && i.word@.len() < 0x100_0000,
            IndexEntry::Japanese(i) => i.frequency <= FREQ_SCALE,
            IndexEntry::Str(i) => i.frequency <= FREQ_SCALE && i.word@.len() < 0x100_0000,
        }
    }

    /// The stored frequency in parts per million.
    pub open spec fn spec_frequency(self) -> int {
        match self {
            IndexEntry::Basic(i) => i.frequency as int,
            IndexEntry::Japanese(i) => i.frequency as int,
            IndexEntry::Str(i) => i.frequency as int,
        }
    }

    /// The searchable surface forms.
    pub open spec fn spec_terms(self) -> Seq<Seq<char>> {
        match self {
            IndexEntry::Basic(i) => seq![i.word@],
            IndexEntry::Japanese(i) => if i.kanji is Some {
                seq![i.kana@, i.kanji->0@]
            } else {
                seq![i.kana@]
            },
            IndexEntry::Str(i) => seq![i.word@],
        }
    }

    /// The term id; bare string items all share id zero.
    pub open spec fn spec_word_id(self) -> u32 {
        match self {
            IndexEntry::Basic(i) => i.word_id,
            IndexEntry::Japanese(i) => i.word_id,
            IndexEntry::Str(_) => 0,
        }
    }

    /// What makes two suggestions the same: their surface forms and id.
    pub open spec fn spec_identity(self) -> (Seq<Seq<char>>, u32) {
        (self.spec_terms(), self.spec_word_id())
    }

    /// The string-similarity score of this record against a query.
    pub open spec fn spec_relevance(self, query: Seq<char>) -> int {
        match self {
            IndexEntry::Basic(i) => spec_word_relevance(i.word@, query),
            IndexEntry::Japanese(i) => spec_jp_relevance(i, query),
            IndexEntry::Str(i) => spec_plain_relevance(i.word@, query),
        }
    }

    /// The stored phonetic fingerprint, if the record carries one.
    pub open spec fn spec_hash(self) -> Option<u64> {
        match self {
            IndexEntry::Basic(i) => i.hash,
            IndexEntry::Japanese(i) => i.hash,
            IndexEntry::Str(_) => None,
        }
    }

    /// Exec twin of [`IndexEntry::spec_frequency`].
    pub fn frequency(&self) -> (r: u32)
        ensures
            r == self.spec_frequency(),
    {
        match self {
            IndexEntry::Basic(i) => i.frequency,
            IndexEntry::Japanese(i) => i.frequency,
            IndexEntry::Str(i) => i.frequency,
        }
    }

    /// Exec twin of [`IndexEntry::spec_word_id`].
    pub fn word_id(&self) -> (r: u32)
        ensures
            r == self.spec_word_id(),
    {
        match self {
            IndexEntry::Basic(i) => i.word_id,
            IndexEntry::Japanese(i) => i.word_id,
            IndexEntry::Str(_) => 0,
        }
    }

    /// The searchable surface forms, as owned strings.
    pub fn terms(&self) -> (r: Vec<String>)
        ensures
            r@.len() == self.spec_terms().len(),
            forall|i: int| 0 <= i < r@.len() ==> (#[trigger] r@[i])@ == self.spec_terms()[i],
    {
        match self {
            IndexEntry::Basic(i) => {
                let mut out: Vec<String> = Vec::new();
                out.push(i.word.clone());
                out
            },
            IndexEntry::Japanese(i) => i.terms(),
            IndexEntry::Str(i) => {
                let mut out: Vec<String> = Vec::new();
                out.push(i.word.clone());
                out
            },
        }
    }

    /// Scores this record against a query; see [`IndexEntry::spec_relevance`].
    pub fn str_relevance(&self, query: &str) -> (r: u16)
        requires
            self.wf(),
            query@.len() < 0x100_0000,
        ensures
            r == self.spec_relevance(query@),
            r <= 1010,
    {
        match self {
            IndexEntry::Basic(i) => i.str_relevance(query),
            IndexEntry::Japanese(i) => i.str_relevance(query),
            IndexEntry::Str(i) => i.str_relevance(query),
        }
    }

    /// A copy of this record.
    pub fn duplicate(&self) -> (r: IndexEntry)
        ensures
            r.spec_identity() == self.spec_identity(),
            r.spec_frequency() == self.spec_frequency(),
            r.spec_hash() == self.spec_hash(),
            r.wf() == self.wf(),
            forall|q: Seq<char>| r.spec_relevance(q) == self.spec_relevance(q),
    {
        match self {
            IndexEntry::Basic(i) => IndexEntry::Basic(i.duplicate()),
            IndexEntry::Japanese(i) => {
                let d = i.duplicate();
                proof {
                    assert(IndexEntry::Japanese(d).spec_terms() =~= self.spec_terms());
                    assert forall|q: Seq<char>|
                        IndexEntry::Japanese(d).spec_relevance(q) == self.spec_relevance(q) by {
                        assert(d.alternative@ == i.alternative@);
                    }
                }
                IndexEntry::Japanese(d)
            },
            IndexEntry::Str(i) => IndexEntry::Str(i.duplicate()),
        }
    }
}

/// No two entries of the list stand for the same suggestion.
pub open spec fn distinct_identities(s: Seq<EngineItem>) -> bool {
    forall|p: int, q: int|
        0 <= p < q < s.len() ==> (#[trigger] s[p]).item.spec_identity() != (
        #[trigger] s[q]).item.spec_identity()
}

/// An index record paired with its current relevance.
pub struct EngineItem {
    pub item: IndexEntry,
    pub relevance: u16,
}

impl EngineItem {
    /// Wraps a record with a starting relevance.
    pub fn new(item: IndexEntry, relevance: u16) -> (r: EngineItem)
        ensures
            r.item == item,
            r.relevance == relevance,
    {
        EngineItem { item, relevance }
    }

    /// The record behind this handle.
    pub fn inner(&self) -> (r: &IndexEntry)
        ensures
            r == &self.item,
    {
        &self.item
    }

    /// Re-ranks the handle.
    pub fn set_relevance(&mut self, new_val: u16)
        ensures
            final(self).item == old(self).item,
            final(self).relevance == new_val,
    {
        self.relevance = new_val;
    }

    /// The handle's current relevance.
    pub fn get_relevance(&self) -> (r: u16)
        ensures
            r == self.relevance,
    {
        self.relevance
    }

    /// Whether two handles stand for the same suggestion.
    pub fn same_identity(&self, other: &EngineItem) -> (r: bool)
        ensures
            r == (self.item.spec_identity() == other.item.spec_identity()),
    {
        if self.item.word_id() != other.item.word_id() {
            proof {
                assert(self.item.spec_identity() != other.item.spec_identity());
            }
            return false;
        }
        let a = self.item.terms();
        let b = other.item.terms();
        if a.len() != b.len() {
            proof {
                assert(self.item.spec_terms().len() != other.item.spec_terms().len());
                assert(self.item.spec_identity() != other.item.spec_identity());
            }
            return false;
        }
        let mut i: usize = 0;
        while i < a.len()
            invariant
                i <= a@.len(),
                a@.len() == b@.len(),
                a@.len() == self.item.spec_terms().len(),
                b@.len() == other.item.spec_terms().len(),
                forall|t: int| 0 <= t < a@.len() ==> (#[trigger] a@[t])@ == self.item.spec_terms()[t],
                forall|t: int|
                    0 <= t < b@.len() ==> (#[trigger] b@[t])@ == other.item.spec_terms()[t],
                forall|t: int|
                    0 <= t < i ==> self.item.spec_terms()[t] == #[trigger] other.item.spec_terms()[t],
            decreases a@.len() - i,
        {
            if !a[i].eq(&b[i]) {
                proof {
                    assert(self.item.spec_terms()[i as int] != other.item.spec_terms()[i as int]);
                    assert(self.item.spec_identity() != other.item.spec_identity());
                }
                return false;
            }
            i += 1;
        }
        proof {
            assert(self.item.spec_terms() =~= other.item.spec_terms());
        }
        true
    }

    /// Turns the handle into the record the caller sees.
    pub fn to_output(&self) -> (r: Output)
        ensures
            r.primary@ == self.item.spec_terms()[0],
            match self.item {
                IndexEntry::Japanese(i) => r.secondary == i.kanji,
                _ => r.secondary is None,
            },
    {
        match &self.item {
            IndexEntry::Basic(i) => i.to_output(),
            IndexEntry::Japanese(i) => i.to_output(),
            IndexEntry::Str(i) => i.to_output(),
        }
    }

    /// A copy of this handle.
    pub fn duplicate(&self) -> (r: EngineItem)
        ensures
            r.item.spec_identity() == self.item.spec_identity(),
            r.item.spec_frequency() == self.item.spec_frequency(),
            r.item.spec_hash() == self.item.spec_hash(),
            r.item.wf() == self.item.wf(),
            forall|q: Seq<char>| r.item.spec_relevance(q) == self.item.spec_relevance(q),
            r.relevance == self.relevance,
    {
        EngineItem { item: self.item.duplicate(), relevance: self.relevance }
    }
}

} // verus!
