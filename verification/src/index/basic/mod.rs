//! The generic suggestion index: a prefix tree from the normalized surface
//! form to a term id, the dense term table, and an optional n-gram index
//! for approximate lookups.

pub mod builder;

pub use crate::index::ngram::item::Item;

use vstd::prelude::*;
use crate::index::ngram_ext::{spec_dice_milli, NGIndex};
use crate::phonetic::{eudex_hash, eudex_hash_of, phonetic_dist, spec_phonetic_dist};
use crate::relevance::item::{EngineItem, IndexEntry};
use crate::text::{chars_of, format_chars, spec_format, string_from_chars};
use crate::topk::{beats, is_top_k, top_k_indices};
use crate::trie::{one_get, one_map, one_prefix_entries, covers_prefix};
use vstd::string::StringSliceAdditionalSpecFns;

verus! {

/// Normalizes raw input for trie keys: strips the configured punctuation
/// and folds to lower case.
pub fn basic_format(inp: &str) -> (r: String)
    ensures
        r@ == spec_format(inp@, false),
{
    let chars = chars_of(inp);
    let f = format_chars(&chars, false);
    string_from_chars(&f)
}

/// Index with the basic suggestion machinery.
pub struct BasicIndex {
    /// Maps each normalized surface form to the word's position in
    /// `terms`.
    pub trie: qp_trie::Trie<qp_trie::wrapper::BString, u32>,
    /// All words; the position is the term id.
    pub terms: Vec<Item>,
    /// The optional n-gram index over the same ids.
    pub ngram: Option<NGIndex>,
}

impl BasicIndex {
    /// Every trie payload and every n-gram payload is a live term id, and
    /// every term is well formed.
    pub open spec fn wf(self) -> bool {
        &&& self.terms@.len() <= 0xFFFF_FFFF
        &&& forall|k: Seq<char>|
            one_map(self.trie).dom().contains(k) ==> (#[trigger] one_map(self.trie)[k])
                < self.terms@.len()
        &&& forall|i: int|
            0 <= i < self.terms@.len() ==> ((#[trigger] self.terms@[i]).frequency <= 1_000_000
                && self.terms@[i].word@.len() < 0x100_0000)
        &&& match self.ngram {
            Some(ng) => ng.wf() && ng.n <= 16 && forall|d: int, u: int|
                #![trigger ng.docs@[d].ids@[u]]
                0 <= d < ng.docs@.len() && 0 <= u < ng.docs@[d].ids@.len() ==> ng.docs@[d].ids@[u]
                    < self.terms@.len(),
            None => true,
        }
    }

    /// Some stored key starts with `prefix`.
    pub open spec fn has_key_with_prefix(self, prefix: Seq<char>) -> bool {
        exists|k: Seq<char>|
            #![trigger one_map(self.trie)[k]]
            one_map(self.trie).dom().contains(k) && prefix.is_prefix_of(k)
    }

    /// `e` is the record of a term whose normalized key starts with
    /// `prefix`.
    pub open spec fn entry_from_prefix(self, prefix: Seq<char>, e: IndexEntry) -> bool {
        exists|k: Seq<char>|
            #![auto]
            one_map(self.trie).dom().contains(k) && prefix.is_prefix_of(k) && e
                == IndexEntry::Basic(self.terms@[one_map(self.trie)[k] as int])
    }

    /// `e` is a phonetic neighbour: a term sharing the query's first
    /// character whose stored fingerprint lies within `max_dist` of the
    /// query's, carried with that distance as its relevance.
    pub open spec fn phonetic_candidate(
        self,
        inp: Seq<char>,
        e: EngineItem,
        max_dist: u32,
    ) -> bool {
        exists|k: Seq<char>|
            #![trigger one_map(self.trie).dom().contains(k)]
            {
                let item = self.terms@[one_map(self.trie)[k] as int];
                &&& one_map(self.trie).dom().contains(k)
                &&& inp.take(1).is_prefix_of(k)
                &&& e.item == IndexEntry::Basic(item)
                &&& item.hash is Some
                &&& e.relevance == spec_phonetic_dist(eudex_hash_of(inp), item.hash->0)
                &&& e.relevance <= max_dist
            }
    }

    /// Builds an index over `terms`, keying each by its normalized surface
    /// form; later duplicates replace earlier keys. The terms are also
    /// n-gram indexed with windows of width `n`, skipping those with
    /// spaces or more than 15 characters.
    pub fn with_ngindex(terms: Vec<Item>, n: usize) -> (r: BasicIndex)
        requires
            terms@.len() < 0xFFFF_FFFF,
            1 <= n <= 16,
            forall|i: int|
                0 <= i < terms@.len() ==> ((#[trigger] terms@[i]).frequency <= 1_000_000
                    && terms@[i].word@.len() < 0x100_0000),
        ensures
            r.wf(),
            r.terms@ == terms@,
    {
        let mut builder = crate::index::ngram_ext::builder::NGIndexBuilder::new(n);
        let mut trie = crate::trie::one_new();
        let mut pos: usize = 0;
        while pos < terms.len()
            invariant
                terms@.len() < 0xFFFF_FFFF,
                1 <= n <= 16,
                forall|i: int|
                    0 <= i < terms@.len() ==> ((#[trigger] terms@[i]).frequency <= 1_000_000
                        && terms@[i].word@.len() < 0x100_0000),
                pos <= terms@.len(),
                builder.wf(),
                builder.n == n,
                forall|k: Seq<char>|
                    one_map(trie).dom().contains(k) ==> (#[trigger] one_map(trie)[k])
                        < terms@.len(),
                forall|d: int, u: int|
                    #![trigger builder.docs@[d].ids@[u]]
                    0 <= d < builder.docs@.len() && 0 <= u < builder.docs@[d].ids@.len()
                        ==> builder.docs@[d].ids@[u] < terms@.len(),
            decreases terms@.len() - pos,
        {
            let formatted = basic_format(self_word(&terms, pos));
            let id = pos as u32;
            crate::trie::one_insert(&mut trie, formatted.as_str(), id);
            let fc = chars_of(formatted.as_str());
            if !char_vec_has_space(&fc) && fc.len() <= 15 && builder.docs.len() < 0xFFFF_FFF0
                && builder.terms.len() < 0xFF00_0000 {
                let mut ids: Vec<u32> = Vec::new();
                ids.push(id);
                let ghost docs0 = builder.docs@;
                builder.insert(formatted.as_str(), ids);
                proof {
                    assert forall|d: int, u: int|
                        0 <= d < builder.docs@.len() && 0 <= u
                            < builder.docs@[d].ids@.len() implies #[trigger] builder.docs@[d].ids@[u]
                        < terms@.len() by {
                        if d < docs0.len() {
                            assert(builder.docs@[d] == docs0[d]);
                        } else {
                            assert(builder.docs@[d].ids@ =~= seq![id]);
                        }
                    }
                }
            }
            pos += 1;
        }
        BasicIndex { trie, terms, ngram: Some(builder.build()) }
    }

    /// Builds an index over `terms` without an n-gram side, keying each by
    /// its normalized surface form; later duplicates replace earlier keys.
    pub fn new(terms: Vec<Item>) -> (r: BasicIndex)
        requires
            terms@.len() < 0xFFFF_FFFF,
            forall|i: int|
                0 <= i < terms@.len() ==> ((#[trigger] terms@[i]).frequency <= 1_000_000
                    && terms@[i].word@.len() < 0x100_0000),
        ensures
            r.wf(),
            r.terms@ == terms@,
    {
        let mut trie = crate::trie::one_new();
        let mut pos: usize = 0;
        while pos < terms.len()
            invariant
                terms@.len() < 0xFFFF_FFFF,
                forall|i: int|
                    0 <= i < terms@.len() ==> ((#[trigger] terms@[i]).frequency <= 1_000_000
                        && terms@[i].word@.len() < 0x100_0000),
                pos <= terms@.len(),
                forall|k: Seq<char>|
                    one_map(trie).dom().contains(k) ==> (#[trigger] one_map(trie)[k])
                        < terms@.len(),
            decreases terms@.len() - pos,
        {
            let formatted = basic_format(self_word(&terms, pos));
            crate::trie::one_insert(&mut trie, formatted.as_str(), pos as u32);
            pos += 1;
        }
        BasicIndex { trie, terms, ngram: None }
    }

    /// Appends a new term, keyed by its normalized surface form; an
    /// existing key is replaced. The n-gram side, if any, is left alone.
    pub fn insert(&mut self, item: Item)
        requires
            old(self).wf(),
            old(self).terms@.len() < 0xFFFF_FFFF,
            item.frequency <= 1_000_000,
            item.word@.len() < 0x100_0000,
        ensures
            final(self).wf(),
            final(self).terms@ == old(self).terms@.push(item),
    {
        let id = self.terms.len() as u32;
        let formatted = basic_format(item.word.as_str());
        crate::trie::one_insert(&mut self.trie, formatted.as_str(), id);
        self.terms.push(item);
        proof {
            if self.ngram is Some {
                let ng = self.ngram->0;
                assert forall|d: int, u: int|
                    0 <= d < ng.docs@.len() && 0 <= u
                        < ng.docs@[d].ids@.len() implies #[trigger] ng.docs@[d].ids@[u]
                    < self.terms@.len() by {}
            }
        }
    }

    /// `e` is a true n-gram hit: a stored term listed by some indexed
    /// document, its relevance exactly the weighted Dice similarity of the
    /// query's dimension set against that document's.
    pub open spec fn ngram_hit(self, q: Seq<char>, w: int, e: EngineItem) -> bool {
        &&& self.ngram is Some
        &&& exists|d: int, id: u32|
            #![trigger self.ngram->0.docs@[d].ids@.contains(id)]
            {
                let ng = self.ngram->0;
                &&& 0 <= d < ng.docs@.len()
                &&& ng.docs@[d].ids@.contains(id)
                &&& id < self.terms@.len()
                &&& e.item == IndexEntry::Basic(self.terms@[id as int])
                &&& e.relevance == spec_dice_milli(
                    ng.spec_query_dims(q).intersect(ng.docs@[d].dims@.to_set()).len() as int,
                    ng.spec_query_dims(q).len() as int,
                    ng.docs@[d].dims@.len() as int,
                    w,
                )
            }
    }

    /// Everything [`BasicIndex::predictions`] guarantees of its result, in
    /// one place, so a dispatching caller can pass it on whole.
    pub open spec fn predictions_post(self, inp: Seq<char>, limit: int, r: Seq<EngineItem>) -> bool {
        &&& r.len() <= limit
        &&& forall|i: int|
            0 <= i < r.len() ==> (#[trigger] r[i]).relevance == 0 && self.entry_from_prefix(
                inp,
                r[i].item,
            ) && r[i].item.wf()
        &&& forall|p: int, q: int|
            0 <= p < q < r.len() ==> (#[trigger] r[p]).item.spec_frequency() >= (
            #[trigger] r[q]).item.spec_frequency()
        &&& forall|k: Seq<char>|
            #![trigger one_map(self.trie)[k]]
            one_map(self.trie).dom().contains(k) && inp.is_prefix_of(k) ==> ((exists|i: int|
                #![auto]
                0 <= i < r.len() && r[i].item == IndexEntry::Basic(
                    self.terms@[one_map(self.trie)[k] as int],
                )) || (forall|i: int|
                0 <= i < r.len() ==> (#[trigger] r[i]).item.spec_frequency()
                    >= self.terms@[one_map(self.trie)[k] as int].frequency))
        &&& (limit > 0 && self.has_key_with_prefix(inp)) ==> r.len() > 0
        &&& !self.has_key_with_prefix(inp) ==> r.len() == 0
    }

    /// Everything [`BasicIndex::exact`] guarantees of its result.
    pub open spec fn exact_post(self, inp: Seq<char>, r: Seq<EngineItem>) -> bool {
        &&& one_map(self.trie).dom().contains(inp) ==> r.len() == 1 && r[0].item
            == IndexEntry::Basic(self.terms@[one_map(self.trie)[inp] as int]) && r[0].relevance
            == 0 && r[0].item.wf()
        &&& !one_map(self.trie).dom().contains(inp) ==> r.len() == 0
    }

    /// Everything [`BasicIndex::similar_terms`] guarantees of its result.
    pub open spec fn similar_terms_post(
        self,
        inp: Seq<char>,
        limit: int,
        max_dist: u32,
        r: Seq<EngineItem>,
    ) -> bool {
        &&& r.len() <= limit
        &&& vstd::utf8::encode_utf8(inp).len() > 16 ==> r.len() == 0
        &&& forall|i: int|
            0 <= i < r.len() ==> self.phonetic_candidate(inp, #[trigger] r[i], max_dist)
                && r[i].item.wf()
        &&& forall|p: int, q: int|
            0 <= p < q < r.len() ==> (#[trigger] r[p]).relevance <= (#[trigger] r[q]).relevance
    }

    /// Everything [`BasicIndex::similar`] guarantees of its result.
    pub open spec fn similar_post(self, q: Seq<char>, w: int, limit: int, r: Seq<EngineItem>) -> bool {
        &&& r.len() <= limit
        &&& forall|i: int|
            0 <= i < r.len() ==> (#[trigger] r[i]).relevance <= 1000 && self.ngram_hit(q, w, r[i])
                && r[i].item.wf()
        &&& forall|p: int, q2: int|
            0 <= p < q2 < r.len() ==> (#[trigger] r[p]).relevance >= (#[trigger] r[q2]).relevance
    }

    /// The raw item behind a term id.
    pub fn get_item(&self, id: u32) -> (r: &Item)
        requires
            self.wf(),
            id < self.terms@.len(),
        ensures
            *r == self.terms@[id as int],
    {
        &self.terms[id as usize]
    }

    /// The up-to-`limit` highest-frequency terms whose normalized key
    /// starts with `inp`, by descending frequency, relevance not yet
    /// assigned.
    pub fn predictions(&self, inp: &str, limit: usize) -> (r: Vec<EngineItem>)
        requires
            self.wf(),
        ensures
            r@.len() <= limit,
            forall|i: int|
                0 <= i < r@.len() ==> (#[trigger] r@[i]).relevance == 0 && self.entry_from_prefix(
                    inp@,
                    r@[i].item,
                ) && r@[i].item.wf(),
            forall|p: int, q: int|
                0 <= p < q < r@.len() ==> (#[trigger] r@[p]).item.spec_frequency() >= (
                #[trigger] r@[q]).item.spec_frequency(),
            forall|k: Seq<char>|
                #![trigger one_map(self.trie)[k]]
                one_map(self.trie).dom().contains(k) && inp@.is_prefix_of(k) ==> ((exists|i: int|
                    #![auto]
                    0 <= i < r@.len() && r@[i].item == IndexEntry::Basic(
                        self.terms@[one_map(self.trie)[k] as int],
                    )) || (forall|i: int|
                    0 <= i < r@.len() ==> (#[trigger] r@[i]).item.spec_frequency()
                        >= self.terms@[one_map(self.trie)[k] as int].frequency)),
            limit > 0 && self.has_key_with_prefix(inp@) ==> r@.len() > 0,
            !self.has_key_with_prefix(inp@) ==> r@.len() == 0,
    {
        let entries = one_prefix_entries(&self.trie, inp);
        let mut keys: Vec<u64> = Vec::new();
        let mut i: usize = 0;
        while i < entries.len()
            invariant
                self.wf(),
                covers_prefix(one_map(self.trie), inp@, entries@),
                i <= entries@.len(),
                keys@.len() == i,
                forall|t: int|
                    0 <= t < i ==> keys@[t] == self.terms@[(#[trigger] entries@[t]).1 as int].frequency
                        as u64,
            decreases entries@.len() - i,
        {
            let id = entries[i].1;
            keys.push(self.terms[id as usize].frequency as u64);
            i += 1;
        }
        let chosen = top_k_indices(&keys, limit);
        proof {
            crate::topk::lemma_top_k_distinct(keys@, limit as int, chosen@);
        }
        let mut out: Vec<EngineItem> = Vec::new();
        let mut j: usize = 0;
        while j < chosen.len()
            invariant
                self.wf(),
                covers_prefix(one_map(self.trie), inp@, entries@),
                is_top_k(keys@, limit as int, chosen@),
                keys@.len() == entries@.len(),
                forall|t: int|
                    0 <= t < keys@.len() ==> keys@[t] == self.terms@[(
                    #[trigger] entries@[t]).1 as int].frequency as u64,
                j <= chosen@.len(),
                out@.len() == j,
                forall|t: int|
                    0 <= t < j ==> (#[trigger] out@[t]).relevance == 0 && out@[t].item
                        == IndexEntry::Basic(
                        self.terms@[entries@[chosen@[t] as int].1 as int],
                    ) && self.entry_from_prefix(inp@, out@[t].item) && out@[t].item.wf(),
            decreases chosen@.len() - j,
        {
            let ei = chosen[j];
            let id = entries[ei].1;
            let item = self.terms[id as usize].duplicate();
            out.push(EngineItem::new(IndexEntry::Basic(item), 0));
            j += 1;
        }
        proof {
            assert forall|p: int, q: int| 0 <= p < q < out@.len() implies (
            #[trigger] out@[p]).item.spec_frequency() >= (#[trigger] out@[q]).item.spec_frequency()
                by {
                assert(beats(keys@, chosen@[p] as int, chosen@[q] as int));
            }
            assert forall|k: Seq<char>|
                one_map(self.trie).dom().contains(k) && inp@.is_prefix_of(k) implies ((exists|
                i: int,
            |
                #![auto]
                0 <= i < out@.len() && out@[i].item == IndexEntry::Basic(
                    self.terms@[one_map(self.trie)[k] as int],
                )) || (forall|i: int|
                0 <= i < out@.len() ==> (#[trigger] out@[i]).item.spec_frequency()
                    >= self.terms@[one_map(self.trie)[k] as int].frequency)) by {
                let t = choose|t: int| 0 <= t < entries@.len() && (#[trigger] entries@[t]).0@ == k;
                assert(one_map(self.trie).contains_pair(entries@[t].0@, entries@[t].1));
                assert(entries@[t].1 == one_map(self.trie)[k]);
                assert(keys@[t] == self.terms@[one_map(self.trie)[k] as int].frequency as u64);
                if chosen@.contains(t as usize) {
                    let j = choose|j: int| 0 <= j < chosen@.len() && chosen@[j] == t as usize;
                    assert(out@[j].item == IndexEntry::Basic(
                        self.terms@[one_map(self.trie)[k] as int],
                    ));
                } else {
                    assert forall|i: int| 0 <= i < out@.len() implies (
                    #[trigger] out@[i]).item.spec_frequency()
                        >= self.terms@[one_map(self.trie)[k] as int].frequency by {
                        assert(beats(keys@, chosen@[i] as int, t));
                        assert(keys@[chosen@[i] as int] >= keys@[t]);
                    }
                }
            }
            if limit > 0 && self.has_key_with_prefix(inp@) {
                let k = choose|k: Seq<char>|
                    #![trigger one_map(self.trie)[k]]
                    one_map(self.trie).dom().contains(k) && inp@.is_prefix_of(k);
                let t = choose|t: int| 0 <= t < entries@.len() && (#[trigger] entries@[t]).0@ == k;
                assert(keys@.len() > 0);
                assert(out@.len() > 0);
            }
            if !self.has_key_with_prefix(inp@) && out@.len() > 0 {
                assert(self.entry_from_prefix(inp@, out@[0].item));
                let k = choose|k: Seq<char>|
                    #![auto]
                    one_map(self.trie).dom().contains(k) && inp@.is_prefix_of(k) && out@[0].item
                        == IndexEntry::Basic(self.terms@[one_map(self.trie)[k] as int]);
                assert(self.has_key_with_prefix(inp@));
            }
        }
        out
    }

    /// The term stored under exactly this key, if any.
    pub fn exact(&self, inp: &str) -> (r: Vec<EngineItem>)
        requires
            self.wf(),
        ensures
            one_map(self.trie).dom().contains(inp@) ==> r@.len() == 1 && r@[0].item
                == IndexEntry::Basic(self.terms@[one_map(self.trie)[inp@] as int])
                && r@[0].relevance == 0 && r@[0].item.wf(),
            !one_map(self.trie).dom().contains(inp@) ==> r@.len() == 0,
    {
        let mut out: Vec<EngineItem> = Vec::new();
        if let Some(id) = one_get(&self.trie, inp) {
            let item = self.terms[id as usize].duplicate();
            out.push(EngineItem::new(IndexEntry::Basic(item), 0));
        }
        out
    }

    /// The record behind a term id, if the id is live.
    pub fn get_word(&self, id: u32) -> (r: Option<EngineItem>)
        requires
            self.wf(),
        ensures
            r is Some <==> id < self.terms@.len(),
            r is Some ==> r->0.item == IndexEntry::Basic(self.terms@[id as int]) && r->0.relevance
                == 0,
    {
        if (id as usize) < self.terms.len() {
            let item = self.terms[id as usize].duplicate();
            Some(EngineItem::new(IndexEntry::Basic(item), 0))
        } else {
            None
        }
    }

    /// How many terms the index holds.
    pub fn len(&self) -> (r: usize)
        ensures
            r == self.terms@.len(),
    {
        self.terms.len()
    }

    /// Phonetic neighbours of `inp`: terms sharing its first character
    /// whose fingerprint is within `max_dist`, the closest `limit` of them
    /// by ascending distance, the distance left in the relevance field.
    /// Queries longer than 16 bytes have no useful fingerprint and return
    /// nothing.
    pub fn similar_terms(&self, inp: &str, limit: usize, max_dist: u32) -> (r: Vec<EngineItem>)
        requires
            self.wf(),
            inp@.len() >= 1,
        ensures
            r@.len() <= limit,
            vstd::utf8::encode_utf8(inp@).len() > 16 ==> r@.len() == 0,
            limit > 0 && inp.spec_bytes().len() <= 16 && (exists|k: Seq<char>|
                #![trigger one_map(self.trie)[k]]
                {
                    let item = self.terms@[one_map(self.trie)[k] as int];
                    one_map(self.trie).dom().contains(k) && inp@.take(1).is_prefix_of(k)
                        && item.hash is Some && spec_phonetic_dist(eudex_hash_of(inp@), item.hash->0)
                        <= max_dist
                }) ==> r@.len() > 0,
            forall|i: int|
                0 <= i < r@.len() ==> self.phonetic_candidate(inp@, #[trigger] r@[i], max_dist)
                    && r@[i].item.wf(),
            forall|p: int, q: int|
                0 <= p < q < r@.len() ==> (#[trigger] r@[p]).relevance <= (
                #[trigger] r@[q]).relevance,
            inp.spec_bytes().len() <= 16 ==> forall|k: Seq<char>|
                #![trigger one_map(self.trie)[k]]
                ({
                    let item = self.terms@[one_map(self.trie)[k] as int];
                    one_map(self.trie).dom().contains(k) && inp@.take(1).is_prefix_of(k)
                        && item.hash is Some && spec_phonetic_dist(eudex_hash_of(inp@), item.hash->0)
                        <= max_dist
                }) ==> ((exists|i: int|
                    #![auto]
                    0 <= i < r@.len() && r@[i].item == IndexEntry::Basic(
                        self.terms@[one_map(self.trie)[k] as int],
                    )) || (forall|i: int|
                    0 <= i < r@.len() ==> (#[trigger] r@[i]).relevance <= spec_phonetic_dist(
                        eudex_hash_of(inp@),
                        self.terms@[one_map(self.trie)[k] as int].hash->0,
                    ))),
    {
        let mut out: Vec<EngineItem> = Vec::new();
        let ichars = chars_of(inp);
        if ichars.len() > 16 {
            proof {
                crate::text::lemma_encode_len(inp@);
            }
            return out;
        }
        proof {
            crate::text::lemma_encode_len(inp@);
        }
        if inp.len() > 16 {
            return out;
        }
        let query_hash = eudex_hash(inp);
        let mut pv: Vec<char> = Vec::new();
        pv.push(ichars[0]);
        let prefix_s = string_from_chars(&pv);
        proof {
            assert(prefix_s@ =~= inp@.take(1));
        }
        let entries = one_prefix_entries(&self.trie, prefix_s.as_str());
        let mut picks: Vec<(usize, u32)> = Vec::new();
        let mut keys: Vec<u64> = Vec::new();
        let mut i: usize = 0;
        while i < entries.len()
            invariant
                self.wf(),
                covers_prefix(one_map(self.trie), inp@.take(1), entries@),
                query_hash == eudex_hash_of(inp@),
                i <= entries@.len(),
                picks@.len() == keys@.len(),
                forall|t: int|
                    0 <= t < picks@.len() ==> {
                        let pk = #[trigger] picks@[t];
                        let item = self.terms@[entries@[pk.0 as int].1 as int];
                        &&& pk.0 < entries@.len()
                        &&& item.hash is Some
                        &&& pk.1 == spec_phonetic_dist(eudex_hash_of(inp@), item.hash->0)
                        &&& pk.1 <= max_dist
                        &&& pk.1 <= 696
                        &&& keys@[t] == (696 - pk.1) as u64
                    },
                forall|t: int|
                    #![trigger entries@[t].1]
                    ({
                        let item = self.terms@[entries@[t].1 as int];
                        0 <= t < i && item.hash is Some && spec_phonetic_dist(
                            eudex_hash_of(inp@),
                            item.hash->0,
                        ) <= max_dist
                    }) ==> exists|w: int| 0 <= w < picks@.len() && (#[trigger] picks@[w]).0 == t,
            decreases entries@.len() - i,
        {
            let id = entries[i].1;
            let hash_opt = self.terms[id as usize].hash;
            let ghost picks0 = picks@;
            if let Some(h) = hash_opt {
                let dist = phonetic_dist(query_hash, h);
                if dist <= max_dist {
                    picks.push((i, dist));
                    keys.push((696 - dist) as u64);
                }
            }
            proof {
                assert forall|t: int|
                    #![trigger entries@[t].1]
                    ({
                        let item = self.terms@[entries@[t].1 as int];
                        0 <= t < i + 1 && item.hash is Some && spec_phonetic_dist(
                            eudex_hash_of(inp@),
                            item.hash->0,
                        ) <= max_dist
                    }) implies exists|w: int| 0 <= w < picks@.len() && (#[trigger] picks@[w]).0
                    == t by {
                    if t < i {
                        let w = choose|w: int| 0 <= w < picks0.len() && (#[trigger] picks0[w]).0
                            == t;
                        assert(picks@[w].0 == t);
                    } else {
                        assert(picks@[picks@.len() - 1].0 == t);
                    }
                }
            }
            i += 1;
        }
        let chosen = top_k_indices(&keys, limit);
        let mut j: usize = 0;
        while j < chosen.len()
            invariant
                self.wf(),
                covers_prefix(one_map(self.trie), inp@.take(1), entries@),
                is_top_k(keys@, limit as int, chosen@),
                keys@.len() == picks@.len(),
                forall|t: int|
                    0 <= t < picks@.len() ==> {
                        let pk = #[trigger] picks@[t];
                        let item = self.terms@[entries@[pk.0 as int].1 as int];
                        &&& pk.0 < entries@.len()
                        &&& item.hash is Some
                        &&& pk.1 == spec_phonetic_dist(eudex_hash_of(inp@), item.hash->0)
                        &&& pk.1 <= max_dist
                        &&& pk.1 <= 696
                        &&& keys@[t] == (696 - pk.1) as u64
                    },
                forall|t: int|
                    #![trigger entries@[t].1]
                    ({
                        let item = self.terms@[entries@[t].1 as int];
                        0 <= t < entries@.len() && item.hash is Some && spec_phonetic_dist(
                            eudex_hash_of(inp@),
                            item.hash->0,
                        ) <= max_dist
                    }) ==> exists|w: int| 0 <= w < picks@.len() && (#[trigger] picks@[w]).0 == t,
                j <= chosen@.len(),
                out@.len() == j,
                forall|t: int|
                    0 <= t < j ==> self.phonetic_candidate(inp@, #[trigger] out@[t], max_dist)
                        && out@[t].item.wf() && out@[t].relevance == picks@[chosen@[t] as int].1
                        && out@[t].item == IndexEntry::Basic(
                        self.terms@[entries@[picks@[chosen@[t] as int].0 as int].1 as int],
                    ),
            decreases chosen@.len() - j,
        {
            let (ei, dist) = picks[chosen[j]];
            let id = entries[ei].1;
            let item = self.terms[id as usize].duplicate();
            out.push(EngineItem::new(IndexEntry::Basic(item), dist as u16));
            j += 1;
        }
        proof {
            assert forall|p: int, q: int| 0 <= p < q < out@.len() implies (
            #[trigger] out@[p]).relevance <= (#[trigger] out@[q]).relevance by {
                assert(beats(keys@, chosen@[p] as int, chosen@[q] as int));
            }
            assert forall|k: Seq<char>|
                #![trigger one_map(self.trie)[k]]
                ({
                    let item = self.terms@[one_map(self.trie)[k] as int];
                    one_map(self.trie).dom().contains(k) && inp@.take(1).is_prefix_of(k)
                        && item.hash is Some && spec_phonetic_dist(eudex_hash_of(inp@), item.hash->0)
                        <= max_dist
                }) implies ((exists|i: int|
                #![auto]
                0 <= i < out@.len() && out@[i].item == IndexEntry::Basic(
                    self.terms@[one_map(self.trie)[k] as int],
                )) || (forall|i: int|
                0 <= i < out@.len() ==> (#[trigger] out@[i]).relevance <= spec_phonetic_dist(
                    eudex_hash_of(inp@),
                    self.terms@[one_map(self.trie)[k] as int].hash->0,
                ))) by {
                let t = choose|t: int| 0 <= t < entries@.len() && (#[trigger] entries@[t]).0@ == k;
                assert(one_map(self.trie).contains_pair(entries@[t].0@, entries@[t].1));
                assert(entries@[t].1 == one_map(self.trie)[k]);
                let w = choose|w: int| 0 <= w < picks@.len() && (#[trigger] picks@[w]).0 == t;
                if chosen@.contains(w as usize) {
                    let j = choose|j: int| 0 <= j < chosen@.len() && chosen@[j] == w as usize;
                    assert(out@[j].item == IndexEntry::Basic(
                        self.terms@[one_map(self.trie)[k] as int],
                    ));
                } else {
                    assert forall|i: int| 0 <= i < out@.len() implies (
                    #[trigger] out@[i]).relevance <= spec_phonetic_dist(
                        eudex_hash_of(inp@),
                        self.terms@[one_map(self.trie)[k] as int].hash->0,
                    ) by {
                        assert(beats(keys@, chosen@[i] as int, w));
                        assert(keys@[chosen@[i] as int] >= keys@[w]);
                        assert(out@[i].relevance == picks@[chosen@[i] as int].1);
                    }
                }
            }
            if limit > 0 && (exists|k: Seq<char>|
                #![trigger one_map(self.trie)[k]]
                {
                    let item = self.terms@[one_map(self.trie)[k] as int];
                    one_map(self.trie).dom().contains(k) && inp@.take(1).is_prefix_of(k)
                        && item.hash is Some && spec_phonetic_dist(eudex_hash_of(inp@), item.hash->0)
                        <= max_dist
                }) {
                let k = choose|k: Seq<char>|
                    #![trigger one_map(self.trie)[k]]
                    {
                        let item = self.terms@[one_map(self.trie)[k] as int];
                        one_map(self.trie).dom().contains(k) && inp@.take(1).is_prefix_of(k)
                            && item.hash is Some && spec_phonetic_dist(
                            eudex_hash_of(inp@),
                            item.hash->0,
                        ) <= max_dist
                    };
                let t = choose|t: int| 0 <= t < entries@.len() && (#[trigger] entries@[t]).0@ == k;
                assert(one_map(self.trie).contains_pair(entries@[t].0@, entries@[t].1));
                let w = choose|w: int| 0 <= w < picks@.len() && (#[trigger] picks@[w]).0 == t;
                assert(keys@.len() > 0);
                assert(out@.len() > 0);
            }
        }
        out
    }

    /// Approximate n-gram lookup: terms whose padded n-gram sets share rare
    /// dimensions with the query's, the best `limit` by descending Dice
    /// score, the per-mille score left in the relevance field. Empty when
    /// the index was built without an n-gram side.
    pub fn similar(&self, query: &str, limit: usize, q_weight: u32, term_limit: usize) -> (r: Vec<
        EngineItem,
    >)
        requires
            self.wf(),
            q_weight <= 1000,
            query@.len() < 0xFF_0000,
        ensures
            r@.len() <= limit,
            forall|i: int|
                0 <= i < r@.len() ==> (#[trigger] r@[i]).relevance <= 1000 && self.ngram_hit(
                    query@,
                    q_weight as int,
                    r@[i],
                ) && r@[i].item.wf(),
            forall|p: int, q: int|
                0 <= p < q < r@.len() ==> (#[trigger] r@[p]).relevance >= (
                #[trigger] r@[q]).relevance,
    {
        let mut out: Vec<EngineItem> = Vec::new();
        let ng = match &self.ngram {
            Some(ng) => ng,
            None => {
                return out;
            },
        };
        let qvec = match ng.query_vec(query) {
            Some(v) => v,
            None => {
                return out;
            },
        };
        let found = ng.find_qweight(&qvec, q_weight, term_limit);
        let mut cands: Vec<(u32, u16)> = Vec::new();
        let mut keys: Vec<u64> = Vec::new();
        let mut i: usize = 0;
        while i < found.len()
            invariant
                self.wf(),
                self.ngram is Some,
                ng == self.ngram->0,
                i <= found@.len(),
                qvec@.no_duplicates(),
                forall|x: int| 0 <= x < qvec@.len() ==> (#[trigger] qvec@[x]) < ng.terms@.len(),
                forall|x: int|
                    0 <= x < qvec@.len() ==> ng.dim_is_window(
                        #[trigger] qvec@[x],
                        crate::index::ngram_ext::spec_padded(query@, ng.n - 1),
                    ),
                forall|t: int|
                    0 <= t < ng.terms@.len() && ng.dim_is_window(
                        t as u32,
                        crate::index::ngram_ext::spec_padded(query@, ng.n - 1),
                    ) ==> qvec@.contains(#[trigger] (t as u32)),
                forall|t: int|
                    0 <= t < found@.len() ==> (#[trigger] found@[t]).1 <= 1000 && ng.result_matches(
                        qvec@,
                        q_weight as int,
                        found@[t],
                    ),
                cands@.len() == keys@.len(),
                forall|t: int|
                    0 <= t < cands@.len() ==> {
                        let c = #[trigger] cands@[t];
                        &&& c.0 < self.terms@.len()
                        &&& c.1 <= 1000
                        &&& keys@[t] == c.1 as u64
                        &&& candidate_scored(*self, query@, q_weight as int, c)
                    },
            decreases found@.len() - i,
        {
            let ids = &found[i].0;
            let sim = found[i].1;
            proof {
                assert(ng.result_matches(qvec@, q_weight as int, found@[i as int]));
            }
            let mut u: usize = 0;
            while u < ids.len()
                invariant
                    self.wf(),
                    self.ngram is Some,
                    ng == self.ngram->0,
                    i < found@.len(),
                    ids == &found@[i as int].0,
                    sim == found@[i as int].1,
                    sim <= 1000,
                    ng.result_matches(qvec@, q_weight as int, found@[i as int]),
                    qvec@.no_duplicates(),
                    forall|x: int| 0 <= x < qvec@.len() ==> (#[trigger] qvec@[x]) < ng.terms@.len(),
                    forall|x: int|
                        0 <= x < qvec@.len() ==> ng.dim_is_window(
                            #[trigger] qvec@[x],
                            crate::index::ngram_ext::spec_padded(query@, ng.n - 1),
                        ),
                    forall|t: int|
                        0 <= t < ng.terms@.len() && ng.dim_is_window(
                            t as u32,
                            crate::index::ngram_ext::spec_padded(query@, ng.n - 1),
                        ) ==> qvec@.contains(#[trigger] (t as u32)),
                    u <= ids@.len(),
                    cands@.len() == keys@.len(),
                    forall|t: int|
                        0 <= t < cands@.len() ==> {
                            let c = #[trigger] cands@[t];
                            &&& c.0 < self.terms@.len()
                            &&& c.1 <= 1000
                            &&& keys@[t] == c.1 as u64
                            &&& candidate_scored(*self, query@, q_weight as int, c)
                        },
                decreases ids@.len() - u,
            {
                let id = ids[u];
                if (id as usize) < self.terms.len() {
                    proof {
                        let d = choose|d: int|
                            0 <= d < ng.docs@.len() && (#[trigger] ng.docs@[d]).ids@ == found@[
                                i as int
                            ].0@ && found@[i as int].1 == spec_dice_milli(
                                crate::index::ngram_ext::spec_overlap(qvec@, ng.docs@[d].dims@),
                                qvec@.len() as int,
                                ng.docs@[d].dims@.len() as int,
                                q_weight as int,
                            );
                        ng.lemma_query_vec_set(query@, qvec@);
                        crate::index::ngram_ext::lemma_overlap_to_set(qvec@, ng.docs@[d].dims@);
                        assert(ng.docs@[d].ids@.contains(id)) by {
                            assert(ng.docs@[d].ids@[u as int] == id);
                        }
                        assert(candidate_scored(*self, query@, q_weight as int, (id, sim)));
                    }
                    cands.push((id, sim));
                    keys.push(sim as u64);
                }
                u += 1;
            }
            i += 1;
        }
        let chosen = top_k_indices(&keys, limit);
        let mut j: usize = 0;
        while j < chosen.len()
            invariant
                self.wf(),
                is_top_k(keys@, limit as int, chosen@),
                keys@.len() == cands@.len(),
                self.ngram is Some,
                ng == self.ngram->0,
                forall|t: int|
                    0 <= t < cands@.len() ==> {
                        let c = #[trigger] cands@[t];
                        &&& c.0 < self.terms@.len()
                        &&& c.1 <= 1000
                        &&& keys@[t] == c.1 as u64
                        &&& candidate_scored(*self, query@, q_weight as int, c)
                    },
                j <= chosen@.len(),
                out@.len() == j,
                forall|t: int|
                    0 <= t < j ==> {
                        let e = #[trigger] out@[t];
                        &&& e.relevance <= 1000
                        &&& e.relevance == cands@[chosen@[t] as int].1
                        &&& self.ngram_hit(query@, q_weight as int, e)
                        &&& e.item.wf()
                    },
            decreases chosen@.len() - j,
        {
            let (id, sim) = cands[chosen[j]];
            let item = self.terms[id as usize].duplicate();
            proof {
                assert(candidate_scored(*self, query@, q_weight as int, (id, sim)));
                let d = choose|d: int|
                    0 <= d < self.ngram->0.docs@.len() && (
                    #[trigger] self.ngram->0.docs@[d]).ids@.contains(id) && sim as int
                        == spec_dice_milli(
                        self.ngram->0.spec_query_dims(query@).intersect(
                            self.ngram->0.docs@[d].dims@.to_set(),
                        ).len() as int,
                        self.ngram->0.spec_query_dims(query@).len() as int,
                        self.ngram->0.docs@[d].dims@.len() as int,
                        q_weight as int,
                    );
                assert(self.ngram->0.docs@[d].ids@.contains(id));
            }
            out.push(EngineItem::new(IndexEntry::Basic(item), sim));
            j += 1;
        }
        proof {
            assert forall|p: int, q: int| 0 <= p < q < out@.len() implies (
            #[trigger] out@[p]).relevance >= (#[trigger] out@[q]).relevance by {
                assert(beats(keys@, chosen@[p] as int, chosen@[q] as int));
            }
        }
        out
    }
}

/// A candidate id paired with the exact weighted Dice score of the
/// document that listed it.
pub open spec fn candidate_scored(
    ix: BasicIndex,
    q: Seq<char>,
    w: int,
    c: (u32, u16),
) -> bool {
    &&& ix.ngram is Some
    &&& exists|d: int|
        #![trigger ix.ngram->0.docs@[d]]
        {
            let ng = ix.ngram->0;
            &&& 0 <= d < ng.docs@.len()
            &&& ng.docs@[d].ids@.contains(c.0)
            &&& c.1 == spec_dice_milli(
                ng.spec_query_dims(q).intersect(ng.docs@[d].dims@.to_set()).len() as int,
                ng.spec_query_dims(q).len() as int,
                ng.docs@[d].dims@.len() as int,
                w,
            )
        }
}

/// The surface form at `pos`.
fn self_word(terms: &Vec<Item>, pos: usize) -> (r: &str)
    requires
        pos < terms@.len(),
    ensures
        r@ == terms@[pos as int].word@,
{
    terms[pos].word.as_str()
}

/// Whether any character is a space.
fn char_vec_has_space(v: &Vec<char>) -> (r: bool)
    ensures
        r == v@.contains(' '),
{
    let mut i: usize = 0;
    while i < v.len()
        invariant
            i <= v@.len(),
            forall|t: int| 0 <= t < i ==> v@[t] != ' ',
        decreases v@.len() - i,
    {
        if v[i] == ' ' {
            return true;
        }
        i += 1;
    }
    false
}

} // verus!
