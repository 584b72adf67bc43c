//! The Japanese suggestion index: a prefix tree from every reading (kana,
//! kanji, alternatives) to the ids sharing it, a kanji-alignment tree, and
//! an optional n-gram index over romaji readings.

pub mod builder;
pub mod item;

pub use item::Item;

use vstd::prelude::*;
use crate::index::ngram_ext::{contains_u32, lemma_overlap_to_set, spec_dice_milli, spec_overlap, spec_padded, NGIndex};
use crate::phonetic::{jp_hash, phonetic_dist, spec_jp_hash, spec_phonetic_dist};
use crate::relevance::item::{EngineItem, IndexEntry};
use crate::text::{chars_of, format_chars, spec_format, string_from_chars};
use crate::topk::{beats, is_top_k, top_k_indices};
use crate::trie::{covers_prefix, many_get, many_map, many_prefix_entries, many_subtrie_entries};

verus! {

/// Normalizes raw input for trie keys; the Japanese punctuation set also
/// removes the exclamation mark.
pub fn jp_format(inp: &str) -> (r: String)
    ensures
        r@ == spec_format(inp@, true),
{
    let chars = chars_of(inp);
    let f = format_chars(&chars, true);
    string_from_chars(&f)
}

/// `e` carries the same suggestion as the stored item `it`: same surface
/// forms, id, frequency and fingerprint.
pub open spec fn matches_item(e: IndexEntry, it: Item) -> bool {
    &&& e.spec_identity() == IndexEntry::Japanese(it).spec_identity()
    &&& e.spec_frequency() == it.frequency
    &&& e.spec_hash() == it.hash
}

/// Some entry of `s` carries the same suggestion as the stored item `it`.
pub open spec fn lists_item(s: Seq<EngineItem>, it: Item) -> bool {
    exists|i: int| #![auto] 0 <= i < s.len() && matches_item(s[i].item, it)
}

/// Some key of `m` starting with `prefix` lists the id `id`.
pub open spec fn id_reachable(m: Map<Seq<char>, Seq<u32>>, prefix: Seq<char>, id: u32) -> bool {
    exists|k: Seq<char>, u: int|
        #![trigger m[k][u]]
        m.dom().contains(k) && prefix.is_prefix_of(k) && 0 <= u < m[k].len() && m[k][u] == id
}

/// A candidate id paired with the exact weighted Dice score of the romaji
/// document that listed it.
pub open spec fn candidate_scored(ix: JapaneseIndex, q: Seq<char>, w: int, c: (u32, u16)) -> bool {
    &&& ix.ngindex is Some
    &&& exists|d: int|
        #![trigger ix.ngindex->0.docs@[d]]
        {
            let ng = ix.ngindex->0;
            &&& 0 <= d < ng.docs@.len()
            &&& ng.docs@[d].ids@.contains(c.0)
            &&& c.1 == spec_dice_milli(
                ng.spec_query_dims(q).intersect(ng.docs@[d].dims@.to_set()).len() as int,
                ng.spec_query_dims(q).len() as int,
                ng.docs@[d].dims@.len() as int,
                w,
            )
        }
}

/// The Japanese suggestion index.
pub struct JapaneseIndex {
    /// Maps each reading to the ids of the items sharing it.
    pub trie: qp_trie::Trie<qp_trie::wrapper::BString, Vec<u32>>,
    /// All items; the position is the term id.
    pub items: Vec<Item>,
    /// Maps kanji-reading fragments to aligned item ids.
    pub kanji_align: qp_trie::Trie<qp_trie::wrapper::BString, Vec<u32>>,
    /// The optional n-gram index over romaji readings.
    pub ngindex: Option<NGIndex>,
}

impl JapaneseIndex {
    /// Every stored id is live and every item is well formed.
    pub open spec fn wf(self) -> bool {
        &&& self.items@.len() <= 0xFFFF_FFFF
        &&& forall|k: Seq<char>, u: int|
            #![trigger many_map(self.trie)[k][u]]
            many_map(self.trie).dom().contains(k) && 0 <= u < many_map(self.trie)[k].len()
                ==> many_map(self.trie)[k][u] < self.items@.len()
        &&& forall|k: Seq<char>, u: int|
            #![trigger many_map(self.kanji_align)[k][u]]
            many_map(self.kanji_align).dom().contains(k) && 0 <= u < many_map(
                self.kanji_align,
            )[k].len() ==> many_map(self.kanji_align)[k][u] < self.items@.len()
        &&& forall|i: int|
            0 <= i < self.items@.len() ==> (#[trigger] self.items@[i]).frequency <= 1_000_000
        &&& match self.ngindex {
            Some(ng) => ng.wf() && ng.n <= 16 && forall|d: int, u: int|
                #![trigger ng.docs@[d].ids@[u]]
                0 <= d < ng.docs@.len() && 0 <= u < ng.docs@[d].ids@.len() ==> ng.docs@[d].ids@[u]
                    < self.items@.len(),
            None => true,
        }
    }

    /// Some stored reading starts with `prefix`.
    pub open spec fn has_reading_with_prefix(self, prefix: Seq<char>) -> bool {
        exists|k: Seq<char>|
            #![trigger many_map(self.trie).dom().contains(k)]
            many_map(self.trie).dom().contains(k) && prefix.is_prefix_of(k) && many_map(
                self.trie,
            )[k].len() > 0
    }

    /// `e` is the record of an item one of whose readings starts with
    /// `prefix`.
    pub open spec fn entry_from_prefix(self, prefix: Seq<char>, e: IndexEntry) -> bool {
        exists|k: Seq<char>, u: int|
            #![trigger many_map(self.trie)[k][u]]
            many_map(self.trie).dom().contains(k) && prefix.is_prefix_of(k) && 0 <= u < many_map(
                self.trie,
            )[k].len() && matches_item(e, self.items@[many_map(self.trie)[k][u] as int])
    }

    /// `e` is an item some kanji-reading fragment of which starts with
    /// `prefix` in the alignment tree.
    pub open spec fn entry_from_alignment(self, prefix: Seq<char>, e: IndexEntry) -> bool {
        exists|k: Seq<char>, u: int|
            #![trigger many_map(self.kanji_align)[k][u]]
            many_map(self.kanji_align).dom().contains(k) && prefix.is_prefix_of(k) && 0 <= u
                < many_map(self.kanji_align)[k].len() && matches_item(
                e,
                self.items@[many_map(self.kanji_align)[k][u] as int],
            )
    }

    /// `e` is a true n-gram hit: a stored item listed by some indexed
    /// romaji document, its relevance exactly the weighted Dice similarity
    /// of the query's dimension set against that document's.
    pub open spec fn ngram_hit(self, q: Seq<char>, w: int, e: EngineItem) -> bool {
        &&& self.ngindex is Some
        &&& exists|d: int, id: u32|
            #![trigger self.ngindex->0.docs@[d].ids@.contains(id)]
            {
                let ng = self.ngindex->0;
                &&& 0 <= d < ng.docs@.len()
                &&& ng.docs@[d].ids@.contains(id)
                &&& id < self.items@.len()
                &&& matches_item(e.item, self.items@[id as int])
                &&& e.relevance == spec_dice_milli(
                    ng.spec_query_dims(q).intersect(ng.docs@[d].dims@.to_set()).len() as int,
                    ng.spec_query_dims(q).len() as int,
                    ng.docs@[d].dims@.len() as int,
                    w,
                )
            }
    }

    /// `e` is a phonetic neighbour: an item reachable under the query's
    /// first character whose kana fingerprint lies within `max_dist` of the
    /// query's, carried with that distance as its relevance.
    pub open spec fn phonetic_candidate(
        self,
        inp: Seq<char>,
        e: EngineItem,
        max_dist: u32,
    ) -> bool {
        exists|k: Seq<char>, u: int|
            #![trigger many_map(self.trie)[k][u]]
            {
                let item = self.items@[many_map(self.trie)[k][u] as int];
                &&& many_map(self.trie).dom().contains(k)
                &&& inp.take(1).is_prefix_of(k)
                &&& 0 <= u < many_map(self.trie)[k].len()
                &&& matches_item(e.item, item)
                &&& item.hash is Some
                &&& spec_jp_hash(inp) is Some
                &&& e.relevance == spec_phonetic_dist(spec_jp_hash(inp)->0, item.hash->0)
                &&& e.relevance <= max_dist
            }
    }

    /// Everything [`JapaneseIndex::predictions`] guarantees of its result.
    pub open spec fn predictions_post(self, inp: Seq<char>, limit: int, r: Seq<EngineItem>) -> bool {
        &&& r.len() <= limit
        &&& forall|i: int|
            0 <= i < r.len() ==> (#[trigger] r[i]).relevance == 0 && self.entry_from_prefix(
                inp,
                r[i].item,
            ) && r[i].item.wf()
        &&& forall|p: int, q: int|
            0 <= p < q < r.len() ==> (#[trigger] r[p]).item.spec_frequency() >= (
            #[trigger] r[q]).item.spec_frequency()
        &&& forall|k: Seq<char>, u: int|
            #![trigger many_map(self.trie)[k][u]]
            many_map(self.trie).dom().contains(k) && inp.is_prefix_of(k) && 0 <= u < many_map(
                self.trie,
            )[k].len() ==> ((exists|i: int|
                #![auto]
                0 <= i < r.len() && matches_item(
                    r[i].item,
                    self.items@[many_map(self.trie)[k][u] as int],
                )) || (forall|i: int|
                0 <= i < r.len() ==> (#[trigger] r[i]).item.spec_frequency()
                    >= self.items@[many_map(self.trie)[k][u] as int].frequency))
        &&& (limit > 0 && self.has_reading_with_prefix(inp)) ==> r.len() > 0
        &&& !self.has_reading_with_prefix(inp) ==> r.len() == 0
        &&& exists|sel: Seq<u32>|
            #![auto]
            sel.no_duplicates() && sel.len() == r.len() && forall|i: int|
                0 <= i < r.len() ==> (#[trigger] sel[i]) < self.items@.len() && matches_item(
                    r[i].item,
                    self.items@[sel[i] as int],
                )
    }

    /// Everything [`JapaneseIndex::exact`] guarantees of its result.
    pub open spec fn exact_post(self, inp: Seq<char>, r: Seq<EngineItem>) -> bool {
        &&& many_map(self.trie).dom().contains(inp) ==> r.len() == many_map(self.trie)[inp].len()
            && forall|i: int|
            0 <= i < r.len() ==> matches_item(
                (#[trigger] r[i]).item,
                self.items@[many_map(self.trie)[inp][i] as int],
            ) && r[i].relevance == 0 && r[i].item.wf()
        &&& !many_map(self.trie).dom().contains(inp) ==> r.len() == 0
    }

    /// Everything [`JapaneseIndex::similar_terms`] guarantees of its result.
    pub open spec fn similar_terms_post(
        self,
        inp: Seq<char>,
        limit: int,
        max_dist: u32,
        r: Seq<EngineItem>,
    ) -> bool {
        &&& r.len() <= limit
        &&& inp.len() <= 1 ==> r.len() == 0
        &&& forall|i: int|
            0 <= i < r.len() ==> self.phonetic_candidate(inp, #[trigger] r[i], max_dist)
                && r[i].item.wf()
        &&& forall|p: int, q: int|
            0 <= p < q < r.len() ==> (#[trigger] r[p]).relevance <= (#[trigger] r[q]).relevance
    }

    /// Everything [`JapaneseIndex::similar`] guarantees of its result.
    pub open spec fn similar_post(self, q: Seq<char>, w: int, limit: int, r: Seq<EngineItem>) -> bool {
        &&& r.len() <= limit
        &&& forall|i: int|
            0 <= i < r.len() ==> (#[trigger] r[i]).relevance <= 1000 && self.ngram_hit(q, w, r[i])
                && r[i].item.wf()
        &&& forall|p: int, q2: int|
            0 <= p < q2 < r.len() ==> (#[trigger] r[p]).relevance >= (#[trigger] r[q2]).relevance
    }

    /// Everything [`JapaneseIndex::align_reading`] guarantees of its result.
    pub open spec fn align_post(self, q: Seq<char>, r: Seq<EngineItem>) -> bool {
        &&& forall|i: int|
            0 <= i < r.len() ==> (#[trigger] r[i]).relevance == 0 && self.entry_from_alignment(
                q,
                r[i].item,
            ) && r[i].item.wf()
        &&& forall|k: Seq<char>, u: int|
            #![trigger many_map(self.kanji_align)[k][u]]
            many_map(self.kanji_align).dom().contains(k) && q.is_prefix_of(k) && 0 <= u < many_map(
                self.kanji_align,
            )[k].len() ==> lists_item(r, self.items@[many_map(self.kanji_align)[k][u] as int])
        &&& exists|sel: Seq<u32>|
            #![auto]
            sel.no_duplicates() && sel.len() == r.len() && forall|i: int|
                0 <= i < r.len() ==> (#[trigger] sel[i]) < self.items@.len() && matches_item(
                    r[i].item,
                    self.items@[sel[i] as int],
                )
    }

    /// The raw item behind a term id.
    pub fn get_item(&self, id: u32) -> (r: &Item)
        requires
            self.wf(),
            id < self.items@.len(),
        ensures
            *r == self.items@[id as int],
    {
        &self.items[id as usize]
    }

    /// The ids reachable through entries of `entries`, each id once, in
    /// first-appearance order.
    fn collect_ids(&self, entries: &Vec<(String, Vec<u32>)>, Ghost(gm): Ghost<
        Map<Seq<char>, Seq<u32>>,
    >, Ghost(prefix): Ghost<Seq<char>>) -> (r: Vec<u32>)
        requires
            self.wf(),
            covers_prefix(
                gm,
                prefix,
                entries@.map_values(|p: (String, Vec<u32>)| (p.0, p.1@)),
            ),
            forall|k: Seq<char>, u: int|
                #![trigger gm[k][u]]
                gm.dom().contains(k) && 0 <= u < gm[k].len() ==> gm[k][u]
                    < self.items@.len(),
        ensures
            r@.no_duplicates(),
            forall|t: int|
                0 <= t < r@.len() ==> (#[trigger] r@[t]) < self.items@.len() && id_reachable(
                    gm,
                    prefix,
                    r@[t],
                ),
            forall|k: Seq<char>, u: int|
                #![trigger gm[k][u]]
                gm.dom().contains(k) && prefix.is_prefix_of(k) && 0 <= u < gm[k].len()
                    ==> r@.contains(gm[k][u]),
    {
        let ghost m = entries@.map_values(|p: (String, Vec<u32>)| (p.0, p.1@));
        let mut r: Vec<u32> = Vec::new();
        let mut i: usize = 0;
        while i < entries.len()
            invariant
                self.wf(),
                covers_prefix(gm, prefix, m),
                m == entries@.map_values(|p: (String, Vec<u32>)| (p.0, p.1@)),
                forall|k: Seq<char>, u: int|
                    #![trigger gm[k][u]]
                    gm.dom().contains(k) && 0 <= u < gm[k].len()
                        ==> gm[k][u] < self.items@.len(),
                i <= entries@.len(),
                r@.no_duplicates(),
                forall|t: int|
                    0 <= t < r@.len() ==> (#[trigger] r@[t]) < self.items@.len() && id_reachable(
                        gm,
                        prefix,
                        r@[t],
                    ),
                forall|t: int, u2: int|
                    #![trigger entries@[t].1@[u2]]
                    0 <= t < i && 0 <= u2 < entries@[t].1@.len() ==> r@.contains(
                        entries@[t].1@[u2],
                    ),
            decreases entries@.len() - i,
        {
            proof {
                assert(m[i as int] == (entries@[i as int].0, entries@[i as int].1@));
                assert(gm.contains_pair(m[i as int].0@, m[i as int].1));
            }
            let ids = &entries[i].1;
            let mut u: usize = 0;
            while u < ids.len()
                invariant
                    self.wf(),
                    i < entries@.len(),
                    ids == &entries@[i as int].1,
                    gm.contains_pair(entries@[i as int].0@, entries@[i as int].1@),
                    prefix.is_prefix_of(entries@[i as int].0@),
                    forall|k: Seq<char>, u2: int|
                        #![trigger gm[k][u2]]
                        gm.dom().contains(k) && 0 <= u2 < gm[k].len()
                            ==> gm[k][u2] < self.items@.len(),
                    u <= ids@.len(),
                    r@.no_duplicates(),
                    forall|t: int|
                        0 <= t < r@.len() ==> (#[trigger] r@[t]) < self.items@.len()
                            && id_reachable(gm, prefix, r@[t]),
                    forall|t: int, u2: int|
                        #![trigger entries@[t].1@[u2]]
                        0 <= t < i && 0 <= u2 < entries@[t].1@.len() ==> r@.contains(
                            entries@[t].1@[u2],
                        ),
                    forall|u2: int|
                        0 <= u2 < u ==> r@.contains(#[trigger] entries@[i as int].1@[u2]),
                decreases ids@.len() - u,
            {
                let id = ids[u];
                let ghost rold = r@;
                if !contains_u32(&r, id) {
                    proof {
                        let k0 = entries@[i as int].0@;
                        assert(gm[k0][u as int] == id);
                        assert(id_reachable(gm, prefix, id));
                    }
                    r.push(id);
                }
                proof {
                    assert(r@.contains(id)) by {
                        if rold.contains(id) {
                            let w = choose|w: int| 0 <= w < rold.len() && rold[w] == id;
                            assert(r@[w] == id);
                        } else {
                            assert(r@[r@.len() - 1] == id);
                        }
                    }
                    assert forall|x: u32| rold.contains(x) implies r@.contains(x) by {
                        let w = choose|w: int| 0 <= w < rold.len() && rold[w] == x;
                        assert(r@[w] == x);
                    }
                }
                u += 1;
            }
            proof {
                assert forall|t: int, u2: int|
                    0 <= t < i + 1 && 0 <= u2 < entries@[t].1@.len() implies r@.contains(
                    #[trigger] entries@[t].1@[u2],
                ) by {}
            }
            i += 1;
        }
        proof {
            assert forall|k: Seq<char>, u: int|
                gm.dom().contains(k) && prefix.is_prefix_of(k) && 0 <= u < gm[k].len() implies r@.contains(
                #[trigger] gm[k][u],
            ) by {
                let t = choose|t: int| 0 <= t < m.len() && (#[trigger] m[t]).0@ == k;
                assert(gm.contains_pair(m[t].0@, m[t].1));
                assert(m[t] == (entries@[t].0, entries@[t].1@));
                assert(entries@[t].1@ == gm[k]);
                assert(r@.contains(entries@[t].1@[u]));
            }
        }
        r
    }

    /// The up-to-`limit` highest-frequency items one of whose readings
    /// starts with `inp`, each item once, by descending frequency,
    /// relevance not yet assigned.
    pub fn predictions(&self, inp: &str, limit: usize) -> (r: Vec<EngineItem>)
        requires
            self.wf(),
        ensures
            r@.len() <= limit,
            forall|i: int|
                0 <= i < r@.len() ==> (#[trigger] r@[i]).relevance == 0 && self.entry_from_prefix(
                    inp@,
                    r@[i].item,
                ) && r@[i].item.wf(),
            forall|p: int, q: int|
                0 <= p < q < r@.len() ==> (#[trigger] r@[p]).item.spec_frequency() >= (
                #[trigger] r@[q]).item.spec_frequency(),
            forall|k: Seq<char>, u: int|
                #![trigger many_map(self.trie)[k][u]]
                many_map(self.trie).dom().contains(k) && inp@.is_prefix_of(k) && 0 <= u < many_map(
                    self.trie,
                )[k].len() ==> ((exists|i: int|
                    #![auto]
                    0 <= i < r@.len() && matches_item(
                        r@[i].item,
                        self.items@[many_map(self.trie)[k][u] as int],
                    )) || (forall|i: int|
                    0 <= i < r@.len() ==> (#[trigger] r@[i]).item.spec_frequency()
                        >= self.items@[many_map(self.trie)[k][u] as int].frequency)),
            limit > 0 && self.has_reading_with_prefix(inp@) ==> r@.len() > 0,
            !self.has_reading_with_prefix(inp@) ==> r@.len() == 0,
            exists|sel: Seq<u32>|
                #![auto]
                sel.no_duplicates() && sel.len() == r@.len() && forall|i: int|
                    0 <= i < r@.len() ==> (#[trigger] sel[i]) < self.items@.len() && matches_item(
                        r@[i].item,
                        self.items@[sel[i] as int],
                    ),
    {
        let entries = many_prefix_entries(&self.trie, inp);
        let ids = self.collect_ids(&entries, Ghost(many_map(self.trie)), Ghost(inp@));
        let mut keys: Vec<u64> = Vec::new();
        let mut i: usize = 0;
        while i < ids.len()
            invariant
                self.wf(),
                i <= ids@.len(),
                forall|t: int| 0 <= t < ids@.len() ==> (#[trigger] ids@[t]) < self.items@.len(),
                ids@.no_duplicates(),
                forall|k: Seq<char>, u: int|
                    #![trigger many_map(self.trie)[k][u]]
                    many_map(self.trie).dom().contains(k) && inp@.is_prefix_of(k) && 0 <= u
                        < many_map(self.trie)[k].len() ==> ids@.contains(
                        many_map(self.trie)[k][u],
                    ),
                keys@.len() == i,
                forall|t: int|
                    0 <= t < i ==> keys@[t] == self.items@[(#[trigger] ids@[t]) as int].frequency
                        as u64,
            decreases ids@.len() - i,
        {
            keys.push(self.items[ids[i] as usize].frequency as u64);
            i += 1;
        }
        let chosen = top_k_indices(&keys, limit);
        proof {
            crate::topk::lemma_top_k_distinct(keys@, limit as int, chosen@);
        }
        let mut out: Vec<EngineItem> = Vec::new();
        let mut j: usize = 0;
        while j < chosen.len()
            invariant
                self.wf(),
                is_top_k(keys@, limit as int, chosen@),
                forall|k: Seq<char>, u: int|
                    #![trigger many_map(self.trie)[k][u]]
                    many_map(self.trie).dom().contains(k) && inp@.is_prefix_of(k) && 0 <= u
                        < many_map(self.trie)[k].len() ==> ids@.contains(
                        many_map(self.trie)[k][u],
                    ),
                keys@.len() == ids@.len(),
                forall|t: int| 0 <= t < ids@.len() ==> (#[trigger] ids@[t]) < self.items@.len(),
                forall|t: int|
                    0 <= t < ids@.len() ==> keys@[t] == self.items@[(
                    #[trigger] ids@[t]) as int].frequency as u64,
                forall|t: int|
                    0 <= t < ids@.len() ==> id_reachable(
                        many_map(self.trie),
                        inp@,
                        #[trigger] ids@[t],
                    ),
                j <= chosen@.len(),
                out@.len() == j,
                chosen@.no_duplicates(),
                ids@.no_duplicates(),
                forall|t: int|
                    0 <= t < j ==> {
                        let e = #[trigger] out@[t];
                        &&& e.relevance == 0
                        &&& self.entry_from_prefix(inp@, e.item)
                        &&& e.item.wf()
                        &&& e.item.spec_frequency() == keys@[chosen@[t] as int]
                        &&& matches_item(e.item, self.items@[ids@[chosen@[t] as int] as int])
                    },
            decreases chosen@.len() - j,
        {
            let id = ids[chosen[j]];
            let item = self.items[id as usize].duplicate();
            proof {
                let t = chosen@[j as int] as int;
                assert(id_reachable(many_map(self.trie), inp@, ids@[t]));
                let (k, u) = choose|k: Seq<char>, u: int|
                    #![trigger many_map(self.trie)[k][u]]
                    many_map(self.trie).dom().contains(k) && inp@.is_prefix_of(k) && 0 <= u
                        < many_map(self.trie)[k].len() && many_map(self.trie)[k][u] == ids@[t];
                assert(matches_item(IndexEntry::Japanese(item), self.items@[id as int])) by {
                    assert(IndexEntry::Japanese(item).spec_terms() =~= IndexEntry::Japanese(
                        self.items@[id as int],
                    ).spec_terms());
                }
                assert(many_map(self.trie)[k][u] == id);
            }
            out.push(EngineItem::new(IndexEntry::Japanese(item), 0));
            j += 1;
        }
        proof {
            assert forall|p: int, q: int| 0 <= p < q < out@.len() implies (
            #[trigger] out@[p]).item.spec_frequency() >= (#[trigger] out@[q]).item.spec_frequency()
                by {
                assert(beats(keys@, chosen@[p] as int, chosen@[q] as int));
            }
            assert forall|k: Seq<char>, u: int|
                #![trigger many_map(self.trie)[k][u]]
                many_map(self.trie).dom().contains(k) && inp@.is_prefix_of(k) && 0 <= u < many_map(
                    self.trie,
                )[k].len() implies ((exists|i: int|
                #![auto]
                0 <= i < out@.len() && matches_item(
                    out@[i].item,
                    self.items@[many_map(self.trie)[k][u] as int],
                )) || (forall|i: int|
                0 <= i < out@.len() ==> (#[trigger] out@[i]).item.spec_frequency()
                    >= self.items@[many_map(self.trie)[k][u] as int].frequency)) by {
                let id = many_map(self.trie)[k][u];
                assert(ids@.contains(id));
                let t = choose|t: int| 0 <= t < ids@.len() && ids@[t] == id;
                assert(keys@[t] == self.items@[id as int].frequency as u64);
                if chosen@.contains(t as usize) {
                    let j = choose|j: int| 0 <= j < chosen@.len() && chosen@[j] == t as usize;
                    assert(matches_item(out@[j].item, self.items@[id as int]));
                } else {
                    assert forall|i: int| 0 <= i < out@.len() implies (
                    #[trigger] out@[i]).item.spec_frequency()
                        >= self.items@[id as int].frequency by {
                        assert(beats(keys@, chosen@[i] as int, t));
                        assert(keys@[chosen@[i] as int] >= keys@[t]);
                    }
                }
            }
            if limit > 0 && self.has_reading_with_prefix(inp@) {
                let k = choose|k: Seq<char>|
                    #![trigger many_map(self.trie).dom().contains(k)]
                    many_map(self.trie).dom().contains(k) && inp@.is_prefix_of(k) && many_map(
                        self.trie,
                    )[k].len() > 0;
                let id = many_map(self.trie)[k][0];
                assert(ids@.contains(id));
                assert(keys@.len() > 0);
                assert(out@.len() > 0);
            }
            if !self.has_reading_with_prefix(inp@) && out@.len() > 0 {
                assert(self.entry_from_prefix(inp@, out@[0].item));
                let (k, u) = choose|k: Seq<char>, u: int|
                    #![trigger many_map(self.trie)[k][u]]
                    many_map(self.trie).dom().contains(k) && inp@.is_prefix_of(k) && 0 <= u
                        < many_map(self.trie)[k].len() && matches_item(
                        out@[0].item,
                        self.items@[many_map(self.trie)[k][u] as int],
                    );
                assert(many_map(self.trie).dom().contains(k) && inp@.is_prefix_of(k) && many_map(
                    self.trie,
                )[k].len() > 0);
                assert(self.has_reading_with_prefix(inp@));
            }
            let sel = Seq::new(out@.len() as nat, |j: int| ids@[chosen@[j] as int]);
            assert(sel.no_duplicates()) by {
                assert forall|p: int, q: int|
                    0 <= p < sel.len() && 0 <= q < sel.len() && p != q implies sel[p] != sel[q] by {
                    assert(chosen@[p] != chosen@[q]);
                }
            }
            assert(exists|sel2: Seq<u32>|
                #![auto]
                sel2.no_duplicates() && sel2.len() == out@.len() && forall|i: int|
                    0 <= i < out@.len() ==> (#[trigger] sel2[i]) < self.items@.len()
                        && matches_item(out@[i].item, self.items@[sel2[i] as int])) by {
                assert(sel.no_duplicates() && sel.len() == out@.len() && forall|i: int|
                    0 <= i < out@.len() ==> (#[trigger] sel[i]) < self.items@.len()
                        && matches_item(out@[i].item, self.items@[sel[i] as int]));
            }
        }
        out
    }

    /// The items stored under exactly this reading, if any.
    pub fn exact(&self, inp: &str) -> (r: Vec<EngineItem>)
        requires
            self.wf(),
        ensures
            many_map(self.trie).dom().contains(inp@) ==> r@.len() == many_map(
                self.trie,
            )[inp@].len() && forall|i: int|
                0 <= i < r@.len() ==> matches_item(
                    (#[trigger] r@[i]).item,
                    self.items@[many_map(self.trie)[inp@][i] as int],
                ) && r@[i].relevance == 0 && r@[i].item.wf(),
            !many_map(self.trie).dom().contains(inp@) ==> r@.len() == 0,
    {
        let mut out: Vec<EngineItem> = Vec::new();
        let ids = match many_get(&self.trie, inp) {
            Some(v) => v,
            None => {
                return out;
            },
        };
        let mut u: usize = 0;
        while u < ids.len()
            invariant
                self.wf(),
                many_map(self.trie).dom().contains(inp@),
                ids@ == many_map(self.trie)[inp@],
                u <= ids@.len(),
                out@.len() == u,
                forall|t: int|
                    0 <= t < u ==> matches_item(
                        (#[trigger] out@[t]).item,
                        self.items@[many_map(self.trie)[inp@][t] as int],
                    ) && out@[t].relevance == 0 && out@[t].item.wf(),
            decreases ids@.len() - u,
        {
            let id = ids[u];
            let item = self.items[id as usize].duplicate();
            proof {
                assert(matches_item(IndexEntry::Japanese(item), self.items@[id as int])) by {
                    assert(IndexEntry::Japanese(item).spec_terms() =~= IndexEntry::Japanese(
                        self.items@[id as int],
                    ).spec_terms());
                }
            }
            out.push(EngineItem::new(IndexEntry::Japanese(item), 0));
            u += 1;
        }
        out
    }

    /// Phonetic neighbours of `inp` among items reachable under its first
    /// character, within `max_dist`, closest first, the distance left in
    /// the relevance field. Queries of at most one character return
    /// nothing.
    pub fn similar_terms(&self, inp: &str, limit: usize, max_dist: u32) -> (r: Vec<EngineItem>)
        requires
            self.wf(),
        ensures
            r@.len() <= limit,
            inp@.len() <= 1 ==> r@.len() == 0,
            limit > 0 && inp@.len() >= 2 && (exists|id: u32|
                #![trigger self.items@[id as int]]
                id < self.items@.len() && id_reachable(many_map(self.trie), inp@.take(1), id)
                    && self.items@[id as int].hash is Some && spec_phonetic_dist(
                    spec_jp_hash(inp@)->0,
                    self.items@[id as int].hash->0,
                ) <= max_dist) ==> r@.len() > 0,
            forall|i: int|
                0 <= i < r@.len() ==> self.phonetic_candidate(inp@, #[trigger] r@[i], max_dist)
                    && r@[i].item.wf(),
            forall|p: int, q: int|
                0 <= p < q < r@.len() ==> (#[trigger] r@[p]).relevance <= (
                #[trigger] r@[q]).relevance,
            inp@.len() >= 2 ==> forall|k: Seq<char>, u: int|
                #![trigger many_map(self.trie)[k][u]]
                ({
                    let item = self.items@[many_map(self.trie)[k][u] as int];
                    many_map(self.trie).dom().contains(k) && inp@.take(1).is_prefix_of(k) && 0 <= u
                        < many_map(self.trie)[k].len() && item.hash is Some && spec_jp_hash(inp@)
                        is Some && spec_phonetic_dist(spec_jp_hash(inp@)->0, item.hash->0)
                        <= max_dist
                }) ==> ((exists|i: int|
                    #![auto]
                    0 <= i < r@.len() && matches_item(
                        r@[i].item,
                        self.items@[many_map(self.trie)[k][u] as int],
                    )) || (forall|i: int|
                    0 <= i < r@.len() ==> (#[trigger] r@[i]).relevance <= spec_phonetic_dist(
                        spec_jp_hash(inp@)->0,
                        self.items@[many_map(self.trie)[k][u] as int].hash->0,
                    ))),
    {
        let mut out: Vec<EngineItem> = Vec::new();
        let ichars = chars_of(inp);
        if ichars.len() <= 1 {
            return out;
        }
        let query_hash = match jp_hash(inp) {
            Some(h) => h,
            None => {
                return out;
            },
        };
        let mut pv: Vec<char> = Vec::new();
        pv.push(ichars[0]);
        let prefix_s = string_from_chars(&pv);
        proof {
            assert(prefix_s@ =~= inp@.take(1));
        }
        let entries = many_prefix_entries(&self.trie, prefix_s.as_str());
        let ids = self.collect_ids(&entries, Ghost(many_map(self.trie)), Ghost(inp@.take(1)));
        let mut picks: Vec<(u32, u32)> = Vec::new();
        let mut keys: Vec<u64> = Vec::new();
        let mut i: usize = 0;
        while i < ids.len()
            invariant
                self.wf(),
                spec_jp_hash(inp@) is Some,
                query_hash == spec_jp_hash(inp@)->0,
                i <= ids@.len(),
                forall|t: int| 0 <= t < ids@.len() ==> (#[trigger] ids@[t]) < self.items@.len(),
                forall|t: int|
                    0 <= t < ids@.len() ==> id_reachable(
                        many_map(self.trie),
                        inp@.take(1),
                        #[trigger] ids@[t],
                    ),
                forall|k: Seq<char>, u: int|
                    #![trigger many_map(self.trie)[k][u]]
                    many_map(self.trie).dom().contains(k) && inp@.take(1).is_prefix_of(k) && 0 <= u
                        < many_map(self.trie)[k].len() ==> ids@.contains(
                        many_map(self.trie)[k][u],
                    ),
                picks@.len() == keys@.len(),
                forall|t: int|
                    0 <= t < picks@.len() ==> {
                        let pk = #[trigger] picks@[t];
                        let item = self.items@[pk.0 as int];
                        &&& pk.0 < self.items@.len()
                        &&& id_reachable(many_map(self.trie), inp@.take(1), pk.0)
                        &&& item.hash is Some
                        &&& pk.1 == spec_phonetic_dist(spec_jp_hash(inp@)->0, item.hash->0)
                        &&& pk.1 <= max_dist
                        &&& pk.1 <= 696
                        &&& keys@[t] == (696 - pk.1) as u64
                    },
                forall|t: int|
                    #![trigger ids@[t]]
                    ({
                        let item = self.items@[ids@[t] as int];
                        0 <= t < i && item.hash is Some && spec_phonetic_dist(
                            spec_jp_hash(inp@)->0,
                            item.hash->0,
                        ) <= max_dist
                    }) ==> exists|w: int| 0 <= w < picks@.len() && (#[trigger] picks@[w]).0
                        == ids@[t],
            decreases ids@.len() - i,
        {
            let id = ids[i];
            let hash_opt = self.items[id as usize].hash;
            let ghost picks0 = picks@;
            if let Some(h) = hash_opt {
                let dist = phonetic_dist(query_hash, h);
                if dist <= max_dist {
                    picks.push((id, dist));
                    keys.push((696 - dist) as u64);
                }
            }
            proof {
                assert forall|t: int|
                    #![trigger ids@[t]]
                    ({
                        let item = self.items@[ids@[t] as int];
                        0 <= t < i + 1 && item.hash is Some && spec_phonetic_dist(
                            spec_jp_hash(inp@)->0,
                            item.hash->0,
                        ) <= max_dist
                    }) implies exists|w: int| 0 <= w < picks@.len() && (#[trigger] picks@[w]).0
                    == ids@[t] by {
                    if t < i {
                        let w = choose|w: int| 0 <= w < picks0.len() && (#[trigger] picks0[w]).0
                            == ids@[t];
                        assert(picks@[w].0 == ids@[t]);
                    } else {
                        assert(picks@[picks@.len() - 1].0 == ids@[t]);
                    }
                }
            }
            i += 1;
        }
        let chosen = top_k_indices(&keys, limit);
        let mut j: usize = 0;
        while j < chosen.len()
            invariant
                self.wf(),
                spec_jp_hash(inp@) is Some,
                is_top_k(keys@, limit as int, chosen@),
                keys@.len() == picks@.len(),
                forall|k: Seq<char>, u: int|
                    #![trigger many_map(self.trie)[k][u]]
                    many_map(self.trie).dom().contains(k) && inp@.take(1).is_prefix_of(k) && 0 <= u
                        < many_map(self.trie)[k].len() ==> ids@.contains(
                        many_map(self.trie)[k][u],
                    ),
                forall|t: int| 0 <= t < ids@.len() ==> (#[trigger] ids@[t]) < self.items@.len(),
                forall|t: int|
                    0 <= t < picks@.len() ==> {
                        let pk = #[trigger] picks@[t];
                        let item = self.items@[pk.0 as int];
                        &&& pk.0 < self.items@.len()
                        &&& id_reachable(many_map(self.trie), inp@.take(1), pk.0)
                        &&& item.hash is Some
                        &&& pk.1 == spec_phonetic_dist(spec_jp_hash(inp@)->0, item.hash->0)
                        &&& pk.1 <= max_dist
                        &&& pk.1 <= 696
                        &&& keys@[t] == (696 - pk.1) as u64
                    },
                forall|t: int|
                    #![trigger ids@[t]]
                    ({
                        let item = self.items@[ids@[t] as int];
                        0 <= t < ids@.len() && item.hash is Some && spec_phonetic_dist(
                            spec_jp_hash(inp@)->0,
                            item.hash->0,
                        ) <= max_dist
                    }) ==> exists|w: int| 0 <= w < picks@.len() && (#[trigger] picks@[w]).0
                        == ids@[t],
                j <= chosen@.len(),
                out@.len() == j,
                forall|t: int|
                    0 <= t < j ==> self.phonetic_candidate(inp@, #[trigger] out@[t], max_dist)
                        && out@[t].item.wf() && out@[t].relevance == picks@[chosen@[t] as int].1
                        && matches_item(
                        out@[t].item,
                        self.items@[picks@[chosen@[t] as int].0 as int],
                    ),
            decreases chosen@.len() - j,
        {
            let (id, dist) = picks[chosen[j]];
            let item = self.items[id as usize].duplicate();
            proof {
                assert(matches_item(IndexEntry::Japanese(item), self.items@[id as int])) by {
                    assert(IndexEntry::Japanese(item).spec_terms() =~= IndexEntry::Japanese(
                        self.items@[id as int],
                    ).spec_terms());
                }
            }
            out.push(EngineItem::new(IndexEntry::Japanese(item), dist as u16));
            j += 1;
        }
        proof {
            assert forall|p: int, q: int| 0 <= p < q < out@.len() implies (
            #[trigger] out@[p]).relevance <= (#[trigger] out@[q]).relevance by {
                assert(beats(keys@, chosen@[p] as int, chosen@[q] as int));
            }
            assert forall|k: Seq<char>, u: int|
                #![trigger many_map(self.trie)[k][u]]
                ({
                    let item = self.items@[many_map(self.trie)[k][u] as int];
                    many_map(self.trie).dom().contains(k) && inp@.take(1).is_prefix_of(k) && 0 <= u
                        < many_map(self.trie)[k].len() && item.hash is Some && spec_jp_hash(inp@)
                        is Some && spec_phonetic_dist(spec_jp_hash(inp@)->0, item.hash->0)
                        <= max_dist
                }) implies ((exists|i: int|
                #![auto]
                0 <= i < out@.len() && matches_item(
                    out@[i].item,
                    self.items@[many_map(self.trie)[k][u] as int],
                )) || (forall|i: int|
                0 <= i < out@.len() ==> (#[trigger] out@[i]).relevance <= spec_phonetic_dist(
                    spec_jp_hash(inp@)->0,
                    self.items@[many_map(self.trie)[k][u] as int].hash->0,
                ))) by {
                let id = many_map(self.trie)[k][u];
                assert(ids@.contains(id));
                let t = choose|t: int| 0 <= t < ids@.len() && (#[trigger] ids@[t]) == id;
                let w = choose|w: int| 0 <= w < picks@.len() && (#[trigger] picks@[w]).0 == ids@[t];
                assert(keys@[w] == (696 - picks@[w].1) as u64);
                if chosen@.contains(w as usize) {
                    let j = choose|j: int| 0 <= j < chosen@.len() && chosen@[j] == w as usize;
                    assert(matches_item(out@[j].item, self.items@[id as int]));
                } else {
                    assert forall|i: int| 0 <= i < out@.len() implies (
                    #[trigger] out@[i]).relevance <= spec_phonetic_dist(
                        spec_jp_hash(inp@)->0,
                        self.items@[id as int].hash->0,
                    ) by {
                        assert(beats(keys@, chosen@[i] as int, w));
                        assert(keys@[chosen@[i] as int] >= keys@[w]);
                        assert(out@[i].relevance == picks@[chosen@[i] as int].1);
                    }
                }
            }
            if limit > 0 && (exists|id: u32|
                #![trigger self.items@[id as int]]
                id < self.items@.len() && id_reachable(many_map(self.trie), inp@.take(1), id)
                    && self.items@[id as int].hash is Some && spec_phonetic_dist(
                    spec_jp_hash(inp@)->0,
                    self.items@[id as int].hash->0,
                ) <= max_dist) {
                let id = choose|id: u32|
                    #![trigger self.items@[id as int]]
                    id < self.items@.len() && id_reachable(many_map(self.trie), inp@.take(1), id)
                        && self.items@[id as int].hash is Some && spec_phonetic_dist(
                        spec_jp_hash(inp@)->0,
                        self.items@[id as int].hash->0,
                    ) <= max_dist;
                let (k, u) = choose|k: Seq<char>, u: int|
                    #![trigger many_map(self.trie)[k][u]]
                    many_map(self.trie).dom().contains(k) && inp@.take(1).is_prefix_of(k) && 0 <= u
                        < many_map(self.trie)[k].len() && many_map(self.trie)[k][u] == id;
                assert(ids@.contains(id));
                let t = choose|t: int| 0 <= t < ids@.len() && (#[trigger] ids@[t]) == id;
                let w = choose|w: int| 0 <= w < picks@.len() && (#[trigger] picks@[w]).0 == ids@[t];
                assert(keys@.len() > 0);
                assert(out@.len() > 0);
            }
        }
        out
    }

    /// The record behind a term id, if the id is live.
    pub fn get_word(&self, id: u32) -> (r: Option<EngineItem>)
        requires
            self.wf(),
        ensures
            r is Some <==> id < self.items@.len(),
            r is Some ==> matches_item(r->0.item, self.items@[id as int]) && r->0.relevance == 0,
    {
        if (id as usize) < self.items.len() {
            let item = self.items[id as usize].duplicate();
            proof {
                assert(matches_item(IndexEntry::Japanese(item), self.items@[id as int])) by {
                    assert(IndexEntry::Japanese(item).spec_terms() =~= IndexEntry::Japanese(
                        self.items@[id as int],
                    ).spec_terms());
                }
            }
            Some(EngineItem::new(IndexEntry::Japanese(item), 0))
        } else {
            None
        }
    }

    /// How many items the index holds.
    pub fn len(&self) -> (r: usize)
        ensures
            r == self.items@.len(),
    {
        self.items.len()
    }

    /// Items whose kanji-reading fragments align with the query: every item
    /// filed in the alignment tree under a key starting with `query`, each
    /// once, relevance not yet assigned.
    pub fn align_reading(&self, query: &str) -> (r: Vec<EngineItem>)
        requires
            self.wf(),
        ensures
            forall|i: int|
                0 <= i < r@.len() ==> (#[trigger] r@[i]).relevance == 0
                    && self.entry_from_alignment(query@, r@[i].item) && r@[i].item.wf(),
            forall|k: Seq<char>, u: int|
                #![trigger many_map(self.kanji_align)[k][u]]
                many_map(self.kanji_align).dom().contains(k) && query@.is_prefix_of(k) && 0 <= u
                    < many_map(self.kanji_align)[k].len() ==> lists_item(
                    r@,
                    self.items@[many_map(self.kanji_align)[k][u] as int],
                ),
            exists|sel: Seq<u32>|
                #![auto]
                sel.no_duplicates() && sel.len() == r@.len() && forall|i: int|
                    0 <= i < r@.len() ==> (#[trigger] sel[i]) < self.items@.len() && matches_item(
                        r@[i].item,
                        self.items@[sel[i] as int],
                    ),
    {
        let entries = many_subtrie_entries(&self.kanji_align, query);
        let ids = self.collect_ids(&entries, Ghost(many_map(self.kanji_align)), Ghost(query@));
        let mut out: Vec<EngineItem> = Vec::new();
        let mut j: usize = 0;
        while j < ids.len()
            invariant
                self.wf(),
                forall|t: int| 0 <= t < ids@.len() ==> (#[trigger] ids@[t]) < self.items@.len(),
                ids@.no_duplicates(),
                forall|t: int|
                    0 <= t < ids@.len() ==> id_reachable(
                        many_map(self.kanji_align),
                        query@,
                        #[trigger] ids@[t],
                    ),
                forall|k: Seq<char>, u: int|
                    #![trigger many_map(self.kanji_align)[k][u]]
                    many_map(self.kanji_align).dom().contains(k) && query@.is_prefix_of(k) && 0 <= u
                        < many_map(self.kanji_align)[k].len() ==> ids@.contains(
                        many_map(self.kanji_align)[k][u],
                    ),
                j <= ids@.len(),
                out@.len() == j,
                forall|t: int|
                    0 <= t < j ==> (#[trigger] out@[t]).relevance == 0
                        && self.entry_from_alignment(query@, out@[t].item) && out@[t].item.wf()
                        && matches_item(out@[t].item, self.items@[ids@[t] as int]),
            decreases ids@.len() - j,
        {
            let id = ids[j];
            let item = self.items[id as usize].duplicate();
            proof {
                assert(matches_item(IndexEntry::Japanese(item), self.items@[id as int])) by {
                    assert(IndexEntry::Japanese(item).spec_terms() =~= IndexEntry::Japanese(
                        self.items@[id as int],
                    ).spec_terms());
                }
            }
            out.push(EngineItem::new(IndexEntry::Japanese(item), 0));
            j += 1;
        }
        proof {
            assert forall|k: Seq<char>, u: int|
                #![trigger many_map(self.kanji_align)[k][u]]
                many_map(self.kanji_align).dom().contains(k) && query@.is_prefix_of(k) && 0 <= u
                    < many_map(self.kanji_align)[k].len() implies lists_item(
                out@,
                self.items@[many_map(self.kanji_align)[k][u] as int],
            ) by {
                let id = many_map(self.kanji_align)[k][u];
                assert(ids@.contains(id));
                let t = choose|t: int| 0 <= t < ids@.len() && (#[trigger] ids@[t]) == id;
                assert(matches_item(out@[t].item, self.items@[id as int]));
            }
            assert(exists|sel: Seq<u32>|
                #![auto]
                sel.no_duplicates() && sel.len() == out@.len() && forall|i: int|
                    0 <= i < out@.len() ==> (#[trigger] sel[i]) < self.items@.len()
                        && matches_item(out@[i].item, self.items@[sel[i] as int])) by {
                assert(ids@.no_duplicates() && ids@.len() == out@.len() && forall|i: int|
                    0 <= i < out@.len() ==> (#[trigger] ids@[i]) < self.items@.len()
                        && matches_item(out@[i].item, self.items@[ids@[i] as int]));
            }
        }
        out
    }

    /// Approximate n-gram lookup over romaji readings: items whose reading
    /// n-grams share rare dimensions with the query's, the best `limit` by
    /// descending Dice score, the per-mille score left in the relevance
    /// field. Empty when the index was built without an n-gram side.
    pub fn similar(&self, query: &str, limit: usize, q_weight: u32, term_limit: usize) -> (r: Vec<
        EngineItem,
    >)
        requires
            self.wf(),
            q_weight <= 1000,
            query@.len() < 0xFF_0000,
        ensures
            r@.len() <= limit,
            forall|i: int|
                0 <= i < r@.len() ==> (#[trigger] r@[i]).relevance <= 1000 && self.ngram_hit(
                    query@,
                    q_weight as int,
                    r@[i],
                ) && r@[i].item.wf(),
            forall|p: int, q: int|
                0 <= p < q < r@.len() ==> (#[trigger] r@[p]).relevance >= (
                #[trigger] r@[q]).relevance,
    {
        let mut out: Vec<EngineItem> = Vec::new();
        let ng = match &self.ngindex {
            Some(ng) => ng,
            None => {
                return out;
            },
        };
        let qvec = match ng.query_vec(query) {
            Some(v) => v,
            None => {
                return out;
            },
        };
        let found = ng.find_qweight(&qvec, q_weight, term_limit);
        let mut cands: Vec<(u32, u16)> = Vec::new();
        let mut keys: Vec<u64> = Vec::new();
        let mut i: usize = 0;
        while i < found.len()
            invariant
                self.wf(),
                self.ngindex is Some,
                ng == self.ngindex->0,
                i <= found@.len(),
                qvec@.no_duplicates(),
                forall|x: int| 0 <= x < qvec@.len() ==> (#[trigger] qvec@[x]) < ng.terms@.len(),
                forall|x: int|
                    0 <= x < qvec@.len() ==> ng.dim_is_window(
                        #[trigger] qvec@[x],
                        spec_padded(query@, ng.n - 1),
                    ),
                forall|t: int|
                    0 <= t < ng.terms@.len() && ng.dim_is_window(
                        t as u32,
                        spec_padded(query@, ng.n - 1),
                    ) ==> qvec@.contains(#[trigger] (t as u32)),
                forall|t: int|
                    0 <= t < found@.len() ==> (#[trigger] found@[t]).1 <= 1000 && ng.result_matches(
                        qvec@,
                        q_weight as int,
                        found@[t],
                    ),
                cands@.len() == keys@.len(),
                forall|t: int|
                    0 <= t < cands@.len() ==> {
                        let c = #[trigger] cands@[t];
                        &&& c.0 < self.items@.len()
                        &&& c.1 <= 1000
                        &&& keys@[t] == c.1 as u64
                        &&& candidate_scored(*self, query@, q_weight as int, c)
                    },
            decreases found@.len() - i,
        {
            let ids = &found[i].0;
            let sim = found[i].1;
            proof {
                assert(ng.result_matches(qvec@, q_weight as int, found@[i as int]));
            }
            let mut u: usize = 0;
            while u < ids.len()
                invariant
                    self.wf(),
                    self.ngindex is Some,
                    ng == self.ngindex->0,
                    i < found@.len(),
                    ids == &found@[i as int].0,
                    sim == found@[i as int].1,
                    sim <= 1000,
                    ng.result_matches(qvec@, q_weight as int, found@[i as int]),
                    qvec@.no_duplicates(),
                    forall|x: int| 0 <= x < qvec@.len() ==> (#[trigger] qvec@[x]) < ng.terms@.len(),
                    forall|x: int|
                        0 <= x < qvec@.len() ==> ng.dim_is_window(
                            #[trigger] qvec@[x],
                            spec_padded(query@, ng.n - 1),
                        ),
                    forall|t: int|
                        0 <= t < ng.terms@.len() && ng.dim_is_window(
                            t as u32,
                            spec_padded(query@, ng.n - 1),
                        ) ==> qvec@.contains(#[trigger] (t as u32)),
                    u <= ids@.len(),
                    cands@.len() == keys@.len(),
                    forall|t: int|
                        0 <= t < cands@.len() ==> {
                            let c = #[trigger] cands@[t];
                            &&& c.0 < self.items@.len()
                            &&& c.1 <= 1000
                            &&& keys@[t] == c.1 as u64
                            &&& candidate_scored(*self, query@, q_weight as int, c)
                        },
                decreases ids@.len() - u,
            {
                let id = ids[u];
                if (id as usize) < self.items.len() {
                    proof {
                        let d = choose|d: int|
                            0 <= d < ng.docs@.len() && (#[trigger] ng.docs@[d]).ids@ == found@[
                                i as int
                            ].0@ && found@[i as int].1 == spec_dice_milli(
                                spec_overlap(qvec@, ng.docs@[d].dims@),
                                qvec@.len() as int,
                                ng.docs@[d].dims@.len() as int,
                                q_weight as int,
                            );
                        ng.lemma_query_vec_set(query@, qvec@);
                        lemma_overlap_to_set(qvec@, ng.docs@[d].dims@);
                        assert(ng.docs@[d].ids@.contains(id)) by {
                            assert(ng.docs@[d].ids@[u as int] == id);
                        }
                        assert(candidate_scored(*self, query@, q_weight as int, (id, sim)));
                    }
                    cands.push((id, sim));
                    keys.push(sim as u64);
                }
                u += 1;
            }
            i += 1;
        }
        let chosen = top_k_indices(&keys, limit);
        let mut j: usize = 0;
        while j < chosen.len()
            invariant
                self.wf(),
                is_top_k(keys@, limit as int, chosen@),
                keys@.len() == cands@.len(),
                self.ngindex is Some,
                forall|t: int|
                    0 <= t < cands@.len() ==> {
                        let c = #[trigger] cands@[t];
                        &&& c.0 < self.items@.len()
                        &&& c.1 <= 1000
                        &&& keys@[t] == c.1 as u64
                        &&& candidate_scored(*self, query@, q_weight as int, c)
                    },
                j <= chosen@.len(),
                out@.len() == j,
                forall|t: int|
                    0 <= t < j ==> {
                        let e = #[trigger] out@[t];
                        &&& e.relevance <= 1000
                        &&& e.relevance == cands@[chosen@[t] as int].1
                        &&& self.ngram_hit(query@, q_weight as int, e)
                        &&& e.item.wf()
                    },
            decreases chosen@.len() - j,
        {
            let (id, sim) = cands[chosen[j]];
            let item = self.items[id as usize].duplicate();
            proof {
                assert(matches_item(IndexEntry::Japanese(item), self.items@[id as int])) by {
                    assert(IndexEntry::Japanese(item).spec_terms() =~= IndexEntry::Japanese(
                        self.items@[id as int],
                    ).spec_terms());
                }
                assert(candidate_scored(*self, query@, q_weight as int, (id, sim)));
                let d = choose|d: int|
                    0 <= d < self.ngindex->0.docs@.len() && (
                    #[trigger] self.ngindex->0.docs@[d]).ids@.contains(id) && sim as int
                        == spec_dice_milli(
                        self.ngindex->0.spec_query_dims(query@).intersect(
                            self.ngindex->0.docs@[d].dims@.to_set(),
                        ).len() as int,
                        self.ngindex->0.spec_query_dims(query@).len() as int,
                        self.ngindex->0.docs@[d].dims@.len() as int,
                        q_weight as int,
                    );
                assert(self.ngindex->0.docs@[d].ids@.contains(id));
            }
            out.push(EngineItem::new(IndexEntry::Japanese(item), sim));
            j += 1;
        }
        proof {
            assert forall|p: int, q: int| 0 <= p < q < out@.len() implies (
            #[trigger] out@[p]).relevance >= (#[trigger] out@[q]).relevance by {
                assert(beats(keys@, chosen@[p] as int, chosen@[q] as int));
            }
        }
        out
    }
}

} // verus!
