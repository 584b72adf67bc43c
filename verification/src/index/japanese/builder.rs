//! Builds the Japanese index: every reading of an item becomes a trie key
//! mapping to the item's id, kanji-alignment fragments go to their own
//! tree, and romaji-folded readings feed the n-gram side.

use vstd::prelude::*;
use super::{Item, JapaneseIndex};
use crate::index::ngram_ext::builder::NGIndexBuilder;
use crate::text::{chars_of, to_romaji};
use crate::trie::{many_get, many_insert, many_map, many_new};

verus! {

/// Appends `id` to the ids filed under `key`, starting a fresh list when
/// the key is new.
pub fn insert_or_update(
    trie: &mut qp_trie::Trie<qp_trie::wrapper::BString, Vec<u32>>,
    key: &str,
    id: u32,
)
    ensures
        many_map(*final(trie)) == many_map(*old(trie)).insert(
            key@,
            if many_map(*old(trie)).dom().contains(key@) {
                many_map(*old(trie))[key@].push(id)
            } else {
                seq![id]
            },
        ),
{
    match many_get(trie, key) {
        Some(mut v) => {
            v.push(id);
            many_insert(trie, key, v);
        },
        None => {
            let mut v: Vec<u32> = Vec::new();
            v.push(id);
            proof {
                assert(v@ =~= seq![id]);
            }
            many_insert(trie, key, v);
        },
    }
}

/// Accumulates items until [`JpIndexBulider::build`] freezes them into a
/// [`JapaneseIndex`].
pub struct JpIndexBulider {
    /// Whether readings are also fed to the n-gram side.
    pub build_ng_index: bool,
    /// The n-gram window width.
    pub n: usize,
    /// The n-gram side under construction.
    pub ng_index: NGIndexBuilder,
    /// The reading tree under construction.
    pub trie: qp_trie::Trie<qp_trie::wrapper::BString, Vec<u32>>,
    /// The items accepted so far; the position is the id.
    pub items: Vec<Item>,
    /// The kanji-alignment tree under construction.
    pub kanji_align: qp_trie::Trie<qp_trie::wrapper::BString, Vec<u32>>,
}

impl JpIndexBulider {
    /// Ids stored in the trees and in the n-gram side are live, items are
    /// well formed.
    pub open spec fn wf(self) -> bool {
        &&& self.items@.len() <= 0xFFFF_FFFF
        &&& forall|k: Seq<char>, u: int|
            #![trigger many_map(self.trie)[k][u]]
            many_map(self.trie).dom().contains(k) && 0 <= u < many_map(self.trie)[k].len()
                ==> many_map(self.trie)[k][u] < self.items@.len()
        &&& forall|k: Seq<char>, u: int|
            #![trigger many_map(self.kanji_align)[k][u]]
            many_map(self.kanji_align).dom().contains(k) && 0 <= u < many_map(
                self.kanji_align,
            )[k].len() ==> many_map(self.kanji_align)[k][u] < self.items@.len()
        &&& forall|i: int|
            0 <= i < self.items@.len() ==> (#[trigger] self.items@[i]).frequency <= 1_000_000
        &&& self.ng_index.wf()
        &&& self.ng_index.n <= 16
        &&& forall|d: int, u: int|
            #![trigger self.ng_index.docs@[d].ids@[u]]
            0 <= d < self.ng_index.docs@.len() && 0 <= u < self.ng_index.docs@[d].ids@.len()
                ==> self.ng_index.docs@[d].ids@[u] < self.items@.len()
    }

    /// A builder without an n-gram side.
    pub fn new() -> (r: JpIndexBulider)
        ensures
            r.wf(),
            r.items@.len() == 0,
            !r.build_ng_index,
    {
        JpIndexBulider {
            build_ng_index: false,
            n: 0,
            // a width nothing will be inserted under
            ng_index: NGIndexBuilder::new(10),
            trie: many_new(),
            items: Vec::new(),
            kanji_align: many_new(),
        }
    }

    /// A builder whose readings are also n-gram indexed with windows of
    /// width `n`.
    pub fn with_ngindex(n: usize) -> (r: JpIndexBulider)
        requires
            1 <= n <= 16,
        ensures
            r.wf(),
            r.items@.len() == 0,
            r.build_ng_index,
            r.ng_index.n == n,
    {
        JpIndexBulider {
            build_ng_index: true,
            n,
            ng_index: NGIndexBuilder::new(n),
            trie: many_new(),
            items: Vec::new(),
            kanji_align: many_new(),
        }
    }

    /// Files one reading in the reading tree.
    fn insert_trie(&mut self, reading: &str, id: u32)
        requires
            old(self).wf(),
            id < old(self).items@.len(),
        ensures
            final(self).wf(),
            final(self).items@ == old(self).items@,
            final(self).ng_index == old(self).ng_index,
            final(self).build_ng_index == old(self).build_ng_index,
            final(self).n == old(self).n,
            many_map(final(self).kanji_align) == many_map(old(self).kanji_align),
            many_map(final(self).trie).dom().contains(reading@),
            many_map(final(self).trie)[reading@].last() == id,
            forall|k: Seq<char>|
                many_map(old(self).trie).dom().contains(k) ==> many_map(
                    final(self).trie,
                ).dom().contains(k),
    {
        insert_or_update(&mut self.trie, reading, id);
        proof {
            let m0 = many_map(old(self).trie);
            let m1 = many_map(self.trie);
            assert forall|k: Seq<char>, u: int|
                m1.dom().contains(k) && 0 <= u < m1[k].len() implies #[trigger] m1[k][u]
                < self.items@.len() by {
                if k == reading@ {
                    if m0.dom().contains(k) {
                        assert(m1[k] == m0[k].push(id));
                    } else {
                        assert(m1[k] == seq![id]);
                    }
                } else {
                    assert(m1[k] == m0[k]);
                }
            }
        }
    }

    /// Adds an item, using its own readings (kana, kanji, alternatives) as
    /// keys. Returns the item's stable id.
    pub fn add_item(&mut self, item: Item) -> (r: u32)
        requires
            old(self).wf(),
            old(self).items@.len() < 0xFFFF_FFFF,
            item.frequency <= 1_000_000,
        ensures
            final(self).wf(),
            r == old(self).items@.len(),
            final(self).items@ == old(self).items@.push(item),
            many_map(final(self).trie).dom().contains(item.kana@),
            item.kanji is Some ==> many_map(final(self).trie).dom().contains(item.kanji->0@),
            forall|a: int|
                0 <= a < item.alternative@.len() ==> many_map(final(self).trie).dom().contains(
                    (#[trigger] item.alternative@[a])@,
                ),
    {
        let id = self.items.len() as u32;
        self.items.push(item);
        let ghost snap = self.items@;
        let kana = self.items[id as usize].kana.clone();
        self.insert_trie(kana.as_str(), id);
        let kanji = match &self.items[id as usize].kanji {
            Some(k) => Some(k.clone()),
            None => None,
        };
        if let Some(k) = &kanji {
            self.insert_trie(k.as_str(), id);
        }
        let mut a: usize = 0;
        let alt_len = self.items[id as usize].alternative.len();
        while a < alt_len
            invariant
                self.wf(),
                self.items@ == snap,
                id < self.items@.len(),
                alt_len == self.items@[id as int].alternative@.len(),
                a <= alt_len,
                many_map(self.trie).dom().contains(snap[id as int].kana@),
                snap[id as int].kanji is Some ==> many_map(self.trie).dom().contains(
                    snap[id as int].kanji->0@,
                ),
                forall|a2: int|
                    0 <= a2 < a ==> many_map(self.trie).dom().contains(
                        (#[trigger] snap[id as int].alternative@[a2])@,
                    ),
            decreases alt_len - a,
        {
            let alt = self.items[id as usize].alternative[a].clone();
            self.insert_trie(alt.as_str(), id);
            a += 1;
        }
        id
    }

    /// Adds an item keyed by the given readings. Returns the item's stable
    /// id.
    pub fn insert(&mut self, readings: &Vec<String>, item: Item) -> (r: u32)
        requires
            old(self).wf(),
            old(self).items@.len() < 0xFFFF_FFFF,
            item.frequency <= 1_000_000,
        ensures
            final(self).wf(),
            r == old(self).items@.len(),
            final(self).items@ == old(self).items@.push(item),
            forall|i: int|
                0 <= i < readings@.len() ==> many_map(final(self).trie).dom().contains(
                    (#[trigger] readings@[i])@,
                ),
    {
        let id = self.items.len() as u32;
        self.items.push(item);
        let ghost snap = self.items@;
        let mut i: usize = 0;
        while i < readings.len()
            invariant
                self.wf(),
                self.items@ == snap,
                id < self.items@.len(),
                i <= readings@.len(),
                forall|t: int|
                    0 <= t < i ==> many_map(self.trie).dom().contains((#[trigger] readings@[t])@),
            decreases readings@.len() - i,
        {
            self.insert_trie(readings[i].as_str(), id);
            i += 1;
        }
        id
    }

    /// Adds more readings mapping to an existing item.
    pub fn add_readings(&mut self, readings: &Vec<String>, id: u32)
        requires
            old(self).wf(),
            id < old(self).items@.len(),
        ensures
            final(self).wf(),
            final(self).items@ == old(self).items@,
            forall|i: int|
                0 <= i < readings@.len() ==> many_map(final(self).trie).dom().contains(
                    (#[trigger] readings@[i])@,
                ),
    {
        let mut i: usize = 0;
        while i < readings.len()
            invariant
                self.wf(),
                self.items@ == old(self).items@,
                id < self.items@.len(),
                i <= readings@.len(),
                forall|t: int|
                    0 <= t < i ==> many_map(self.trie).dom().contains((#[trigger] readings@[t])@),
            decreases readings@.len() - i,
        {
            self.insert_trie(readings[i].as_str(), id);
            i += 1;
        }
    }

    /// Feeds each reading, folded to romaji, to the n-gram side, mapped to
    /// `id`. Readings longer than 15 characters after folding are skipped,
    /// as is everything when the builder has no n-gram side.
    pub fn insert_ng(&mut self, readings: &Vec<String>, id: u32)
        requires
            old(self).wf(),
            id < old(self).items@.len(),
        ensures
            final(self).wf(),
            final(self).items@ == old(self).items@,
            many_map(final(self).trie) == many_map(old(self).trie),
            many_map(final(self).kanji_align) == many_map(old(self).kanji_align),
    {
        if !self.build_ng_index {
            return ;
        }
        let mut i: usize = 0;
        while i < readings.len()
            invariant
                self.wf(),
                self.items@ == old(self).items@,
                many_map(self.trie) == many_map(old(self).trie),
                many_map(self.kanji_align) == many_map(old(self).kanji_align),
                id < self.items@.len(),
                i <= readings@.len(),
            decreases readings@.len() - i,
        {
            let rom = to_romaji(readings[i].as_str());
            let rc = chars_of(rom.as_str());
            if rc.len() <= 15 && self.ng_index.docs.len() < 0xFFFF_FFF0 && self.ng_index.terms.len()
                < 0xFFFF_FF00 {
                let mut ids: Vec<u32> = Vec::new();
                ids.push(id);
                let ghost docs0 = self.ng_index.docs@;
                self.ng_index.insert(rom.as_str(), ids);
                proof {
                    assert forall|d: int, u: int|
                        0 <= d < self.ng_index.docs@.len() && 0 <= u
                            < self.ng_index.docs@[d].ids@.len() implies #[trigger] self.ng_index.docs@[d].ids@[u]
                        < self.items@.len() by {
                        if d < docs0.len() {
                            assert(self.ng_index.docs@[d] == docs0[d]);
                        } else {
                            assert(self.ng_index.docs@[d].ids@ =~= seq![id]);
                        }
                    }
                }
            }
            i += 1;
        }
    }

    /// Files kanji-alignment fragments mapping to an existing item.
    pub fn insert_kalign(&mut self, readings: &Vec<String>, id: u32)
        requires
            old(self).wf(),
            id < old(self).items@.len(),
        ensures
            final(self).wf(),
            final(self).items@ == old(self).items@,
            many_map(final(self).trie) == many_map(old(self).trie),
            forall|i: int|
                0 <= i < readings@.len() ==> many_map(final(self).kanji_align).dom().contains(
                    (#[trigger] readings@[i])@,
                ),
    {
        let mut i: usize = 0;
        while i < readings.len()
            invariant
                self.wf(),
                self.items@ == old(self).items@,
                many_map(self.trie) == many_map(old(self).trie),
                id < self.items@.len(),
                i <= readings@.len(),
                forall|t: int|
                    0 <= t < i ==> many_map(self.kanji_align).dom().contains(
                        (#[trigger] readings@[t])@,
                    ),
            decreases readings@.len() - i,
        {
            let ghost m0 = many_map(self.kanji_align);
            insert_or_update(&mut self.kanji_align, readings[i].as_str(), id);
            proof {
                let m1 = many_map(self.kanji_align);
                let key = readings@[i as int]@;
                assert forall|k: Seq<char>, u: int|
                    m1.dom().contains(k) && 0 <= u < m1[k].len() implies #[trigger] m1[k][u]
                    < self.items@.len() by {
                    if k == key {
                        if m0.dom().contains(k) {
                            assert(m1[k] == m0[k].push(id));
                        } else {
                            assert(m1[k] == seq![id]);
                        }
                    } else {
                        assert(m1[k] == m0[k]);
                    }
                }
            }
            i += 1;
        }
    }

    /// Freezes the builder into the finished index.
    pub fn build(self) -> (r: JapaneseIndex)
        requires
            self.wf(),
        ensures
            r.wf(),
            r.items@ == self.items@,
            many_map(r.trie) == many_map(self.trie),
            many_map(r.kanji_align) == many_map(self.kanji_align),
    {
        let ngindex = if self.build_ng_index {
            Some(self.ng_index.build())
        } else {
            None
        };
        JapaneseIndex { trie: self.trie, items: self.items, kanji_align: self.kanji_align, ngindex }
    }
}

} // verus!
