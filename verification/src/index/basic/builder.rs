//! Builds the generic index one term at a time, assigning stable ids and
//! refusing duplicate keys.

use vstd::prelude::*;
use super::{BasicIndex, Item};
use crate::index::ngram_ext::builder::NGIndexBuilder;
use crate::trie::{one_contains, one_insert, one_map, one_new};

verus! {

/// Accumulates terms until [`BasicIndexBuilder::build`] freezes them into a
/// [`BasicIndex`].
pub struct BasicIndexBuilder {
    /// Whether terms are also fed to the n-gram side.
    pub build_ng_index: bool,
    /// The n-gram side under construction.
    pub ng_index: NGIndexBuilder,
    /// The terms accepted so far; the position is the id.
    pub items: Vec<Item>,
    /// The prefix tree from normalized key to id.
    pub trie: qp_trie::Trie<qp_trie::wrapper::BString, u32>,
}

impl BasicIndexBuilder {
    /// Ids stored in the trie and in the n-gram side are live, terms are
    /// well formed.
    pub open spec fn wf(self) -> bool {
        &&& self.items@.len() <= 0xFFFF_FFFF
        &&& forall|k: Seq<char>|
            one_map(self.trie).dom().contains(k) ==> (#[trigger] one_map(self.trie)[k])
                < self.items@.len()
        &&& forall|i: int|
            0 <= i < self.items@.len() ==> ((#[trigger] self.items@[i]).frequency <= 1_000_000
                && self.items@[i].word@.len() < 0x100_0000)
        &&& self.ng_index.wf()
        &&& self.ng_index.n <= 16
        &&& forall|d: int, u: int|
            #![trigger self.ng_index.docs@[d].ids@[u]]
            0 <= d < self.ng_index.docs@.len() && 0 <= u < self.ng_index.docs@[d].ids@.len()
                ==> self.ng_index.docs@[d].ids@[u] < self.items@.len()
    }

    /// A builder without an n-gram side.
    pub fn new() -> (r: BasicIndexBuilder)
        ensures
            r.wf(),
            r.items@.len() == 0,
            one_map(r.trie) == Map::<Seq<char>, u32>::empty(),
            !r.build_ng_index,
    {
        let r = BasicIndexBuilder {
            build_ng_index: false,
            // a width nothing will be inserted under
            ng_index: NGIndexBuilder::new(10),
            items: Vec::new(),
            trie: one_new(),
        };
        proof {
            assert(one_map(r.trie) =~= Map::<Seq<char>, u32>::empty());
        }
        r
    }

    /// A builder whose terms are also n-gram indexed with windows of width
    /// `n`.
    pub fn with_ngindex(n: usize) -> (r: BasicIndexBuilder)
        requires
            1 <= n <= 16,
        ensures
            r.wf(),
            r.items@.len() == 0,
            one_map(r.trie) == Map::<Seq<char>, u32>::empty(),
            r.build_ng_index,
            r.ng_index.n == n,
    {
        let r = BasicIndexBuilder {
            build_ng_index: true,
            ng_index: NGIndexBuilder::new(n),
            items: Vec::new(),
            trie: one_new(),
        };
        proof {
            assert(one_map(r.trie) =~= Map::<Seq<char>, u32>::empty());
        }
        r
    }

    /// Files `item` under the pre-normalized key `formatted`. Returns the
    /// item's stable id, or hands the item back if the key is taken.
    pub fn insert(&mut self, item: Item, formatted: &str) -> (r: Result<u32, Item>)
        requires
            old(self).wf(),
            old(self).items@.len() < 0xFFFF_FFFF,
            item.frequency <= 1_000_000,
            item.word@.len() < 0x100_0000,
        ensures
            final(self).wf(),
            final(self).build_ng_index == old(self).build_ng_index,
            final(self).ng_index == old(self).ng_index,
            match r {
                Ok(id) => {
                    &&& !one_map(old(self).trie).dom().contains(formatted@)
                    &&& id == old(self).items@.len()
                    &&& final(self).items@ == old(self).items@.push(item)
                    &&& one_map(final(self).trie) == one_map(old(self).trie).insert(formatted@, id)
                },
                Err(it) => {
                    &&& one_map(old(self).trie).dom().contains(formatted@)
                    &&& it == item
                    &&& final(self).items@ == old(self).items@
                    &&& one_map(final(self).trie) == one_map(old(self).trie)
                },
            },
    {
        let id = self.items.len() as u32;
        if one_contains(&self.trie, formatted) {
            return Err(item);
        }
        self.items.push(item);
        one_insert(&mut self.trie, formatted, id);
        Ok(id)
    }

    /// Feeds a pre-normalized key to the n-gram side, mapped to `id`. Does
    /// nothing when the builder has no n-gram side.
    pub fn insert_ng(&mut self, formatted: &str, id: u32)
        requires
            old(self).wf(),
            id < old(self).items@.len(),
            old(self).ng_index.docs@.len() + 1 < 0xFFFF_FFFF,
            old(self).ng_index.terms@.len() + formatted@.len() + 32 < 0xFFFF_FFFF,
            formatted@.len() + 32 < 0x100_0000,
        ensures
            final(self).wf(),
            final(self).items@ == old(self).items@,
            one_map(final(self).trie) == one_map(old(self).trie),
    {
        if !self.build_ng_index {
            return ;
        }
        let mut ids: Vec<u32> = Vec::new();
        ids.push(id);
        let ghost docs0 = self.ng_index.docs@;
        self.ng_index.insert(formatted, ids);
        proof {
            assert forall|d: int, u: int|
                0 <= d < self.ng_index.docs@.len() && 0 <= u
                    < self.ng_index.docs@[d].ids@.len() implies #[trigger] self.ng_index.docs@[d].ids@[u]
                < self.items@.len() by {
                if d < docs0.len() {
                    assert(self.ng_index.docs@[d] == docs0[d]);
                } else {
                    assert(self.ng_index.docs@[d].ids@ =~= seq![id]);
                }
            }
        }
    }

    /// Freezes the builder into the finished index.
    pub fn build(self) -> (r: BasicIndex)
        requires
            self.wf(),
        ensures
            r.wf(),
            r.terms@ == self.items@,
            one_map(r.trie) == one_map(self.trie),
            r.ngram is Some ==> r.ngram->0.docs@ == self.ng_index.docs@,
    {
        let ngram = if self.build_ng_index {
            Some(self.ng_index.build())
        } else {
            None
        };
        BasicIndex { trie: self.trie, terms: self.items, ngram }
    }
}

/// Id stability: the id handed out for an accepted term addresses exactly
/// that term after the build, and the record found there carries the term's
/// surface form. `insert` guarantees the first two hypotheses, `build`
/// carries `items` over unchanged.
pub proof fn lemma_id_stability(items0: Seq<Item>, items1: Seq<Item>, item: Item, id: u32)
    requires
        items1 == items0.push(item),
        id == items0.len(),
    ensures
        items1[id as int] == item,
        crate::relevance::item::IndexEntry::Basic(items1[id as int]).spec_terms() == seq![
            item.word@,
        ],
{
    assert(items1[id as int] == item);
    assert(crate::relevance::item::IndexEntry::Basic(item).spec_terms() =~= seq![item.word@]);
}

} // verus!
