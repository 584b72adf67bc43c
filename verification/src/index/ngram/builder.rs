//! Builds the raw n-gram index: each item is stored once and every search
//! term handed in for it is split into n-grams and filed under the item's
//! id.

use vstd::prelude::*;
use super::{Item, NgramIndex};
use crate::index::ngram_ext::builder::NGIndexBuilder;
use crate::text::chars_of;

verus! {

/// Accumulates items until [`NgramIndexBuilder::build`] freezes them into
/// an [`NgramIndex`].
pub struct NgramIndexBuilder {
    /// The items accepted so far; the position is the id.
    pub out_terms: Vec<Item>,
    /// The vector index under construction.
    pub ng_index: NGIndexBuilder,
    /// The window width.
    pub n: usize,
}

impl NgramIndexBuilder {
    /// Ids stored in the vector index are live, items are well formed.
    pub open spec fn wf(self) -> bool {
        &&& self.out_terms@.len() <= 0xFFFF_FFFF
        &&& forall|i: int|
            0 <= i < self.out_terms@.len() ==> ((#[trigger] self.out_terms@[i]).frequency
                <= 1_000_000 && self.out_terms@[i].word@.len() < 0x100_0000)
        &&& self.ng_index.wf()
        &&& self.ng_index.n == self.n
        &&& self.n <= 16
        &&& forall|d: int, u: int|
            #![trigger self.ng_index.docs@[d].ids@[u]]
            0 <= d < self.ng_index.docs@.len() && 0 <= u < self.ng_index.docs@[d].ids@.len()
                ==> self.ng_index.docs@[d].ids@[u] < self.out_terms@.len()
    }

    /// An empty builder for windows of width `n`.
    pub fn new(n: usize) -> (r: NgramIndexBuilder)
        requires
            1 <= n <= 16,
        ensures
            r.wf(),
            r.out_terms@.len() == 0,
            r.n == n,
    {
        NgramIndexBuilder { out_terms: Vec::new(), ng_index: NGIndexBuilder::new(n), n }
    }

    /// Stores `item` and files each given search term under its id.
    /// Degenerately long terms, and terms shorter than the window width,
    /// are skipped.
    pub fn insert(&mut self, terms: &Vec<String>, item: Item) -> (r: u32)
        requires
            old(self).wf(),
            old(self).out_terms@.len() < 0xFFFF_FFFF,
            item.frequency <= 1_000_000,
            item.word@.len() < 0x100_0000,
        ensures
            final(self).wf(),
            r == old(self).out_terms@.len(),
            final(self).out_terms@ == old(self).out_terms@.push(item),
            final(self).n == old(self).n,
    {
        let pos = self.out_terms.len() as u32;
        self.out_terms.push(item);
        let mut i: usize = 0;
        while i < terms.len()
            invariant
                self.wf(),
                self.out_terms@ == old(self).out_terms@.push(item),
                self.n == old(self).n,
                pos < self.out_terms@.len(),
                i <= terms@.len(),
            decreases terms@.len() - i,
        {
            let t = &terms[i];
            let tc = chars_of(t.as_str());
            if tc.len() < 0xFF_0000 && self.ng_index.docs.len() < 0xFFFF_FFF0
                && self.ng_index.terms.len() < 0xFF00_0000 {
                let mut ids: Vec<u32> = Vec::new();
                ids.push(pos);
                let ghost docs0 = self.ng_index.docs@;
                self.ng_index.insert(t.as_str(), ids);
                proof {
                    assert forall|d: int, u: int|
                        0 <= d < self.ng_index.docs@.len() && 0 <= u
                            < self.ng_index.docs@[d].ids@.len() implies #[trigger] self.ng_index.docs@[d].ids@[u]
                        < self.out_terms@.len() by {
                        if d < docs0.len() {
                            assert(self.ng_index.docs@[d] == docs0[d]);
                        } else {
                            assert(self.ng_index.docs@[d].ids@ =~= seq![pos]);
                        }
                    }
                }
            }
            i += 1;
        }
        pos
    }

    /// Freezes the builder into the finished index.
    pub fn build(self) -> (r: NgramIndex)
        requires
            self.wf(),
        ensures
            r.wf(),
            r.terms@ == self.out_terms@,
            r.n == self.n,
    {
        NgramIndex { terms: self.out_terms, index: self.ng_index.build(), n: self.n }
    }
}

} // verus!
