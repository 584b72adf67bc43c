//! Caller-provided entries: a fixed list of pre-scored suggestions offered
//! whenever too few results exist.

use vstd::prelude::*;
use super::ExtensionOptions;
use crate::relevance::item::EngineItem;

verus! {

/// An extension contributing a fixed list of entries.
pub struct CustomExtension {
    pub options: ExtensionOptions,
    /// The entries offered, already scored by the caller.
    pub items: Vec<EngineItem>,
}

impl CustomExtension {
    /// A custom extension offering `items`.
    pub fn new(items: Vec<EngineItem>) -> (r: CustomExtension)
        ensures
            r.items@ == items@,
            r.options == super::spec_default_options(),
    {
        CustomExtension { options: Default::default(), items }
    }

    /// Hands out up to `limit` of the stored entries, as they are.
    pub fn run(&self) -> (r: Vec<EngineItem>)
        requires
            forall|i: int| 0 <= i < self.items@.len() ==> (#[trigger] self.items@[i]).item.wf(),
        ensures
            r@.len() == if self.items@.len() <= self.options.limit {
                self.items@.len() as int
            } else {
                self.options.limit as int
            },
            forall|i: int|
                0 <= i < r@.len() ==> {
                    let e = #[trigger] r@[i];
                    &&& e.item.wf()
                    &&& e.item.spec_identity() == self.items@[i].item.spec_identity()
                    &&& e.item.spec_frequency() == self.items@[i].item.spec_frequency()
                    &&& e.relevance == self.items@[i].relevance
                },
    {
        let mut out: Vec<EngineItem> = Vec::new();
        let mut i: usize = 0;
        while i < self.items.len() && i < self.options.limit
            invariant
                i <= self.items@.len(),
                out@.len() == i <= self.options.limit,
                forall|t: int| 0 <= t < self.items@.len() ==> (#[trigger] self.items@[t]).item.wf(),
                forall|t: int|
                    0 <= t < out@.len() ==> {
                        let e = #[trigger] out@[t];
                        &&& e.item.wf()
                        &&& e.item.spec_identity() == self.items@[t].item.spec_identity()
                        &&& e.item.spec_frequency() == self.items@[t].item.spec_frequency()
                        &&& e.relevance == self.items@[t].relevance
                    },
            decreases self.items@.len() - i,
        {
            out.push(self.items[i].duplicate());
            i += 1;
        }
        out
    }

    /// Runs while enabled and too few results exist.
    pub fn should_run(&self, already_found: usize) -> (r: bool)
        ensures
            r == (self.options.enabled && already_found < self.options.threshold),
    {
        self.options.enabled && already_found < self.options.threshold
    }
}

} // verus!
