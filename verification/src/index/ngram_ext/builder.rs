//! Builds the n-gram vector index: pads each accepted term, splits it into
//! windows, assigns dimensions, and files the document under every
//! dimension it produced.

use vstd::prelude::*;
use super::{contains_u32, copy_char_vec, copy_u32_vec, find_term, ng_wf, spec_padded, NGDoc,
    NGIndex, padded_chars};
use super::iter::{spec_window, windows};
use crate::text::chars_of;

verus! {

/// Some dimension of `dims` is the dictionary entry for window `j` of `p`.
pub open spec fn dims_cover_window(
    terms: Seq<Vec<char>>,
    dims: Seq<u32>,
    p: Seq<char>,
    n: int,
    j: int,
) -> bool {
    exists|x: int|
        #![auto]
        0 <= x < dims.len() && terms[dims[x] as int]@ == spec_window(p, n, j)
}

/// Accumulates documents until [`NGIndexBuilder::build`] freezes them into
/// an [`NGIndex`].
pub struct NGIndexBuilder {
    /// The window width.
    pub n: usize,
    /// The term dictionary so far.
    pub terms: Vec<Vec<char>>,
    /// How many documents list each dimension.
    pub doc_freq: Vec<u32>,
    /// The documents listing each dimension.
    pub inverted: Vec<Vec<u32>>,
    /// The documents accepted so far.
    pub docs: Vec<NGDoc>,
}

impl NGIndexBuilder {
    pub open spec fn wf(self) -> bool {
        ng_wf(self.n as int, self.terms@, self.doc_freq@, self.inverted@, self.docs@)
    }

    /// An empty builder for windows of width `n`.
    pub fn new(n: usize) -> (r: NGIndexBuilder)
        requires
            1 <= n,
        ensures
            r.wf(),
            r.n == n,
            r.docs@.len() == 0,
    {
        NGIndexBuilder {
            n,
            terms: Vec::new(),
            doc_freq: Vec::new(),
            inverted: Vec::new(),
            docs: Vec::new(),
        }
    }

    /// Indexes `term` under the ids `ids`. A term shorter than the window
    /// width cannot be split and is skipped, reported by the `false` result.
    #[verifier::rlimit(60)]
    pub fn insert(&mut self, term: &str, ids: Vec<u32>) -> (r: bool)
        requires
            old(self).wf(),
            old(self).docs@.len() + 1 < 0xFFFF_FFFF,
            old(self).terms@.len() + term@.len() + 2 * old(self).n < 0xFFFF_FFFF,
            term@.len() + 2 * old(self).n < 0x100_0000,
        ensures
            final(self).wf(),
            final(self).n == old(self).n,
            r <==> term@.len() >= old(self).n,
            r ==> final(self).docs@.len() == old(self).docs@.len() + 1,
            r ==> final(self).docs@.last().ids@ == ids@,
            r ==> final(self).docs@.drop_last() == old(self).docs@,
            r ==> forall|j: int|
                0 <= j <= spec_padded(term@, old(self).n - 1).len() - old(self).n
                    ==> #[trigger] dims_cover_window(
                    final(self).terms@,
                    final(self).docs@.last().dims@,
                    spec_padded(term@, old(self).n - 1),
                    old(self).n as int,
                    j,
                ),
            !r ==> *final(self) == *old(self),
    {
        let chars = chars_of(term);
        if chars.len() < self.n {
            return false;
        }
        let p = padded_chars(&chars, self.n - 1);
        let ws = windows(&p, self.n);
        proof {
            assert(p@.len() == term@.len() + 2 * (self.n - 1));
        }
        let ghost n0 = self.n as int;
        let ghost docs0 = self.docs@;
        let ghost terms0 = self.terms@;
        let mut dims: Vec<u32> = Vec::new();
        let mut i: usize = 0;
        while i < ws.len()
            invariant
                i <= ws@.len(),
                self.n == n0,
                n0 >= 1,
                p@ == spec_padded(term@, n0 - 1),
                ws@.len() == p@.len() - n0 + 1,
                self.docs@ == docs0,
                ng_wf(n0, self.terms@, self.doc_freq@, self.inverted@, self.docs@),
                self.terms@.len() <= terms0.len() + i,
                terms0.len() + ws@.len() < 0xFFFF_FFFF,
                ws@.len() >= 1,
                dims@.no_duplicates(),
                dims@.len() <= i,
                forall|t: int| 0 <= t < dims@.len() ==> (#[trigger] dims@[t]) < self.terms@.len(),
                i >= 1 ==> dims@.len() >= 1,
                forall|t: int|
                    0 <= t < ws@.len() ==> (#[trigger] ws@[t])@ == spec_window(
                        p@,
                        n0,
                        t,
                    ),
                forall|j2: int|
                    0 <= j2 < i ==> #[trigger] dims_cover_window(self.terms@, dims@, p@, n0, j2),
            decreases ws@.len() - i,
        {
            let ghost dims0 = dims@;
            let ghost termsb = self.terms@;
            let d: u32 = match find_term(&self.terms, &ws[i]) {
                Some(t) => t as u32,
                None => {
                    let fresh = self.terms.len() as u32;
                    let ghost terms_before = self.terms@;
                    let w = copy_char_vec(&ws[i]);
                    self.terms.push(w);
                    self.doc_freq.push(0);
                    self.inverted.push(Vec::new());
                    proof {
                        assert forall|t1: int, t2: int|
                            0 <= t1 < t2 < self.terms@.len() implies (
                        #[trigger] self.terms@[t1])@ != (#[trigger] self.terms@[t2])@ by {
                            if t2 == self.terms@.len() - 1 {
                                assert(self.terms@[t1] == terms_before[t1]);
                                assert(self.terms@[t2]@ == ws@[i as int]@);
                            } else {
                                assert(self.terms@[t1] == terms_before[t1]);
                                assert(self.terms@[t2] == terms_before[t2]);
                            }
                        }
                    }
                    fresh
                },
            };
            proof {
                assert(self.terms@[d as int]@ == ws@[i as int]@);
                assert(forall|x: int|
                    0 <= x < dims0.len() ==> self.terms@[(#[trigger] dims0[x]) as int]
                        == termsb[dims0[x] as int]);
            }
            if !contains_u32(&dims, d) {
                dims.push(d);
            }
            proof {
                assert(dims@.contains(d)) by {
                    if dims0.contains(d) {
                        let w0 = choose|w0: int| 0 <= w0 < dims0.len() && dims0[w0] == d;
                        assert(dims@[w0] == d);
                    } else {
                        assert(dims@[dims@.len() - 1] == d);
                    }
                }
                assert forall|j2: int|
                    0 <= j2 < i + 1 implies #[trigger] dims_cover_window(
                    self.terms@,
                    dims@,
                    p@,
                    n0,
                    j2,
                ) by {
                    if j2 == i {
                        let x = choose|x: int| 0 <= x < dims@.len() && dims@[x] == d;
                        assert(self.terms@[dims@[x] as int]@ == spec_window(p@, n0, j2));
                    } else {
                        // name the window so the coverage fact can fire on it
                        let ghost wterm = spec_window(p@, n0, j2);
                        assert(dims_cover_window(termsb, dims0, p@, n0, j2));
                        let x0 = choose|x0: int|
                            #![auto]
                            0 <= x0 < dims0.len() && termsb[dims0[x0] as int]@ == spec_window(
                                p@,
                                n0,
                                j2,
                            );
                        assert(dims@[x0] == dims0[x0]);
                        assert(self.terms@[dims@[x0] as int]@ == spec_window(p@, n0, j2));
                    }
                }
            }
            i += 1;
        }
        let doc_pos: u32 = self.docs.len() as u32;
        let ghost dimseq = dims@;
        proof {
            assert forall|j2: int|
                0 <= j2 <= p@.len() - n0 implies #[trigger] dims_cover_window(
                self.terms@,
                dimseq,
                p@,
                n0,
                j2,
            ) by {
                assert(0 <= j2 < ws@.len());
                // name the window so the coverage fact can fire on it
                let ghost wterm = spec_window(p@, n0, j2);
                assert(dims_cover_window(self.terms@, dims@, p@, n0, j2));
            }
        }
        let mut j: usize = 0;
        while j < dims.len()
            invariant
                j <= dims@.len(),
                dims@ == dimseq,
                dims@.no_duplicates(),
                self.n == n0,
                n0 >= 1,
                p@ == spec_padded(term@, n0 - 1),
                self.docs@ == docs0,
                doc_pos == docs0.len(),
                docs0.len() + 1 < 0xFFFF_FFFF,
                forall|t: int| 0 <= t < dims@.len() ==> (#[trigger] dims@[t]) < self.terms@.len(),
                self.terms@.len() < 0xFFFF_FFFF,
                self.doc_freq@.len() == self.terms@.len(),
                self.inverted@.len() == self.terms@.len(),
                forall|t1: int, t2: int|
                    0 <= t1 < t2 < self.terms@.len() ==> (#[trigger] self.terms@[t1])@ != (
                    #[trigger] self.terms@[t2])@,
                forall|d2: int|
                    0 <= d2 < self.docs@.len() ==> {
                        let doc = #[trigger] self.docs@[d2];
                        &&& doc.dims@.no_duplicates()
                        &&& 1 <= doc.dims@.len() < 0x100_0000
                        &&& forall|t: int|
                            0 <= t < doc.dims@.len() ==> (#[trigger] doc.dims@[t])
                                < self.terms@.len()
                    },
                forall|t: int, u: int|
                    #![trigger self.inverted@[t]@[u]]
                    0 <= t < self.inverted@.len() && 0 <= u < self.inverted@[t]@.len()
                        ==> self.inverted@[t]@[u] < docs0.len() + 1,
                forall|t: int|
                    0 <= t < self.doc_freq@.len() ==> (#[trigger] self.doc_freq@[t]) <= docs0.len()
                        + (if dimseq.take(j as int).contains(t as u32) {
                        1int
                    } else {
                        0int
                    }),
                forall|t: int|
                    0 <= t < self.doc_freq@.len() ==> (#[trigger] self.doc_freq@[t])
                        == self.inverted@[t]@.len(),
                forall|t: int, u: int|
                    #![trigger self.inverted@[t]@[u]]
                    0 <= t < self.inverted@.len() && 0 <= u < self.inverted@[t]@.len() ==> (
                    self.inverted@[t]@[u] < docs0.len() && docs0[self.inverted@[t]@[
                        u
                    ] as int].dims@.contains(t as u32)) || (self.inverted@[t]@[u] == doc_pos
                        && dimseq.contains(t as u32)),
                forall|d2: int, x: int|
                    #![trigger docs0[d2].dims@[x]]
                    0 <= d2 < docs0.len() && 0 <= x < docs0[d2].dims@.len() ==> self.inverted@[
                        docs0[d2].dims@[x] as int
                    ]@.contains(d2 as u32),
                forall|x: int|
                    0 <= x < j ==> self.inverted@[(#[trigger] dimseq[x]) as int]@.contains(doc_pos),
                forall|j2: int|
                    0 <= j2 <= p@.len() - n0 ==> #[trigger] dims_cover_window(
                        self.terms@,
                        dimseq,
                        p@,
                        n0,
                        j2,
                    ),
            decreases dims@.len() - j,
        {
            let d = dims[j] as usize;
            let ghost inv0 = self.inverted@;
            let mut row = copy_u32_vec(&self.inverted[d]);
            row.push(doc_pos);
            self.inverted[d] = row;
            proof {
                assert(self.inverted@ =~= inv0.update(d as int, row));
                assert(self.inverted@[d as int]@ =~= inv0[d as int]@.push(doc_pos));
                assert forall|t: int, u: int|
                    #![trigger self.inverted@[t]@[u]]
                    0 <= t < self.inverted@.len() && 0 <= u < self.inverted@[t]@.len() implies (
                self.inverted@[t]@[u] < docs0.len() && docs0[self.inverted@[t]@[
                    u
                ] as int].dims@.contains(t as u32)) || (self.inverted@[t]@[u] == doc_pos
                    && dimseq.contains(t as u32)) by {
                    if t == d {
                        if u < inv0[t]@.len() {
                            assert(self.inverted@[t]@[u] == inv0[t]@[u]);
                        } else {
                            assert(self.inverted@[t]@[u] == doc_pos);
                            assert(dimseq[j as int] == d as u32);
                            assert(dimseq.contains(d as u32));
                        }
                    } else {
                        assert(self.inverted@[t]@ == inv0[t]@);
                    }
                }
                assert forall|d2: int, x: int|
                    #![trigger docs0[d2].dims@[x]]
                    0 <= d2 < docs0.len() && 0 <= x < docs0[d2].dims@.len() implies self.inverted@[
                    docs0[d2].dims@[x] as int
                ]@.contains(d2 as u32) by {
                    let t = docs0[d2].dims@[x] as int;
                    assert(inv0[t]@.contains(d2 as u32));
                    let w = choose|w: int| 0 <= w < inv0[t]@.len() && inv0[t]@[w] == d2 as u32;
                    if t == d {
                        assert(self.inverted@[t]@[w] == d2 as u32);
                    } else {
                        assert(self.inverted@[t]@ == inv0[t]@);
                    }
                }
                assert forall|x: int|
                    0 <= x < j + 1 implies self.inverted@[(
                #[trigger] dimseq[x]) as int]@.contains(doc_pos) by {
                    let t = dimseq[x] as int;
                    if x == j {
                        assert(self.inverted@[d as int]@[self.inverted@[d as int]@.len() - 1]
                            == doc_pos);
                    } else {
                        assert(inv0[t]@.contains(doc_pos));
                        let w = choose|w: int|
                            0 <= w < inv0[t]@.len() && inv0[t]@[w] == doc_pos;
                        if t == d {
                            assert(self.inverted@[t]@[w] == doc_pos);
                        } else {
                            assert(self.inverted@[t]@ == inv0[t]@);
                        }
                    }
                }
            }
            let f = self.doc_freq[d];
            proof {
                assert(!dimseq.take(j as int).contains(dimseq[j as int])) by {
                    if dimseq.take(j as int).contains(dimseq[j as int]) {
                        let w = choose|w: int|
                            0 <= w < j && dimseq.take(j as int)[w] == dimseq[j as int];
                        assert(dimseq[w] == dimseq[j as int]);
                    }
                }
            }
            self.doc_freq[d] = f + 1;
            proof {
                assert forall|t: int|
                    0 <= t < self.doc_freq@.len() implies (#[trigger] self.doc_freq@[t])
                    <= docs0.len() + (if dimseq.take(j + 1).contains(t as u32) {
                    1int
                } else {
                    0int
                }) by {
                    assert(dimseq.take(j + 1).drop_last() =~= dimseq.take(j as int));
                    assert(dimseq.take(j + 1).last() == dimseq[j as int]);
                    if t == d {
                        assert(dimseq.take(j + 1).contains(t as u32)) by {
                            assert(dimseq.take(j + 1)[j as int] == dimseq[j as int]);
                        }
                    } else {
                        if dimseq.take(j as int).contains(t as u32) {
                            let w = choose|w: int|
                                0 <= w < j && (#[trigger] dimseq.take(j as int)[w]) == t as u32;
                            assert(dimseq.take(j + 1)[w] == t as u32);
                        } else if dimseq.take(j + 1).contains(t as u32) {
                            let w = choose|w: int|
                                0 <= w < j + 1 && (#[trigger] dimseq.take(j + 1)[w]) == t as u32;
                            assert(w == j);
                        }
                    }
                }
            }
            j += 1;
        }
        proof {
            assert(dims@.len() < 0x100_0000) by {
                assert(ws@.len() == term@.len() + 2 * (n0 - 1) - n0 + 1);
            }
            assert forall|t: int| 0 <= t < self.doc_freq@.len() implies (
            #[trigger] self.doc_freq@[t]) <= docs0.len() + 1 by {
                assert(dimseq.take(dimseq.len() as int) =~= dimseq);
            }
        }
        let ghost before_push = self.docs@;
        proof {
            assert(dimseq.take(dimseq.len() as int) =~= dimseq);
        }
        self.docs.push(NGDoc { ids, dims });
        proof {
            assert(self.docs@.drop_last() =~= docs0);
            assert forall|t: int, u: int|
                #![trigger self.inverted@[t]@[u]]
                0 <= t < self.inverted@.len() && 0 <= u < self.inverted@[t]@.len() implies self.docs@[
                self.inverted@[t]@[u] as int
            ].dims@.contains(t as u32) by {
                if self.inverted@[t]@[u] < docs0.len() {
                    assert(self.docs@[self.inverted@[t]@[u] as int] == docs0[self.inverted@[t]@[
                        u
                    ] as int]);
                } else {
                    assert(self.inverted@[t]@[u] == doc_pos);
                    assert(self.docs@[doc_pos as int].dims@ == dimseq);
                }
            }
            assert forall|d2: int, x: int|
                #![trigger self.docs@[d2].dims@[x]]
                0 <= d2 < self.docs@.len() && 0 <= x < self.docs@[d2].dims@.len() implies self.inverted@[
                self.docs@[d2].dims@[x] as int
            ]@.contains(d2 as u32) by {
                if d2 < docs0.len() {
                    assert(self.docs@[d2] == docs0[d2]);
                } else {
                    assert(self.docs@[d2].dims@ == dimseq);
                    assert(dimseq[x] == self.docs@[d2].dims@[x]);
                }
            }
            assert forall|d2: int| 0 <= d2 < self.docs@.len() implies {
                let doc = #[trigger] self.docs@[d2];
                &&& doc.dims@.no_duplicates()
                &&& 1 <= doc.dims@.len() < 0x100_0000
                &&& forall|t: int|
                    0 <= t < doc.dims@.len() ==> (#[trigger] doc.dims@[t]) < self.terms@.len()
            } by {
                if d2 < self.docs@.len() - 1 {
                    assert(self.docs@[d2] == docs0[d2]);
                } else {
                    assert(self.docs@[d2].dims@ == dimseq);
                }
            }
        }
        true
    }

    /// Freezes the builder into the finished index.
    pub fn build(self) -> (r: NGIndex)
        requires
            self.wf(),
        ensures
            r.wf(),
            r.n == self.n,
            r.docs@ == self.docs@,
            r.terms@ == self.terms@,
    {
        NGIndex {
            n: self.n,
            terms: self.terms,
            doc_freq: self.doc_freq,
            inverted: self.inverted,
            docs: self.docs,
        }
    }
}

} // verus!
