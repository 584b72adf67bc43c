//! The n-gram vector index: a term dictionary assigning a dimension to each
//! observed n-gram, an inverted list per dimension, and per-document
//! dimension sets. Documents similar to a query are found through the rare
//! dimensions they share with it and ranked by weighted Dice similarity.
//!
//! Similarity lives on a per-mille ladder: `spec_dice_milli` is
//! `1000 * 2|a ∩ b| / (2w|a| + 2(1-w)|b|)` with the weight `w` itself given
//! in thousandths.

pub mod builder;
pub mod iter;

use vstd::prelude::*;
use crate::text::{chars_of, string_from_chars};
use self::iter::{spec_window, windows};

verus! {

/// Dimensions seen in at least this many documents are too common to
/// narrow a search and are ignored when gathering candidates.
pub const COMMON_DIM_LIMIT: u32 = 1000;

/// The padding sentinel.
pub open spec fn spec_sentinel() -> char {
    '\u{00a7}'
}

/// `k` copies of the sentinel.
pub open spec fn spec_sentinel_run(k: int) -> Seq<char> {
    Seq::new(if k >= 0 {
        k as nat
    } else {
        0
    }, |i: int| spec_sentinel())
}

/// `s` wrapped in `k` sentinels on either side.
pub open spec fn spec_padded(s: Seq<char>, k: int) -> Seq<char> {
    spec_sentinel_run(k) + s + spec_sentinel_run(k)
}

/// Builds [`spec_padded`] over characters.
pub fn padded_chars(word: &Vec<char>, k: usize) -> (r: Vec<char>)
    ensures
        r@ == spec_padded(word@, k as int),
{
    let mut r: Vec<char> = Vec::new();
    let mut i: usize = 0;
    while i < k
        invariant
            i <= k,
            r@ =~= spec_sentinel_run(i as int),
        decreases k - i,
    {
        r.push('\u{00a7}');
        i += 1;
    }
    let mut j: usize = 0;
    while j < word.len()
        invariant
            j <= word@.len(),
            r@ =~= spec_sentinel_run(k as int) + word@.take(j as int),
        decreases word@.len() - j,
    {
        r.push(word[j]);
        j += 1;
    }
    let mut i2: usize = 0;
    while i2 < k
        invariant
            i2 <= k,
            r@ =~= spec_sentinel_run(k as int) + word@ + spec_sentinel_run(i2 as int),
        decreases k - i2,
    {
        r.push('\u{00a7}');
        i2 += 1;
    }
    proof {
        assert(r@ =~= spec_padded(word@, k as int));
    }
    r
}

/// Wraps `word` in `n` sentinels on either side.
pub fn padded(word: &str, n: usize) -> (r: String)
    ensures
        r@ == spec_padded(word@, n as int),
{
    let chars = chars_of(word);
    let p = padded_chars(&chars, n);
    string_from_chars(&p)
}

/// Weighted Dice similarity in per-mille: `2 |a ∩ b| / (2w |a| + 2(1-w) |b|)`
/// scaled by 1000, with `w` in thousandths.
pub open spec fn spec_dice_milli(ov: int, alen: int, blen: int, w: int) -> int {
    1_000_000 * ov / (w * alen + (1000 - w) * blen)
}

/// The size of the overlap `a ∩ b`, counted over `a`'s entries.
pub open spec fn spec_overlap(a: Seq<u32>, b: Seq<u32>) -> int {
    a.filter(|x: u32| b.contains(x)).len() as int
}

/// The overlap is no larger than either side, counting each side without
/// duplicates.
pub proof fn lemma_overlap_bounds(a: Seq<u32>, b: Seq<u32>)
    requires
        a.no_duplicates(),
    ensures
        0 <= spec_overlap(a, b) <= a.len(),
        spec_overlap(a, b) <= b.len(),
    decreases a.len(),
{
    broadcast use vstd::seq_lib::group_filter_ensures;
    broadcast use vstd::seq_lib::seq_to_set_is_finite;

    let pred = |x: u32| b.contains(x);
    let f = a.filter(pred);
    lemma_filter_no_duplicates(a, pred);
    f.unique_seq_to_set();
    assert(f.to_set().subset_of(b.to_set())) by {
        assert forall|x: u32| f.to_set().contains(x) implies b.to_set().contains(x) by {
            assert(f.contains(x));
            let i = choose|i: int| 0 <= i < f.len() && f[i] == x;
            assert(pred(f[i]));
        }
    }
    vstd::set_lib::lemma_len_subset(f.to_set(), b.to_set());
    b.lemma_cardinality_of_set();
}

/// Filtering a duplicate-free sequence leaves it duplicate-free, and keeps
/// only elements of the original.
pub proof fn lemma_filter_no_duplicates(a: Seq<u32>, pred: spec_fn(u32) -> bool)
    requires
        a.no_duplicates(),
    ensures
        a.filter(pred).no_duplicates(),
        forall|x: u32| #[trigger] a.filter(pred).contains(x) ==> a.contains(x),
    decreases a.len(),
{
    broadcast use vstd::seq_lib::group_filter_ensures;

    reveal(Seq::filter);
    if a.len() == 0 {
    } else {
        let dl = a.drop_last();
        assert(dl.no_duplicates());
        lemma_filter_no_duplicates(dl, pred);
        assert forall|x: u32| #[trigger] a.filter(pred).contains(x) implies a.contains(x) by {
            if dl.filter(pred).contains(x) {
                assert(dl.contains(x));
                let i = choose|i: int| 0 <= i < dl.len() && dl[i] == x;
                assert(a[i] == x);
            } else {
                assert(x == a.last());
                assert(a[a.len() - 1] == x);
            }
        }
        if pred(a.last()) {
            assert(a.filter(pred) == dl.filter(pred).push(a.last()));
            assert(!dl.contains(a.last())) by {
                if dl.contains(a.last()) {
                    let i = choose|i: int| 0 <= i < dl.len() && dl[i] == a.last();
                    assert(a[i] == a[a.len() - 1]);
                }
            }
            assert(!dl.filter(pred).contains(a.last()));
        }
    }
}

/// Counts [`spec_overlap`].
pub fn overlap_count(a: &Vec<u32>, b: &Vec<u32>) -> (r: usize)
    ensures
        r == spec_overlap(a@, b@),
        r <= a@.len(),
{
    let mut r: usize = 0;
    let mut i: usize = 0;
    proof {
        assert(a@.take(0) =~= Seq::<u32>::empty());
        reveal(Seq::filter);
    }
    while i < a.len()
        invariant
            i <= a@.len(),
            r <= i,
            r == a@.take(i as int).filter(|x: u32| b@.contains(x)).len(),
        decreases a@.len() - i,
    {
        proof {
            reveal(Seq::filter);
            assert(a@.take(i + 1).drop_last() =~= a@.take(i as int));
            assert(a@.take(i + 1).last() == a@[i as int]);
        }
        if contains_u32(b, a[i]) {
            r += 1;
        }
        i += 1;
    }
    proof {
        assert(a@.take(a@.len() as int) =~= a@);
    }
    r
}

/// Copies a vector of dimension ids.
pub fn copy_u32_vec(v: &Vec<u32>) -> (r: Vec<u32>)
    ensures
        r@ == v@,
{
    let mut r: Vec<u32> = Vec::new();
    let mut i: usize = 0;
    while i < v.len()
        invariant
            i <= v@.len(),
            r@ == v@.take(i as int),
        decreases v@.len() - i,
    {
        r.push(v[i]);
        i += 1;
        proof {
            assert(r@ =~= v@.take(i as int));
        }
    }
    proof {
        assert(v@.take(v@.len() as int) =~= v@);
    }
    r
}

/// Copies a vector of characters.
pub fn copy_char_vec(v: &Vec<char>) -> (r: Vec<char>)
    ensures
        r@ == v@,
{
    let mut r: Vec<char> = Vec::new();
    let mut i: usize = 0;
    while i < v.len()
        invariant
            i <= v@.len(),
            r@ == v@.take(i as int),
        decreases v@.len() - i,
    {
        r.push(v[i]);
        i += 1;
        proof {
            assert(r@ =~= v@.take(i as int));
        }
    }
    proof {
        assert(v@.take(v@.len() as int) =~= v@);
    }
    r
}

/// Whether `a` and `b` spell the same characters.
pub fn eq_chars(a: &Vec<char>, b: &Vec<char>) -> (r: bool)
    ensures
        r == (a@ == b@),
{
    if a.len() != b.len() {
        assert(a@ != b@);
        return false;
    }
    let mut i: usize = 0;
    while i < a.len()
        invariant
            i <= a@.len(),
            a@.len() == b@.len(),
            forall|t: int| 0 <= t < i ==> a@[t] == b@[t],
        decreases a@.len() - i,
    {
        if a[i] != b[i] {
            return false;
        }
        i += 1;
    }
    proof {
        assert(a@ =~= b@);
    }
    true
}

/// Finds the dimension already assigned to the n-gram `w`, if any.
pub fn find_term(terms: &Vec<Vec<char>>, w: &Vec<char>) -> (r: Option<usize>)
    ensures
        match r {
            Some(t) => t < terms@.len() && terms@[t as int]@ == w@,
            None => forall|t: int| 0 <= t < terms@.len() ==> (#[trigger] terms@[t])@ != w@,
        },
{
    let mut i: usize = 0;
    while i < terms.len()
        invariant
            i <= terms@.len(),
            forall|t: int| 0 <= t < i ==> (#[trigger] terms@[t])@ != w@,
        decreases terms@.len() - i,
    {
        if eq_chars(&terms[i], w) {
            return Some(i);
        }
        i += 1;
    }
    None
}

/// Whether `v` holds `x`.
pub fn contains_u32(v: &Vec<u32>, x: u32) -> (r: bool)
    ensures
        r == v@.contains(x),
{
    let mut i: usize = 0;
    while i < v.len()
        invariant
            i <= v@.len(),
            forall|t: int| 0 <= t < i ==> v@[t] != x,
        decreases v@.len() - i,
    {
        if v[i] == x {
            return true;
        }
        i += 1;
    }
    false
}

/// Computes [`spec_dice_milli`]; the result stays on the per-mille ladder.
pub fn dice_milli(ov: usize, alen: usize, blen: usize, w: u32) -> (r: u16)
    requires
        w <= 1000,
        1 <= alen < 0x100_0000,
        1 <= blen < 0x100_0000,
        ov <= alen,
        ov <= blen,
    ensures
        r == spec_dice_milli(ov as int, alen as int, blen as int, w as int),
        r <= 1000,
{
    proof {
        assert((w as int) * (alen as int) + ((1000 - w) as int) * (blen as int) >= 1000) by (
        nonlinear_arith)
            requires
                w <= 1000,
                alen >= 1,
                blen >= 1,
        ;
        assert((w as int) * (alen as int) <= 1000 * 0x100_0000) by (nonlinear_arith)
            requires
                w <= 1000,
                alen < 0x100_0000,
        ;
        assert(((1000 - w) as int) * (blen as int) <= 1000 * 0x100_0000) by (nonlinear_arith)
            requires
                w <= 1000,
                blen < 0x100_0000,
        ;
    }
    let num: u64 = 1_000_000u64 * (ov as u64);
    let den: u64 = (w as u64) * (alen as u64) + ((1000 - w) as u64) * (blen as u64);
    proof {
        assert(num as int <= 1000 * (den as int)) by (nonlinear_arith)
            requires
                num == 1_000_000 * (ov as int),
                den == (w as int) * (alen as int) + ((1000 - w) as int) * (blen as int),
                ov <= alen,
                ov <= blen,
                w <= 1000,
                ov >= 0,
        ;
        assert(num as int / (den as int) <= 1000) by {
            vstd::arithmetic::div_mod::lemma_div_is_ordered(
                num as int,
                1000 * (den as int),
                den as int,
            );
            vstd::arithmetic::div_mod::lemma_div_multiples_vanish(1000, den as int);
        }
        vstd::arithmetic::div_mod::lemma_div_pos_is_pos(num as int, den as int);
    }
    (num / den) as u16
}

/// When the weight sits in the middle, the score is the plain Dice
/// coefficient `2 |a ∩ b| / (|a| + |b|)` in per-mille.
pub proof fn lemma_dice_balanced(ov: int, alen: int, blen: int)
    requires
        0 <= ov,
        0 < alen + blen,
    ensures
        spec_dice_milli(ov, alen, blen, 500) == 1000 * (2 * ov) / (alen + blen),
{
    assert(500 * alen + (1000 - 500) * blen == 500 * (alen + blen)) by (nonlinear_arith);
    assert(1_000_000 * ov == 500 * (1000 * (2 * ov))) by (nonlinear_arith);
    vstd::arithmetic::div_mod::lemma_div_multiples_vanish_quotient(
        500,
        1000 * (2 * ov),
        alen + blen,
    );
}

/// Seen element-wise, the overlap count is the cardinality of the set
/// intersection.
pub proof fn lemma_overlap_to_set(a: Seq<u32>, b: Seq<u32>)
    requires
        a.no_duplicates(),
    ensures
        spec_overlap(a, b) == a.to_set().intersect(b.to_set()).len(),
{
    broadcast use vstd::seq_lib::group_filter_ensures;
    broadcast use vstd::seq_lib::seq_to_set_is_finite;

    let pred = |x: u32| b.contains(x);
    let f = a.filter(pred);
    lemma_filter_no_duplicates(a, pred);
    f.unique_seq_to_set();
    assert(f.to_set() =~= a.to_set().intersect(b.to_set())) by {
        assert forall|x: u32| f.to_set().contains(x) implies a.to_set().intersect(
            b.to_set(),
        ).contains(x) by {
            assert(f.contains(x));
            assert(a.contains(x));
            let i = choose|i: int| 0 <= i < f.len() && f[i] == x;
            assert(pred(f[i]));
        }
        assert forall|x: u32| a.to_set().intersect(b.to_set()).contains(x) implies f.to_set().contains(
            x,
        ) by {
            let i = choose|i: int| 0 <= i < a.len() && a[i] == x;
            assert(pred(a[i]));
            assert(f.contains(a[i]));
        }
    }
}

/// How many entries of `s` are set.
pub open spec fn count_true(s: Seq<bool>) -> int
    decreases s.len(),
{
    if s.len() == 0 {
        0
    } else {
        count_true(s.drop_last()) + if s.last() {
            1int
        } else {
            0int
        }
    }
}

/// Setting one unset entry raises the count by one; the count never
/// exceeds the length, and is short of it while an entry is unset.
pub proof fn lemma_count_true_update(s: Seq<bool>, i: int)
    requires
        0 <= i < s.len(),
    ensures
        count_true(s.update(i, true)) == count_true(s) + if s[i] {
            0int
        } else {
            1int
        },
        count_true(s) <= s.len(),
        !s[i] ==> count_true(s) < s.len(),
    decreases s.len(),
{
    if s.len() > 0 {
        if i == s.len() - 1 {
            assert(s.update(i, true).drop_last() =~= s.drop_last());
            if s.drop_last().len() > 0 {
                lemma_count_true_update(s.drop_last(), 0);
            } else {
                assert(count_true(s.drop_last()) == 0);
            }
        } else {
            assert(s.update(i, true).drop_last() =~= s.drop_last().update(i, true));
            lemma_count_true_update(s.drop_last(), i);
        }
    }
}

/// One indexed document: the term ids it stands for, and the set of
/// n-gram dimensions its text produced.
pub struct NGDoc {
    pub ids: Vec<u32>,
    pub dims: Vec<u32>,
}

/// Well-formedness shared by the index and its builder: dimension tables
/// line up, every stored dimension and document reference is in range, and
/// each document's dimension set is duplicate-free and non-empty.
pub open spec fn ng_wf(
    n: int,
    terms: Seq<Vec<char>>,
    doc_freq: Seq<u32>,
    inverted: Seq<Vec<u32>>,
    docs: Seq<NGDoc>,
) -> bool {
    &&& n >= 1
    &&& doc_freq.len() == terms.len()
    &&& inverted.len() == terms.len()
    &&& terms.len() < 0xFFFF_FFFF
    &&& docs.len() < 0xFFFF_FFFF
    &&& forall|d: int|
        0 <= d < docs.len() ==> {
            let doc = #[trigger] docs[d];
            &&& doc.dims@.no_duplicates()
            &&& 1 <= doc.dims@.len() < 0x100_0000
            &&& forall|t: int| 0 <= t < doc.dims@.len() ==> (#[trigger] doc.dims@[t]) < terms.len()
        }
    &&& forall|t1: int, t2: int|
        0 <= t1 < t2 < terms.len() ==> (#[trigger] terms[t1])@ != (#[trigger] terms[t2])@
    &&& forall|t: int, u: int|
        #![trigger inverted[t]@[u]]
        0 <= t < inverted.len() && 0 <= u < inverted[t]@.len() ==> inverted[t]@[u] < docs.len()
    &&& forall|t: int| 0 <= t < doc_freq.len() ==> (#[trigger] doc_freq[t]) <= docs.len()
    &&& forall|t: int|
        0 <= t < doc_freq.len() ==> (#[trigger] doc_freq[t]) == inverted[t]@.len()
    &&& forall|t: int, u: int|
        #![trigger inverted[t]@[u]]
        0 <= t < inverted.len() && 0 <= u < inverted[t]@.len() ==> docs[inverted[t]@[
            u
        ] as int].dims@.contains(t as u32)
    &&& forall|d: int, x: int|
        #![trigger docs[d].dims@[x]]
        0 <= d < docs.len() && 0 <= x < docs[d].dims@.len() ==> inverted[docs[d].dims@[
            x
        ] as int]@.contains(d as u32)
}

/// The n-gram vector index, built once and then only read.
pub struct NGIndex {
    /// The window width.
    pub n: usize,
    /// The term dictionary: dimension id to n-gram.
    pub terms: Vec<Vec<char>>,
    /// How many documents list each dimension.
    pub doc_freq: Vec<u32>,
    /// The documents listing each dimension.
    pub inverted: Vec<Vec<u32>>,
    /// The document store.
    pub docs: Vec<NGDoc>,
}

impl NGIndex {
    pub open spec fn wf(self) -> bool {
        ng_wf(self.n as int, self.terms@, self.doc_freq@, self.inverted@, self.docs@)
    }

    /// The n-gram behind dimension `dim` occurs as a window of `p`.
    pub open spec fn dim_is_window(self, dim: u32, p: Seq<char>) -> bool {
        exists|j: int|
            #![trigger spec_window(p, self.n as int, j)]
            0 <= j <= p.len() - self.n && self.terms@[dim as int]@ == spec_window(
                p,
                self.n as int,
                j,
            )
    }

    /// Document `d` shares with the query a dimension rare enough to
    /// survive the common-term cut-off.
    pub open spec fn shares_rare_dim(self, qdims: Seq<u32>, d: int) -> bool {
        exists|x: int|
            #![trigger self.docs@[d].dims@[x]]
            0 <= x < self.docs@[d].dims@.len() && qdims.contains(self.docs@[d].dims@[x])
                && self.doc_freq@[self.docs@[d].dims@[x] as int] < COMMON_DIM_LIMIT
    }

    /// `item` is the listing of some stored document that shares a rare
    /// dimension with the query.
    pub open spec fn from_rare_doc(self, qdims: Seq<u32>, item: (Vec<u32>, u16)) -> bool {
        exists|d: int|
            #![auto]
            0 <= d < self.docs@.len() && item.0@ == self.docs@[d].ids@ && self.shares_rare_dim(
                qdims,
                d,
            )
    }

    /// The result list carries document `d`: its ids, scored by the
    /// weighted Dice similarity of the query's dimensions against its own.
    pub open spec fn yields_doc(
        self,
        qdims: Seq<u32>,
        w: int,
        r: Seq<(Vec<u32>, u16)>,
        d: int,
    ) -> bool {
        exists|i: int|
            #![auto]
            0 <= i < r.len() && r[i].0@ == self.docs@[d].ids@ && r[i].1 == spec_dice_milli(
                spec_overlap(qdims, self.docs@[d].dims@),
                qdims.len() as int,
                self.docs@[d].dims@.len() as int,
                w,
            )
    }

    /// One search result explained: some document carries exactly these
    /// term ids, and the score is the weighted Dice similarity of the
    /// query's dimension set against that document's.
    pub open spec fn result_matches(self, qdims: Seq<u32>, w: int, item: (Vec<u32>, u16)) -> bool {
        exists|d: int|
            0 <= d < self.docs@.len() && (#[trigger] self.docs@[d]).ids@ == item.0@ && item.1
                == spec_dice_milli(
                spec_overlap(qdims, self.docs@[d].dims@),
                qdims.len() as int,
                self.docs@[d].dims@.len() as int,
                w,
            )
    }

    /// The set of dimensions a query produces: exactly the dictionary
    /// entries occurring as windows of the padded query.
    pub open spec fn spec_query_dims(self, q: Seq<char>) -> Set<u32> {
        Set::new(
            |t: u32| t < self.terms@.len() && self.dim_is_window(t, spec_padded(q, self.n - 1)),
        )
    }

    /// A dimension vector that is duplicate-free, sound and complete for a
    /// query is [`NGIndex::spec_query_dims`] as a set, element for element.
    pub proof fn lemma_query_vec_set(self, q: Seq<char>, v: Seq<u32>)
        requires
            v.no_duplicates(),
            forall|i: int| 0 <= i < v.len() ==> (#[trigger] v[i]) < self.terms@.len(),
            forall|i: int|
                0 <= i < v.len() ==> self.dim_is_window(#[trigger] v[i], spec_padded(q, self.n - 1)),
            forall|t: int|
                0 <= t < self.terms@.len() && self.dim_is_window(
                    t as u32,
                    spec_padded(q, self.n - 1),
                ) ==> v.contains(#[trigger] (t as u32)),
        ensures
            v.to_set() == self.spec_query_dims(q),
            v.len() == self.spec_query_dims(q).len(),
    {
        broadcast use vstd::seq_lib::seq_to_set_is_finite;

        assert(v.to_set() =~= self.spec_query_dims(q)) by {
            assert forall|x: u32| v.to_set().contains(x) implies self.spec_query_dims(q).contains(
                x,
            ) by {
                let i = choose|i: int| 0 <= i < v.len() && v[i] == x;
                assert(v[i] < self.terms@.len());
            }
            assert forall|x: u32| self.spec_query_dims(q).contains(x) implies v.to_set().contains(
                x,
            ) by {
                assert(v.contains(x as u32));
            }
        }
        v.unique_seq_to_set();
    }

    /// Turns a query into its dimension set: the padded query's windows that
    /// the dictionary knows, each dimension once. `None` when the query is
    /// shorter than the window width or no window is known.
    pub fn query_vec(&self, q: &str) -> (r: Option<Vec<u32>>)
        requires
            self.wf(),
        ensures
            match r {
                Some(v) => {
                    &&& q@.len() >= self.n
                    &&& 1 <= v@.len() <= spec_padded(q@, self.n - 1).len()
                    &&& v@.no_duplicates()
                    &&& forall|i: int| 0 <= i < v@.len() ==> (#[trigger] v@[i]) < self.terms@.len()
                    &&& forall|i: int|
                        0 <= i < v@.len() ==> self.dim_is_window(
                            #[trigger] v@[i],
                            spec_padded(q@, self.n - 1),
                        )
                    &&& forall|t: int|
                        0 <= t < self.terms@.len() && self.dim_is_window(
                            t as u32,
                            spec_padded(q@, self.n - 1),
                        ) ==> v@.contains(#[trigger] (t as u32))
                },
                None => q@.len() < self.n || forall|j: int, t: int|
                    #![trigger self.terms@[t], spec_window(spec_padded(q@, self.n - 1), self.n as int, j)]
                    0 <= j <= spec_padded(q@, self.n - 1).len() - self.n && 0 <= t
                        < self.terms@.len() ==> self.terms@[t]@ != spec_window(
                        spec_padded(q@, self.n - 1),
                        self.n as int,
                        j,
                    ),
            },
    {
        let chars = chars_of(q);
        if chars.len() < self.n {
            return None;
        }
        let p = padded_chars(&chars, self.n - 1);
        let ws = windows(&p, self.n);
        let ghost pseq = spec_padded(q@, self.n - 1);
        let mut v: Vec<u32> = Vec::new();
        let mut i: usize = 0;
        while i < ws.len()
            invariant
                self.wf(),
                i <= ws@.len(),
                pseq == p@,
                ws@.len() == if p@.len() >= self.n {
                    p@.len() - self.n + 1
                } else {
                    0
                },
                forall|t: int|
                    0 <= t < ws@.len() ==> (#[trigger] ws@[t])@ == spec_window(
                        p@,
                        self.n as int,
                        t,
                    ),
                v@.len() <= i,
                v@.no_duplicates(),
                forall|x: int| 0 <= x < v@.len() ==> (#[trigger] v@[x]) < self.terms@.len(),
                forall|x: int| 0 <= x < v@.len() ==> self.dim_is_window(#[trigger] v@[x], p@),
                forall|j: int, t: int|
                    #![trigger self.terms@[t], spec_window(p@, self.n as int, j)]
                    0 <= j < i && 0 <= t < self.terms@.len() && self.terms@[t]@
                        == spec_window(p@, self.n as int, j) ==> v@.contains(t as u32),
            decreases ws@.len() - i,
        {
            let ghost vold = v@;
            let found = find_term(&self.terms, &ws[i]);
            if let Some(t) = found {
                let d = t as u32;
                if !contains_u32(&v, d) {
                    v.push(d);
                    proof {
                        assert(v@ == vold.push(d));
                        assert forall|x: int| 0 <= x < v@.len() implies self.dim_is_window(
                            #[trigger] v@[x],
                            p@,
                        ) by {
                            if x == v@.len() - 1 {
                                assert((self.terms@[d as int])@ == spec_window(
                                    p@,
                                    self.n as int,
                                    i as int,
                                ));
                            } else {
                                assert(v@[x] == vold[x]);
                            }
                        }
                    }
                }
                proof {
                    assert(v@.contains(d)) by {
                        if vold.contains(d) {
                            let w0 = choose|w0: int| 0 <= w0 < vold.len() && vold[w0] == d;
                            assert(v@[w0] == d);
                        } else {
                            assert(v@[v@.len() - 1] == d);
                        }
                    }
                }
            }
            proof {
                assert(v@ == vold || v@ == vold.push(found->0 as u32));
                assert forall|j: int, t2: int|
                    #![trigger self.terms@[t2], spec_window(p@, self.n as int, j)]
                    0 <= j < i + 1 && 0 <= t2 < self.terms@.len() && self.terms@[t2]@
                        == spec_window(p@, self.n as int, j) implies v@.contains(t2 as u32) by {
                    if j < i {
                        assert(vold.contains(t2 as u32));
                        let w0 = choose|w0: int| 0 <= w0 < vold.len() && vold[w0] == t2 as u32;
                        assert(v@[w0] == t2 as u32);
                    } else {
                        assert(self.terms@[t2]@ == ws@[i as int]@);
                        if found is Some {
                            let t = found->0;
                            assert(self.terms@[t as int]@ == ws@[i as int]@);
                            assert(t2 == t) by {
                                if t2 < t {
                                    assert(self.terms@[t2]@ != self.terms@[t as int]@);
                                } else if t < t2 {
                                    assert(self.terms@[t as int]@ != self.terms@[t2]@);
                                }
                            }
                            assert(v@.contains(t2 as u32));
                        } else {
                            assert(self.terms@[t2]@ != ws@[i as int]@);
                        }
                    }
                }
            }
            i += 1;
        }
        if v.len() == 0 {
            proof {
                assert forall|j: int, t: int|
                    #![trigger self.terms@[t], spec_window(pseq, self.n as int, j)]
                    0 <= j <= pseq.len() - self.n && 0 <= t < self.terms@.len() implies self.terms@[t]@
                    != spec_window(pseq, self.n as int, j) by {
                    if self.terms@[t]@ == spec_window(pseq, self.n as int, j) {
                        assert(v@.contains(t as u32));
                    }
                }
            }
            None
        } else {
            proof {
                assert(p@ == spec_padded(q@, self.n - 1));
                assert forall|t: int|
                    0 <= t < self.terms@.len() && self.dim_is_window(
                        t as u32,
                        spec_padded(q@, self.n - 1),
                    ) implies v@.contains(#[trigger] (t as u32)) by {
                    let j = choose|j: int|
                        #![trigger spec_window(pseq, self.n as int, j)]
                        0 <= j <= pseq.len() - self.n && self.terms@[t]@ == spec_window(
                            pseq,
                            self.n as int,
                            j,
                        );
                    assert(self.terms@[t]@ == spec_window(p@, self.n as int, j));
                }
            }
            Some(v)
        }
    }

    /// Keeps exactly the query dimensions rare enough to narrow a search.
    fn light_vec_dims(&self, qdims: &Vec<u32>) -> (r: Vec<u32>)
        requires
            self.wf(),
            forall|i: int| 0 <= i < qdims@.len() ==> (#[trigger] qdims@[i]) < self.terms@.len(),
        ensures
            r@ == qdims@.filter(
                |d: u32| 0 <= d < self.doc_freq@.len() && self.doc_freq@[d as int]
                    < COMMON_DIM_LIMIT,
            ),
            forall|i: int|
                0 <= i < r@.len() ==> qdims@.contains(#[trigger] r@[i]) && r@[i]
                    < self.terms@.len(),
    {
        broadcast use vstd::seq_lib::group_filter_ensures;

        let mut r: Vec<u32> = Vec::new();
        let mut i: usize = 0;
        proof {
            assert(qdims@.take(0) =~= Seq::<u32>::empty());
            reveal(Seq::filter);
        }
        while i < qdims.len()
            invariant
                i <= qdims@.len(),
                self.wf(),
                forall|t: int| 0 <= t < qdims@.len() ==> (#[trigger] qdims@[t]) < self.terms@.len(),
                r@ == qdims@.take(i as int).filter(
                    |d: u32| 0 <= d < self.doc_freq@.len() && self.doc_freq@[d as int]
                        < COMMON_DIM_LIMIT,
                ),
                forall|t: int|
                    0 <= t < r@.len() ==> qdims@.contains(#[trigger] r@[t]) && r@[t]
                        < self.terms@.len(),
            decreases qdims@.len() - i,
        {
            proof {
                reveal(Seq::filter);
                assert(qdims@.take(i + 1).drop_last() =~= qdims@.take(i as int));
                assert(qdims@.take(i + 1).last() == qdims@[i as int]);
            }
            let d = qdims[i];
            if self.doc_freq[d as usize] < COMMON_DIM_LIMIT {
                r.push(d);
            }
            i += 1;
        }
        proof {
            assert(qdims@.take(qdims@.len() as int) =~= qdims@);
        }
        r
    }

    /// Searches with the plain Dice coefficient and no candidate budget:
    /// exactly the documents sharing a rare dimension with the query are
    /// yielded.
    pub fn find(&self, qdims: &Vec<u32>) -> (r: Vec<(Vec<u32>, u16)>)
        requires
            self.wf(),
            qdims@.no_duplicates(),
            1 <= qdims@.len() < 0x100_0000,
            forall|i: int| 0 <= i < qdims@.len() ==> (#[trigger] qdims@[i]) < self.terms@.len(),
        ensures
            forall|i: int|
                0 <= i < r@.len() ==> self.result_matches(qdims@, 500, #[trigger] r@[i])
                    && r@[i].1 <= 1000,
            forall|i: int| 0 <= i < r@.len() ==> self.from_rare_doc(qdims@, #[trigger] r@[i]),
            forall|d: int|
                0 <= d < self.docs@.len() && self.shares_rare_dim(qdims@, d)
                    ==> #[trigger] self.yields_doc(qdims@, 500, r@, d),
    {
        self.find_qweight(qdims, 500, usize::MAX)
    }

    /// Searches with a weighted Dice score and a budget on how many
    /// candidate documents are inspected; candidates past the budget are
    /// silently dropped. Candidates are exactly the documents sharing at
    /// least one rare dimension with the query: each result shares one,
    /// and when the budget covers the whole store, every such document is
    /// yielded. Their order is arbitrary, ranking is the caller's business.
    pub fn find_qweight(&self, qdims: &Vec<u32>, w: u32, term_limit: usize) -> (r: Vec<
        (Vec<u32>, u16),
    >)
        requires
            self.wf(),
            w <= 1000,
            qdims@.no_duplicates(),
            1 <= qdims@.len() < 0x100_0000,
            forall|i: int| 0 <= i < qdims@.len() ==> (#[trigger] qdims@[i]) < self.terms@.len(),
        ensures
            forall|i: int|
                0 <= i < r@.len() ==> self.result_matches(qdims@, w as int, #[trigger] r@[i])
                    && r@[i].1 <= 1000,
            forall|i: int|
                0 <= i < r@.len() ==> self.from_rare_doc(qdims@, #[trigger] r@[i]),
            term_limit >= self.docs@.len() ==> forall|d: int|
                0 <= d < self.docs@.len() && self.shares_rare_dim(qdims@, d)
                    ==> #[trigger] self.yields_doc(qdims@, w as int, r@, d),
    {
        let ghost pred = |d: u32|
            0 <= d < self.doc_freq@.len() && self.doc_freq@[d as int] < COMMON_DIM_LIMIT;
        let lights = self.light_vec_dims(qdims);
        let mut seen: Vec<bool> = Vec::new();
        let mut s: usize = 0;
        let docs_len = self.docs.len();
        while s < docs_len
            invariant
                s <= docs_len,
                seen@.len() == s,
                count_true(seen@) == 0,
                forall|t: int| 0 <= t < s ==> !(#[trigger] seen@[t]),
            decreases docs_len - s,
        {
            let ghost sp = seen@;
            seen.push(false);
            proof {
                assert(seen@.drop_last() =~= sp);
                assert(count_true(seen@) == count_true(sp));
            }
            s += 1;
        }
        let mut out: Vec<(Vec<u32>, u16)> = Vec::new();
        let mut inspected: usize = 0;
        let mut li: usize = 0;
        while li < lights.len()
            invariant
                li <= lights@.len(),
                self.wf(),
                w <= 1000,
                qdims@.no_duplicates(),
                1 <= qdims@.len() < 0x100_0000,
                seen@.len() == self.docs@.len(),
                lights@ == qdims@.filter(pred),
                pred == (|d: u32|
                    0 <= d < self.doc_freq@.len() && self.doc_freq@[d as int] < COMMON_DIM_LIMIT),
                forall|t: int|
                    0 <= t < lights@.len() ==> (#[trigger] lights@[t]) < self.terms@.len(),
                forall|i: int|
                    0 <= i < out@.len() ==> self.result_matches(qdims@, w as int, #[trigger] out@[i])
                        && out@[i].1 <= 1000,
                forall|i: int|
                    0 <= i < out@.len() ==> self.from_rare_doc(qdims@, #[trigger] out@[i]),
                inspected == count_true(seen@),
                forall|d: int|
                    0 <= d < seen@.len() && #[trigger] seen@[d] ==> self.yields_doc(
                        qdims@,
                        w as int,
                        out@,
                        d,
                    ),
                term_limit >= self.docs@.len() ==> forall|l: int, u: int|
                    #![trigger self.inverted@[lights@[l] as int]@[u]]
                    0 <= l < li && 0 <= u < self.inverted@[lights@[l] as int]@.len()
                        ==> seen@[self.inverted@[lights@[l] as int]@[u] as int],
            decreases lights@.len() - li,
        {
            let dim = lights[li] as usize;
            let row_len = self.inverted[dim].len();
            let mut ri: usize = 0;
            while ri < row_len
                invariant
                    ri <= row_len,
                    self.wf(),
                    w <= 1000,
                    qdims@.no_duplicates(),
                    1 <= qdims@.len() < 0x100_0000,
                    li < lights@.len(),
                    dim == lights@[li as int] as int,
                    dim < self.inverted@.len(),
                    row_len == self.inverted@[dim as int]@.len(),
                    seen@.len() == self.docs@.len(),
                    lights@ == qdims@.filter(pred),
                    pred == (|d: u32|
                        0 <= d < self.doc_freq@.len() && self.doc_freq@[d as int]
                            < COMMON_DIM_LIMIT),
                    forall|i: int|
                        0 <= i < out@.len() ==> self.result_matches(
                            qdims@,
                            w as int,
                            #[trigger] out@[i],
                        ) && out@[i].1 <= 1000,
                    forall|i: int|
                        0 <= i < out@.len() ==> self.from_rare_doc(qdims@, #[trigger] out@[i]),
                    inspected == count_true(seen@),
                    forall|d: int|
                        0 <= d < seen@.len() && #[trigger] seen@[d] ==> self.yields_doc(
                            qdims@,
                            w as int,
                            out@,
                            d,
                        ),
                    term_limit >= self.docs@.len() ==> forall|l: int, u: int|
                        #![trigger self.inverted@[lights@[l] as int]@[u]]
                        0 <= l < li && 0 <= u < self.inverted@[lights@[l] as int]@.len()
                            ==> seen@[self.inverted@[lights@[l] as int]@[u] as int],
                    term_limit >= self.docs@.len() ==> forall|u: int|
                        0 <= u < ri ==> seen@[(#[trigger] self.inverted@[dim as int]@[u]) as int],
                decreases row_len - ri,
            {
                let doc_id = self.inverted[dim][ri] as usize;
                let ghost seen0 = seen@;
                let ghost out0 = out@;
                proof {
                    if term_limit >= self.docs@.len() && !seen@[doc_id as int] {
                        lemma_count_true_update(seen@, doc_id as int);
                        assert(inspected < term_limit);
                    }
                }
                if !seen[doc_id] && inspected < term_limit {
                    proof {
                        lemma_count_true_update(seen@, doc_id as int);
                    }
                    seen[doc_id] = true;
                    inspected += 1;
                    let ov = overlap_count(qdims, &self.docs[doc_id].dims);
                    proof {
                        lemma_overlap_bounds(qdims@, self.docs@[doc_id as int].dims@);
                    }
                    let sim = dice_milli(
                        ov,
                        qdims.len(),
                        self.docs[doc_id].dims.len(),
                        w,
                    );
                    let ids = copy_u32_vec(&self.docs[doc_id].ids);
                    out.push((ids, sim));
                    proof {
                        assert(seen@ =~= seen0.update(doc_id as int, true));
                        // the freshly inspected document shares this rare dimension
                        assert(self.docs@[doc_id as int].dims@.contains(lights@[li as int]));
                        let x = choose|x: int|
                            0 <= x < self.docs@[doc_id as int].dims@.len() && self.docs@[
                                doc_id as int
                            ].dims@[x] == lights@[li as int];
                        assert(qdims@.contains(lights@[li as int])) by {
                            lemma_filter_no_duplicates(qdims@, pred);
                            assert(lights@.contains(lights@[li as int]));
                        }
                        assert(self.shares_rare_dim(qdims@, doc_id as int));
                        assert(out@[out@.len() - 1].0@ == self.docs@[doc_id as int].ids@);
                        assert(self.from_rare_doc(qdims@, out@[out@.len() - 1]));
                        assert forall|i2: int|
                            0 <= i2 < out@.len() implies self.from_rare_doc(
                            qdims@,
                            #[trigger] out@[i2],
                        ) by {
                            if i2 < out0.len() {
                                assert(out@[i2] == out0[i2]);
                            }
                        }
                        assert forall|d: int|
                            0 <= d < seen@.len() && #[trigger] seen@[d] implies self.yields_doc(
                            qdims@,
                            w as int,
                            out@,
                            d,
                        ) by {
                            if d == doc_id as int {
                                assert(out@[out@.len() - 1].1 == spec_dice_milli(
                                    spec_overlap(qdims@, self.docs@[d].dims@),
                                    qdims@.len() as int,
                                    self.docs@[d].dims@.len() as int,
                                    w as int,
                                ));
                            } else {
                                assert(seen0[d]);
                                let i0 = choose|i0: int|
                                    #![auto]
                                    0 <= i0 < out0.len() && out0[i0].0@ == self.docs@[d].ids@
                                        && out0[i0].1 == spec_dice_milli(
                                        spec_overlap(qdims@, self.docs@[d].dims@),
                                        qdims@.len() as int,
                                        self.docs@[d].dims@.len() as int,
                                        w as int,
                                    );
                                assert(out@[i0] == out0[i0]);
                            }
                        }
                    }
                }
                proof {
                    if term_limit >= self.docs@.len() {
                        assert forall|u: int|
                            0 <= u < ri + 1 implies seen@[(
                        #[trigger] self.inverted@[dim as int]@[u]) as int] by {
                            if u < ri {
                                assert(seen0[self.inverted@[dim as int]@[u] as int]
                                    || seen@ == seen0);
                            }
                        }
                    }
                }
                ri += 1;
            }
            li += 1;
        }
        proof {
            if term_limit >= self.docs@.len() {
                assert forall|d: int|
                    0 <= d < self.docs@.len() && self.shares_rare_dim(
                        qdims@,
                        d,
                    ) implies #[trigger] self.yields_doc(qdims@, w as int, out@, d) by {
                    let x = choose|x: int|
                        #![trigger self.docs@[d].dims@[x]]
                        0 <= x < self.docs@[d].dims@.len() && qdims@.contains(
                            self.docs@[d].dims@[x],
                        ) && self.doc_freq@[self.docs@[d].dims@[x] as int] < COMMON_DIM_LIMIT;
                    let t = self.docs@[d].dims@[x];
                    assert(lights@.contains(t)) by {
                        let qx = choose|qx: int| 0 <= qx < qdims@.len() && qdims@[qx] == t;
                        assert(pred(qdims@[qx]));
                    }
                    let l = choose|l: int| 0 <= l < lights@.len() && lights@[l] == t;
                    assert(self.inverted@[t as int]@.contains(d as u32));
                    let u = choose|u: int|
                        0 <= u < self.inverted@[t as int]@.len() && self.inverted@[t as int]@[u]
                            == d as u32;
                    assert(seen@[self.inverted@[lights@[l] as int]@[u] as int]);
                }
            }
        }
        out
    }
}

/// A set compared with itself scores exactly 1000, whatever the weight.
pub proof fn lemma_dice_self(len: int, w: int)
    requires
        1 <= len,
        0 <= w <= 1000,
    ensures
        spec_dice_milli(len, len, len, w) == 1000,
{
    assert(w * len + (1000 - w) * len == 1000 * len) by (nonlinear_arith);
    assert(1_000_000 * len == 1000 * (1000 * len)) by (nonlinear_arith);
    assert(1000 * len > 0) by (nonlinear_arith)
        requires
            len >= 1,
    ;
    assert(1000 * (1000 * len) / (1000 * len) == 1000) by {
        vstd::arithmetic::div_mod::lemma_div_multiples_vanish(1000, 1000 * len);
    }
}

} // verus!
