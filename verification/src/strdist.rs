//! Verified edit distance and the scaled similarity score built on it.
//!
//! The similarity of two words is `scale * (m - d) / m` rounded down, where
//! `d` is the Levenshtein distance and `m` the longer character count; two
//! empty words count as identical.

use vstd::prelude::*;

verus! {

pub open spec fn min_nat(a: nat, b: nat) -> nat {
    if a <= b {
        a
    } else {
        b
    }
}

pub open spec fn max_nat(a: nat, b: nat) -> nat {
    if a >= b {
        a
    } else {
        b
    }
}

/// Levenshtein distance: the least number of character insertions,
/// deletions and substitutions turning `a` into `b`.
pub open spec fn lev(a: Seq<char>, b: Seq<char>) -> nat
    decreases a.len() + b.len(),
{
    if a.len() == 0 {
        b.len()
    } else if b.len() == 0 {
        a.len()
    } else {
        let del = lev(a.drop_last(), b) + 1;
        let ins = lev(a, b.drop_last()) + 1;
        let sw: nat = if a.last() == b.last() {
            0
        } else {
            1
        };
        let swap = lev(a.drop_last(), b.drop_last()) + sw;
        min_nat(min_nat(del, ins), swap)
    }
}

/// The distance never exceeds the longer length.
pub proof fn lemma_lev_le_max(a: Seq<char>, b: Seq<char>)
    ensures
        lev(a, b) <= max_nat(a.len(), b.len()),
    decreases a.len() + b.len(),
{
    if a.len() == 0 || b.len() == 0 {
    } else {
        lemma_lev_le_max(a.drop_last(), b.drop_last());
    }
}

/// One more column of the distance table, phrased over prefixes, exactly as
/// the definition unfolds.
proof fn lemma_lev_step(a: Seq<char>, b: Seq<char>, i: int, j: int)
    requires
        1 <= i <= a.len(),
        1 <= j <= b.len(),
    ensures
        lev(a.take(i), b.take(j)) == min_nat(
            min_nat(lev(a.take(i - 1), b.take(j)) + 1, lev(a.take(i), b.take(j - 1)) + 1),
            lev(a.take(i - 1), b.take(j - 1)) + (if a[i - 1] == b[j - 1] {
                0nat
            } else {
                1nat
            }),
        ),
{
    let ai = a.take(i);
    let bj = b.take(j);
    assert(ai.len() == i && bj.len() == j);
    assert(ai.drop_last() =~= a.take(i - 1));
    assert(bj.drop_last() =~= b.take(j - 1));
    assert(ai.last() == a[i - 1]);
    assert(bj.last() == b[j - 1]);
}

proof fn lemma_lev_base(a: Seq<char>, b: Seq<char>, i: int, j: int)
    requires
        0 <= i <= a.len(),
        0 <= j <= b.len(),
    ensures
        lev(a.take(0), b.take(j)) == j,
        lev(a.take(i), b.take(0)) == i,
{
    assert(a.take(0).len() == 0);
    assert(b.take(0).len() == 0);
    assert(a.take(i).len() == i);
    assert(b.take(j).len() == j);
}

/// Computes the Levenshtein distance by the usual row-by-row table.
pub fn levenshtein(a: &Vec<char>, b: &Vec<char>) -> (r: usize)
    requires
        a@.len() + b@.len() < usize::MAX,
    ensures
        r == lev(a@, b@),
{
    let n = b.len();
    let mut prev: Vec<usize> = Vec::new();
    let mut j: usize = 0;
    while j <= n
        invariant
            j <= n + 1,
            n == b@.len(),
            n < usize::MAX,
            prev@.len() == j,
            forall|t: int| 0 <= t < j ==> prev@[t] == t,
        decreases n - j + 1,
    {
        prev.push(j);
        j += 1;
    }
    proof {
        lemma_lev_base(a@, b@, 0, n as int);
        assert(forall|t: int|
            0 <= t <= n ==> prev@[t] == lev(a@.take(0), #[trigger] b@.take(t))) by {
            assert forall|t: int| 0 <= t <= n implies prev@[t] == lev(a@.take(0), b@.take(t)) by {
                lemma_lev_base(a@, b@, 0, t);
            }
        }
    }
    let mut i: usize = 0;
    while i < a.len()
        invariant
            i <= a@.len(),
            n == b@.len(),
            a@.len() + b@.len() < usize::MAX,
            prev@.len() == n + 1,
            forall|t: int| 0 <= t <= n ==> prev@[t] == lev(a@.take(i as int), #[trigger] b@.take(t)),
        decreases a@.len() - i,
    {
        let row = i + 1;
        let mut cur: Vec<usize> = Vec::new();
        cur.push(row);
        proof {
            lemma_lev_base(a@, b@, row as int, 0);
            lemma_lev_le_max(a@.take(row as int), b@.take(0));
        }
        let mut j: usize = 1;
        while j <= n
            invariant
                1 <= j <= n + 1,
                n == b@.len(),
                row == i + 1,
                i < a@.len(),
                a@.len() + b@.len() < usize::MAX,
                prev@.len() == n + 1,
                forall|t: int|
                    0 <= t <= n ==> prev@[t] == lev(a@.take(i as int), #[trigger] b@.take(t)),
                cur@.len() == j,
                forall|t: int|
                    0 <= t < j ==> cur@[t] == lev(a@.take(row as int), #[trigger] b@.take(t)),
            decreases n - j + 1,
        {
            proof {
                lemma_lev_step(a@, b@, row as int, j as int);
                lemma_lev_le_max(a@.take(row as int), b@.take(j as int));
                lemma_lev_le_max(a@.take(i as int), b@.take(j as int));
                lemma_lev_le_max(a@.take(i as int), b@.take(j as int - 1));
                lemma_lev_le_max(a@.take(row as int), b@.take(j as int - 1));
            }
            let cost: usize = if a[i] == b[j - 1] {
                0
            } else {
                1
            };
            let del = prev[j] + 1;
            let ins = cur[j - 1] + 1;
            let swap = prev[j - 1] + cost;
            let mut best = if del <= ins {
                del
            } else {
                ins
            };
            if swap < best {
                best = swap;
            }
            cur.push(best);
            j += 1;
        }
        prev = cur;
        i = row;
    }
    proof {
        assert(a@.take(a@.len() as int) =~= a@);
        assert(b@.take(n as int) =~= b@);
    }
    prev[n]
}

/// The score of a prefix match: `1000` minus the per-mille share of the
/// word left uncovered by the query, so shorter words rank higher and an
/// exact match scores a full `1000`.
pub open spec fn spec_prefix_score(wlen: int, qlen: int) -> int {
    if wlen == 0 {
        1000
    } else {
        1000 - (wlen - qlen) * 1000 / wlen
    }
}

/// Computes [`spec_prefix_score`]; the result stays on the per-mille ladder.
pub fn prefix_score(wlen: usize, qlen: usize) -> (r: u16)
    requires
        qlen <= wlen,
        wlen < 0x100_0000,
    ensures
        r == spec_prefix_score(wlen as int, qlen as int),
        r <= 1000,
{
    if wlen == 0 {
        return 1000;
    }
    let rest: u64 = ((wlen - qlen) as u64) * 1000 / (wlen as u64);
    proof {
        assert((wlen - qlen) * 1000 <= wlen * 1000) by (nonlinear_arith)
            requires
                qlen >= 0,
                wlen >= qlen,
        ;
        assert((wlen - qlen) * 1000 / (wlen as int) <= wlen * 1000 / (wlen as int)) by {
            vstd::arithmetic::div_mod::lemma_div_is_ordered(
                (wlen - qlen) * 1000,
                wlen * 1000,
                wlen as int,
            );
        }
        assert(wlen * 1000 / (wlen as int) == 1000) by (nonlinear_arith)
            requires
                wlen > 0,
        ;
        vstd::arithmetic::div_mod::lemma_div_pos_is_pos((wlen - qlen) * 1000, wlen as int);
    }
    1000 - (rest as u16)
}

/// Similarity of `a` and `b` on a `0 ..= scale` ladder: the fraction of the
/// longer word left untouched by an optimal edit script, rounded down.
pub open spec fn spec_scaled_sim(a: Seq<char>, b: Seq<char>, scale: int) -> int {
    let m = max_nat(a.len(), b.len());
    if m == 0 {
        scale
    } else {
        (m - lev(a, b)) * scale / (m as int)
    }
}

/// The score never exceeds `scale`.
pub proof fn lemma_scaled_sim_le(a: Seq<char>, b: Seq<char>, scale: int)
    requires
        scale >= 0,
    ensures
        0 <= spec_scaled_sim(a, b, scale) <= scale,
{
    let m = max_nat(a.len(), b.len());
    if m > 0 {
        lemma_lev_le_max(a, b);
        let d = lev(a, b);
        assert((m - d) * scale <= m * scale) by (nonlinear_arith)
            requires
                d >= 0,
                scale >= 0,
                m >= d,
        ;
        assert((m - d) * scale / (m as int) <= m * scale / (m as int)) by {
            vstd::arithmetic::div_mod::lemma_div_is_ordered(
                (m - d) * scale,
                m * scale,
                m as int,
            );
        }
        assert(m * scale / (m as int) == scale) by (nonlinear_arith)
            requires
                m > 0,
        ;
        assert((m - d) * scale >= 0) by (nonlinear_arith)
            requires
                m >= d,
                scale >= 0,
        ;
        vstd::arithmetic::div_mod::lemma_div_pos_is_pos((m - d) * scale, m as int);
    }
}

/// Computes [`spec_scaled_sim`].
pub fn scaled_sim(a: &Vec<char>, b: &Vec<char>, scale: u16) -> (r: u16)
    requires
        a@.len() < 0x100_0000,
        b@.len() < 0x100_0000,
        scale <= 1000,
    ensures
        r == spec_scaled_sim(a@, b@, scale as int),
        r <= scale,
{
    proof {
        lemma_scaled_sim_le(a@, b@, scale as int);
    }
    let al = a.len();
    let bl = b.len();
    let m = if al >= bl {
        al
    } else {
        bl
    };
    if m == 0 {
        return scale;
    }
    let d = levenshtein(a, b);
    proof {
        lemma_lev_le_max(a@, b@);
        assert(d <= m);
    }
    let md: u64 = (m - d) as u64;
    let sc: u64 = scale as u64;
    proof {
        assert(md * sc <= 0x100_0000u64 * 1000) by (nonlinear_arith)
            requires
                md < 0x100_0000,
                sc <= 1000,
        ;
    }
    (md * sc / (m as u64)) as u16
}

} // verus!
