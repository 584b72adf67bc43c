//! Phonetic fingerprints. Hashing itself is delegated to the `eudex` crate;
//! the graduated distance between two fingerprints is bit arithmetic and is
//! implemented and verified here, mirroring how `eudex` weighs each byte of
//! the xor of the two hashes.

use vstd::prelude::*;

verus! {

/// What `eudex::Hash::new` returns for a word, as a plain 64-bit value.
pub uninterp spec fn eudex_hash_of(s: Seq<char>) -> u64;

/// Relies on `eudex::Hash::new` and `Hash`'s `Into<u64>` impl: the
/// fingerprint is a pure function of the input string, read out as the
/// wrapped 64-bit value.
#[verifier::external_body]
pub fn eudex_hash(s: &str) -> (r: u64)
    ensures
        r == eudex_hash_of(s@),
{
    eudex::Hash::new(s).into()
}

pub open spec fn spec_popcount8(x: u8) -> int {
    (x & 1) + ((x >> 1) & 1) + ((x >> 2) & 1) + ((x >> 3) & 1) + ((x >> 4) & 1) + ((x >> 5) & 1)
        + ((x >> 6) & 1) + ((x >> 7) & 1)
}

pub open spec fn spec_byte(x: u64, k: int) -> u8 {
    (x >> (8 * k)) as u8
}

/// The graduated phonetic distance: the Hamming weight of each byte of the
/// xor, weighted Fibonacci-style so that disagreement in the leading
/// (first-consonant) byte costs the most.
pub open spec fn spec_phonetic_dist(a: u64, b: u64) -> int {
    let x = a ^ b;
    spec_popcount8(spec_byte(x, 0)) + spec_popcount8(spec_byte(x, 1)) * 2 + spec_popcount8(
        spec_byte(x, 2),
    ) * 3 + spec_popcount8(spec_byte(x, 3)) * 5 + spec_popcount8(spec_byte(x, 4)) * 8
        + spec_popcount8(spec_byte(x, 5)) * 13 + spec_popcount8(spec_byte(x, 6)) * 21
        + spec_popcount8(spec_byte(x, 7)) * 34
}

fn popcount8(x: u8) -> (r: u32)
    ensures
        r == spec_popcount8(x),
        r <= 8,
{
    proof {
        assert((x & 1) <= 1 && ((x >> 1) & 1) <= 1 && ((x >> 2) & 1) <= 1 && ((x >> 3) & 1) <= 1
            && ((x >> 4) & 1) <= 1 && ((x >> 5) & 1) <= 1 && ((x >> 6) & 1) <= 1 && ((x >> 7) & 1)
            <= 1) by (bit_vector);
    }
    (x & 1) as u32 + ((x >> 1) & 1) as u32 + ((x >> 2) & 1) as u32 + ((x >> 3) & 1) as u32 + ((x
        >> 4) & 1) as u32 + ((x >> 5) & 1) as u32 + ((x >> 6) & 1) as u32 + ((x >> 7) & 1) as u32
}

/// Computes [`spec_phonetic_dist`]. The weights sum to 87, so the distance
/// never exceeds `8 * 87`.
pub fn phonetic_dist(a: u64, b: u64) -> (r: u32)
    ensures
        r == spec_phonetic_dist(a, b),
        r <= 696,
{
    let x = a ^ b;
    proof {
        assert(x >> 0 == x) by (bit_vector);
    }
    popcount8(x as u8) + popcount8((x >> 8) as u8) * 2 + popcount8((x >> 16) as u8) * 3
        + popcount8((x >> 24) as u8) * 5 + popcount8((x >> 32) as u8) * 8 + popcount8(
        (x >> 40) as u8,
    ) * 13 + popcount8((x >> 48) as u8) * 21 + popcount8((x >> 56) as u8) * 34
}

/// The Japanese phonetic fingerprint: the reading is transliterated to
/// romaji and fingerprinted like a Latin word. Undefined for readings too
/// short to fingerprint usefully (fewer than two characters).
pub open spec fn spec_jp_hash(s: Seq<char>) -> Option<u64> {
    if s.len() < 2 {
        None
    } else {
        Some(eudex_hash_of(crate::text::romaji_of(s)))
    }
}

/// Computes [`spec_jp_hash`].
pub fn jp_hash(s: &str) -> (r: Option<u64>)
    ensures
        r == spec_jp_hash(s@),
{
    let chars = crate::text::chars_of(s);
    if chars.len() < 2 {
        return None;
    }
    let rom = crate::text::to_romaji(s);
    Some(eudex_hash(rom.as_str()))
}

/// The distance is symmetric and zero between a fingerprint and itself.
pub proof fn lemma_phonetic_dist_sym(a: u64, b: u64)
    ensures
        spec_phonetic_dist(a, b) == spec_phonetic_dist(b, a),
        spec_phonetic_dist(a, a) == 0,
{
    assert(a ^ b == b ^ a) by (bit_vector);
    assert(a ^ a == 0) by (bit_vector);
    assert(((0u64 >> 0) as u8) == 0 && ((0u64 >> 8) as u8) == 0 && ((0u64 >> 16) as u8) == 0 && ((
    0u64 >> 24) as u8) == 0 && ((0u64 >> 32) as u8) == 0 && ((0u64 >> 40) as u8) == 0 && ((0u64
        >> 48) as u8) == 0 && ((0u64 >> 56) as u8) == 0) by (bit_vector);
    assert((0u8 & 1) == 0 && ((0u8 >> 1) & 1) == 0 && ((0u8 >> 2) & 1) == 0 && ((0u8 >> 3) & 1) == 0
        && ((0u8 >> 4) & 1) == 0 && ((0u8 >> 5) & 1) == 0 && ((0u8 >> 6) & 1) == 0 && ((0u8 >> 7)
        & 1) == 0) by (bit_vector);
    assert(spec_popcount8(0u8) == 0);
    assert(spec_phonetic_dist(a, a) == 0);
}

} // verus!
