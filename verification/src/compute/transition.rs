//! The xoshiro128 state transition on packed states.
use vstd::prelude::*;

verus! {

/// One step of the generator on a packed state: word `i` of the state is the
/// `i`-th group of 32 bits.
pub open spec fn advance(s: u128) -> u128 {
    let word: u128 = 0xffff_ffff;
    let s0: u128 = s & word;
    let s1: u128 = (s >> 32u128) & word;
    let s2: u128 = (s >> 64u128) & word;
    let s3: u128 = s >> 96u128;
    let d: u128 = s3 ^ s1;
    (s0 ^ d)
        | ((s1 ^ (s2 ^ s0)) << 32u128)
        | (((s2 ^ s0) ^ ((s1 << 9u128) & word)) << 64u128)
        | ((((d << 11u128) & word) | (d >> 21u128)) << 96u128)
}

pub proof fn lemma_advance_linear(u: u128, v: u128)
    by (bit_vector)
    ensures
        advance(u ^ v) == advance(u) ^ advance(v),
        advance(0) == 0,
{
}

/// The packed state that holds the four words.
pub open spec fn pack(s0: u32, s1: u32, s2: u32, s3: u32) -> u128 {
    (s0 as u128) | ((s1 as u128) << 32u128) | ((s2 as u128) << 64u128) | ((s3 as u128) << 96u128)
}

/// The transition, word by word.
pub proof fn lemma_advance_pack(s0: u32, s1: u32, s2: u32, s3: u32)
    by (bit_vector)
    ensures
        advance(pack(s0, s1, s2, s3)) == pack(
            s0 ^ (s3 ^ s1),
            s1 ^ (s2 ^ s0),
            (s2 ^ s0) ^ (s1 << 9u32),
            ((s3 ^ s1) << 11u32) | ((s3 ^ s1) >> 21u32),
        ),
{
}

/// The words of a packed state are determined by it, and are all zero in the
/// state zero alone.
pub proof fn lemma_pack_words(s0: u32, s1: u32, s2: u32, s3: u32)
    by (bit_vector)
    ensures
        pack(s0, s1, s2, s3) as u32 == s0,
        (pack(s0, s1, s2, s3) >> 32u128) as u32 == s1,
        (pack(s0, s1, s2, s3) >> 64u128) as u32 == s2,
        (pack(s0, s1, s2, s3) >> 96u128) as u32 == s3,
        pack(s0, s1, s2, s3) == 0 <==> s0 == 0 && s1 == 0 && s2 == 0 && s3 == 0,
{
}

} // verus!
