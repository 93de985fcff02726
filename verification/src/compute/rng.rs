//! The pseudo random numbers that drive a shuffle: splitmix64 for the seeds,
//! xoshiro128++ for the draws.
use vstd::arithmetic::div_mod;
use vstd::prelude::*;

use crate::compute::orbit;
use crate::double;

verus! {

/// The step between consecutive splitmix64 counters, and between consecutive
/// shuffle seeds of one range.
pub const GOLDEN: u64 = 0x9e3779b97f4a7c15;

/// The four words of a xoshiro128++ generator.
pub struct Words {
    pub s0: u32,
    pub s1: u32,
    pub s2: u32,
    pub s3: u32,
}

/// The words that an executable generator state holds.
pub open spec fn words(s: [u32; 4]) -> Words {
    Words { s0: s[0], s1: s[1], s2: s[2], s3: s[3] }
}

pub open spec fn is_zero(s: Words) -> bool {
    s.s0 == 0 && s.s1 == 0 && s.s2 == 0 && s.s3 == 0
}

/// `x` rotated left by `k` bits, for `0 < k < 32`.
pub open spec fn rotated(x: u32, k: u32) -> u32 {
    (x << k) | (x >> ((32 - k) as u32))
}

/// The generator state after one draw.
pub open spec fn next_words(s: Words) -> Words {
    Words {
        s0: s.s0 ^ (s.s3 ^ s.s1),
        s1: s.s1 ^ (s.s2 ^ s.s0),
        s2: (s.s2 ^ s.s0) ^ (s.s1 << 9u32),
        s3: rotated(s.s3 ^ s.s1, 11),
    }
}

/// The number that one draw gives.
pub open spec fn output(s: Words) -> u32 {
    rotated(s.s0.wrapping_add(s.s3), 7).wrapping_add(s.s0)
}

/// The generator words after `k` draws.
pub open spec fn words_after(k: nat, s: Words) -> Words
    decreases k,
{
    if k == 0 {
        s
    } else {
        next_words(words_after((k - 1) as nat, s))
    }
}

/// The finisher of splitmix64 on the counter `z`.
pub open spec fn mixed(z: u64) -> u64 {
    let v1: u64 = (z ^ (z >> 30u64)).wrapping_mul(0xbf58476d1ce4e5b9);
    let v2: u64 = (v1 ^ (v1 >> 27u64)).wrapping_mul(0x94d049bb133111eb);
    v2 ^ (v2 >> 31u64)
}

/// The generator words that a seed starts from: two splitmix64 numbers, low
/// half first, with the forbidden all-zero state replaced.
pub open spec fn seeded(seed: u64) -> Words {
    let a: u64 = mixed(seed.wrapping_add(GOLDEN));
    let b: u64 = mixed(seed.wrapping_add(GOLDEN).wrapping_add(GOLDEN));
    let s = Words {
        s0: a as u32,
        s1: (a >> 32u64) as u32,
        s2: b as u32,
        s3: (b >> 32u64) as u32,
    };
    if is_zero(s) {
        Words { s0: 1, s1: 0, s2: 0, s3: 0 }
    } else {
        s
    }
}

/// The numbers below this one are thrown away by a draw below `max`: the rest
/// of the 32 bit range is a multiple of `max` long.
pub open spec fn threshold(max: u32) -> int {
    0x1_0000_0000int % (max as int)
}

/// The draw that comes after `k` others is kept.
pub open spec fn accepts(s: Words, max: u32, k: nat) -> bool {
    output(words_after(k, s)) >= threshold(max)
}

/// `k` is the number of draws thrown away before the first that is kept.
pub open spec fn first_kept(s: Words, max: u32, k: nat) -> bool {
    &&& accepts(s, max, k)
    &&& forall|j: nat| j < k ==> !accepts(s, max, j)
}

/// How many draws are thrown away before the first that is kept.
pub open spec fn rejections(s: Words, max: u32) -> nat {
    choose|k: nat| first_kept(s, max, k)
}

/// The number below `max` that a bounded draw gives.
pub open spec fn bounded(s: Words, max: u32) -> u32 {
    output(words_after(rejections(s, max), s)) % max
}

/// The generator words that a bounded draw leaves.
pub open spec fn bounded_words(s: Words, max: u32) -> Words {
    words_after(rejections(s, max) + 1, s)
}

/// Some draw is kept, sooner or later.
pub open spec fn draw_ends(s: Words, max: u32) -> bool {
    exists|k: nat| #[trigger] accepts(s, max, k)
}

proof fn lemma_least(s: Words, max: u32, k: nat)
    requires
        accepts(s, max, k),
    ensures
        exists|j: nat| first_kept(s, max, j),
    decreases k,
{
    if !first_kept(s, max, k) {
        let j = choose|j: nat| j < k && accepts(s, max, j);
        lemma_least(s, max, j);
    }
}

/// What a bounded draw gives, where it comes to an end.
pub proof fn lemma_first_kept(s: Words, max: u32)
    requires
        0 < max,
        draw_ends(s, max),
    ensures
        first_kept(s, max, rejections(s, max)),
        bounded(s, max) < max,
        !is_zero(s) ==> !is_zero(bounded_words(s, max)),
{
    let k = choose|k: nat| #[trigger] accepts(s, max, k);
    lemma_least(s, max, k);
    if !is_zero(s) {
        lemma_words_after_nonzero(rejections(s, max) + 1, s);
    }
}

/// Law: the generator walks through all states but zero. Some number of draws
/// leads from any of them to any other.
pub proof fn law_every_state_follows(s: Words, t: Words)
    requires
        !is_zero(s),
        !is_zero(t),
    ensures
        exists|k: nat| #[trigger] words_after(k, s) == t,
{
    let k = orbit::lemma_reaches(s, t);
    assert(words_after(k, s) == t);
}

/// Law: a bounded draw from a state other than zero comes to an end, whatever
/// the bound, and gives a number below it.
pub proof fn law_every_draw_ends(s: Words, max: u32)
    requires
        !is_zero(s),
        0 < max,
    ensures
        draw_ends(s, max),
        first_kept(s, max, rejections(s, max)),
        bounded(s, max) < max,
        !is_zero(bounded_words(s, max)),
{
    let t = Words { s0: 0, s1: 0, s2: 0, s3: 0x0100_0000 };
    let k = orbit::lemma_reaches(s, t);
    assert(rotated(0x0100_0000, 7) == 0x8000_0000) by (bit_vector);
    law_kept_draws_fill_rows(max);
    assert(threshold(max) < 0x8000_0000) by (nonlinear_arith)
        requires
            0 < max <= 0xffff_ffff,
            0 <= threshold(max) < max,
            threshold(max) == 0x1_0000_0000int % (max as int),
    ;
    assert(accepts(s, max, k));
    lemma_first_kept(s, max);
}

/// Law: a bounded draw comes to an end from every state but zero, and from that
/// state where nothing is thrown away.
pub proof fn law_draw_ends_unless_stuck(s: Words, max: u32)
    requires
        0 < max,
    ensures
        draw_ends(s, max) <==> !is_zero(s) || threshold(max) == 0,
{
    law_kept_draws_fill_rows(max);
    if !is_zero(s) {
        law_every_draw_ends(s, max);
    } else if threshold(max) == 0 {
        assert(accepts(s, max, 0));
    } else {
        assert forall|k: nat| !#[trigger] accepts(s, max, k) by {
            lemma_zero_stays(k, s);
        }
    }
}

/// Law: below a power of two the first draw is kept, from any state.
pub proof fn law_power_of_two_keeps_the_first(s: Words, max: u32, k: nat)
    requires
        k <= 31,
        max == double::exp2(k),
    ensures
        threshold(max) == 0,
        draw_ends(s, max),
        rejections(s, max) == 0,
        bounded(s, max) == output(s) % max,
        bounded_words(s, max) == next_words(s),
{
    let m = max as int;
    let f = double::exp2((32 - k) as nat) as int;
    double::lemma_exp2_values();
    double::lemma_exp2_add(k, (32 - k) as nat);
    assert(double::exp2(32) == 2 * double::exp2(31));
    double::lemma_exp2_bound(k, k);
    assert((m * f) % m == 0) by (nonlinear_arith)
        requires
            m > 0,
    ;
    assert(accepts(s, max, 0));
    assert(first_kept(s, max, 0));
    lemma_rejections_unique(s, max, 0);
    reveal_with_fuel(words_after, 2);
}

/// Law: no number below a bound is favoured. The draws that are kept fall into
/// rows of `max`, each of which has every remainder once.
pub proof fn law_kept_draws_fill_rows(max: u32)
    requires
        0 < max,
    ensures
        0 <= threshold(max) < max,
        (0x1_0000_0000int - threshold(max)) % (max as int) == 0,
{
    let all = 0x1_0000_0000int;
    let m = max as int;
    let rows = all / m;
    assert(all == m * rows + all % m && 0 <= all % m < m) by (nonlinear_arith)
        requires
            m > 0,
            rows == all / m,
    ;
    assert((m * rows) % m == 0) by (nonlinear_arith)
        requires
            m > 0,
    ;
}

/// `k` is the only number of draws that come before the first that is kept.
pub proof fn lemma_rejections_unique(s: Words, max: u32, k: nat)
    requires
        first_kept(s, max, k),
    ensures
        rejections(s, max) == k,
{
    let j = rejections(s, max);
    assert(first_kept(s, max, j));
    assert(!(j < k) && !(k < j));
}

proof fn lemma_xor_zero(a: u32, b: u32)
    by (bit_vector)
    ensures
        a ^ b == 0 ==> a == b,
        0u32 << 9u32 == 0,
        b ^ 0 == b,
        (b << 11u32) | (b >> 21u32) == 0 ==> b == 0,
{
}

/// The transition leads to the all-zero state from that state alone.
pub proof fn lemma_next_words_nonzero(s: Words)
    requires
        !is_zero(s),
    ensures
        !is_zero(next_words(s)),
{
    lemma_xor_zero(s.s0, s.s3 ^ s.s1);
    lemma_xor_zero(s.s1, s.s2 ^ s.s0);
    lemma_xor_zero(s.s2 ^ s.s0, s.s1 << 9u32);
    lemma_xor_zero(s.s3, s.s1);
    lemma_xor_zero(0, s.s3 ^ s.s1);
    lemma_xor_zero(s.s2, s.s0);
    if is_zero(next_words(s)) {
        assert(s.s3 ^ s.s1 == 0);
        assert(s.s3 == s.s1);
        assert(s.s0 == 0);
        assert(s.s2 ^ 0 == s.s1 << 9u32);
        lemma_xor_zero(0, s.s2);
        assert(s.s1 == s.s2);
        let b = s.s1;
        assert(b == 0) by (bit_vector)
            requires
                b == b << 9u32,
        ;
    }
}

pub proof fn lemma_words_after_nonzero(k: nat, s: Words)
    requires
        !is_zero(s),
    ensures
        !is_zero(words_after(k, s)),
    decreases k,
{
    if k > 0 {
        lemma_words_after_nonzero((k - 1) as nat, s);
        lemma_next_words_nonzero(words_after((k - 1) as nat, s));
    }
}

/// From the all-zero state the generator draws nothing but zeros.
proof fn lemma_zero_stays(k: nat, s: Words)
    requires
        is_zero(s),
    ensures
        words_after(k, s) == s,
        output(s) == 0,
    decreases k,
{
    lemma_xor_zero(0, 0);
    assert(rotated(0, 7) == 0 && rotated(0, 11) == 0) by (bit_vector);
    if k > 0 {
        lemma_zero_stays((k - 1) as nat, s);
    }
}

fn rotl(x: u32, k: u32) -> (r: u32)
    requires
        0 < k < 32,
    ensures
        r == rotated(x, k),
{
    (x << k) | (x >> (32 - k))
}

/// The next number of the splitmix64 sequence with counter `z`.
pub fn splitmix64(z: &mut u64) -> (r: u64)
    ensures
        *final(z) == (*old(z)).wrapping_add(GOLDEN),
        r == mixed(*final(z)),
{
    *z = z.wrapping_add(GOLDEN);
    let mut v: u64 = *z;
    v = (v ^ (v >> 30)).wrapping_mul(0xbf58476d1ce4e5b9);
    v = (v ^ (v >> 27)).wrapping_mul(0x94d049bb133111eb);
    v ^ (v >> 31)
}

/// The generator state for a seed. It is never all zero.
pub fn xseed(seed: u64) -> (s: [u32; 4])
    ensures
        words(s) == seeded(seed),
        !is_zero(words(s)),
{
    let mut z: u64 = seed;
    let a: u64 = splitmix64(&mut z);
    let b: u64 = splitmix64(&mut z);
    let mut s: [u32; 4] = [a as u32, (a >> 32) as u32, b as u32, (b >> 32) as u32];
    if s[0] == 0 && s[1] == 0 && s[2] == 0 && s[3] == 0 {
        s[0] = 1;
    }
    s
}

/// One xoshiro128++ draw.
pub fn xnext(s: &mut [u32; 4]) -> (x: u32)
    ensures
        x == output(words(*old(s))),
        words(*final(s)) == next_words(words(*old(s))),
{
    let result: u32 = rotl(s[0].wrapping_add(s[3]), 7).wrapping_add(s[0]);
    let t: u32 = s[1] << 9;
    s[2] ^= s[0];
    s[3] ^= s[1];
    s[1] ^= s[2];
    s[0] ^= s[3];
    s[2] ^= t;
    s[3] = rotl(s[3], 11);
    result
}

/// A number below `MAX`, each as likely as the others: draws below the
/// threshold are thrown away. From the all-zero state, which draws nothing but
/// zeros, only a bound that throws nothing away will do.
pub fn xint_const<const MAX: u32>(s: &mut [u32; 4]) -> (r: u32)
    requires
        0 < MAX,
        !is_zero(words(*old(s))) || threshold(MAX) == 0,
    ensures
        r == bounded(words(*old(s)), MAX),
        words(*final(s)) == bounded_words(words(*old(s)), MAX),
        first_kept(words(*old(s)), MAX, rejections(words(*old(s)), MAX)),
        r < MAX,
        !is_zero(words(*old(s))) ==> !is_zero(words(*final(s))),
{
    let thr: u32 = (0x100000000u64 % MAX as u64) as u32;
    let ghost start = words(*s);
    let ghost mut k: nat = 0;
    proof {
        law_draw_ends_unless_stuck(start, MAX);
        lemma_first_kept(start, MAX);
    }
    loop
        invariant
            0 < MAX,
            thr == threshold(MAX),
            first_kept(start, MAX, rejections(start, MAX)),
            words(*s) == words_after(k, start),
            k <= rejections(start, MAX),
            bounded(start, MAX) < MAX,
            !is_zero(start) ==> !is_zero(bounded_words(start, MAX)),
            start == words(*old(s)),
        decreases rejections(start, MAX) - k,
    {
        let x: u32 = xnext(s);
        if x >= thr {
            proof {
                assert(accepts(start, MAX, k));
                assert(k == rejections(start, MAX));
            }
            return x % MAX;
        }
        proof {
            assert(!accepts(start, MAX, k));
            k = k + 1;
        }
    }
}

proof fn lemma_halving_shifts(z: u64)
    by (bit_vector)
    ensures
        z >> 30u64 == z / 0x4000_0000u64,
        z >> 27u64 == z / 0x800_0000u64,
        z >> 31u64 == z / 0x8000_0000u64,
        z >> 32u64 == z / 0x1_0000_0000u64,
        (z as u32) as u64 == z % 0x1_0000_0000u64,
        ((z >> 32u64) as u32) as u64 == z / 0x1_0000_0000u64,
{
}

proof fn lemma_folds_are_one_to_one(a: u64, b: u64)
    by (bit_vector)
    ensures
        a ^ (a >> 30u64) == b ^ (b >> 30u64) ==> a == b,
        a ^ (a >> 27u64) == b ^ (b >> 27u64) ==> a == b,
        a ^ (a >> 31u64) == b ^ (b >> 31u64) ==> a == b,
{
}

/// A product with `c` modulo 2 to the power of 64 can be undone by `d`, where
/// the two multiply to one.
proof fn lemma_product_undone(a: u64, c: u64, d: u64)
    requires
        (c * d) % 0x1_0000_0000_0000_0000int == 1,
    ensures
        (a.wrapping_mul(c) * d) % 0x1_0000_0000_0000_0000int == a,
{
    let m = 0x1_0000_0000_0000_0000int;
    div_mod::lemma_mul_mod_noop_left(a * c, d as int, m);
    assert((a * c) * d == a * (c * d)) by (nonlinear_arith);
    div_mod::lemma_mul_mod_noop_right(a as int, c * d, m);
    assert(a * 1 == a) by (nonlinear_arith);
}

/// Law: mixing loses nothing. Two counters that are mixed to the same number are
/// one.
pub proof fn law_mixing_is_one_to_one(a: u64, b: u64)
    requires
        mixed(a) == mixed(b),
    ensures
        a == b,
{
    let fa: u64 = a ^ (a >> 30u64);
    let fb: u64 = b ^ (b >> 30u64);
    let va: u64 = fa.wrapping_mul(0xbf58476d1ce4e5b9);
    let vb: u64 = fb.wrapping_mul(0xbf58476d1ce4e5b9);
    let ga: u64 = va ^ (va >> 27u64);
    let gb: u64 = vb ^ (vb >> 27u64);
    let wa: u64 = ga.wrapping_mul(0x94d049bb133111eb);
    let wb: u64 = gb.wrapping_mul(0x94d049bb133111eb);
    lemma_folds_are_one_to_one(a, b);
    lemma_folds_are_one_to_one(va, vb);
    lemma_folds_are_one_to_one(wa, wb);
    lemma_product_undone(fa, 0xbf58476d1ce4e5b9, 0x96de1b173f119089);
    lemma_product_undone(fb, 0xbf58476d1ce4e5b9, 0x96de1b173f119089);
    lemma_product_undone(ga, 0x94d049bb133111eb, 0x319642b2d24d8ec3);
    lemma_product_undone(gb, 0x94d049bb133111eb, 0x319642b2d24d8ec3);
}

/// Law: mixing is three folds with a product after each of the first two. A fold
/// is the exclusive or with the number's quotient by a power of two; products
/// are taken modulo 2 to the power of 64.
pub proof fn law_mixing_folds_and_multiplies(z: u64, v: u64, w: u64)
    requires
        v == ((z ^ (z / 0x4000_0000)) * 0xbf58476d1ce4e5b9) % 0x1_0000_0000_0000_0000int,
        w == ((v ^ (v / 0x800_0000)) * 0x94d049bb133111eb) % 0x1_0000_0000_0000_0000int,
    ensures
        mixed(z) == w ^ (w / 0x8000_0000),
{
    lemma_halving_shifts(z);
    lemma_halving_shifts(v);
    lemma_halving_shifts(w);
}

/// Law: a seed starts the generator with the first two numbers of its splitmix64
/// sequence, each low half first. Only where both are zero does the state begin
/// with one instead.
pub proof fn law_seed_fills_the_state(seed: u64, a: u64, b: u64, s: [u32; 4])
    requires
        call_ensures(xseed, (seed,), s),
        a == mixed(((seed + 0x9e3779b97f4a7c15) % 0x1_0000_0000_0000_0000int) as u64),
        b == mixed(((seed + 2 * 0x9e3779b97f4a7c15) % 0x1_0000_0000_0000_0000int) as u64),
    ensures
        a != 0 || b != 0 ==> s[0] + s[1] * 0x1_0000_0000 == a && s[2] + s[3] * 0x1_0000_0000 == b,
        a == 0 && b == 0 ==> s[0] == 1 && s[1] == 0 && s[2] == 0 && s[3] == 0,
{
    lemma_halving_shifts(a);
    lemma_halving_shifts(b);
}

proof fn lemma_rotation_words(x: u32)
    by (bit_vector)
    ensures
        (x << 7u32) | (x >> 25u32) == (((x * 0x80) as u32) + x / 0x200_0000u32) as u32,
        ((x * 0x80) as u32) + x / 0x200_0000u32 <= 0xffff_ffff,
        (x << 11u32) | (x >> 21u32) == (((x * 0x800) as u32) + x / 0x20_0000u32) as u32,
        ((x * 0x800) as u32) + x / 0x20_0000u32 <= 0xffff_ffff,
        x << 9u32 == (x * 0x200) as u32,
{
}

proof fn lemma_low_half(y: u64)
    by (bit_vector)
    ensures
        y as u32 == y % 0x1_0000_0000,
{
}

proof fn lemma_rotations(x: u32)
    ensures
        rotated(x, 7) == (x * 0x80) % 0x1_0000_0000 + x / 0x200_0000,
        rotated(x, 11) == (x * 0x800) % 0x1_0000_0000 + x / 0x20_0000,
        x << 9u32 == (x * 0x200) % 0x1_0000_0000,
{
    lemma_rotation_words(x);
    lemma_low_half((x * 0x80) as u64);
    lemma_low_half((x * 0x800) as u64);
    lemma_low_half((x * 0x200) as u64);
}

/// Law: a draw is the sum of the first and the last word, turned by seven bits,
/// plus the first word, all modulo 2 to the power of 32.
pub proof fn law_draw_turns_a_sum(s: Words, sum: u32)
    requires
        sum == (s.s0 + s.s3) % 0x1_0000_0000,
    ensures
        output(s) == ((sum * 0x80) % 0x1_0000_0000 + sum / 0x200_0000 + s.s0) % 0x1_0000_0000,
{
    lemma_rotations(sum);
}

/// Law: a draw leaves sums of the words, in the sense of exclusive or, with the
/// second word moved up by nine bits in one of them and another turned by
/// eleven.
pub proof fn law_draw_moves_the_words(s: Words, turned: u32)
    requires
        turned == s.s1 ^ s.s3,
    ensures
        next_words(s).s0 == s.s0 ^ s.s1 ^ s.s3,
        next_words(s).s1 == s.s0 ^ s.s1 ^ s.s2,
        next_words(s).s2 == s.s0 ^ s.s2 ^ (((s.s1 * 0x200) % 0x1_0000_0000) as u32),
        next_words(s).s3 == (turned * 0x800) % 0x1_0000_0000 + turned / 0x20_0000,
{
    lemma_rotations(s.s1);
    lemma_rotations(turned);
    let (a, b, c, d) = (s.s0, s.s1, s.s2, s.s3);
    assert(a ^ (d ^ b) == a ^ b ^ d && b ^ (c ^ a) == a ^ b ^ c && d ^ b == b ^ d && c ^ a == a ^ c)
        by (bit_vector);
}

/// Law: a bounded draw throws numbers away up to the first that is no smaller
/// than the remainder of 2 to the power of 32, and gives the remainder of that
/// one.
pub proof fn law_first_large_draw_counts(s: Words, max: u32, k: nat)
    requires
        0 < max,
        output(words_after(k, s)) >= 0x1_0000_0000int % (max as int),
        forall|j: nat| j < k ==> output(#[trigger] words_after(j, s)) < 0x1_0000_0000int % (max as int),
    ensures
        bounded(s, max) == output(words_after(k, s)) as int % (max as int),
        bounded_words(s, max) == next_words(words_after(k, s)),
        words_after(0, s) == s,
        words_after(k + 1, s) == next_words(words_after(k, s)),
{
    assert(forall|j: nat| j < k ==> !accepts(s, max, j));
    assert(first_kept(s, max, k));
    lemma_rejections_unique(s, max, k);
}

} // verus!
