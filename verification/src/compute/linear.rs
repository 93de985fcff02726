//! The xoshiro128 state transition as a linear map over GF(2).
//!
//! A generator state is packed into one `u128`. The transition is linear for
//! exclusive or, so a polynomial over GF(2), written as the `u128` of its
//! coefficients, acts on states: `apply(r, s)` adds up the states that lie
//! `i` steps after `s`, for every coefficient `i` of `r` that is set.
use vstd::prelude::*;

use crate::compute::transition;

verus! {

/// The state `k` steps after `s`.
pub open spec fn after(k: nat, s: u128) -> u128
    decreases k,
{
    if k == 0 {
        s
    } else {
        let t: u128 = after((k - 1) as nat, s);
        transition::advance(t)
    }
}

/// `c` where coefficient `i` of the polynomial `r` is set, else nothing.
pub open spec fn pick(r: u128, i: u128, c: u128) -> u128 {
    if (r >> i) & 1u128 == 1u128 {
        c
    } else {
        0u128
    }
}

/// The `n` highest coefficients of `r`, applied to the state `s` in Horner's
/// way: one step for each coefficient that follows.
pub open spec fn climb(r: u128, n: u32, s: u128) -> u128
    decreases n,
{
    if n == 0 {
        0u128
    } else {
        let t: u128 = climb(r, (n - 1) as u32, s);
        transition::advance(t) ^ pick(r, (128 - n) as u128, s)
    }
}

/// The polynomial `r` applied to the state `s`.
pub open spec fn apply(r: u128, s: u128) -> u128 {
    climb(r, 128, s)
}

/// Multiplication by `x` modulo `x^128 + p`.
pub open spec fn times_x(r: u128, p: u128) -> u128 {
    (r << 1u128) ^ pick(r, 127, p)
}

proof fn lemma_xor_regroup(a: u128, b: u128, c: u128, d: u128)
    by (bit_vector)
    ensures
        (a ^ b) ^ (c ^ d) == (a ^ c) ^ (b ^ d),
        (a ^ b) ^ c == a ^ (b ^ c),
        a ^ b == b ^ a,
        a ^ 0 == a,
        0 ^ a == a,
{
}

proof fn lemma_pick(r: u128, q: u128, i: u128, c: u128, d: u128)
    by (bit_vector)
    requires
        i < 128,
    ensures
        pick(r ^ q, i, c) == pick(r, i, c) ^ pick(q, i, c),
        pick(r, i, c ^ d) == pick(r, i, c) ^ pick(r, i, d),
        pick(0, i, c) == 0,
        pick(r, i, 0) == 0,
        i < 127 ==> pick(r << 1u128, (i + 1) as u128, c) == pick(r, i, c),
        pick(r << 1u128, 0, c) == 0,
{
}

proof fn lemma_after_linear(k: nat, u: u128, v: u128)
    ensures
        after(k, u ^ v) == after(k, u) ^ after(k, v),
        after(k, 0) == 0,
    decreases k,
{
    if k > 0 {
        let p = (k - 1) as nat;
        lemma_after_linear(p, u, v);
        transition::lemma_advance_linear(after(p, u), after(p, v));
    }
}

pub proof fn lemma_after_add(i: nat, j: nat, s: u128)
    ensures
        after(i + j, s) == after(i, after(j, s)),
    decreases i,
{
    if i > 0 {
        lemma_after_add((i - 1) as nat, j, s);
    }
}

/// Polynomials add up.
proof fn lemma_climb_add(r: u128, q: u128, n: u32, s: u128)
    requires
        n <= 128,
    ensures
        climb(r ^ q, n, s) == climb(r, n, s) ^ climb(q, n, s),
    decreases n,
{
    if n == 0 {
        lemma_xor_regroup(0, 0, 0, 0);
    } else {
        let p = (n - 1) as u32;
        let i = (128 - n) as u128;
        lemma_climb_add(r, q, p, s);
        lemma_pick(r, q, i, s, s);
        let u = climb(r, p, s);
        let v = climb(q, p, s);
        transition::lemma_advance_linear(u, v);
        lemma_xor_regroup(
            transition::advance(u),
            transition::advance(v),
            pick(r, i, s),
            pick(q, i, s),
        );
    }
}

/// Steps commute with polynomials in the transition.
proof fn lemma_after_climb(k: nat, r: u128, n: u32, s: u128)
    requires
        n <= 128,
    ensures
        after(k, climb(r, n, s)) == climb(r, n, after(k, s)),
    decreases n,
{
    lemma_after_linear(k, 0, 0);
    if n > 0 {
        let p = (n - 1) as u32;
        let i = (128 - n) as u128;
        let u = climb(r, p, s);
        lemma_after_climb(k, r, p, s);
        lemma_after_linear(k, transition::advance(u), pick(r, i, s));
        lemma_after_add(k, 1, u);
        lemma_after_add(1, k, u);
        reveal_with_fuel(after, 2);
        assert(after(1, u) == transition::advance(u));
        assert(after(1, after(k, u)) == transition::advance(after(k, u)));
    }
}

pub proof fn lemma_after_apply(k: nat, r: u128, s: u128)
    ensures
        after(k, apply(r, s)) == apply(r, after(k, s)),
{
    lemma_after_climb(k, r, 128, s);
}

pub proof fn lemma_apply_add(r: u128, q: u128, s: u128)
    ensures
        apply(r ^ q, s) == apply(r, s) ^ apply(q, s),
{
    lemma_climb_add(r, q, 128, s);
}

pub proof fn lemma_apply_zero(s: u128)
    ensures
        apply(0, s) == 0,
{
    let u = apply(0, s);
    lemma_xor_regroup(0, 0, 0, 0);
    lemma_apply_add(0, 0, s);
    assert(u == 0) by (bit_vector)
        requires
            u == u ^ u,
    ;
}

/// The highest coefficient is taken first.
proof fn lemma_climb_shift(r: u128, n: u32, s: u128)
    requires
        0 < n <= 128,
    ensures
        climb(r, n, s) == after((n - 1) as nat, pick(r, 127, s)) ^ climb(
            r << 1u128,
            (n - 1) as u32,
            s,
        ),
    decreases n,
{
    let p = (n - 1) as u32;
    let i = (128 - n) as u128;
    if n == 1 {
        reveal_with_fuel(climb, 2);
        transition::lemma_advance_linear(0, 0);
        lemma_xor_regroup(pick(r, 127, s), 0, 0, 0);
    } else {
        let u = after((p - 1) as nat, pick(r, 127, s));
        let v = climb(r << 1u128, (p - 1) as u32, s);
        lemma_climb_shift(r, p, s);
        transition::lemma_advance_linear(u, v);
        lemma_pick(r, 0, i, s, 0);
        lemma_xor_regroup(transition::advance(u), transition::advance(v), pick(r, i, s), 0);
    }
}

/// Where `x^128 + p` annihilates `s`, one more step is multiplication by `x`.
pub proof fn lemma_advance_apply(r: u128, p: u128, s: u128)
    requires
        after(128, s) == apply(p, s),
    ensures
        transition::advance(apply(r, s)) == apply(times_x(r, p), s),
{
    let top = after(127, pick(r, 127, s));
    let low = climb(r << 1u128, 127, s);
    lemma_climb_shift(r, 128, s);
    transition::lemma_advance_linear(top, low);
    lemma_pick(r, 0, 0, s, 0);
    lemma_xor_regroup(transition::advance(low), 0, 0, 0);
    lemma_xor_regroup(transition::advance(top), transition::advance(low), 0, 0);
    lemma_apply_add(r << 1u128, pick(r, 127, p), s);
    lemma_after_linear(128, 0, 0);
    lemma_apply_zero(s);
    assert(transition::advance(top) == after(128, pick(r, 127, s)));
    assert(apply(pick(r, 127, p), s) == after(128, pick(r, 127, s)));
}

} // verus!
