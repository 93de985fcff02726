//! Powers of a step of the generator.
//!
//! From the state `1`, any number of steps is a polynomial in the transition:
//! the power of `x` modulo the transition's annihilating polynomial. Powers are
//! worked out by squaring and multiplying, along the binary digits of the
//! exponent.
use vstd::prelude::*;

use crate::compute::linear;

verus! {

/// The polynomial of the transition, without its leading term `x^128`.
pub const FEEDBACK: u128 = 0xfc65a2006254b11b489db6de18fc01;

/// The polynomial `r` times the `n` highest coefficients of `q`.
pub open spec fn product_high(r: u128, q: u128, n: u32) -> u128
    decreases n,
{
    if n == 0 {
        0u128
    } else {
        let t: u128 = product_high(r, q, (n - 1) as u32);
        linear::times_x(t, FEEDBACK) ^ linear::pick(q, (128 - n) as u128, r)
    }
}

/// The product of two polynomials modulo `x^128 + FEEDBACK`.
pub open spec fn product(r: u128, q: u128) -> u128 {
    product_high(r, q, 128)
}

/// The power `r^e` modulo `x^128 + FEEDBACK`.
pub open spec fn power(r: u128, e: u128) -> u128
    decreases e,
{
    if e == 0 {
        1u128
    } else {
        let h: u128 = power(r, (e / 2) as u128);
        let s: u128 = product(h, h);
        if e % 2 == 1 {
            product(s, r)
        } else {
            s
        }
    }
}

/// `k` steps from the state `1` are the polynomial `r` on it.
pub open spec fn represents(k: nat, r: u128) -> bool {
    linear::after(k, 1) == linear::apply(r, 1)
}

/// What the polynomials `1`, `x` and `x^128` come to on the state `1`.
proof fn lemma_first_powers()
    by (bit_vector)
    ensures
        linear::apply(1, 1) == 1,
        linear::apply(2, 1) == linear::after(1, 1),
        linear::apply(FEEDBACK, 1) == linear::after(128, 1),
{
}

proof fn lemma_product_high(r: u128, q: u128, n: u32)
    requires
        n <= 128,
    ensures
        linear::apply(product_high(r, q, n), 1) == linear::climb(q, n, linear::apply(r, 1)),
    decreases n,
{
    if n == 0 {
        linear::lemma_apply_zero(1);
    } else {
        let t = product_high(r, q, (n - 1) as u32);
        let c = linear::pick(q, (128 - n) as u128, r);
        lemma_product_high(r, q, (n - 1) as u32);
        lemma_first_powers();
        linear::lemma_advance_apply(t, FEEDBACK, 1);
        linear::lemma_apply_add(linear::times_x(t, FEEDBACK), c, 1);
        linear::lemma_apply_zero(1);
    }
}

/// As many steps as two polynomials stand for together are their product.
proof fn lemma_product(i: nat, r: u128, j: nat, q: u128)
    requires
        represents(i, r),
        represents(j, q),
    ensures
        represents(i + j, product(r, q)),
{
    linear::lemma_after_add(i, j, 1);
    linear::lemma_after_apply(i, q, 1);
    lemma_product_high(r, q, 128);
}

/// `e` steps are the power `x^e`.
proof fn lemma_power(e: u128)
    ensures
        represents(e as nat, power(2, e)),
    decreases e,
{
    lemma_first_powers();
    if e > 0 {
        let k = (e / 2) as nat;
        let h = power(2, (e / 2) as u128);
        lemma_power((e / 2) as u128);
        lemma_product(k, h, k, h);
        lemma_product(k + k, product(h, h), 1, 2);
    }
}

/// The powers of `x` that bring the state `1` back, or would bring it back too
/// early.
proof fn lemma_power_values()
    by (bit_vector)
    ensures
        linear::apply(power(2, 0xffffffffffffffffffffffffffffffff), 1) == 1,
        linear::apply(power(2, 0x55555555555555555555555555555555), 1) != 1,
        linear::apply(power(2, 0x33333333333333333333333333333333), 1) != 1,
        linear::apply(power(2, 0xf0f0f0f0f0f0f0f0f0f0f0f0f0f0f0f), 1) != 1,
        linear::apply(power(2, 0xff00ff00ff00ff00ff00ff00ff00ff), 1) != 1,
        linear::apply(power(2, 0x663d80ff99c27f00663d80ff99c27f), 1) != 1,
        linear::apply(power(2, 0xffff0000ffff0000ffff0000ffff), 1) != 1,
        linear::apply(power(2, 0x3d30f19cd100ffffc2cf0e632eff), 1) != 1,
        linear::apply(power(2, 0x280fffffd7f00000280fffffd7f), 1) != 1,
        linear::apply(power(2, 0x42f00fffffffffffbd0ff), 1) != 1,
{
}

/// The state `1` comes back after as many steps as there are states other than
/// zero, and not after that number divided by one of its prime factors.
pub proof fn lemma_returns_to_one()
    ensures
        linear::after(0xffffffffffffffffffffffffffffffff, 1) == 1,
        linear::after(0x55555555555555555555555555555555, 1) != 1,
        linear::after(0x33333333333333333333333333333333, 1) != 1,
        linear::after(0xf0f0f0f0f0f0f0f0f0f0f0f0f0f0f0f, 1) != 1,
        linear::after(0xff00ff00ff00ff00ff00ff00ff00ff, 1) != 1,
        linear::after(0x663d80ff99c27f00663d80ff99c27f, 1) != 1,
        linear::after(0xffff0000ffff0000ffff0000ffff, 1) != 1,
        linear::after(0x3d30f19cd100ffffc2cf0e632eff, 1) != 1,
        linear::after(0x280fffffd7f00000280fffffd7f, 1) != 1,
        linear::after(0x42f00fffffffffffbd0ff, 1) != 1,
{
    lemma_power_values();
    lemma_power(0xffffffffffffffffffffffffffffffff);
    lemma_power(0x55555555555555555555555555555555);
    lemma_power(0x33333333333333333333333333333333);
    lemma_power(0xf0f0f0f0f0f0f0f0f0f0f0f0f0f0f0f);
    lemma_power(0xff00ff00ff00ff00ff00ff00ff00ff);
    lemma_power(0x663d80ff99c27f00663d80ff99c27f);
    lemma_power(0xffff0000ffff0000ffff0000ffff);
    lemma_power(0x3d30f19cd100ffffc2cf0e632eff);
    lemma_power(0x280fffffd7f00000280fffffd7f);
    lemma_power(0x42f00fffffffffffbd0ff);
}

} // verus!
