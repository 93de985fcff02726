//! The generator's orbit: from every state but zero it comes to every other.
//!
//! The state `1` comes back after `2^128 - 1` steps, and not after that number
//! divided by any of its prime factors. So it takes as many steps as there are
//! states other than zero, and meets each of them on the way.
use vstd::prelude::*;

use crate::compute::cycle;
use crate::compute::linear;
use crate::compute::powers;
use crate::compute::primes;
use crate::compute::rng;
use crate::compute::transition;

verus! {

/// The number of states other than zero.
pub const STATES: u128 = 0xffff_ffff_ffff_ffff_ffff_ffff_ffff_ffff;

spec fn advance_int() -> spec_fn(int) -> int {
    |s: int| transition::advance(s as u128) as int
}

proof fn lemma_walk(k: nat)
    ensures
        cycle::walk(advance_int(), 1, k) == linear::after(k, 1),
    decreases k,
{
    if k > 0 {
        lemma_walk((k - 1) as nat);
    }
}

/// The only state that leads to zero is zero.
proof fn lemma_advance_nonzero(s: u128)
    by (bit_vector)
    requires
        s != 0,
    ensures
        transition::advance(s) != 0,
{
}

proof fn lemma_after_nonzero(k: nat, s: u128)
    requires
        s != 0,
    ensures
        linear::after(k, s) != 0,
    decreases k,
{
    if k > 0 {
        lemma_after_nonzero((k - 1) as nat, s);
        lemma_advance_nonzero(linear::after((k - 1) as nat, s));
    }
}

/// A prime factor of the number of states is one of the period, where the walk
/// is not back after the number divided by it.
proof fn lemma_prime_in_period(m: nat, p: nat, e: nat)
    requires
        cycle::is_period(advance_int(), 1, m),
        STATES as nat % m == 0,
        primes::is_prime(p),
        STATES == p * e,
        linear::after(e, 1) != 1,
    ensures
        m % p == 0,
{
    lemma_walk(e);
    cycle::lemma_returns(advance_int(), 1, m, e);
    primes::lemma_multiple(p, e);
    primes::lemma_prime_kept(p, m, STATES as nat);
}

/// The walk from the state `1` comes back after no fewer steps than there are
/// states other than zero.
proof fn lemma_full_period()
    ensures
        cycle::is_period(advance_int(), 1, STATES as nat),
{
    let step = advance_int();
    let n = STATES as nat;
    powers::lemma_returns_to_one();
    primes::lemma_primes();
    lemma_walk(n);
    cycle::lemma_period_exists(step, 1, n);
    let m = choose|m: nat| cycle::is_period(step, 1, m);
    cycle::lemma_returns(step, 1, m, n);
    lemma_prime_in_period(m, 3, 0x55555555555555555555555555555555);
    lemma_prime_in_period(m, 5, 0x33333333333333333333333333333333);
    lemma_prime_in_period(m, 17, 0xf0f0f0f0f0f0f0f0f0f0f0f0f0f0f0f);
    lemma_prime_in_period(m, 257, 0xff00ff00ff00ff00ff00ff00ff00ff);
    lemma_prime_in_period(m, 641, 0x663d80ff99c27f00663d80ff99c27f);
    lemma_prime_in_period(m, 65537, 0xffff0000ffff0000ffff0000ffff);
    lemma_prime_in_period(m, 274177, 0x3d30f19cd100ffffc2cf0e632eff);
    lemma_prime_in_period(m, 6700417, 0x280fffffd7f00000280fffffd7f);
    lemma_prime_in_period(m, 67280421310721, 0x42f00fffffffffffbd0ff);
    primes::lemma_prime_joins(3, 5, m);
    primes::lemma_prime_joins(15, 17, m);
    primes::lemma_prime_joins(255, 257, m);
    primes::lemma_prime_joins(65535, 641, m);
    primes::lemma_prime_joins(0x280fd7f, 65537, m);
    primes::lemma_prime_joins(0x280fffffd7f, 274177, m);
    primes::lemma_prime_joins(0xa79b180f5864e7f, 6700417, m);
    primes::lemma_prime_joins(0x42f00fffffffffffbd0ff, 67280421310721, m);
    primes::lemma_quotient(m, n);
    primes::lemma_quotient(n, m);
}

/// Every state but zero is met on the way from the state `1`.
proof fn lemma_met(s: u128) -> (k: nat)
    requires
        s != 0,
    ensures
        k < STATES,
        linear::after(k, 1) == s,
{
    let step = advance_int();
    let n = STATES as nat;
    lemma_full_period();
    assert forall|k: nat| 1 <= #[trigger] cycle::walk(step, 1, k) < n + 1 by {
        lemma_walk(k);
        lemma_after_nonzero(k, 1);
    }
    cycle::lemma_room(step, 1, n, 1, n as int + 1);
    assert(cycle::meets(step, 1, n, s as int));
    let k = choose|k: nat| k < n && #[trigger] cycle::walk(step, 1, k) == s as int;
    lemma_walk(k);
    k
}

spec fn packed(s: rng::Words) -> u128 {
    transition::pack(s.s0, s.s1, s.s2, s.s3)
}

proof fn lemma_packed_after(k: nat, s: rng::Words)
    ensures
        packed(rng::words_after(k, s)) == linear::after(k, packed(s)),
    decreases k,
{
    if k > 0 {
        let t = rng::words_after((k - 1) as nat, s);
        lemma_packed_after((k - 1) as nat, s);
        transition::lemma_advance_pack(t.s0, t.s1, t.s2, t.s3);
    }
}

/// From every state but zero some number of draws leads to every other.
pub proof fn lemma_reaches(s: rng::Words, t: rng::Words) -> (k: nat)
    requires
        !rng::is_zero(s),
        !rng::is_zero(t),
    ensures
        rng::words_after(k, s) == t,
{
    let n = STATES as nat;
    let u = packed(s);
    let v = packed(t);
    transition::lemma_pack_words(s.s0, s.s1, s.s2, s.s3);
    transition::lemma_pack_words(t.s0, t.s1, t.s2, t.s3);
    let i = lemma_met(u);
    let j = lemma_met(v);
    let k = (j + n - i) as nat;
    linear::lemma_after_add(k, i, 1);
    linear::lemma_after_add(j, n, 1);
    powers::lemma_returns_to_one();
    lemma_packed_after(k, s);
    let w = rng::words_after(k, s);
    transition::lemma_pack_words(w.s0, w.s1, w.s2, w.s3);
    k
}

} // verus!
