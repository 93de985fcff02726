//! Prime numbers: how they divide products, and some that are prime.
//!
//! Small numbers are tried by every possible divisor. The largest of the primes
//! here is shown to be one by the period of a walk: modulo a divisor of it, the
//! powers of three take longer to come back to one than a divisor of its size
//! has room for.
use vstd::arithmetic::div_mod;
use vstd::arithmetic::power;
use vstd::prelude::*;

use crate::compute::cycle;

verus! {

pub open spec fn is_prime(p: nat) -> bool {
    &&& 1 < p
    &&& forall|d: nat| 1 < d < p ==> #[trigger] (p % d) != 0
}

/// The largest prime factor of `2^64 + 1`.
pub const LARGE: u64 = 67280421310721;

/// A multiple of `d` is `d` times its quotient.
pub proof fn lemma_quotient(n: nat, d: nat)
    requires
        0 < d,
        n % d == 0,
    ensures
        n == d * (n / d),
        0 < n ==> d <= n,
{
    div_mod::lemma_fundamental_div_mod(n as int, d as int);
    let k = n / d;
    assert(0 < n ==> d <= n) by (nonlinear_arith)
        requires
            n == d * k,
    ;
}

pub proof fn lemma_multiple(d: nat, k: nat)
    requires
        0 < d,
    ensures
        (d * k) % d == 0,
        (d * k) / d == k,
{
    assert(d * k == k * d) by (nonlinear_arith);
    div_mod::lemma_fundamental_div_mod_converse((d * k) as int, d as int, k as int, 0);
}

/// The multiples of `b` modulo `p`, one after another.
spec fn add_mod(b: nat, p: nat) -> spec_fn(int) -> int {
    |v: int| (v + b) % (p as int)
}

proof fn lemma_multiples(b: nat, p: nat, k: nat)
    requires
        0 < p,
    ensures
        cycle::walk(add_mod(b, p), 0, k) == (b * k) % p,
    decreases k,
{
    if k == 0 {
        assert(b * k == 0) by (nonlinear_arith)
            requires
                k == 0,
        ;
        div_mod::lemma_small_mod(0, p);
    } else {
        let j = (k - 1) as nat;
        lemma_multiples(b, p, j);
        assert(b * k == b * j + b) by (nonlinear_arith)
            requires
                k == j + 1,
        ;
        div_mod::lemma_add_mod_noop((b * j) as int, b as int, p as int);
        div_mod::lemma_add_mod_noop(((b * j) % p) as int, b as int, p as int);
        div_mod::lemma_mod_twice((b * j) as int, p as int);
    }
}

/// A prime that divides a product divides one of the factors.
pub proof fn lemma_prime_divides(p: nat, a: nat, b: nat)
    requires
        is_prime(p),
        (a * b) % p == 0,
    ensures
        a % p == 0 || b % p == 0,
{
    let step = add_mod(b, p);
    assert(a * b == b * a) by (nonlinear_arith);
    lemma_multiples(b, p, p);
    lemma_multiples(b, p, a);
    lemma_multiples(b, p, 1);
    assert(b * 1 == b) by (nonlinear_arith);
    assert(b * p == p * b) by (nonlinear_arith);
    lemma_multiple(p, b);
    cycle::lemma_period_exists(step, 0, p);
    let m = choose|m: nat| cycle::is_period(step, 0, m);
    cycle::lemma_returns(step, 0, m, p);
    cycle::lemma_returns(step, 0, m, a);
    lemma_quotient(p, m);
    assert(m == 1 || m == p);
}

/// What divides `n`, but not `n / p`, is a multiple of `p`.
pub proof fn lemma_prime_kept(p: nat, m: nat, n: nat)
    requires
        is_prime(p),
        0 < m,
        n % p == 0,
        n % m == 0,
        (n / p) % m != 0,
    ensures
        m % p == 0,
{
    let g = n / m;
    lemma_quotient(n, m);
    lemma_prime_divides(p, m, g);
    if m % p != 0 {
        let h = g / p;
        lemma_quotient(g, p);
        assert(m * (p * h) == p * (m * h)) by (nonlinear_arith);
        lemma_multiple(p, m * h);
        lemma_multiple(m, h);
    }
}

/// What is a multiple of `c` and of a prime that does not divide `c` is a
/// multiple of both together.
pub proof fn lemma_prime_joins(c: nat, p: nat, m: nat)
    requires
        is_prime(p),
        0 < c,
        c % p != 0,
        m % c == 0,
        m % p == 0,
    ensures
        m % (c * p) == 0,
{
    let k = m / c;
    lemma_quotient(m, c);
    lemma_prime_divides(p, c, k);
    lemma_quotient(k, p);
    let h = k / p;
    assert(c * (p * h) == (c * p) * h) by (nonlinear_arith);
    assert(0 < c * p) by (nonlinear_arith)
        requires
            0 < c,
            0 < p,
    ;
    lemma_multiple(c * p, h);
}

/// No number from `lo` to below `hi` divides `n`.
pub open spec fn none_divides(n: u64, lo: u64, hi: u64) -> bool
    decreases hi - lo,
{
    if hi <= lo {
        true
    } else if hi - lo == 1 {
        n % lo != 0
    } else {
        let mid: u64 = ((lo + hi) / 2) as u64;
        none_divides(n, lo, mid) && none_divides(n, mid, hi)
    }
}

proof fn lemma_none_divides(n: u64, lo: u64, hi: u64, d: u64)
    requires
        none_divides(n, lo, hi),
        lo <= d < hi,
    ensures
        n % d != 0,
    decreases hi - lo,
{
    if hi - lo > 1 {
        let mid: u64 = ((lo + hi) / 2) as u64;
        if d < mid {
            lemma_none_divides(n, lo, mid, d);
        } else {
            lemma_none_divides(n, mid, hi, d);
        }
    }
}

/// A number is prime where no divisor can be the smaller of two.
proof fn lemma_prime_by_bound(n: nat, bound: nat)
    requires
        1 < n < bound * bound,
        forall|d: nat| 1 < d < bound ==> #[trigger] (n % d) != 0,
    ensures
        is_prime(n),
{
    assert forall|d: nat| 1 < d < n implies #[trigger] (n % d) != 0 by {
        if n % d == 0 {
            let e = n / d;
            lemma_quotient(n, d);
            assert(d * e == e * d) by (nonlinear_arith);
            assert(1 < e) by (nonlinear_arith)
                requires
                    n == d * e,
                    1 < d < n,
            ;
            lemma_multiple(e, d);
            assert(n % e == 0);
            assert(d < bound || e < bound) by (nonlinear_arith)
                requires
                    d * e < bound * bound,
            ;
        }
    }
}

proof fn lemma_prime_by_trial(n: u64, bound: u64)
    requires
        1 < n < bound * bound,
        none_divides(n, 2, bound),
    ensures
        is_prime(n as nat),
{
    assert forall|d: nat| 1 < d < bound implies #[trigger] (n as nat % d) != 0 by {
        lemma_none_divides(n, 2, bound, d as u64);
    }
    lemma_prime_by_bound(n as nat, bound as nat);
}

proof fn lemma_trials()
    by (bit_vector)
    ensures
        none_divides(3, 2, 2),
        none_divides(5, 2, 3),
        none_divides(17, 2, 5),
        none_divides(257, 2, 17),
        none_divides(641, 2, 26),
        none_divides(65537, 2, 257),
        none_divides(274177, 2, 524),
        none_divides(2998279, 2, 1732),
        none_divides(6700417, 2, 2589),
{
}

/// The power `a^e` modulo `n`.
pub open spec fn power_mod(a: nat, e: nat, n: nat) -> nat
    decreases e,
{
    if e == 0 {
        1nat % n
    } else {
        let h: nat = power_mod(a, e / 2, n);
        let s: nat = (h * h) % n;
        if e % 2 == 1 {
            (s * a) % n
        } else {
            s
        }
    }
}

proof fn lemma_power_mod(a: nat, e: nat, n: nat)
    requires
        0 < n,
    ensures
        power_mod(a, e, n) == power::pow(a as int, e) % (n as int),
    decreases e,
{
    if e == 0 {
        power::lemma_pow0(a as int);
    } else {
        let k = e / 2;
        let w = power::pow(a as int, k);
        lemma_power_mod(a, k, n);
        power::lemma_pow_adds(a as int, k, k);
        div_mod::lemma_mul_mod_noop(w, w, n as int);
        if e % 2 == 1 {
            power::lemma_pow_adds(a as int, k + k, 1);
            power::lemma_pow1(a as int);
            div_mod::lemma_mul_mod_noop_left(w * w, a as int, n as int);
        }
    }
}

/// The powers of `a` modulo `r`, one after another.
spec fn mul_mod(a: nat, r: nat) -> spec_fn(int) -> int {
    |v: int| (v * a) % (r as int)
}

proof fn lemma_powers(a: nat, r: nat, k: nat)
    requires
        1 < r,
    ensures
        cycle::walk(mul_mod(a, r), 1, k) == power::pow(a as int, k) % (r as int),
    decreases k,
{
    if k == 0 {
        power::lemma_pow0(a as int);
        div_mod::lemma_small_mod(1, r);
    } else {
        let j = (k - 1) as nat;
        lemma_powers(a, r, j);
        power::lemma_pow_adds(a as int, j, 1);
        power::lemma_pow1(a as int);
        div_mod::lemma_mul_mod_noop_left(power::pow(a as int, j), a as int, r as int);
    }
}

/// A power modulo a divisor `r` of `n` is that modulo `n`, reduced.
proof fn lemma_powers_reduced(a: nat, n: nat, r: nat, k: nat)
    requires
        1 < r,
        0 < n,
        n % r == 0,
    ensures
        cycle::walk(mul_mod(a, r), 1, k) == power_mod(a, k, n) % r,
{
    lemma_powers(a, r, k);
    lemma_power_mod(a, k, n);
    lemma_quotient(n, r);
    let t = n / r;
    assert(0 < t) by (nonlinear_arith)
        requires
            n == r * t,
            0 < n,
    ;
    div_mod::lemma_mod_mod(power::pow(a as int, k), r as int, t as int);
}

/// Where some multiple of `c - 1` is one more than a multiple of `n`, `c` is not
/// one modulo any divisor of `n`.
proof fn lemma_not_one(c: nat, u: nat, n: nat, r: nat)
    requires
        1 < r,
        0 < n,
        n % r == 0,
        0 < c,
        ((c - 1) * u) % (n as int) == 1,
    ensures
        c % r != 1,
{
    if c % r == 1 {
        let v = c - 1;
        let k = c / r;
        let t = (v * u) / (n as int);
        let h = n / r;
        lemma_quotient(n, r);
        div_mod::lemma_fundamental_div_mod(c as int, r as int);
        div_mod::lemma_fundamental_div_mod(v * u, n as int);
        let x = k * u - h * t;
        assert(r * x == 1) by (nonlinear_arith)
            requires
                v == r * k,
                v * u == n * t + 1,
                n == r * h,
                x == k * u - h * t,
        ;
        assert(false) by (nonlinear_arith)
            requires
                r * x == 1,
                1 < r,
        ;
    }
}

proof fn lemma_powers_of_three()
    by (bit_vector)
    ensures
        power_mod(3, 67280421310720, 67280421310721) == 1,
        power_mod(3, 22439680, 67280421310721) == 61150258807256,
        power_mod(3, 13456084262144, 67280421310721) == 8348471219631,
{
}

/// Modulo a divisor of the large prime, the powers of three take so many steps
/// to come back to one that the divisor cannot be small.
proof fn lemma_large_divisor(r: nat)
    requires
        1 < r,
        LARGE as nat % r == 0,
    ensures
        14991395 <= r,
{
    let n = LARGE as nat;
    let step = mul_mod(3, r);
    lemma_trials();
    lemma_prime_by_trial(5, 3);
    lemma_prime_by_trial(2998279, 1732);
    lemma_powers_of_three();
    lemma_powers_reduced(3, n, r, 67280421310720);
    lemma_powers_reduced(3, n, r, 22439680);
    lemma_powers_reduced(3, n, r, 13456084262144);
    lemma_not_one(61150258807256, 47000331560307, n, r);
    lemma_not_one(8348471219631, 17361421745283, n, r);
    div_mod::lemma_small_mod(1, r);
    cycle::lemma_period_exists(step, 1, 67280421310720);
    let m = choose|m: nat| cycle::is_period(step, 1, m);
    cycle::lemma_returns(step, 1, m, 67280421310720);
    cycle::lemma_returns(step, 1, m, 22439680);
    cycle::lemma_returns(step, 1, m, 13456084262144);
    lemma_prime_kept(2998279, m, 67280421310720);
    lemma_prime_kept(5, m, 67280421310720);
    lemma_prime_joins(2998279, 5, m);
    lemma_quotient(m, 14991395);
    assert forall|k: nat| 0 <= #[trigger] cycle::walk(step, 1, k) < r by {
        lemma_powers(3, r, k);
    }
    cycle::lemma_room(step, 1, m, 0, r as int);
}

/// The prime factors of `2^128 - 1`.
pub proof fn lemma_primes()
    ensures
        is_prime(3),
        is_prime(5),
        is_prime(17),
        is_prime(257),
        is_prime(641),
        is_prime(65537),
        is_prime(274177),
        is_prime(6700417),
        is_prime(LARGE as nat),
{
    lemma_trials();
    lemma_prime_by_trial(3, 2);
    lemma_prime_by_trial(5, 3);
    lemma_prime_by_trial(17, 5);
    lemma_prime_by_trial(257, 17);
    lemma_prime_by_trial(641, 26);
    lemma_prime_by_trial(65537, 257);
    lemma_prime_by_trial(274177, 524);
    lemma_prime_by_trial(6700417, 2589);
    assert forall|d: nat| 1 < d < 14991395 implies #[trigger] (LARGE as nat % d) != 0 by {
        if LARGE as nat % d == 0 {
            lemma_large_divisor(d);
        }
    }
    lemma_prime_by_bound(LARGE as nat, 14991395);
}

} // verus!
