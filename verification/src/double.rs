//! Double precision numbers that are not negative, in integers.
//!
//! Figures on the screen are worked out in double precision and then printed
//! with a fixed number of decimals. Both roundings go to the nearest value, and
//! to the even one of two that are equally near.
use vstd::arithmetic::power;
use vstd::prelude::*;

use crate::text;

verus! {

/// 2 to the power of `k`.
pub open spec fn exp2(k: nat) -> nat
    decreases k,
{
    if k == 0 {
        1
    } else {
        2 * exp2((k - 1) as nat)
    }
}

/// 2 to the power of 53: integers up to it are doubles.
pub const EXACT: u64 = 0x20_0000_0000_0000;

/// `n / d`, rounded to the nearest integer, to the even one where two are
/// equally near.
pub open spec fn round_half_even(n: nat, d: nat) -> nat {
    let whole = n / d;
    let rest = n % d;
    if 2 * rest < d || (2 * rest == d && whole % 2 == 0) {
        whole
    } else {
        whole + 1
    }
}

/// `n / d`, rounded to the nearest integer, upwards from the middle.
pub open spec fn round_half_up(n: nat, d: nat) -> nat {
    if 2 * (n % d) < d {
        n / d
    } else {
        n / d + 1
    }
}

/// A double that is not negative: `mant` over 2 to the power of `shift`.
#[derive(Clone, Copy, Debug, PartialEq, Eq, Structural)]
pub struct Double {
    pub mant: u64,
    pub shift: i32,
}

/// How often `num` must be doubled to reach `den` times 2 to the power of 52.
pub open spec fn doublings(num: nat, den: nat) -> nat
    decreases
            if num < 0x10_0000_0000_0000 * den {
                0x10_0000_0000_0000 * den - num
            } else {
                0
            },
{
    if num == 0 || num >= 0x10_0000_0000_0000 * den {
        0
    } else {
        1 + doublings(2 * num, den)
    }
}

/// How often `den` must be doubled for `num` to fall below it times 2 to the
/// power of 53.
pub open spec fn halvings(num: nat, den: nat) -> nat
    decreases
            if num < den {
                0
            } else {
                num - den
            },
{
    if den == 0 || num < EXACT * den {
        0
    } else {
        1 + halvings(num, 2 * den)
    }
}

/// The double nearest to `num / den`.
pub open spec fn quotient(num: nat, den: nat) -> Double {
    if num < EXACT * den {
        let k = doublings(num, den);
        Double { mant: round_half_even(num * exp2(k), den) as u64, shift: k as i32 }
    } else {
        let k = halvings(num, den);
        Double { mant: round_half_even(num, den * exp2(k)) as u64, shift: (-k) as i32 }
    }
}

/// The double nearest to the integer `n`.
pub open spec fn of_integer(n: nat) -> Double {
    if n < EXACT {
        Double { mant: n as u64, shift: 0 }
    } else {
        quotient(n, 1)
    }
}

impl Double {
    pub open spec fn is_valid(self) -> bool {
        &&& self.mant <= EXACT
        &&& -12 <= self.shift <= 1074
        &&& self.num() <= 0x1_0000_0000_0000_0000
    }

    /// The double is `num` over `den`.
    pub open spec fn num(self) -> nat {
        if self.shift < 0 {
            self.mant as nat * exp2((-self.shift) as nat)
        } else {
            self.mant as nat
        }
    }

    pub open spec fn den(self) -> nat {
        if self.shift < 0 {
            1
        } else {
            exp2(self.shift as nat)
        }
    }

    /// The double divided by `unit`, as a double.
    pub open spec fn over(self, unit: nat) -> Double {
        quotient(self.num(), self.den() * unit)
    }

    /// The double in units of 1, 0.1 or 0.01, for 0, 1 or 2 decimals.
    pub open spec fn in_units(self, decimals: nat) -> nat {
        round_half_even(self.num() * ten_to(decimals), self.den())
    }

    /// The double printed with the given number of decimals, at most 2.
    pub open spec fn printed(self, decimals: nat) -> Seq<char> {
        fixed_point(self.in_units(decimals), decimals)
    }

    /// The nearest integer, away from zero from the middle.
    pub open spec fn rounded(self) -> nat {
        round_half_up(self.num(), self.den())
    }
}

/// The integers `a` and `b` as doubles, and the first divided by the second.
pub open spec fn ratio(a: nat, b: nat) -> Double {
    quotient(of_integer(a).num(), of_integer(b).num())
}

/// 1, 10 or 100 for 0, 1 or 2 decimals.
pub open spec fn ten_to(decimals: nat) -> nat {
    if decimals == 0 {
        1
    } else if decimals == 1 {
        10
    } else {
        100
    }
}

/// `units` of 1, 0.1 or 0.01, printed with 0, 1 or 2 decimals.
pub open spec fn fixed_point(units: nat, decimals: nat) -> Seq<char> {
    if decimals == 0 {
        text::decimal(units)
    } else if decimals == 1 {
        text::decimal(units / 10) + seq!['.', text::digit(units % 10)]
    } else {
        text::decimal(units / 100) + seq![
            '.',
            text::digit(units / 10 % 10),
            text::digit(units % 10),
        ]
    }
}

pub proof fn lemma_exp2_bound(k: nat, m: nat)
    requires
        k <= m,
    ensures
        0 < exp2(k) <= exp2(m),
    decreases m,
{
    if k < m {
        lemma_exp2_bound(k, (m - 1) as nat);
    } else if k > 0 {
        lemma_exp2_bound((k - 1) as nat, (m - 1) as nat);
    }
}

pub proof fn lemma_exp2_add(i: nat, j: nat)
    ensures
        exp2(i + j) == exp2(i) * exp2(j),
    decreases i,
{
    if i > 0 {
        lemma_exp2_add((i - 1) as nat, j);
        assert(2 * (exp2((i - 1) as nat) * exp2(j)) == (2 * exp2((i - 1) as nat)) * exp2(j))
            by (nonlinear_arith);
    } else {
        assert(1 * exp2(j) == exp2(j)) by (nonlinear_arith);
    }
}

pub proof fn lemma_exp2_values()
    ensures
        exp2(12) == 4096,
        exp2(31) == 0x8000_0000,
        exp2(52) == 0x10_0000_0000_0000,
        exp2(53) == 0x20_0000_0000_0000,
        exp2(54) == 0x40_0000_0000_0000,
        exp2(64) == 0x1_0000_0000_0000_0000,
        exp2(116) == 0x10_0000_0000_0000_0000_0000_0000_0000,
{
    reveal_with_fuel(exp2, 13);
    assert(exp2(12) == 0x1000);
    lemma_exp2_add(12, 12);
    assert(exp2(24) == 0x100_0000);
    lemma_exp2_add(24, 24);
    assert(exp2(48) == 0x1_0000_0000_0000);
    assert(exp2(4) == 16);
    assert(exp2(7) == 128);
    lemma_exp2_add(24, 7);
    lemma_exp2_add(48, 4);
    assert(exp2(52) == 0x10_0000_0000_0000);
    lemma_exp2_add(52, 12);
    lemma_exp2_add(64, 52);
}

/// Rounding to a multiple of `d` stays within a larger one.
pub proof fn lemma_round_to_multiple(n: nat, d: nat, q: nat)
    requires
        d > 0,
        n <= d * q,
    ensures
        round_half_even(n, d) <= q,
{
    assert(n / d < q || (n / d == q && n % d == 0)) by (nonlinear_arith)
        requires
            d > 0,
            n <= d * q,
    ;
}

/// `n / d`, rounded to the nearest integer.
pub fn divide_half_even(n: u128, d: u128) -> (r: u128)
    requires
        0 < d <= 0x4000_0000_0000_0000_0000_0000_0000_0000,
    ensures
        r == round_half_even(n as nat, d as nat),
{
    let whole: u128 = n / d;
    let rest: u128 = n % d;
    if 2 * rest < d || (2 * rest == d && whole % 2 == 0) {
        whole
    } else {
        proof {
            assert(whole < n || d == 1) by (nonlinear_arith)
                requires
                    whole == n / d,
                    rest == n % d,
                    d > 0,
                    rest > 0 || whole % 2 == 1,
            ;
            assert(d == 1 ==> rest == 0);
        }
        whole + 1
    }
}

pub fn two_to(k: u32) -> (r: u128)
    requires
        k <= 116,
    ensures
        r == exp2(k as nat),
        0 < r <= 0x10_0000_0000_0000_0000_0000_0000_0000,
        k <= 64 ==> r <= 0x1_0000_0000_0000_0000,
        k <= 12 ==> r <= 4096,
{
    let mut r: u128 = 1;
    let mut i: u32 = 0;
    proof {
        lemma_exp2_values();
    }
    while i < k
        invariant
            i <= k <= 116,
            r == exp2(i as nat),
            exp2(116) == 0x10_0000_0000_0000_0000_0000_0000_0000,
        decreases k - i,
    {
        proof {
            lemma_exp2_bound((i + 1) as nat, 116);
        }
        r = r * 2;
        i = i + 1;
    }
    proof {
        lemma_exp2_bound(i as nat, 116);
        if k <= 64 {
            lemma_exp2_bound(i as nat, 64);
        }
        if k <= 12 {
            lemma_exp2_bound(i as nat, 12);
        }
    }
    r
}

/// The double nearest to `num / den`, where that is below 2 to the power of 53.
pub fn divide_small(num: u128, den: u128) -> (q: Double)
    requires
        0 < den <= 0x1_0000_0000_0000_0000,
        num < EXACT * den,
    ensures
        q == quotient(num as nat, den as nat),
        q.is_valid(),
        q.shift >= 0,
        q.num() < 0x1_0000_0000_0000_0000 * q.den(),
{
    let half: u128 = den * 0x10_0000_0000_0000;
    let mut scaled: u128 = num;
    let mut shift: i32 = 0;
    proof {
        lemma_exp2_values();
        assert(num * 1 == num) by (nonlinear_arith);
    }
    while scaled != 0 && scaled < half
        invariant
            0 < den <= 0x1_0000_0000_0000_0000,
            half == den * 0x10_0000_0000_0000,
            scaled < 2 * half,
            shift >= 0,
            scaled == num * exp2(shift as nat),
            doublings(num as nat, den as nat) == shift + doublings(scaled as nat, den as nat),
            scaled != 0 ==> exp2(shift as nat) <= scaled,
            exp2(116) == 0x10_0000_0000_0000_0000_0000_0000_0000,
            shift <= 116,
        decreases 2 * half - scaled,
    {
        proof {
            let e = exp2(shift as nat);
            assert(shift < 116);
            assert(2 * (num * e) == num * (2 * e)) by (nonlinear_arith);
            assert(exp2((shift + 1) as nat) == 2 * e);
        }
        scaled = scaled * 2;
        shift = shift + 1;
    }
    let mant: u128 = divide_half_even(scaled, den);
    proof {
        lemma_round_to_multiple(scaled as nat, den as nat, 0x20_0000_0000_0000);
        lemma_exp2_bound(shift as nat, shift as nat);
    }
    Double { mant: mant as u64, shift }
}

/// The double nearest to `num / den`.
pub fn divide(num: u128, den: u128) -> (q: Double)
    requires
        0 < den <= 0x1_0000_0000_0000_0000,
        num <= 0x1_0000_0000_0000_0000,
    ensures
        q == quotient(num as nat, den as nat),
        q.is_valid(),
        num >= EXACT * den ==> q.shift <= 0,
        den > 1 || num < EXACT ==> q.num() < 0x1_0000_0000_0000_0000 * q.den(),
        den == 1 && num >= EXACT ==> q.num() + 4096 > num,
{
    let mut goal: u128 = den * 0x20_0000_0000_0000;
    proof {
        lemma_exp2_values();
        assert(den * 1 == den) by (nonlinear_arith);
    }
    if num < goal {
        divide_small(num, den)
    } else {
        let mut wide: u128 = den;
        let mut k: u32 = 0;
        while num >= goal
            invariant
                0 < den,
                num <= 0x1_0000_0000_0000_0000,
                goal == wide * 0x20_0000_0000_0000,
                k <= 12,
                wide == den * exp2(k as nat),
                k == 12 ==> wide == 4096 * den,
                exp2(k as nat) <= wide,
                halvings(num as nat, den as nat) == k + halvings(num as nat, wide as nat),
                exp2(12) == 4096,
                num >= goal ==> wide <= 2048,
                wide <= 0x1_0000_0000_0000_0000,
            decreases 13 - k,
        {
            proof {
                let e = exp2(k as nat);
                lemma_exp2_bound(k as nat, k as nat);
                assert(2 * (den * e) == den * (2 * e)) by (nonlinear_arith);
                assert(exp2((k + 1) as nat) == 2 * e);
                if k == 11 {
                    assert(den * (2 * e) == 4096 * den) by (nonlinear_arith)
                        requires
                            2 * e == 4096,
                    ;
                }
                assert(halvings(num as nat, wide as nat) == 1 + halvings(num as nat, (2 * wide) as nat));
            }
            wide = wide * 2;
            goal = goal * 2;
            k = k + 1;
        }
        let mant: u128 = divide_half_even(num, wide);
        proof {
            lemma_round_to_multiple(num as nat, wide as nat, 0x20_0000_0000_0000);
            lemma_scaled_back(num as nat, den as nat, wide as nat, k as nat);
            assert(k == 0 ==> mant * exp2(k as nat) == mant) by (nonlinear_arith)
                requires
                    k == 0 ==> exp2(k as nat) == 1,
            ;
        }
        Double { mant: mant as u64, shift: -(k as i32) }
    }
}

/// A quotient rounded to a multiple of a power of 2 stays within 2 to the power
/// of 64, and is not far from what was rounded.
proof fn lemma_scaled_back(num: nat, den: nat, wide: nat, k: nat)
    requires
        0 < den,
        num <= 0x1_0000_0000_0000_0000,
        k <= 12,
        wide == den * exp2(k),
    ensures
        round_half_even(num, wide) * exp2(k) <= 0x1_0000_0000_0000_0000,
        den > 1 ==> round_half_even(num, wide) * exp2(k) < 0x1_0000_0000_0000_0000,
        den == 1 ==> round_half_even(num, wide) * exp2(k) + 4096 > num,
{
    let e = exp2(k);
    let f = exp2((64 - k) as nat);
    let g = exp2((63 - k) as nat);
    let r = round_half_even(num, wide);
    lemma_exp2_values();
    lemma_exp2_bound(k, 12);
    lemma_exp2_add(k, (64 - k) as nat);
    assert(f == 2 * g);
    assert(wide >= e) by (nonlinear_arith)
        requires
            den >= 1,
            wide == den * e,
    ;
    assert(num <= wide * f) by (nonlinear_arith)
        requires
            wide >= e,
            num <= e * f,
    ;
    lemma_round_to_multiple(num, wide, f);
    assert(r * e <= e * f) by (nonlinear_arith)
        requires
            r <= f,
    ;
    if den > 1 {
        assert(num <= wide * g) by (nonlinear_arith)
            requires
                den >= 2,
                wide == den * e,
                f == 2 * g,
                num <= e * f,
        ;
        lemma_round_to_multiple(num, wide, g);
        assert(2 * (r * e) <= e * f) by (nonlinear_arith)
            requires
                r <= g,
                f == 2 * g,
        ;
    }
    if den == 1 {
        assert(r * e + 4096 > num) by (nonlinear_arith)
            requires
                r >= num / wide,
                wide == 1 * e,
                0 < e <= 4096,
        ;
    }
}

/// Appends `units` of 1, 0.1 or 0.01 with 0, 1 or 2 decimals.
fn push_fixed(out: &mut String, units: u128, decimals: u8)
    requires
        decimals <= 2,
        decimals == 0 ==> units <= u64::MAX,
        decimals == 1 ==> units / 10 <= u64::MAX,
        decimals == 2 ==> units / 100 <= u64::MAX,
    ensures
        final(out)@ == old(out)@ + fixed_point(units as nat, decimals as nat),
{
    if decimals == 0 {
        text::push_decimal(out, units as u64);
    } else if decimals == 1 {
        text::push_decimal(out, (units / 10) as u64);
        out.push('.');
        out.push((48 + (units % 10) as u8) as char);
    } else {
        text::push_decimal(out, (units / 100) as u64);
        out.push('.');
        out.push((48 + (units / 10 % 10) as u8) as char);
        out.push((48 + (units % 10) as u8) as char);
    }
    proof {
        assert(out@ =~= old(out)@ + fixed_point(units as nat, decimals as nat));
    }
}

/// What lies far below one half rounds to zero.
proof fn lemma_rounds_to_zero(n: nat, d: nat)
    requires
        2 * n < d,
    ensures
        round_half_even(n, d) == 0,
        round_half_up(n, d) == 0,
{
    assert(n / d == 0 && n % d == n) by (nonlinear_arith)
        requires
            n < d,
    ;
}

impl Double {
    /// The double nearest to `n`.
    pub fn of(n: u64) -> (q: Double)
        ensures
            q == of_integer(n as nat),
            q.is_valid(),
            q.shift <= 0,
            n < EXACT ==> q.num() == n,
            n >= EXACT ==> q.num() + 4096 > n,
    {
        if n < EXACT {
            Double { mant: n, shift: 0 }
        } else {
            divide(n as u128, 1)
        }
    }

    /// `a / b` in double precision.
    pub fn ratio_of(a: u64, b: u64) -> (q: Double)
        requires
            b > 0,
        ensures
            q == ratio(a as nat, b as nat),
            q.is_valid(),
            a < EXACT ==> q.num() < 0x1_0000_0000_0000_0000 * q.den(),
    {
        divide(Double::of(a).numerator(), Double::of(b).numerator())
    }

    fn numerator(self) -> (n: u128)
        requires
            self.is_valid(),
        ensures
            n == self.num(),
            n <= 0x1_0000_0000_0000_0000,
            self.shift >= 0 ==> n <= EXACT,
    {
        if self.shift < 0 {
            let e: u128 = two_to((-self.shift) as u32);
            self.mant as u128 * e
        } else {
            self.mant as u128
        }
    }

    pub fn is_zero(self) -> (b: bool)
        requires
            self.is_valid(),
        ensures
            b == (self.num() == 0),
    {
        self.numerator() == 0
    }

    /// Whether the double is at least `unit`.
    pub fn at_least(self, unit: u64) -> (b: bool)
        requires
            self.is_valid(),
            unit > 0,
        ensures
            b == (self.num() >= self.den() * unit),
    {
        let n: u128 = self.numerator();
        proof {
            assert(1 * unit == unit) by (nonlinear_arith);
        }
        if self.shift <= 0 {
            n >= unit as u128
        } else if self.shift <= 63 {
            let d: u128 = two_to(self.shift as u32);
            proof {
                lemma_exp2_values();
                assert(d * unit <= 0x1_0000_0000_0000_0000 * 0xffff_ffff_ffff_ffff)
                    by (nonlinear_arith)
                    requires
                        d <= 0x1_0000_0000_0000_0000,
                        unit <= 0xffff_ffff_ffff_ffff,
                ;
                assert(d * unit >= 0) by (nonlinear_arith);
            }
            n >= d * unit as u128
        } else {
            proof {
                lemma_exp2_values();
                lemma_exp2_bound(64, self.shift as nat);
                let d = self.den();
                assert(d * unit >= d) by (nonlinear_arith)
                    requires
                        unit >= 1,
                ;
            }
            false
        }
    }

    /// The double divided by `unit`.
    pub fn divided_by(self, unit: u64) -> (q: Double)
        requires
            self.is_valid(),
            unit > 1,
            self.num() >= self.den() * unit,
        ensures
            q == self.over(unit as nat),
            q.is_valid(),
            q.num() < 0x1_0000_0000_0000_0000 * q.den(),
    {
        let n: u128 = self.numerator();
        proof {
            lemma_exp2_values();
            assert(1 * unit == unit) by (nonlinear_arith);
        }
        if self.shift <= 0 {
            divide(n, unit as u128)
        } else {
            proof {
                let d = self.den();
                assert(d * unit >= d) by (nonlinear_arith)
                    requires
                        unit >= 1,
                ;
                if self.shift >= 64 {
                    lemma_exp2_bound(64, self.shift as nat);
                }
            }
            let d: u128 = two_to(self.shift as u32);
            divide(n, d * unit as u128)
        }
    }

    /// Appends the double with the given number of decimals.
    pub fn push_printed(self, out: &mut String, decimals: u8)
        requires
            self.is_valid(),
            decimals <= 2,
            self.num() < 0x1_0000_0000_0000_0000 * self.den(),
        ensures
            final(out)@ == old(out)@ + self.printed(decimals as nat),
    {
        let ten: u128 = if decimals == 0 {
            1
        } else if decimals == 1 {
            10
        } else {
            100
        };
        let n: u128 = self.numerator() * ten;
        let mut units: u128 = 0;
        proof {
            lemma_exp2_values();
        }
        if self.shift <= 116 {
            let d: u128 = if self.shift < 0 {
                1
            } else {
                two_to(self.shift as u32)
            };
            units = divide_half_even(n, d);
            proof {
                assert(n / d <= n) by (nonlinear_arith)
                    requires
                        d > 0,
                ;
                if self.shift < 0 {
                    assert(n / 1 == n && n % 1 == 0);
                }
            }
        } else {
            proof {
                lemma_exp2_bound(116, self.shift as nat);
                lemma_rounds_to_zero(n as nat, self.den());
            }
        }
        push_fixed(out, units, decimals);
    }

    /// The nearest integer, away from zero from the middle.
    pub fn round(self) -> (r: u64)
        requires
            self.is_valid(),
            self.num() < 0x1_0000_0000_0000_0000 * self.den(),
        ensures
            r == self.rounded(),
    {
        let n: u128 = self.numerator();
        proof {
            lemma_exp2_values();
        }
        if self.shift <= 116 {
            let d: u128 = if self.shift < 0 {
                1
            } else {
                two_to(self.shift as u32)
            };
            proof {
                assert(n / d <= n) by (nonlinear_arith)
                    requires
                        d > 0,
                ;
            }
            if 2 * (n % d) < d {
                (n / d) as u64
            } else {
                (n / d + 1) as u64
            }
        } else {
            proof {
                lemma_exp2_bound(116, self.shift as nat);
                lemma_rounds_to_zero(n as nat, self.den());
            }
            0
        }
    }
}

pub proof fn lemma_exp2_is_pow(k: nat)
    ensures
        exp2(k) == power::pow(2, k),
        exp2(k) > 0,
    decreases k,
{
    if k == 0 {
        power::lemma_pow0(2);
    } else {
        lemma_exp2_is_pow((k - 1) as nat);
        power::lemma_pow_adds(2, 1, (k - 1) as nat);
        power::lemma_pow1(2);
    }
}

/// Law: rounding to the nearest integer is off by one half at most, and where it
/// is off by that, the integer is even.
pub proof fn law_rounding_goes_to_the_nearest(n: nat, d: nat)
    requires
        d > 0,
    ensures
        -d <= 2 * (round_half_even(n, d) * d - n) <= d,
        2 * (round_half_even(n, d) * d - n) == d || 2 * (round_half_even(n, d) * d - n) == -d
            ==> round_half_even(n, d) % 2 == 0,
{
    let w = n / d;
    let r = n % d;
    assert(n == w * d + r && r < d) by (nonlinear_arith)
        requires
            d > 0,
            w == n / d,
            r == n % d,
    ;
    assert((w + 1) * d == w * d + d) by (nonlinear_arith);
}

/// Law: rounding upwards from the middle is off by one half at most, and never
/// by one half downwards.
pub proof fn law_rounding_up_from_the_middle(n: nat, d: nat)
    requires
        d > 0,
    ensures
        -d < 2 * (round_half_up(n, d) * d - n) <= d,
{
    let w = n / d;
    let r = n % d;
    assert(n == w * d + r && r < d) by (nonlinear_arith)
        requires
            d > 0,
            w == n / d,
            r == n % d,
    ;
    assert((w + 1) * d == w * d + d) by (nonlinear_arith);
}

/// Law: a double is its mantissa over a power of two, or times one where the
/// shift is negative.
pub proof fn law_double_is_mantissa_over_power(q: Double)
    ensures
        q.shift >= 0 ==> q.num() == q.mant && q.den() == power::pow(2, q.shift as nat),
        q.shift < 0 ==> q.num() == q.mant * power::pow(2, (-q.shift) as nat) && q.den() == 1,
        q.den() > 0,
{
    if q.shift >= 0 {
        lemma_exp2_is_pow(q.shift as nat);
    } else {
        lemma_exp2_is_pow((-q.shift) as nat);
    }
}

/// Where the doubling of a numerator stops.
pub proof fn lemma_doublings_stop(n: nat, d: nat)
    requires
        0 < n < 0x20_0000_0000_0000 * d,
    ensures
        0x10_0000_0000_0000 * d <= n * exp2(doublings(n, d)) < 0x20_0000_0000_0000 * d,
    decreases 0x20_0000_0000_0000 * d - n,
{
    if n >= 0x10_0000_0000_0000 * d {
        assert(n * 1 == n) by (nonlinear_arith);
    } else {
        let e = exp2(doublings(2 * n, d));
        assert((2 * n) * e == n * (2 * e)) by (nonlinear_arith);
        lemma_doublings_stop(2 * n, d);
    }
}

/// Where the doubling of a denominator stops.
pub proof fn lemma_halvings_stop(n: nat, d: nat)
    requires
        0x10_0000_0000_0000 * d <= n,
        d > 0,
    ensures
        0x10_0000_0000_0000 * (d * exp2(halvings(n, d))) <= n < 0x20_0000_0000_0000 * (d * exp2(
            halvings(n, d),
        )),
    decreases n - 0x10_0000_0000_0000 * d,
{
    if n < 0x20_0000_0000_0000 * d {
        assert(d * 1 == d) by (nonlinear_arith);
    } else {
        let e = exp2(halvings(n, 2 * d));
        assert((2 * d) * e == d * (2 * e)) by (nonlinear_arith);
        lemma_halvings_stop(n, 2 * d);
    }
}

/// A power of two below another has the smaller exponent.
proof fn lemma_exp2_order(i: nat, j: nat)
    requires
        exp2(i) < exp2(j),
    ensures
        i < j,
{
    if i >= j {
        lemma_exp2_bound(j, i);
    }
}

/// Law: a quotient is the double nearest to it. The mantissa has 53 bits, and is
/// off by one half at most, in units of its last bit; where it is off by that,
/// it is even.
pub proof fn law_quotient_is_the_nearest_double(num: nat, den: nat)
    requires
        0 < num,
        0 < den,
        num <= power::pow(2, 1200),
        den <= power::pow(2, 1200),
    ensures
        ({
            let q = quotient(num, den);
            let up = if q.shift >= 0 {
                power::pow(2, q.shift as nat)
            } else {
                1
            };
            let down = if q.shift >= 0 {
                1
            } else {
                power::pow(2, (-q.shift) as nat)
            };
            let off = 2 * (q.mant * (den * down) - num * up);
            &&& 0x10_0000_0000_0000 <= q.mant <= 0x20_0000_0000_0000
            &&& 0x10_0000_0000_0000 * (den * down) <= num * up < 0x20_0000_0000_0000 * (den * down)
            &&& -(den * down) <= off <= den * down
            &&& off == den * down || off == -(den * down) ==> q.mant % 2 == 0
        }),
{
    let top = exp2(1200);
    lemma_exp2_is_pow(1200);
    lemma_exp2_values();
    if num < EXACT * den {
        let k = doublings(num, den);
        let e = exp2(k);
        lemma_doublings_stop(num, den);
        lemma_exp2_is_pow(k);
        lemma_exp2_add(53, 1200);
        assert(e < exp2(1253)) by {
            assert(e <= num * e) by (nonlinear_arith)
                requires
                    num >= 1,
                    e > 0,
            ;
        }
        lemma_exp2_order(k, 1253);
        let m = round_half_even(num * e, den);
        law_rounding_goes_to_the_nearest(num * e, den);
        assert(0x10_0000_0000_0000 <= m <= 0x20_0000_0000_0000) by (nonlinear_arith)
            requires
                0x10_0000_0000_0000 * den <= num * e < 0x20_0000_0000_0000 * den,
                -den <= 2 * (m * den - num * e) <= den,
                den > 0,
        ;
        assert(den * 1 == den) by (nonlinear_arith);
    } else {
        let k = halvings(num, den);
        let e = exp2(k);
        lemma_halvings_stop(num, den);
        lemma_exp2_is_pow(k);
        let wide = den * e;
        assert(e <= wide) by (nonlinear_arith)
            requires
                den >= 1,
                wide == den * e,
        ;
        assert(wide > 0);
        assert(exp2(k) < exp2(1201));
        lemma_exp2_order(k, 1201);
        let m = round_half_even(num, wide);
        law_rounding_goes_to_the_nearest(num, wide);
        assert(0x10_0000_0000_0000 <= m <= 0x20_0000_0000_0000) by (nonlinear_arith)
            requires
                0x10_0000_0000_0000 * wide <= num < 0x20_0000_0000_0000 * wide,
                -wide <= 2 * (m * wide - num) <= wide,
                wide > 0,
        ;
        if k == 0 {
            assert(num * 1 == num && den * 1 == den) by (nonlinear_arith);
        } else {
            assert(num * 1 == num) by (nonlinear_arith);
        }
    }
}

/// A quotient is off by one part in 2 to the power of 53 at most.
pub proof fn lemma_quotient_is_close(num: nat, den: nat)
    requires
        0 < den,
        num <= power::pow(2, 1200),
        den <= power::pow(2, 1200),
    ensures
        ({
            let q = quotient(num, den);
            let off = q.num() * den - num * q.den();
            -(num * q.den()) <= 0x20_0000_0000_0000 * off <= num * q.den()
        }),
        quotient(num, den).den() > 0,
{
    let q = quotient(num, den);
    law_double_is_mantissa_over_power(q);
    if num == 0 {
        assert(doublings(0, den) == 0);
        assert(0 * exp2(0) == 0) by (nonlinear_arith);
        assert(0nat / den == 0 && 0nat % den == 0) by (nonlinear_arith)
            requires
                den > 0,
        ;
        assert(q.mant == 0);
        let d = q.den();
        assert(0 * den == 0 && 0 * d == 0) by (nonlinear_arith);
    } else {
        law_quotient_is_the_nearest_double(num, den);
        let m = q.mant as int;
        if q.shift >= 0 {
            let e = power::pow(2, q.shift as nat);
            assert(den * 1 == den) by (nonlinear_arith);
            let off = m * den - num * e;
            assert(-(num * e) <= 0x20_0000_0000_0000 * off <= num * e) by (nonlinear_arith)
                requires
                    -den <= 2 * off <= den,
                    off == m * den - num * e,
                    num * e >= 0x10_0000_0000_0000 * den,
            ;
        } else {
            let e = power::pow(2, (-q.shift) as nat);
            let wide = den * e;
            assert(num * 1 == num) by (nonlinear_arith);
            let off = m * wide - num;
            assert((m * e) * den == m * wide) by (nonlinear_arith)
                requires
                    wide == den * e,
            ;
            assert(-num <= 0x20_0000_0000_0000 * off <= num);
        }
    }
}

/// Law: a number of units is printed with its last digits behind a point, as
/// many as there are decimals, and reads back as that number without the point.
pub proof fn law_point_stands_before_the_decimals(units: nat, decimals: nat)
    requires
        decimals <= 2,
    ensures
        decimals == 0 ==> fixed_point(units, 0) == text::decimal(units),
        decimals > 0 ==> ({
            let s = fixed_point(units, decimals);
            let at = s.len() - 1 - decimals;
            &&& at >= 1
            &&& s[at] == '.'
            &&& s.take(at) == text::decimal(units / ten_to(decimals))
            &&& decimals == 1 ==> s[at + 1] as int == 48 + units % 10
            &&& decimals == 2 ==> s[at + 1] as int == 48 + units / 10 % 10 && s[at + 2] as int == 48
                + units % 10
            &&& ten_to(1) == 10
            &&& ten_to(2) == 100
        }),
{
    if decimals > 0 {
        let s = fixed_point(units, decimals);
        let whole = text::decimal(units / ten_to(decimals));
        text::law_decimal_has_the_digits(units / ten_to(decimals));
        assert(s.take(whole.len() as int) =~= whole);
    }
}

/// Law: a double is printed as the number with that many decimals that is
/// nearest to it, and the even one of two that are equally near.
pub proof fn law_print_is_the_nearest(q: Double, decimals: nat, units: nat)
    requires
        decimals <= 2,
        units == round_half_even(q.num() * ten_to(decimals), q.den()),
    ensures
        q.printed(decimals) == fixed_point(units, decimals),
        -q.den() <= 2 * (units * q.den() - q.num() * power::pow(10, decimals)) <= q.den(),
        2 * (units * q.den() - q.num() * power::pow(10, decimals)) == q.den() || 2 * (units
            * q.den() - q.num() * power::pow(10, decimals)) == -q.den() ==> units % 2 == 0,
{
    power::lemma_pow0(10);
    power::lemma_pow1(10);
    power::lemma_pow_adds(10, 1, 1);
    law_double_is_mantissa_over_power(q);
    law_rounding_goes_to_the_nearest(q.num() * ten_to(decimals), q.den());
}

/// Law: integers of at most 53 bits are doubles, and others are off by one part
/// in 2 to the power of 53 at most.
pub proof fn law_integers_are_nearly_doubles(n: nat)
    requires
        n < 0x1_0000_0000_0000_0000,
    ensures
        n < 0x20_0000_0000_0000 ==> of_integer(n).num() == n,
        of_integer(n).den() == 1,
        -n <= 0x20_0000_0000_0000 * (of_integer(n).num() - n) <= n,
{
    if n >= EXACT {
        lemma_exp2_is_pow(1200);
        lemma_exp2_values();
        lemma_exp2_bound(64, 1200);
        lemma_exp2_bound(0, 1200);
        lemma_quotient_is_close(n, 1);
        let q = of_integer(n);
        law_double_is_mantissa_over_power(q);
        assert(q.shift <= 0) by {
            lemma_halvings_stop(n, 1);
            let k = halvings(n, 1);
            assert(1 * exp2(k) == exp2(k)) by (nonlinear_arith);
            assert(exp2(k) <= n);
            lemma_exp2_order(k, 65);
        }
        assert(exp2(0) == 1);
        assert(n * 1 == n) by (nonlinear_arith);
        let m = q.num();
        assert(m * 1 == m) by (nonlinear_arith);
        power::lemma_pow0(2);
    } else {
        power::lemma_pow0(2);
        assert(exp2(0) == 1);
    }
}

/// `units` over `ten` is `num / den` to the nearest of its last digit, but for
/// one part in 2 to the power of 50.
pub open spec fn nearly(units: nat, ten: nat, num: nat, den: nat) -> bool {
    &&& 0x4_0000_0000_0000 * (2 * (units * den - ten * num) - den) <= ten * num
    &&& 0x4_0000_0000_0000 * (2 * (ten * num - units * den) - den) <= ten * num
}

/// A quotient is printed as the nearest number with its decimals, but for what
/// the double is off.
pub proof fn lemma_print_of_quotient(num: nat, den: nat, decimals: nat) -> (units: nat)
    requires
        0 < den,
        num <= power::pow(2, 1200),
        den <= power::pow(2, 1200),
        decimals <= 2,
    ensures
        quotient(num, den).printed(decimals) == fixed_point(units, decimals),
        0x10_0000_0000_0000 * (2 * (units * den - ten_to(decimals) * num) - den) <= ten_to(decimals)
            * num,
        0x10_0000_0000_0000 * (2 * (ten_to(decimals) * num - units * den) - den) <= ten_to(decimals)
            * num,
        nearly(units, ten_to(decimals), num, den),
{
    let q = quotient(num, den);
    let t = ten_to(decimals);
    let n = q.num();
    let d = q.den();
    let u = round_half_even(n * t, d);
    lemma_quotient_is_close(num, den);
    law_rounding_goes_to_the_nearest(n * t, d);
    lemma_two_roundings(num as int, den as int, n as int, d as int, t as int, u as int);
    u
}

/// An error of one half in the last digit, on top of one part in 2 to the power
/// of 53.
proof fn lemma_two_roundings(num: int, den: int, n: int, d: int, t: int, u: int)
    requires
        0 < den,
        0 < d,
        0 <= num,
        0 <= t,
        -(num * d) <= 0x20_0000_0000_0000 * (n * den - num * d) <= num * d,
        -d <= 2 * (u * d - n * t) <= d,
    ensures
        0x10_0000_0000_0000 * (2 * (u * den - t * num) - den) <= t * num,
        0x10_0000_0000_0000 * (2 * (t * num - u * den) - den) <= t * num,
        t * num >= 0,
{
    let a = u * d - n * t;
    let b = n * den - num * d;
    let x = u * den - t * num;
    assert(x * d == den * a + t * b) by (nonlinear_arith)
        requires
            a == u * d - n * t,
            b == n * den - num * d,
            x == u * den - t * num,
    ;
    let da = den * a;
    let tb = t * b;
    let dd = den * d;
    let tn = t * num;
    let tnd = tn * d;
    assert(-dd <= 2 * da <= dd) by (nonlinear_arith)
        requires
            -d <= 2 * a <= d,
            da == den * a,
            dd == den * d,
            den > 0,
    ;
    assert(-tnd <= 0x20_0000_0000_0000 * tb <= tnd) by (nonlinear_arith)
        requires
            -(num * d) <= 0x20_0000_0000_0000 * b <= num * d,
            tb == t * b,
            tnd == (t * num) * d,
            t >= 0,
    ;
    assert(tn >= 0) by (nonlinear_arith)
        requires
            tn == t * num,
            t >= 0,
            num >= 0,
    ;
    let xd = x * d;
    assert(0x10_0000_0000_0000 * (2 * xd - dd) <= tnd);
    assert(0x10_0000_0000_0000 * (-2 * xd - dd) <= tnd);
    assert(0x10_0000_0000_0000 * (2 * x - den) <= tn) by (nonlinear_arith)
        requires
            0x10_0000_0000_0000 * (2 * (x * d) - den * d) <= tn * d,
            d > 0,
    ;
    assert(0x10_0000_0000_0000 * (-2 * x - den) <= tn) by (nonlinear_arith)
        requires
            0x10_0000_0000_0000 * (-2 * (x * d) - den * d) <= tn * d,
            d > 0,
    ;
}

/// An integer in units is printed as the nearest number with its decimals, but
/// for what the two doubles are off.
pub proof fn lemma_print_of_integer(n: nat, unit: nat, decimals: nat) -> (units: nat)
    requires
        n < 0x1_0000_0000_0000_0000,
        0 < unit <= 1_000_000_000_000,
        decimals <= 2,
    ensures
        of_integer(n).over(unit).printed(decimals) == fixed_point(units, decimals),
        nearly(units, ten_to(decimals), n, unit),
{
    let b = of_integer(n).num();
    let t = ten_to(decimals);
    law_integers_are_nearly_doubles(n);
    lemma_exp2_is_pow(1200);
    lemma_exp2_values();
    lemma_exp2_bound(64, 1200);
    lemma_exp2_add(64, 1);
    lemma_exp2_bound(65, 1200);
    assert(exp2(1) == 2) by {
        reveal_with_fuel(exp2, 2);
    }
    assert(1 * unit == unit) by (nonlinear_arith);
    let u = lemma_print_of_quotient(b, unit, decimals);
    let tb = t * b;
    let tn = t * n;
    assert(0x20_0000_0000_0000 * (tb - tn) <= tn && 0x20_0000_0000_0000 * (tn - tb) <= tn)
        by (nonlinear_arith)
        requires
            tb == t * b,
            tn == t * n,
            -n <= 0x20_0000_0000_0000 * (b - n) <= n,
            t >= 0,
    ;
    u
}

/// A valid double in units stays within the range of doubles.
pub proof fn lemma_rate_bounds(q: Double, unit: nat)
    requires
        q.is_valid(),
        1 <= unit <= 1_000_000_000_000,
    ensures
        q.den() * unit > 0,
        q.num() <= power::pow(2, 1200),
        q.den() * unit <= power::pow(2, 1200),
{
    lemma_exp2_is_pow(1200);
    lemma_exp2_values();
    lemma_exp2_bound(64, 1200);
    lemma_exp2_add(12, 28);
    lemma_exp2_add(12, 16);
    lemma_exp2_add(12, 4);
    assert(exp2(4) == 16) by {
        reveal_with_fuel(exp2, 5);
    }
    assert(exp2(40) == 0x100_0000_0000);
    lemma_exp2_add(1074, 40);
    lemma_exp2_bound(1114, 1200);
    lemma_exp2_bound(0, 1074);
    assert(exp2(0) == 1);
    let d = q.den();
    if q.shift >= 0 {
        lemma_exp2_bound(q.shift as nat, 1074);
    }
    let top = exp2(1074);
    assert(0 < d * unit <= top * 0x100_0000_0000) by (nonlinear_arith)
        requires
            0 < d <= top,
            1 <= unit <= 0x100_0000_0000,
    ;
}

pub proof fn lemma_zero_numerator(q: Double)
    ensures
        q.num() == 0 <==> q.mant == 0,
{
    if q.shift < 0 {
        let m = q.mant as nat;
        let e = exp2((-q.shift) as nat);
        lemma_exp2_bound(0, (-q.shift) as nat);
        assert(m * e == 0 <==> m == 0) by (nonlinear_arith)
            requires
                e > 0,
        ;
    }
}

} // verus!
