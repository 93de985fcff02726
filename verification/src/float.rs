//! Double precision numbers of any kind, by their bits.
use vstd::arithmetic::power;
use vstd::prelude::*;
use vstd::string::*;

use crate::digits;
use crate::double;
use crate::double::Double;
use crate::text;

verus! {

/// A number in the 64-bit format of IEEE 754.
#[derive(Clone, Copy, Debug, PartialEq, Eq, Structural)]
pub struct Float {
    pub bits: u64,
}

impl Float {
    /// The sign bit is set.
    pub open spec fn sign(self) -> bool {
        self.bits >= 0x8000_0000_0000_0000
    }

    /// The 11 bits of the exponent.
    pub open spec fn exponent(self) -> int {
        self.bits as int % 0x8000_0000_0000_0000 / 0x10_0000_0000_0000
    }

    /// The 52 bits of the fraction.
    pub open spec fn fraction(self) -> int {
        self.bits as int % 0x10_0000_0000_0000
    }

    pub open spec fn is_nan(self) -> bool {
        self.exponent() == 2047 && self.fraction() != 0
    }

    pub open spec fn is_infinite(self) -> bool {
        self.exponent() == 2047 && self.fraction() == 0
    }

    /// The number without its sign, where it is finite.
    pub open spec fn size(self) -> Double {
        if self.exponent() == 0 {
            Double { mant: self.fraction() as u64, shift: 1074 }
        } else {
            Double {
                mant: (0x10_0000_0000_0000 + self.fraction()) as u64,
                shift: (1075 - self.exponent()) as i32,
            }
        }
    }

    /// The number is zero or below.
    pub open spec fn is_nothing(self) -> bool {
        !self.is_nan() && (self.sign() || self.size().mant == 0)
    }

    /// The number is at least `unit`, which is not zero.
    pub open spec fn reaches(self, unit: nat) -> bool {
        &&& !self.is_nan()
        &&& !self.sign()
        &&& self.is_infinite() || self.size().num() >= self.size().den() * unit
    }

    /// The number printed with the given number of decimals, at most 2.
    pub open spec fn text(self, decimals: nat) -> Seq<char> {
        if self.is_nan() {
            "NaN"@
        } else {
            (if self.sign() {
                "-"@
            } else {
                ""@
            }) + (if self.is_infinite() {
                "inf"@
            } else {
                self.size().printed(decimals)
            })
        }
    }
}

/// What a number is, taken apart.
#[derive(Clone, Copy, Debug, PartialEq, Eq, Structural)]
pub enum Kind {
    NotANumber,
    Infinite,
    Finite(Double),
}

/// A double that is not negative, of any size there is.
pub open spec fn is_number(q: Double) -> bool {
    q.mant <= double::EXACT && -971 <= q.shift <= 1074
}

impl Float {
    /// What the number is without its sign.
    pub fn kind(self) -> (k: Kind)
        ensures
            self.is_nan() ==> k == Kind::NotANumber,
            self.is_infinite() ==> k == Kind::Infinite,
            self.exponent() < 2047 ==> k == Kind::Finite(self.size()) && is_number(self.size())
                && self.size().mant < double::EXACT,
            self.size().shift < 0 ==> self.size().mant >= 0x10_0000_0000_0000,
    {
        let exponent: u64 = self.bits % 0x8000_0000_0000_0000 / 0x10_0000_0000_0000;
        let fraction: u64 = self.bits % 0x10_0000_0000_0000;
        if exponent == 2047 {
            if fraction == 0 {
                Kind::Infinite
            } else {
                Kind::NotANumber
            }
        } else if exponent == 0 {
            Kind::Finite(Double { mant: fraction, shift: 1074 })
        } else {
            Kind::Finite(
                Double { mant: 0x10_0000_0000_0000 + fraction, shift: 1075 - exponent as i32 },
            )
        }
    }

    pub fn is_negative(self) -> (b: bool)
        ensures
            b == self.sign(),
    {
        self.bits >= 0x8000_0000_0000_0000
    }

    /// Whether the number is at least `unit`.
    pub fn at_least(self, unit: u64) -> (b: bool)
        requires
            0 < unit,
        ensures
            b == self.reaches(unit as nat),
    {
        if self.is_negative() {
            return false;
        }
        match self.kind() {
            Kind::NotANumber => false,
            Kind::Infinite => true,
            Kind::Finite(q) => {
                if q.shift >= -11 {
                    proof {
                        lemma_below_two_to_64(q);
                    }
                    q.at_least(unit)
                } else {
                    proof {
                        lemma_two_to_64_and_more(q);
                        assert(1 * unit == unit) by (nonlinear_arith);
                    }
                    true
                }
            },
        }
    }

    /// Appends the number with the given number of decimals.
    pub fn push_text(self, out: &mut String, decimals: u8)
        requires
            decimals <= 2,
        ensures
            final(out)@ == old(out)@ + self.text(decimals as nat),
    {
        match self.kind() {
            Kind::NotANumber => {
                out.append("NaN");
            },
            Kind::Infinite => {
                if self.is_negative() {
                    out.append("-");
                } else {
                    out.append("");
                }
                out.append("inf");
            },
            Kind::Finite(q) => {
                if self.is_negative() {
                    out.append("-");
                } else {
                    out.append("");
                }
                push_number(out, q, decimals);
            },
        }
        proof {
            assert(out@ =~= old(out)@ + self.text(decimals as nat));
        }
    }
}

pub proof fn lemma_below_two_to_64(q: Double)
    requires
        q.mant < double::EXACT,
        -11 <= q.shift <= 1074,
    ensures
        q.is_valid(),
        q.num() < 0x1_0000_0000_0000_0000 * q.den(),
{
    double::lemma_exp2_values();
    assert(double::exp2(12) == 2 * double::exp2(11));
    if q.shift < 0 {
        let m = q.mant;
        let e = double::exp2((-q.shift) as nat);
        double::lemma_exp2_bound((-q.shift) as nat, 11);
        assert(m * e < 0x1_0000_0000_0000_0000) by (nonlinear_arith)
            requires
                m < 0x20_0000_0000_0000,
                0 < e <= 2048,
        ;
    } else {
        double::lemma_exp2_bound(q.shift as nat, q.shift as nat);
    }
}

pub proof fn lemma_two_to_64_and_more(q: Double)
    requires
        q.mant >= 0x10_0000_0000_0000,
        q.shift < -11,
    ensures
        q.den() == 1,
        q.num() >= 0x1_0000_0000_0000_0000,
{
    let m = q.mant;
    let e = double::exp2((-q.shift) as nat);
    double::lemma_exp2_values();
    double::lemma_exp2_bound(12, (-q.shift) as nat);
    assert(m * e >= 0x1_0000_0000_0000_0000) by (nonlinear_arith)
        requires
            m >= 0x10_0000_0000_0000,
            e >= 4096,
    ;
}

/// Appends a double of any size.
pub fn push_number(out: &mut String, q: Double, decimals: u8)
    requires
        is_number(q),
        decimals <= 2,
    ensures
        final(out)@ == old(out)@ + q.printed(decimals as nat),
{
    if q.shift >= 0 {
        proof {
            double::lemma_exp2_bound(q.shift as nat, q.shift as nat);
        }
        q.push_printed(out, decimals);
    } else {
        let k: u32 = (-q.shift) as u32;
        digits::push_scaled_up(out, q.mant, k);
        if decimals == 1 {
            out.push('.');
            out.push('0');
        } else if decimals == 2 {
            out.push('.');
            out.push('0');
            out.push('0');
        }
        proof {
            let n = q.num();
            assert(n == q.mant as nat * double::exp2(k as nat));
            let t = double::ten_to(decimals as nat);
            assert(n * 1 == n && n * 10 == 10 * n && n * 100 == 100 * n) by (nonlinear_arith);
            assert((n * t) / 1 == n * t && (n * t) % 1 == 0);
            assert(text::digit(0) == '0');
            assert(out@ =~= old(out)@ + q.printed(decimals as nat));
        }
    }
}

/// Scaling both sides changes no rounded quotient.
proof fn lemma_round_scaled(n: nat, d: nat, e: nat)
    requires
        d > 0,
        e > 0,
    ensures
        double::round_half_even(n * e, d * e) == double::round_half_even(n, d),
{
    let w = n / d;
    let r = n % d;
    assert(n == w * d + r && r < d) by (nonlinear_arith)
        requires
            d > 0,
            w == n / d,
            r == n % d,
    ;
    let re = r * e;
    let de = d * e;
    let ne = n * e;
    assert(ne == w * de + re && re < de && de > 0) by (nonlinear_arith)
        requires
            n == w * d + r,
            r < d,
            e > 0,
            d > 0,
            re == r * e,
            de == d * e,
            ne == n * e,
    ;
    assert(ne / de == w && ne % de == re) by (nonlinear_arith)
        requires
            ne == w * de + re,
            re < de,
    ;
    assert((2 * re < de) == (2 * r < d) && (2 * re == de) == (2 * r == d)) by (nonlinear_arith)
        requires
            re == r * e,
            de == d * e,
            e > 0,
    ;
}

/// `halvings` is the first shift that reaches its goal.
proof fn lemma_halvings(n: nat, d: nat, h: nat)
    requires
        d > 0,
        n < double::EXACT * (d * double::exp2(h)),
        h > 0 ==> n >= double::EXACT * (d * double::exp2((h - 1) as nat)),
    ensures
        double::halvings(n, d) == h,
    decreases h,
{
    if h == 0 {
        assert(d * 1 == d) by (nonlinear_arith);
    } else {
        let e = double::exp2((h - 1) as nat);
        double::lemma_exp2_bound((h - 1) as nat, (h - 1) as nat);
        assert(d * e >= d) by (nonlinear_arith)
            requires
                e >= 1,
        ;
        assert(d * (2 * e) == (2 * d) * e) by (nonlinear_arith);
        if h > 1 {
            let f = double::exp2((h - 2) as nat);
            assert(d * (2 * f) == (2 * d) * f) by (nonlinear_arith);
        }
        lemma_halvings(n, 2 * d, (h - 1) as nat);
    }
}

/// A large double divided by `unit`.
pub fn divide_large(q: Double, unit: u64) -> (r: Double)
    requires
        is_number(q),
        0x10_0000_0000_0000 <= q.mant < double::EXACT,
        q.shift < -11,
        1 < unit,
    ensures
        r == q.over(unit as nat),
        is_number(r),
{
    let k: u32 = (-q.shift) as u32;
    let d: u128 = unit as u128;
    let goal: u128 = d * 0x20_0000_0000_0000;
    let half: u128 = d * 0x10_0000_0000_0000;
    let mut t: u128 = q.mant as u128;
    let mut c: u32 = 0;
    let ghost m = q.mant as nat;
    proof {
        assert(1 * unit == unit) by (nonlinear_arith);
        assert(m * 1 == m) by (nonlinear_arith);
    }
    while c < k && t < half
        invariant
            c <= k,
            half == d * 0x10_0000_0000_0000,
            goal == d * 0x20_0000_0000_0000,
            1 < d <= u64::MAX,
            t == m * double::exp2(c as nat),
            t < goal,
        decreases k - c,
    {
        proof {
            let e = double::exp2(c as nat);
            assert(2 * (m * e) == m * (2 * e)) by (nonlinear_arith);
        }
        t = t * 2;
        c = c + 1;
    }
    if c == k {
        return double::divide_small(t, d);
    }
    let mant: u128 = double::divide_half_even(t, d);
    proof {
        let h = (k - c) as nat;
        let e = double::exp2(h);
        let f = double::exp2((h - 1) as nat);
        let n = m * double::exp2(k as nat);
        double::lemma_exp2_bound((h - 1) as nat, (h - 1) as nat);
        double::lemma_exp2_add(c as nat, h);
        let x = double::exp2(c as nat);
        assert(m * (x * e) == (m * x) * e) by (nonlinear_arith);
        assert(n == t as nat * e);
        assert(t as nat * e < double::EXACT * (d as nat * e)) by (nonlinear_arith)
            requires
                t < double::EXACT * d,
                e > 0,
        ;
        assert(t as nat * (2 * f) >= double::EXACT * (d as nat * f)) by (nonlinear_arith)
            requires
                2 * t >= double::EXACT * d,
        ;
        lemma_halvings(n, d as nat, h);
        lemma_round_scaled(t as nat, d as nat, e);
        double::lemma_round_to_multiple(t as nat, d as nat, 0x20_0000_0000_0000);
        assert(double::EXACT * (d as nat * f) >= double::EXACT * d as nat) by (nonlinear_arith)
            requires
                f >= 1,
        ;
    }
    Double { mant: mant as u64, shift: -((k - c) as i32) }
}

/// Law: a finite number is its 52 bits of fraction, with one bit more before
/// them unless the exponent is zero, times a power of two that the exponent
/// gives, 1075 standing for none.
pub proof fn law_bits_are_a_number(f: Float, exponent: int, fraction: int)
    requires
        exponent == f.bits as int / 0x10_0000_0000_0000 % 2048,
        fraction == f.bits as int % 0x10_0000_0000_0000,
    ensures
        f.sign() <==> f.bits >= 0x8000_0000_0000_0000,
        f.is_nan() <==> exponent == 2047 && fraction != 0,
        f.is_infinite() <==> exponent == 2047 && fraction == 0,
        1075 <= exponent < 2047 ==> f.size().num() == (0x10_0000_0000_0000 + fraction) * power::pow(
            2,
            (exponent - 1075) as nat,
        ) && f.size().den() == 1,
        0 < exponent < 1075 ==> f.size().num() == 0x10_0000_0000_0000 + fraction && f.size().den()
            == power::pow(2, (1075 - exponent) as nat),
        exponent == 0 ==> f.size().num() == fraction && f.size().den() == power::pow(2, 1074),
{
    double::law_double_is_mantissa_over_power(f.size());
    power::lemma_pow0(2);
    let m = 0x10_0000_0000_0000 + fraction;
    assert(m * 1 == m) by (nonlinear_arith);
}

/// Law: of two numbers that are not negative and not endless, the one with the
/// larger bits is the larger one.
pub proof fn law_bits_are_in_order(a: Float, b: Float)
    requires
        a.bits < b.bits < 0x7ff0_0000_0000_0000,
    ensures
        a.size().num() * b.size().den() < b.size().num() * a.size().den(),
    decreases b.bits - a.bits,
{
    if a.bits + 1 < b.bits {
        let c = Float { bits: (a.bits + 1) as u64 };
        law_bits_are_in_order(a, c);
        law_bits_are_in_order(c, b);
        double::law_double_is_mantissa_over_power(a.size());
        double::law_double_is_mantissa_over_power(b.size());
        double::law_double_is_mantissa_over_power(c.size());
        let (an, ad) = (a.size().num() as int, a.size().den() as int);
        let (bn, bd) = (b.size().num() as int, b.size().den() as int);
        let (cn, cd) = (c.size().num() as int, c.size().den() as int);
        assert(an * bd < bn * ad) by (nonlinear_arith)
            requires
                an * cd < cn * ad,
                cn * bd < bn * cd,
                ad > 0,
                bd > 0,
                cd > 0,
        ;
    } else {
        lemma_next_is_larger(a, b);
    }
}

/// The number with the next bits has one more in its fraction, or the next
/// exponent where the fraction is full.
proof fn lemma_next_bits(a: Float, b: Float)
    requires
        b.bits == a.bits + 1,
        b.bits < 0x7ff0_0000_0000_0000,
    ensures
        a.fraction() < 0xf_ffff_ffff_ffff ==> b.exponent() == a.exponent() && b.fraction()
            == a.fraction() + 1,
        a.fraction() == 0xf_ffff_ffff_ffff ==> b.exponent() == a.exponent() + 1 && b.fraction()
            == 0,
        0 <= a.fraction() <= 0xf_ffff_ffff_ffff,
        0 <= a.exponent() < 2047,
        0 <= b.exponent() < 2047,
{
    let n = a.bits as int;
    let m = 0x10_0000_0000_0000int;
    assert(n % 0x8000_0000_0000_0000 == n);
    assert((n + 1) % 0x8000_0000_0000_0000 == n + 1);
    assert(n == m * (n / m) + n % m && 0 <= n % m < m);
    assert(n + 1 == m * ((n + 1) / m) + (n + 1) % m && 0 <= (n + 1) % m < m);
}

proof fn lemma_next_is_larger(a: Float, b: Float)
    requires
        b.bits == a.bits + 1,
        b.bits < 0x7ff0_0000_0000_0000,
    ensures
        a.size().num() * b.size().den() < b.size().num() * a.size().den(),
{
    let (p, q) = (a.size(), b.size());
    lemma_next_bits(a, b);
    double::law_double_is_mantissa_over_power(p);
    double::law_double_is_mantissa_over_power(q);
    if p.shift == q.shift {
        assert(q.mant == p.mant + 1);
        if p.shift < 0 {
            let e = double::exp2((-p.shift) as nat);
            double::lemma_exp2_bound(0, (-p.shift) as nat);
            assert((p.mant + 1) * e == p.mant * e + e) by (nonlinear_arith);
            assert((p.mant * e) * 1 < (q.mant * e) * 1) by (nonlinear_arith)
                requires
                    p.mant * e < q.mant * e,
            ;
        } else {
            let d = p.den();
            assert(p.mant * d < q.mant * d) by (nonlinear_arith)
                requires
                    p.mant < q.mant,
                    d > 0,
            ;
        }
    } else {
        assert(q.shift == p.shift - 1);
        assert(p.mant == 0x1f_ffff_ffff_ffff && q.mant == 0x10_0000_0000_0000);
        if q.shift >= 0 {
            let d = q.den();
            assert(p.den() == 2 * d);
            assert(0x1f_ffff_ffff_ffff * d < 0x10_0000_0000_0000 * (2 * d)) by (nonlinear_arith)
                requires
                    d > 0,
            ;
        } else if p.shift == 0 {
            assert(double::exp2(1) == 2) by {
                reveal_with_fuel(double::exp2, 2);
            }
            assert(double::exp2(0) == 1);
        } else {
            let e = double::exp2((-p.shift) as nat);
            double::lemma_exp2_bound(0, (-p.shift) as nat);
            assert(double::exp2((-q.shift) as nat) == 2 * e);
            assert((0x1f_ffff_ffff_ffff * e) * 1 < (0x10_0000_0000_0000 * (2 * e)) * 1)
                by (nonlinear_arith)
                requires
                    e > 0,
            ;
        }
    }
}

/// Law: a number is at least `unit` where it is endless or, as a fraction, no
/// smaller. What is negative or no number never is.
pub proof fn law_numbers_are_compared(f: Float, unit: u64, b: bool)
    requires
        call_ensures(Float::at_least, (f, unit), b),
        0 < unit,
    ensures
        f.bits > 0x8000_0000_0000_0000 ==> !b,
        f.bits > 0x7ff0_0000_0000_0000 ==> !b,
        f.bits == 0x7ff0_0000_0000_0000 ==> b,
        f.bits < 0x7ff0_0000_0000_0000 ==> (b <==> f.size().num() >= f.size().den() * unit),
{
}

/// Law: what is no number is printed as such; any other number has a minus where
/// the sign bit is set, and then its size, or that it is endless.
pub proof fn law_signs_are_printed(f: Float, decimals: nat)
    ensures
        f.bits as int % 0x8000_0000_0000_0000 > 0x7ff0_0000_0000_0000 ==> f.text(decimals) == "NaN"@,
        f.bits == 0x7ff0_0000_0000_0000 ==> f.text(decimals) == "inf"@,
        f.bits == 0xfff0_0000_0000_0000 ==> f.text(decimals) == "-"@ + "inf"@,
        f.bits < 0x7ff0_0000_0000_0000 ==> f.text(decimals) == f.size().printed(decimals),
        0x8000_0000_0000_0000 <= f.bits < 0xfff0_0000_0000_0000 ==> f.text(decimals) == "-"@
            + f.size().printed(decimals),
{
    reveal_strlit("");
    assert(""@ + "inf"@ =~= "inf"@);
    assert(""@ + f.size().printed(decimals) =~= f.size().printed(decimals));
}

pub proof fn lemma_size_bound(f: Float)
    requires
        f.bits < 0x7ff0_0000_0000_0000,
    ensures
        f.size().num() <= power::pow(2, 1200),
        1_000_000_000_000 <= power::pow(2, 1200),
{
    let q = f.size();
    double::lemma_exp2_is_pow(1200);
    double::lemma_exp2_values();
    double::lemma_exp2_bound(64, 1200);
    if q.shift < 0 {
        let m = q.mant;
        let e = double::exp2((-q.shift) as nat);
        double::lemma_exp2_bound((-q.shift) as nat, 971);
        double::lemma_exp2_add(53, 971);
        double::lemma_exp2_bound(1024, 1200);
        let t = double::exp2(971);
        assert(m * e <= 0x20_0000_0000_0000 * t) by (nonlinear_arith)
            requires
                m <= 0x20_0000_0000_0000,
                e <= t,
                0 <= m,
                0 <= e,
        ;
    }
}

} // verus!
