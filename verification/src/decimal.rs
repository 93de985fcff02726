//! Decimal digits as numbers, whole ones and fractions.
//!
//! A decimal fraction is read as the double nearest to it and then cut to the
//! whole number below. Only a fraction that is all but the next whole number
//! reaches it, and digits are enough to tell.
use vstd::arithmetic::div_mod;
use vstd::arithmetic::power;
use vstd::prelude::*;

use crate::double;
use crate::text;

verus! {

pub open spec fn is_digit(c: char) -> bool {
    '0' <= c <= '9'
}

pub fn is_ascii_digit(c: char) -> (b: bool)
    ensures
        b == is_digit(c),
{
    '0' <= c && c <= '9'
}

pub open spec fn all_digits(s: Seq<char>) -> bool {
    forall|i: int| 0 <= i < s.len() ==> is_digit(#[trigger] s[i])
}

pub open spec fn digit_value(c: char) -> nat {
    (c as int - '0' as int) as nat
}

/// The number that the digits stand for.
pub open spec fn value_of(s: Seq<char>) -> nat
    decreases s.len(),
{
    if s.len() == 0 {
        0
    } else {
        10 * value_of(s.drop_last()) + digit_value(s.last())
    }
}

pub open spec fn pow10(k: nat) -> nat
    decreases k,
{
    if k == 0 {
        1
    } else {
        10 * pow10((k - 1) as nat)
    }
}

pub proof fn lemma_pow10_add(i: nat, j: nat)
    ensures
        pow10(i + j) == pow10(i) * pow10(j),
        pow10(i) > 0,
    decreases i,
{
    if i > 0 {
        lemma_pow10_add((i - 1) as nat, j);
        assert(10 * (pow10((i - 1) as nat) * pow10(j)) == (10 * pow10((i - 1) as nat)) * pow10(j))
            by (nonlinear_arith);
    } else {
        assert(1 * pow10(j) == pow10(j)) by (nonlinear_arith);
    }
}

/// A number lies between what its first digits say, with nothing and with
/// everything after them.
pub proof fn lemma_prefix_value(s: Seq<char>, i: int)
    requires
        0 <= i <= s.len(),
        all_digits(s),
    ensures
        value_of(s.take(i)) * pow10((s.len() - i) as nat) <= value_of(s),
        value_of(s) < (value_of(s.take(i)) + 1) * pow10((s.len() - i) as nat),
    decreases s.len(),
{
    let v = value_of(s.take(i));
    if i == s.len() {
        assert(s.take(i) =~= s);
        assert(v * 1 == v && (v + 1) * 1 == v + 1) by (nonlinear_arith);
    } else {
        let init = s.drop_last();
        lemma_prefix_value(init, i);
        assert(init.take(i) =~= s.take(i));
        let p = pow10((init.len() - i) as nat);
        assert(is_digit(s[s.len() - 1]));
        assert(v * (10 * p) == 10 * (v * p)) by (nonlinear_arith);
        assert((v + 1) * (10 * p) == 10 * ((v + 1) * p)) by (nonlinear_arith);
    }
}

/// The digits from `from` on as a number, where there are any, nothing else
/// follows them, and the number is at most `limit`.
pub open spec fn number_from(s: Seq<char>, from: int, limit: nat) -> Option<nat> {
    let body = s.skip(from);
    if body.len() > 0 && all_digits(body) && value_of(body) <= limit {
        Some(value_of(body))
    } else {
        None
    }
}

fn parse_from(s: &Vec<char>, from: usize, limit: u64) -> (r: Option<u64>)
    requires
        from <= s.len(),
    ensures
        r matches Some(n) ==> number_from(s@, from as int, limit as nat) == Some(n as nat),
        r is None ==> number_from(s@, from as int, limit as nat) is None,
{
    let ghost body = s@.skip(from as int);
    if from == s.len() {
        return None;
    }
    let mut n: u128 = 0;
    let mut i: usize = from;
    while i < s.len()
        invariant
            from <= i <= s.len(),
            body == s@.skip(from as int),
            all_digits(body.take(i - from)),
            n == value_of(body.take(i - from)),
            n <= limit,
        decreases s.len() - i,
    {
        let c: char = s[i];
        proof {
            assert(body[i - from] == c);
            assert(body.take(i + 1 - from).drop_last() =~= body.take(i - from));
        }
        if !is_ascii_digit(c) {
            return None;
        }
        n = n * 10 + (c as u8 - 48) as u128;
        proof {
            assert forall|k: int| 0 <= k < i + 1 - from implies is_digit(
                #[trigger] body.take(i + 1 - from)[k],
            ) by {
                if k < i - from {
                    assert(body.take(i - from)[k] == body[k]);
                }
            }
        }
        if n > limit as u128 {
            proof {
                if all_digits(body) {
                    lemma_prefix_value(body, i + 1 - from);
                    let p = pow10((body.len() - (i + 1 - from)) as nat);
                    lemma_pow10_add((body.len() - (i + 1 - from)) as nat, 0);
                    assert(n * p >= n) by (nonlinear_arith)
                        requires
                            p >= 1,
                    ;
                }
            }
            return None;
        }
        i = i + 1;
    }
    proof {
        assert(body.take(i - from) =~= body);
    }
    Some(n as u64)
}

/// A whole number without a sign, or with a plus before it.
pub open spec fn read_u64(s: Seq<char>) -> Option<u64> {
    match number_from(
        s,
        if s.len() > 0 && s[0] == '+' {
            1
        } else {
            0
        },
        u64::MAX as nat,
    ) {
        Some(n) => Some(n as u64),
        None => None,
    }
}

pub fn parse_u64(s: &Vec<char>) -> (r: Option<u64>)
    ensures
        r == read_u64(s@),
{
    if s.len() > 0 && s[0] == '+' {
        parse_from(s, 1, u64::MAX)
    } else {
        parse_from(s, 0, u64::MAX)
    }
}

/// A whole number that may have a plus or a minus before it.
pub open spec fn read_i32(s: Seq<char>) -> Option<i32> {
    if s.len() > 0 && s[0] == '-' {
        match number_from(s, 1, 0x8000_0000) {
            Some(n) => Some((-n) as i32),
            None => None,
        }
    } else {
        match number_from(
            s,
            if s.len() > 0 && s[0] == '+' {
                1
            } else {
                0
            },
            i32::MAX as nat,
        ) {
            Some(n) => Some(n as i32),
            None => None,
        }
    }
}

pub fn parse_i32(s: &Vec<char>) -> (r: Option<i32>)
    ensures
        r == read_i32(s@),
{
    if s.len() > 0 && s[0] == '-' {
        match parse_from(s, 1, 0x8000_0000) {
            Some(n) => Some((-(n as i64)) as i32),
            None => None,
        }
    } else {
        let from: usize = if s.len() > 0 && s[0] == '+' {
            1
        } else {
            0
        };
        match parse_from(s, from, i32::MAX as u64) {
            Some(n) => Some(n as i32),
            None => None,
        }
    }
}

/// The whole number at or below the double nearest to `n / d`.
pub open spec fn floor_of_nearest(n: nat, d: nat) -> nat {
    let k = double::doublings(n, d);
    double::round_half_even(n * double::exp2(k), d) / double::exp2(k)
}

/// `n / d`, as a double, as a 32-bit integer: what is too large gives the
/// largest one.
pub open spec fn whole_part(n: nat, d: nat) -> i32 {
    if n >= 0x8000_0000 * d || floor_of_nearest(n, d) > i32::MAX {
        i32::MAX
    } else {
        floor_of_nearest(n, d) as i32
    }
}

/// A number with at most one decimal point and at least one digit.
pub open spec fn read_whole_part(s: Seq<char>) -> Option<i32> {
    let parts = text::split(s, '.');
    if parts.len() == 1 && s.len() > 0 && all_digits(s) {
        Some(whole_part(value_of(s), 1))
    } else if parts.len() == 2 && s.len() > 1 && all_digits(parts[0] + parts[1]) {
        Some(whole_part(value_of(parts[0] + parts[1]), pow10(parts[1].len())))
    } else {
        None
    }
}

/// `doublings` is the first shift that reaches its goal.
proof fn lemma_doublings(n: nat, d: nat, s: nat)
    requires
        n > 0,
        d > 0,
        n * double::exp2(s) >= 0x10_0000_0000_0000 * d,
        s > 0 ==> n * double::exp2((s - 1) as nat) < 0x10_0000_0000_0000 * d,
    ensures
        double::doublings(n, d) == s,
    decreases s,
{
    if s == 0 {
        assert(n * 1 == n) by (nonlinear_arith);
    } else {
        let e = double::exp2((s - 1) as nat);
        double::lemma_exp2_bound((s - 1) as nat, (s - 1) as nat);
        assert(n * e >= n) by (nonlinear_arith)
            requires
                e >= 1,
        ;
        assert(n * (2 * e) == (2 * n) * e) by (nonlinear_arith);
        if s > 1 {
            let f = double::exp2((s - 2) as nat);
            assert(n * (2 * f) == (2 * n) * f) by (nonlinear_arith);
        }
        lemma_doublings(2 * n, d, (s - 1) as nat);
    }
}

/// Rounding `i + f / d` to multiples of `1 / e` gives the next whole number
/// exactly where `f / d` is within half of `1 / e` of one.
proof fn lemma_reaches_next(i: nat, f: nat, d: nat, e: nat)
    requires
        f < d,
        e > 0,
        e % 2 == 0,
    ensures
        double::round_half_even((i * d + f) * e, d) / e == (if f * (2 * e) >= (2 * e - 1) * d {
            i + 1
        } else {
            i
        }),
{
    let n = (i * d + f) * e;
    let fe = f * e;
    let q = fe / d;
    let r = fe % d;
    let ie = i * e;
    assert(fe == q * d + r && r < d) by (nonlinear_arith)
        requires
            q == fe / d,
            r == fe % d,
            d > 0,
    ;
    assert(n == (ie + q) * d + r) by (nonlinear_arith)
        requires
            n == (i * d + f) * e,
            fe == f * e,
            ie == i * e,
            fe == q * d + r,
    ;
    let w = ie + q;
    assert(n / d == w && n % d == r) by (nonlinear_arith)
        requires
            n == w * d + r,
            r < d,
            d > 0,
    ;
    assert(q < e) by (nonlinear_arith)
        requires
            fe == f * e,
            fe == q * d + r,
            f < d,
            e > 0,
    ;
    assert(f * (2 * e) == 2 * q * d + 2 * r) by (nonlinear_arith)
        requires
            f * e == q * d + r,
    ;
    let m = double::round_half_even(n, d);
    assert(m == w || m == w + 1);
    if q == e - 1 {
        assert(2 * q * d == 2 * e * d - 2 * d) by (nonlinear_arith)
            requires
                q == e - 1,
        ;
        assert((2 * e - 1) * d == 2 * e * d - d) by (nonlinear_arith);
        let h = e / 2;
        assert(ie == 2 * (i * h)) by (nonlinear_arith)
            requires
                ie == i * e,
                e == 2 * h,
        ;
        if 2 * r >= d {
            assert(m == ie + e);
            assert((ie + e) / e == i + 1) by (nonlinear_arith)
                requires
                    ie == i * e,
                    e > 0,
            ;
        } else {
            assert(m == ie + q);
        }
    } else {
        assert(2 * q * d + 2 * r < (2 * e - 1) * d) by (nonlinear_arith)
            requires
                q <= e - 2,
                r < d,
        ;
    }
    if m < ie + e {
        assert(m / e == i) by (nonlinear_arith)
            requires
                ie == i * e,
                ie <= m < ie + e,
        ;
    }
}

/// How close a fraction must come to the next whole number `i + 1` to reach it:
/// one part in this many.
pub open spec fn closeness(i: nat) -> nat
    decreases i,
{
    if i == 0 {
        0x40_0000_0000_0000
    } else {
        closeness(i / 2) / 2
    }
}

/// The closeness goes with the position of the highest bit.
proof fn lemma_closeness(i: nat, b: nat)
    requires
        b <= 31,
        i < double::exp2(b),
        b > 0 ==> i >= double::exp2((b - 1) as nat),
    ensures
        closeness(i) == double::exp2((54 - b) as nat),
    decreases b,
{
    if b == 0 {
        double::lemma_exp2_values();
    } else {
        double::lemma_exp2_bound((b - 1) as nat, (b - 1) as nat);
        lemma_closeness(i / 2, (b - 1) as nat);
    }
}

/// The number of bits of a number below 2 to the power of 31.
proof fn lemma_bits(i: nat, b: nat) -> (r: nat)
    requires
        i < double::exp2(b),
    ensures
        r <= b,
        i < double::exp2(r),
        r > 0 ==> i >= double::exp2((r - 1) as nat),
    decreases b,
{
    if b > 0 && i < double::exp2((b - 1) as nat) {
        lemma_bits(i, (b - 1) as nat)
    } else {
        b
    }
}

/// The nearest double to `i + f / d` is `i + 1` exactly where `f / d` is close
/// enough.
proof fn lemma_floor_of_nearest(i: nat, f: nat, d: nat)
    requires
        f < d,
        i < 0x8000_0000,
    ensures
        floor_of_nearest(i * d + f, d) == (if f * closeness(i) >= (closeness(i) - 1) * d {
            i + 1
        } else {
            i
        }),
{
    let n = i * d + f;
    double::lemma_exp2_values();
    let b = lemma_bits(i, 31);
    lemma_closeness(i, b);
    let s = (53 - b) as nat;
    let e = double::exp2(s);
    double::lemma_exp2_bound(0, (s - 1) as nat);
    assert(e == 2 * double::exp2((s - 1) as nat));
    assert(closeness(i) == 2 * e);
    if b > 0 {
        let h = double::exp2((b - 1) as nat);
        let g = double::exp2((s - 1) as nat);
        double::lemma_exp2_add((b - 1) as nat, s);
        double::lemma_exp2_add(b, (s - 1) as nat);
        assert(h * e == 0x10_0000_0000_0000);
        assert(double::exp2(b) * g == 0x10_0000_0000_0000);
        assert(n * e >= 0x10_0000_0000_0000 * d) by (nonlinear_arith)
            requires
                n == i * d + f,
                i >= h,
                h * e == 0x10_0000_0000_0000,
        ;
        let t = double::exp2(b);
        assert(n * g < 0x10_0000_0000_0000 * d) by (nonlinear_arith)
            requires
                n == i * d + f,
                f < d,
                i + 1 <= t,
                t * g == 0x10_0000_0000_0000,
        ;
        assert(n > 0) by (nonlinear_arith)
            requires
                n == i * d + f,
                i > 0,
                d > 0,
        ;
        lemma_doublings(n, d, s);
        lemma_reaches_next(i, f, d, e);
    } else {
        assert(i == 0);
        assert(n == f) by (nonlinear_arith)
            requires
                n == i * d + f,
                i == 0,
        ;
        lemma_floor_below_one(f, d);
    }
}

proof fn lemma_floor_below_one(f: nat, d: nat)
    requires
        f < d,
    ensures
        floor_of_nearest(f, d) == (if f * 0x40_0000_0000_0000 >= (0x40_0000_0000_0000 - 1) * d {
            1nat
        } else {
            0
        }),
{
    double::lemma_exp2_values();
    if f == 0 {
        assert(0 * double::exp2(0) == 0) by (nonlinear_arith);
        assert(0nat / d == 0 && 0nat % d == 0) by (nonlinear_arith)
            requires
                d > 0,
        ;
    } else if 2 * f >= d {
        lemma_doublings(f, d, 53);
        lemma_reaches_next(0, f, d, double::exp2(53));
        assert(0 * d + f == f) by (nonlinear_arith);
    } else {
        let s = double::doublings(f, d);
        let e = double::exp2(s);
        lemma_doublings_bound(f, d);
        assert(f * e < 0x20_0000_0000_0000 * d);
        let m = double::round_half_even(f * e, d);
        assert(f * e / d < 0x20_0000_0000_0000) by (nonlinear_arith)
            requires
                f * e < 0x20_0000_0000_0000 * d,
                d > 0,
        ;
        assert(e > 0x20_0000_0000_0000) by {
            if s <= 53 {
                double::lemma_exp2_bound(s, 53);
                assert(f * e <= f * 0x20_0000_0000_0000) by (nonlinear_arith)
                    requires
                        e <= 0x20_0000_0000_0000,
                ;
            } else {
                double::lemma_exp2_bound(54, s);
            }
        }
        assert(m / e == 0) by (nonlinear_arith)
            requires
                m < e,
        ;
    }
}

/// Where a shift stops.
proof fn lemma_doublings_bound(n: nat, d: nat)
    requires
        0 < n < 0x10_0000_0000_0000 * d,
    ensures
        0x10_0000_0000_0000 * d <= n * double::exp2(double::doublings(n, d)),
        n * double::exp2(double::doublings(n, d)) < 0x20_0000_0000_0000 * d,
    decreases 0x10_0000_0000_0000 * d - n,
{
    let k = double::doublings(2 * n, d);
    let e = double::exp2(k);
    assert((2 * n) * e == n * (2 * e)) by (nonlinear_arith);
    if 2 * n < 0x10_0000_0000_0000 * d {
        lemma_doublings_bound(2 * n, d);
    } else {
        assert(k == 0);
        assert((2 * n) * 1 == 2 * n) by (nonlinear_arith);
    }
}

/// Whether the fraction that the digits stand for is at least
/// `(unit - 1) / unit`.
fn all_but_one_part(fraction: &Vec<char>, unit: u64) -> (r: bool)
    requires
        all_digits(fraction@),
        1 <= unit <= 0x40_0000_0000_0000,
    ensures
        r == (value_of(fraction@) * unit >= (unit - 1) * pow10(fraction@.len())),
{
    let ghost s = fraction@;
    let mut rest: u64 = unit - 1;
    let mut i: usize = 0;
    proof {
        assert((unit - 1) * 1 == unit - 1) by (nonlinear_arith);
        assert(0 * unit == 0) by (nonlinear_arith);
    }
    while i < fraction.len()
        invariant
            i <= fraction.len(),
            s == fraction@,
            all_digits(s),
            1 <= unit <= 0x40_0000_0000_0000,
            rest < unit,
            (unit - 1) * pow10(i as nat) == value_of(s.take(i as int)) * unit + rest,
        decreases fraction.len() - i,
    {
        let c: char = fraction[i];
        let have: u64 = (c as u8 - 48) as u64;
        let need: u64 = rest * 10 / unit;
        proof {
            let v = value_of(s.take(i as int));
            let p = pow10(i as nat);
            assert(s.take(i + 1).drop_last() =~= s.take(i as int));
            assert((unit - 1) * (10 * p) == 10 * ((unit - 1) * p)) by (nonlinear_arith);
            assert(rest * 10 == need * unit + (rest * 10) % (unit as int)) by (nonlinear_arith)
                requires
                    need == rest * 10 / (unit as int),
                    unit > 0,
            ;
            assert((10 * v + need) * unit == 10 * (v * unit) + need * unit) by (nonlinear_arith);
            assert((unit - 1) * pow10((i + 1) as nat) == (10 * v + need) * unit + (rest * 10) % (
            unit as int));
            if have != need {
                lemma_first_difference(s, i + 1, unit as nat, (10 * v + need) as nat, ((rest * 10) % (
                unit as int)) as nat);
            }
        }
        if have != need {
            return have > need;
        }
        rest = rest * 10 % unit;
        i = i + 1;
    }
    proof {
        assert(s.take(i as int) =~= s);
    }
    rest == 0
}

/// Once the first `i` digits differ from those of `(unit - 1) / unit`, the
/// larger ones belong to the larger fraction.
proof fn lemma_first_difference(s: Seq<char>, i: int, unit: nat, c: nat, rest: nat)
    requires
        all_digits(s),
        0 <= i <= s.len(),
        rest < unit,
        (unit - 1) * pow10(i as nat) == c * unit + rest,
        value_of(s.take(i)) != c,
    ensures
        (value_of(s) * unit >= (unit - 1) * pow10(s.len())) == (value_of(s.take(i)) > c),
{
    let v = value_of(s.take(i));
    let j = (s.len() - i) as nat;
    let p = pow10(i as nat);
    let q = pow10(j);
    let all = value_of(s);
    lemma_prefix_value(s, i);
    lemma_pow10_add(i as nat, j);
    lemma_pow10_add(j, 0);
    assert((unit - 1) * (p * q) == (c * unit + rest) * q) by (nonlinear_arith)
        requires
            (unit - 1) * p == c * unit + rest,
    ;
    if v > c {
        assert(all * unit >= (c * unit + rest) * q) by (nonlinear_arith)
            requires
                all >= v * q,
                v >= c + 1,
                rest < unit,
        ;
    } else {
        assert(all * unit < (c * unit + rest) * q) by (nonlinear_arith)
            requires
                all < (v + 1) * q,
                v + 1 <= c,
                unit > 0,
        ;
    }
}

/// Reads a number with at most one decimal point, as a double, and cuts it to a
/// whole one.
pub fn parse_whole_part(s: &Vec<char>) -> (r: Option<i32>)
    ensures
        r == read_whole_part(s@),
{
    let parts: Vec<Vec<char>> = text::split_chars(s, '.');
    proof {
        text::law_split_rejoins(s@, '.');
        assert(text::parts_view(parts@).len() == parts@.len());
        assert(text::split(s@, '.')[0] == parts@[0]@);
    }
    if parts.len() > 2 {
        return None;
    }
    let empty: Vec<char> = Vec::new();
    let fraction: &Vec<char> = if parts.len() == 2 {
        &parts[1]
    } else {
        &empty
    };
    let whole: &Vec<char> = &parts[0];
    proof {
        if parts.len() == 2 {
            assert(text::split(s@, '.')[1] == parts@[1]@);
            let split = text::split(s@, '.');
            assert(split.drop_last().len() == 1);
            assert(text::joined(split.drop_last(), '.') == split[0]);
            assert(s@ =~= whole@.push('.') + fraction@);
        } else {
            assert(s@ =~= whole@ + fraction@);
        }
    }
    if whole.len() == 0 && fraction.len() == 0 {
        return None;
    }
    let ghost digits = whole@ + fraction@;
    if !only_digits(whole) || !only_digits(fraction) {
        proof {
            if all_digits(digits) {
                assert forall|k: int| 0 <= k < whole@.len() implies is_digit(
                    #[trigger] whole@[k],
                ) by {
                    assert(digits[k] == whole@[k]);
                }
                assert forall|k: int| 0 <= k < fraction@.len() implies is_digit(
                    #[trigger] fraction@[k],
                ) by {
                    assert(digits[whole@.len() + k] == fraction@[k]);
                }
            }
        }
        return None;
    }
    let ghost d = pow10(fraction@.len());
    let ghost f = value_of(fraction@);
    let ghost w = value_of(whole@);
    proof {
        assert(all_digits(digits));
        lemma_concat_value(whole@, fraction@);
        lemma_prefix_value(fraction@, 0);
        assert(fraction@.take(0) =~= Seq::<char>::empty());
        lemma_pow10_add(fraction@.len(), 0);
        assert((0 + 1) * d == d && 0 * d == 0) by (nonlinear_arith);
        assert(parts.len() == 1 ==> digits =~= s@);
    }
    let i: u32 = match whole_below_limit(whole) {
        Some(i) => i,
        None => {
            proof {
                assert(w * d + f >= 0x8000_0000 * d) by (nonlinear_arith)
                    requires
                        w >= 0x8000_0000,
                        f >= 0,
                        d >= 0,
                ;
            }
            return Some(i32::MAX);
        },
    };
    proof {
        assert(i * d + f < 0x8000_0000 * d) by (nonlinear_arith)
            requires
                i < 0x8000_0000,
                f < d,
        ;
        lemma_floor_of_nearest(i as nat, f, d);
    }
    let up: bool = all_but_one_part(fraction, unit_for(i));
    if up && i < 0x7fff_ffff {
        Some((i + 1) as i32)
    } else {
        Some(i as i32)
    }
}

fn only_digits(s: &Vec<char>) -> (b: bool)
    ensures
        b == all_digits(s@),
{
    let mut i: usize = 0;
    while i < s.len()
        invariant
            i <= s.len(),
            forall|k: int| 0 <= k < i ==> is_digit(#[trigger] s@[k]),
        decreases s.len() - i,
    {
        if !is_ascii_digit(s[i]) {
            return false;
        }
        i = i + 1;
    }
    true
}

/// The number that the digits stand for, where it is below 2 to the power of 31.
fn whole_below_limit(s: &Vec<char>) -> (r: Option<u32>)
    requires
        all_digits(s@),
    ensures
        r matches Some(i) ==> i == value_of(s@) && i < 0x8000_0000,
        r is None ==> value_of(s@) >= 0x8000_0000,
{
    if s.len() == 0 {
        return Some(0);
    }
    proof {
        assert(s@.skip(0) =~= s@);
    }
    match parse_from(s, 0, 0x7fff_ffff) {
        Some(i) => Some(i as u32),
        None => None,
    }
}

fn unit_for(i: u32) -> (u: u64)
    requires
        i < 0x8000_0000,
    ensures
        u == closeness(i as nat),
        1 <= u <= 0x40_0000_0000_0000,
    decreases i,
{
    if i == 0 {
        0x40_0000_0000_0000
    } else {
        proof {
            double::lemma_exp2_values();
            let b = lemma_bits(i as nat, 31);
            lemma_closeness(i as nat, b);
            double::lemma_exp2_bound(0, (54 - b) as nat);
        }
        unit_for(i / 2) / 2
    }
}

proof fn lemma_concat_value(a: Seq<char>, b: Seq<char>)
    ensures
        value_of(a + b) == value_of(a) * pow10(b.len()) + value_of(b),
    decreases b.len(),
{
    let v = value_of(a);
    if b.len() == 0 {
        assert(a + b =~= a);
        assert(v * 1 == v) by (nonlinear_arith);
    } else {
        let init = b.drop_last();
        lemma_concat_value(a, init);
        assert((a + b).drop_last() =~= a + init);
        let p = pow10(init.len());
        assert(v * (10 * p) == 10 * (v * p)) by (nonlinear_arith);
    }
}

/// Law: a row of digits stands for the number that has them in its decimal
/// places. The digit with `j` others behind it counts the powers of ten with
/// exponent `j`.
pub proof fn law_digits_have_their_places(s: Seq<char>)
    requires
        forall|i: int| 0 <= i < s.len() ==> 48 <= #[trigger] s[i] as int <= 57,
    ensures
        (value_of(s) as int) < power::pow(10, s.len()),
        forall|i: int|
            0 <= i < s.len() ==> #[trigger] s[i] as int - 48 == (value_of(s) as int / power::pow(
                10,
                (s.len() - 1 - i) as nat,
            )) % 10,
    decreases s.len(),
{
    power::lemma_pow0(10);
    if s.len() > 0 {
        let t = s.drop_last();
        let n = value_of(s) as int;
        let m = value_of(t) as int;
        assert(48 <= s[s.len() - 1] as int <= 57);
        assert forall|i: int| 0 <= i < t.len() implies 48 <= #[trigger] t[i] as int <= 57 by {
            assert(t[i] == s[i]);
        }
        law_digits_have_their_places(t);
        power::lemma_pow_adds(10, 1, t.len());
        power::lemma_pow1(10);
        assert(n / 10 == m && n % 10 == s.last() as int - 48);
        assert forall|i: int| 0 <= i < s.len() implies #[trigger] s[i] as int - 48 == (n
            / power::pow(10, (s.len() - 1 - i) as nat)) % 10 by {
            if i < t.len() {
                let j = (t.len() - 1 - i) as nat;
                assert(s[i] == t[i]);
                power::lemma_pow_adds(10, 1, j);
                power::lemma_pow_positive(10, j);
                div_mod::lemma_div_denominator(n, 10, power::pow(10, j));
                assert(m / power::pow(10, j) == n / power::pow(10, j + 1));
                assert((s.len() - 1 - i) as nat == j + 1);
            } else {
                assert((s.len() - 1 - i) as nat == 0);
                assert(n / 1 == n);
            }
        }
    }
}

/// Law: what is written in decimal is read back.
pub proof fn law_decimal_reads_back(n: nat)
    ensures
        value_of(text::decimal(n)) == n,
        all_digits(text::decimal(n)),
    decreases n,
{
    let s = text::decimal(n);
    if n >= 10 {
        let t = text::decimal(n / 10);
        law_decimal_reads_back(n / 10);
        assert(s.drop_last() =~= t);
        assert forall|i: int| 0 <= i < s.len() implies is_digit(#[trigger] s[i]) by {
            if i < t.len() {
                assert(s[i] == t[i]);
            }
        }
    } else {
        assert(s.drop_last() =~= Seq::<char>::empty());
        assert(value_of(s.drop_last()) == 0);
    }
}

/// The text is made of digits, and has at least one.
pub open spec fn is_row_of_digits(s: Seq<char>) -> bool {
    s.len() > 0 && forall|i: int| 0 <= i < s.len() ==> 48 <= #[trigger] s[i] as int <= 57
}

/// Law: a number without a sign is read from a row of digits, with or without a
/// plus before it, where it has 64 bits at most. Nothing else is read.
pub proof fn law_unsigned_numbers_are_read(v: Vec<char>, d: Seq<char>, r: Option<u64>)
    requires
        call_ensures(parse_u64, (&v,), r),
        v@ == d || v@ == seq!['+'] + d,
    ensures
        is_row_of_digits(d) ==> {
            &&& r is Some <==> value_of(d) <= u64::MAX
            &&& r matches Some(n) ==> n == value_of(d)
        },
        r is Some ==> is_row_of_digits(v@) || (v@[0] == '+' && is_row_of_digits(v@.skip(1))),
{
    lemma_body(v@, d, '+');
    assert(v@.skip(0) =~= v@);
    if r is Some {
        let body = v@.skip(if v@[0] == '+' { 1 } else { 0 });
        assert(all_digits(body));
        assert forall|i: int| 0 <= i < body.len() implies 48 <= #[trigger] body[i] as int <= 57 by {
            assert(is_digit(body[i]));
        }
    }
    if is_row_of_digits(d) {
        assert(all_digits(d));
    }
}

proof fn lemma_body(v: Seq<char>, d: Seq<char>, sign: char)
    requires
        sign == '+' || sign == '-',
        v == d || v == seq![sign] + d,
    ensures
        v == seq![sign] + d ==> v[0] == sign && v.skip(1) == d,
        is_row_of_digits(d) && v == d ==> v[0] != '+' && v[0] != '-' && v.skip(0) == d,
{
    if v == seq![sign] + d {
        assert(v.skip(1) =~= d);
    }
    assert(v.skip(0) =~= v);
    if is_row_of_digits(d) {
        assert(48 <= d[0] as int <= 57);
    }
}

/// Law: a number with a sign is read from a row of digits, with or without a
/// plus or a minus before it, where it has 32 bits at most, and the minus makes
/// it negative. Nothing else is read.
pub proof fn law_signed_numbers_are_read(v: Vec<char>, d: Seq<char>, r: Option<i32>)
    requires
        call_ensures(parse_i32, (&v,), r),
        v@ == d || v@ == seq!['+'] + d || v@ == seq!['-'] + d,
    ensures
        is_row_of_digits(d) && (v@ == d || v@ == seq!['+'] + d) ==> {
            &&& r is Some <==> value_of(d) <= i32::MAX
            &&& r matches Some(n) ==> n == value_of(d)
        },
        is_row_of_digits(d) && v@ == seq!['-'] + d ==> {
            &&& r is Some <==> -value_of(d) >= i32::MIN
            &&& r matches Some(n) ==> n == -value_of(d)
        },
        r is Some ==> is_row_of_digits(v@) || ((v@[0] == '+' || v@[0] == '-') && is_row_of_digits(
            v@.skip(1),
        )),
{
    if v@ == seq!['-'] + d {
        lemma_body(v@, d, '-');
    } else {
        lemma_body(v@, d, '+');
    }
    assert(v@.skip(0) =~= v@);
    if r is Some {
        let body = v@.skip(if v@[0] == '+' || v@[0] == '-' { 1 } else { 0 });
        assert(all_digits(body));
        assert forall|i: int| 0 <= i < body.len() implies 48 <= #[trigger] body[i] as int <= 57 by {
            assert(is_digit(body[i]));
        }
    }
    if is_row_of_digits(d) {
        assert(all_digits(d));
    }
}

/// Law: a number with decimals is cut to its whole part, whatever the decimals,
/// as long as they stay clear of the next whole number by one part in four
/// million. What has no decimals keeps its value. Numbers that do not fit give
/// the largest that does.
pub proof fn law_decimals_are_cut(v: Vec<char>, whole: Seq<char>, fraction: Seq<char>, r: Option<i32>)
    requires
        call_ensures(parse_whole_part, (&v,), r),
        whole.len() == 0 || is_row_of_digits(whole),
        fraction.len() == 0 || is_row_of_digits(fraction),
        whole.len() + fraction.len() > 0,
        v@ == whole.push('.') + fraction || (v@ == whole && fraction.len() == 0),
    ensures
        r is Some,
        value_of(whole) > i32::MAX ==> r == Some(i32::MAX),
        value_of(whole) <= i32::MAX && 0x40_0000 * (power::pow(10, fraction.len()) - value_of(fraction))
            >= power::pow(10, fraction.len()) ==> r.unwrap() == value_of(whole),
        value_of(whole) <= i32::MAX ==> r.unwrap() == value_of(whole) || r.unwrap() == value_of(whole)
            + 1,
{
    let w = value_of(whole);
    let f = value_of(fraction);
    let d = pow10(fraction.len());
    lemma_pow10_is_pow(fraction.len());
    lemma_pow10_add(fraction.len(), 0);
    assert(all_digits(whole));
    assert(all_digits(fraction));
    lemma_split_at_point(v@, whole, fraction);
    lemma_concat_value(whole, fraction);
    lemma_prefix_value(fraction, 0);
    assert(fraction.take(0) =~= Seq::<char>::empty());
    assert((0 + 1) * d == d && 0 * d == 0) by (nonlinear_arith);
    assert(f < d);
    if w > i32::MAX {
        assert(w * d + f >= 0x8000_0000 * d) by (nonlinear_arith)
            requires
                w >= 0x8000_0000,
                f >= 0,
                d >= 0,
        ;
    } else {
        assert(w * d + f < 0x8000_0000 * d) by (nonlinear_arith)
            requires
                w < 0x8000_0000,
                f < d,
        ;
        lemma_floor_of_nearest(w, f, d);
        double::lemma_exp2_values();
        let b = lemma_bits(w, 31);
        lemma_closeness(w, b);
        double::lemma_exp2_bound(23, (54 - b) as nat);
        assert(double::exp2(23) == 0x80_0000) by {
            reveal_with_fuel(double::exp2, 13);
            assert(double::exp2(11) == 0x800);
            double::lemma_exp2_add(11, 12);
        }
        let c = closeness(w);
        if 0x40_0000 * (d - f) >= d {
            assert(f * c < (c - 1) * d) by (nonlinear_arith)
                requires
                    0x40_0000 * (d - f) >= d,
                    c >= 0x80_0000,
                    d > 0,
            ;
        }
    }
}

proof fn lemma_pow10_is_pow(k: nat)
    ensures
        pow10(k) == power::pow(10, k),
    decreases k,
{
    if k == 0 {
        power::lemma_pow0(10);
    } else {
        lemma_pow10_is_pow((k - 1) as nat);
        power::lemma_pow_adds(10, 1, (k - 1) as nat);
        power::lemma_pow1(10);
    }
}

proof fn lemma_split_at_point(v: Seq<char>, whole: Seq<char>, fraction: Seq<char>)
    requires
        all_digits(whole),
        all_digits(fraction),
        whole.len() + fraction.len() > 0,
        v == whole.push('.') + fraction || (v == whole && fraction.len() == 0),
    ensures
        read_whole_part(v) == Some(whole_part(value_of(whole + fraction), pow10(fraction.len()))),
{
    assert forall|i: int| 0 <= i < whole.len() implies whole[i] != '.' by {
        assert(is_digit(whole[i]));
    }
    assert forall|i: int| 0 <= i < fraction.len() implies fraction[i] != '.' by {
        assert(is_digit(fraction[i]));
    }
    text::law_split_cuts_at_separators(whole, fraction, '.');
    text::law_split_cuts_at_separators(fraction, fraction, '.');
    let digits = whole + fraction;
    assert forall|i: int| 0 <= i < digits.len() implies is_digit(#[trigger] digits[i]) by {
        if i < whole.len() {
            assert(is_digit(whole[i]));
        } else {
            assert(is_digit(fraction[i - whole.len()]));
        }
    }
    if v == whole && fraction.len() == 0 {
        assert(digits =~= whole);
        assert(pow10(0) == 1);
    } else {
        assert(text::split(v, '.') =~= seq![whole, fraction]);
        assert(v.len() > 1 || fraction.len() == 0);
    }
}

/// Law: a number with decimals is read only from digits, of which there is at
/// least one, and a single point at most.
pub proof fn law_only_digits_and_a_point_are_read(v: Vec<char>, r: Option<i32>, i: int, j: int)
    requires
        call_ensures(parse_whole_part, (&v,), r),
        r is Some,
        0 <= i < j < v@.len(),
    ensures
        v@[i] == '.' || 48 <= v@[i] as int <= 57,
        v@[j] == '.' || 48 <= v@[j] as int <= 57,
        v@[i] != '.' || v@[j] != '.',
{
    let s = v@;
    let parts = text::split(s, '.');
    text::law_split_rejoins(s, '.');
    if parts.len() == 1 {
        assert(is_digit(s[i]));
        assert(is_digit(s[j]));
    } else {
        assert(parts.drop_last().len() == 1);
        assert(text::joined(parts.drop_last(), '.') == parts[0]);
        let n = parts[0].len() as int;
        assert(s =~= parts[0].push('.') + parts[1]);
        let digits = parts[0] + parts[1];
        assert forall|k: int| 0 <= k < s.len() && k != n implies 48 <= #[trigger] s[k] as int
            <= 57 by {
            assert(is_digit(digits[if k < n {
                k
            } else {
                k - 1
            }]));
        }
    }
}

} // verus!
