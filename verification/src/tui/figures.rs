//! Figures as the screen shows them.
use vstd::prelude::*;
use vstd::string::*;

use crate::double;
use crate::double::Double;
use crate::float;
use crate::float::{Float, Kind};
use crate::text;

verus! {

/// A score, or a dash where there is none.
pub open spec fn score_text(v: i32) -> Seq<char> {
    if v < 0 {
        "-"@
    } else {
        text::decimal(v as nat)
    }
}

pub fn fmt_score(v: i32) -> (r: String)
    ensures
        r@ == score_text(v),
{
    if v < 0 {
        "-".to_owned()
    } else {
        let mut out: String = String::new();
        text::push_decimal(&mut out, v as u64);
        proof {
            assert(out@ =~= text::decimal(v as nat));
        }
        out
    }
}

/// A score out of 25, or a dash where there is none.
pub open spec fn best_text(best: i32) -> Seq<char> {
    score_text(best) + " / 25"@
}

pub fn fmt_best(best: i32) -> (r: String)
    ensures
        r@ == best_text(best),
{
    let mut out: String = fmt_score(best);
    out.append(" / 25");
    out
}

/// `n` in units of `unit`, worked out in double precision and printed with the
/// given number of decimals.
pub open spec fn scaled_text(n: u64, unit: nat, decimals: nat) -> Seq<char> {
    double::of_integer(n as nat).over(unit).printed(decimals)
}

fn push_scaled(out: &mut String, n: u64, unit: u64, decimals: u8)
    requires
        1 < unit <= n,
        unit <= 1_000_000_000_000,
        decimals <= 2,
    ensures
        final(out)@ == old(out)@ + scaled_text(n, unit as nat, decimals as nat),
{
    let b: Double = Double::of(n);
    proof {
        assert(double::exp2(0) == 1);
        assert(1 * unit == unit) by (nonlinear_arith);
    }
    b.divided_by(unit).push_printed(out, decimals);
}

/// An amount of memory: gigabytes with one decimal, megabytes and kilobytes
/// with none, bytes as they are.
pub open spec fn bytes_text(bytes: u64) -> Seq<char> {
    if bytes >= 0x4000_0000 {
        scaled_text(bytes, 0x4000_0000, 1) + " GB"@
    } else if bytes >= 0x10_0000 {
        scaled_text(bytes, 0x10_0000, 0) + " MB"@
    } else if bytes >= 0x400 {
        scaled_text(bytes, 0x400, 0) + " KB"@
    } else {
        text::decimal(bytes as nat) + " B"@
    }
}

pub fn fmt_bytes(bytes: u64) -> (r: String)
    ensures
        r@ == bytes_text(bytes),
{
    let mut out: String = String::new();
    if bytes >= 0x4000_0000 {
        push_scaled(&mut out, bytes, 0x4000_0000, 1);
        out.append(" GB");
    } else if bytes >= 0x10_0000 {
        push_scaled(&mut out, bytes, 0x10_0000, 0);
        out.append(" MB");
    } else if bytes >= 0x400 {
        push_scaled(&mut out, bytes, 0x400, 0);
        out.append(" KB");
    } else {
        text::push_decimal(&mut out, bytes);
        out.append(" B");
    }
    proof {
        assert(out@ =~= bytes_text(bytes));
    }
    out
}

/// A large number in thousands, millions, billions or trillions.
pub open spec fn count_text(n: u64) -> Seq<char> {
    if n >= 1_000_000_000_000 {
        scaled_text(n, 1_000_000_000_000, 2) + "T"@
    } else if n >= 1_000_000_000 {
        scaled_text(n, 1_000_000_000, 2) + "B"@
    } else if n >= 1_000_000 {
        scaled_text(n, 1_000_000, 2) + "M"@
    } else if n >= 1_000 {
        scaled_text(n, 1_000, 1) + "K"@
    } else {
        text::decimal(n as nat)
    }
}

pub fn fmt_count(n: u64) -> (r: String)
    ensures
        r@ == count_text(n),
{
    let mut out: String = String::new();
    if n >= 1_000_000_000_000 {
        push_scaled(&mut out, n, 1_000_000_000_000, 2);
        out.append("T");
    } else if n >= 1_000_000_000 {
        push_scaled(&mut out, n, 1_000_000_000, 2);
        out.append("B");
    } else if n >= 1_000_000 {
        push_scaled(&mut out, n, 1_000_000, 2);
        out.append("M");
    } else if n >= 1_000 {
        push_scaled(&mut out, n, 1_000, 1);
        out.append("K");
    } else {
        text::push_decimal(&mut out, n);
    }
    proof {
        assert(out@ =~= count_text(n));
    }
    out
}

/// A rate per second that is not negative, in thousands, millions, billions or
/// trillions, or a dash where it is zero.
pub open spec fn double_rate_text(rate: Double) -> Seq<char> {
    if rate.num() == 0 {
        "-"@
    } else if rate.num() >= rate.den() * 1_000_000_000_000 {
        rate.over(1_000_000_000_000).printed(2) + "T/s"@
    } else if rate.num() >= rate.den() * 1_000_000_000 {
        rate.over(1_000_000_000).printed(2) + "B/s"@
    } else if rate.num() >= rate.den() * 1_000_000 {
        rate.over(1_000_000).printed(2) + "M/s"@
    } else if rate.num() >= rate.den() * 1_000 {
        rate.over(1_000).printed(2) + "K/s"@
    } else {
        rate.printed(0) + "/s"@
    }
}

pub fn fmt_double_rate(rate: Double) -> (r: String)
    requires
        rate.is_valid(),
    ensures
        r@ == double_rate_text(rate),
{
    let mut out: String = String::new();
    if rate.is_zero() {
        out.append("-");
    } else if rate.at_least(1_000_000_000_000) {
        rate.divided_by(1_000_000_000_000).push_printed(&mut out, 2);
        out.append("T/s");
    } else if rate.at_least(1_000_000_000) {
        rate.divided_by(1_000_000_000).push_printed(&mut out, 2);
        out.append("B/s");
    } else if rate.at_least(1_000_000) {
        rate.divided_by(1_000_000).push_printed(&mut out, 2);
        out.append("M/s");
    } else if rate.at_least(1_000) {
        rate.divided_by(1_000).push_printed(&mut out, 2);
        out.append("K/s");
    } else {
        rate.push_printed(&mut out, 0);
        out.append("/s");
    }
    proof {
        assert(out@ =~= double_rate_text(rate));
    }
    out
}

/// A rate per second, whatever number it is: a dash where it is zero or below.
pub open spec fn rate_text(rate: Float) -> Seq<char> {
    if rate.is_nan() {
        "NaN/s"@
    } else if rate.is_nothing() {
        "-"@
    } else if rate.is_infinite() {
        "infT/s"@
    } else {
        double_rate_text(rate.size())
    }
}

pub fn fmt_rate(rate: Float) -> (r: String)
    ensures
        r@ == rate_text(rate),
{
    match rate.kind() {
        Kind::NotANumber => "NaN/s".to_owned(),
        Kind::Infinite => {
            if rate.is_negative() {
                "-".to_owned()
            } else {
                proof {
                    assert(rate.size().mant == 0x10_0000_0000_0000);
                }
                "infT/s".to_owned()
            }
        },
        Kind::Finite(q) => {
            if rate.is_negative() || q.mant == 0 {
                return "-".to_owned();
            }
            if q.shift >= -11 {
                proof {
                    float::lemma_below_two_to_64(q);
                    double::lemma_exp2_bound(0, if q.shift < 0 {
                        (-q.shift) as nat
                    } else {
                        0
                    });
                    if q.shift < 0 {
                        let m = q.mant;
                        let e = double::exp2((-q.shift) as nat);
                        assert(m * e > 0) by (nonlinear_arith)
                            requires
                                m > 0,
                                e > 0,
                        ;
                    }
                }
                return fmt_double_rate(q);
            }
            proof {
                float::lemma_two_to_64_and_more(q);
            }
            let mut out: String = String::new();
            float::push_number(&mut out, float::divide_large(q, 1_000_000_000_000), 2);
            out.append("T/s");
            proof {
                assert(out@ =~= rate_text(rate));
            }
            out
        },
    }
}

/// The hours, minutes and seconds of a span of time.
pub open spec fn clock(secs: nat) -> (nat, nat, nat) {
    (secs / 3600, secs % 3600 / 60, secs % 60)
}

/// A span of time in hours, minutes and seconds.
pub open spec fn uptime_text(secs: u64) -> Seq<char> {
    let (h, m, s) = clock(secs as nat);
    text::decimal(h) + "h "@ + text::decimal(m) + "m "@ + text::decimal(s) + "s"@
}

pub fn fmt_uptime(secs: u64) -> (r: String)
    ensures
        r@ == uptime_text(secs),
{
    let h: u64 = secs / 3600;
    let m: u64 = (secs % 3600) / 60;
    let s: u64 = secs % 60;
    let mut out: String = String::new();
    text::push_decimal(&mut out, h);
    out.append("h ");
    text::push_decimal(&mut out, m);
    out.append("m ");
    text::push_decimal(&mut out, s);
    out.append("s");
    proof {
        assert(out@ =~= uptime_text(secs));
    }
    out
}

/// Law: the minutes and seconds of an uptime are those of a clock, and with the
/// hours they add up to it.
pub proof fn law_uptime_adds_up(secs: u64)
    ensures
        ({
            let (h, m, s) = clock(secs as nat);
            m < 60 && s < 60 && h * 3600 + m * 60 + s == secs
        }),
{
    let n = secs as nat;
    assert(n == 3600 * (n / 3600) + n % 3600 && n % 3600 < 3600);
    let r = n % 3600;
    assert(r == 60 * (r / 60) + r % 60 && r % 60 < 60);
    assert(n % 60 == r % 60) by {
        assert(3600 * (n / 3600) == 60 * (60 * (n / 3600)));
    }
}

/// How dark the mark for a score out of 25 is, from 0 to 9.
pub open spec fn ramp_step(score: i32) -> int {
    if score >= 25 {
        9
    } else {
        score * 9 / 25
    }
}

/// The mark for a score on the trend strip: from blank for none of 25 to `@`
/// for all, and a dot where there is no score.
pub open spec fn ramp_mark(score: i32) -> char {
    if score < 0 {
        '.'
    } else {
        " .-:=+*#%@"@[ramp_step(score)]
    }
}

pub fn ascii_ramp_char(score: i32) -> (c: char)
    ensures
        c == ramp_mark(score),
{
    if score < 0 {
        return '.';
    }
    let clamped: usize = if score > 25 {
        25
    } else {
        score as usize
    };
    let idx: usize = clamped * 9 / 25;
    proof {
        reveal_strlit(" .-:=+*#%@");
    }
    " .-:=+*#%@".get_char(idx)
}

/// Law: a better score never gets a lighter mark, and every step is one of the
/// ramp's.
pub proof fn law_ramp_is_monotonic(a: i32, b: i32)
    requires
        0 <= a <= b,
    ensures
        0 <= ramp_step(a) <= ramp_step(b) <= 9,
{
}

/// Law: a score is printed in full, and a dash stands for none.
pub proof fn law_scores_are_printed_in_full(v: i32, r: String, best: String)
    requires
        call_ensures(fmt_score, (v,), r),
        call_ensures(fmt_best, (v,), best),
    ensures
        v >= 0 ==> r@ == text::decimal(v as nat),
        v < 0 ==> r@ == seq!['-'],
        best@ == r@ + " / 25"@,
{
    reveal_strlit("-");
    assert("-"@ =~= seq!['-']);
}

/// Law: an amount of memory is printed in the largest unit that it reaches, to
/// the nearest tenth of a gigabyte or the nearest megabyte or kilobyte, and below
/// a kilobyte in bytes.
pub proof fn law_bytes_are_printed_to_the_nearest(bytes: u64, r: String)
    requires
        call_ensures(fmt_bytes, (bytes,), r),
    ensures
        bytes >= 0x4000_0000 ==> exists|u: nat|
            double::nearly(u, 10, bytes as nat, 0x4000_0000) && r@ == #[trigger] double::fixed_point(
                u,
                1,
            ) + " GB"@,
        0x10_0000 <= bytes < 0x4000_0000 ==> exists|u: nat|
            double::nearly(u, 1, bytes as nat, 0x10_0000) && r@ == #[trigger] double::fixed_point(
                u,
                0,
            ) + " MB"@,
        0x400 <= bytes < 0x10_0000 ==> exists|u: nat|
            double::nearly(u, 1, bytes as nat, 0x400) && r@ == #[trigger] double::fixed_point(u, 0)
                + " KB"@,
        bytes < 0x400 ==> r@ == text::decimal(bytes as nat) + " B"@,
{
    let g = double::lemma_print_of_integer(bytes as nat, 0x4000_0000, 1);
    let m = double::lemma_print_of_integer(bytes as nat, 0x10_0000, 0);
    let k = double::lemma_print_of_integer(bytes as nat, 0x400, 0);
}

/// Law: a count is printed in the largest of trillions, billions, millions and
/// thousands that it reaches, to the nearest hundredth, or tenth of a thousand,
/// and below a thousand as it is.
pub proof fn law_counts_are_printed_to_the_nearest(n: u64, r: String)
    requires
        call_ensures(fmt_count, (n,), r),
    ensures
        n >= 1_000_000_000_000 ==> exists|u: nat|
            double::nearly(u, 100, n as nat, 1_000_000_000_000) && r@
                == #[trigger] double::fixed_point(u, 2) + "T"@,
        1_000_000_000 <= n < 1_000_000_000_000 ==> exists|u: nat|
            double::nearly(u, 100, n as nat, 1_000_000_000) && r@ == #[trigger] double::fixed_point(
                u,
                2,
            ) + "B"@,
        1_000_000 <= n < 1_000_000_000 ==> exists|u: nat|
            double::nearly(u, 100, n as nat, 1_000_000) && r@ == #[trigger] double::fixed_point(
                u,
                2,
            ) + "M"@,
        1_000 <= n < 1_000_000 ==> exists|u: nat|
            double::nearly(u, 10, n as nat, 1_000) && r@ == #[trigger] double::fixed_point(u, 1)
                + "K"@,
        n < 1_000 ==> r@ == text::decimal(n as nat),
{
    let t = double::lemma_print_of_integer(n as nat, 1_000_000_000_000, 2);
    let b = double::lemma_print_of_integer(n as nat, 1_000_000_000, 2);
    let m = double::lemma_print_of_integer(n as nat, 1_000_000, 2);
    let k = double::lemma_print_of_integer(n as nat, 1_000, 1);
}

/// `rate` is at least `unit`.
pub open spec fn reaches(rate: Double, unit: nat) -> bool {
    rate.num() >= rate.den() * unit
}

/// A rate in units, printed to the nearest hundredth.
proof fn lemma_rate_in_units(rate: Double, unit: nat) -> (u: nat)
    requires
        rate.is_valid(),
        1 <= unit <= 1_000_000_000_000,
    ensures
        rate.over(unit).printed(2) == double::fixed_point(u, 2),
        double::nearly(u, 100, rate.num(), rate.den() * unit),
{
    double::lemma_rate_bounds(rate, unit);
    double::lemma_print_of_quotient(rate.num(), rate.den() * unit, 2)
}

/// Law: a rate is printed in the largest of trillions, billions, millions and
/// thousands that it reaches, to the nearest hundredth, below that to the nearest
/// whole number, and zero as a dash.
pub proof fn law_rates_are_printed_to_the_nearest(rate: Double, r: String)
    requires
        rate.is_valid(),
        call_ensures(fmt_double_rate, (rate,), r),
    ensures
        rate.mant == 0 ==> r@ == "-"@,
        reaches(rate, 1_000_000_000_000) && rate.mant > 0 ==> exists|u: nat|
            double::nearly(u, 100, rate.num(), rate.den() * 1_000_000_000_000) && r@
                == #[trigger] double::fixed_point(u, 2) + "T/s"@,
        reaches(rate, 1_000_000_000) && !reaches(rate, 1_000_000_000_000) ==> exists|u: nat|
            double::nearly(u, 100, rate.num(), rate.den() * 1_000_000_000) && r@
                == #[trigger] double::fixed_point(u, 2) + "B/s"@,
        reaches(rate, 1_000_000) && !reaches(rate, 1_000_000_000) ==> exists|u: nat|
            double::nearly(u, 100, rate.num(), rate.den() * 1_000_000) && r@
                == #[trigger] double::fixed_point(u, 2) + "M/s"@,
        reaches(rate, 1_000) && !reaches(rate, 1_000_000) ==> exists|u: nat|
            double::nearly(u, 100, rate.num(), rate.den() * 1_000) && r@
                == #[trigger] double::fixed_point(u, 2) + "K/s"@,
        rate.mant > 0 && !reaches(rate, 1_000) ==> exists|u: nat|
            -rate.den() <= 2 * (u * rate.den() - rate.num()) <= rate.den() && r@
                == #[trigger] double::fixed_point(u, 0) + "/s"@,
{
    double::law_double_is_mantissa_over_power(rate);
    double::lemma_zero_numerator(rate);
    let d = rate.den();
    assert(d * 1_000 <= d * 1_000_000 <= d * 1_000_000_000 <= d * 1_000_000_000_000 && d * 1_000
        > 0) by (nonlinear_arith)
        requires
            d > 0,
    ;
    let t = lemma_rate_in_units(rate, 1_000_000_000_000);
    let b = lemma_rate_in_units(rate, 1_000_000_000);
    let m = lemma_rate_in_units(rate, 1_000_000);
    let k = lemma_rate_in_units(rate, 1_000);
    let u = double::round_half_even(rate.num() * double::ten_to(0), rate.den());
    double::law_print_is_the_nearest(rate, 0, u);
    vstd::arithmetic::power::lemma_pow0(10);
    let n = rate.num();
    assert(n * 1 == n) by (nonlinear_arith);
}

/// Law: a rate that is no number is shown as such, one that is zero or below as
/// a dash, an endless one in trillions, and any other like the number that it
/// is.
pub proof fn law_odd_rates_are_printed(rate: Float, r: String)
    requires
        call_ensures(fmt_rate, (rate,), r),
    ensures
        ({
            let exponent = rate.bits as int / 0x10_0000_0000_0000 % 2048;
            let fraction = rate.bits as int % 0x10_0000_0000_0000;
            let negative = rate.bits >= 0x8000_0000_0000_0000;
            &&& exponent == 2047 && fraction != 0 ==> r@ == "NaN/s"@
            &&& exponent == 2047 && fraction == 0 && !negative ==> r@ == "infT/s"@
            &&& exponent == 2047 && fraction == 0 && negative ==> r@ == "-"@
            &&& exponent < 2047 && negative ==> r@ == "-"@
            &&& exponent == 0 && fraction == 0 ==> r@ == "-"@
            &&& exponent < 2047 && !negative && (exponent > 0 || fraction > 0) ==> r@
                == double_rate_text(rate.size())
        }),
{
}

/// Law: an uptime is printed in hours, minutes and seconds that add up to it,
/// with fewer than sixty minutes and fewer than sixty seconds.
pub proof fn law_uptime_is_printed_as_a_clock(secs: u64, r: String, h: nat, m: nat, s: nat)
    requires
        call_ensures(fmt_uptime, (secs,), r),
        h * 3600 + m * 60 + s == secs,
        m < 60,
        s < 60,
    ensures
        r@ == text::decimal(h) + "h "@ + text::decimal(m) + "m "@ + text::decimal(s) + "s"@,
{
    assert(clock(secs as nat) == (h, m, s));
}

/// Law: the mark for a score is the one at its share of the ramp's nine steps,
/// rounded down. All of 25 and more has the last mark, no score has a dot.
pub proof fn law_marks_share_the_ramp(score: i32, c: char, step: int)
    requires
        call_ensures(ascii_ramp_char, (score,), c),
        0 <= score <= 25 ==> 25 * step <= 9 * score < 25 * (step + 1),
    ensures
        0 <= score <= 25 ==> 0 <= step <= 9 && c == " .-:=+*#%@"@[step],
        score > 25 ==> c == '@',
        score < 0 ==> c == '.',
{
    reveal_strlit(" .-:=+*#%@");
}

/// Law: rates from 2 to the power of 64 on are printed in trillions, to the
/// nearest hundredth, like smaller ones.
pub proof fn law_large_rates_are_printed(rate: Float, r: String)
    requires
        call_ensures(fmt_rate, (rate,), r),
        0x43f0_0000_0000_0000 <= rate.bits < 0x7ff0_0000_0000_0000,
    ensures
        exists|u: nat|
            double::nearly(u, 100, rate.size().num(), rate.size().den() * 1_000_000_000_000) && r@
                == #[trigger] double::fixed_point(u, 2) + "T/s"@,
{
    let q = rate.size();
    float::lemma_two_to_64_and_more(q);
    float::lemma_size_bound(rate);
    let u = double::lemma_print_of_quotient(q.num(), 1_000_000_000_000, 2);
    assert(1 * 1_000_000_000_000 == 1_000_000_000_000) by (nonlinear_arith);
}

} // verus!
