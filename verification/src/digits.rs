//! Integers of any size in decimal, as far as doubling reaches them.
use vstd::prelude::*;

use crate::decimal;
use crate::double;
use crate::text;

verus! {

/// The number whose decimal digits are `d`, the last digit first.
spec fn value(d: Seq<u8>) -> nat
    decreases d.len(),
{
    if d.len() == 0 {
        0
    } else {
        d[0] as nat + 10 * value(d.drop_first())
    }
}

/// Decimal digits, without zeros before the first.
spec fn is_proper(d: Seq<u8>) -> bool {
    &&& forall|i: int| 0 <= i < d.len() ==> #[trigger] d[i] < 10
    &&& d.len() > 0
    &&& d.len() > 1 ==> d.last() != 0
}

proof fn lemma_value_push(d: Seq<u8>, x: u8)
    ensures
        value(d.push(x)) == value(d) + x * decimal::pow10(d.len()),
    decreases d.len(),
{
    if d.len() == 0 {
        let none = Seq::<u8>::empty();
        assert(d.push(x).drop_first() =~= none);
        assert(value(none) == 0);
        assert(x * 1 == x) by (nonlinear_arith);
    } else {
        let rest = d.drop_first();
        lemma_value_push(rest, x);
        assert(d.push(x).drop_first() =~= rest.push(x));
        let p = decimal::pow10(rest.len());
        assert(10 * (x * p) == x * (10 * p)) by (nonlinear_arith);
        assert(d.push(x)[0] == d[0]);
    }
}

/// The digits of twice the number.
fn doubled(d: &Vec<u8>) -> (r: Vec<u8>)
    requires
        is_proper(d@),
    ensures
        is_proper(r@),
        value(r@) == 2 * value(d@),
{
    let mut r: Vec<u8> = Vec::new();
    let mut carry: u8 = 0;
    let mut i: usize = 0;
    proof {
        assert(d@.skip(0) =~= d@);
        let v = value(d@);
        assert(1 * (0 + 2 * v) == 2 * v) by (nonlinear_arith);
    }
    while i < d.len()
        invariant
            i <= d.len(),
            is_proper(d@),
            r.len() == i,
            carry <= 1,
            forall|k: int| 0 <= k < i ==> #[trigger] r@[k] < 10,
            value(r@) + decimal::pow10(i as nat) * (carry + 2 * value(d@.skip(i as int))) == 2
                * value(d@),
            i > 1 && i == d.len() && carry == 0 ==> r@[i - 1] != 0,
        decreases d.len() - i,
    {
        let x: u8 = 2 * d[i] + carry;
        let low: u8 = x % 10;
        proof {
            let p = decimal::pow10(i as nat);
            let rest = value(d@.skip(i + 1));
            assert(d@.skip(i as int).drop_first() =~= d@.skip(i + 1));
            lemma_value_push(r@, low);
            let up: u8 = x / 10;
            assert(p * (carry + 2 * (d@[i as int] + 10 * rest)) == low * p + (10 * p) * (up + 2
                * rest)) by (nonlinear_arith)
                requires
                    carry + 2 * d@[i as int] == 10 * up + low,
            ;
        }
        r.push(low);
        carry = x / 10;
        i = i + 1;
    }
    proof {
        assert(d@.skip(i as int) =~= Seq::<u8>::empty());
        lemma_value_push(r@, carry);
        let p = decimal::pow10(i as nat);
        assert(p * (carry + 2 * 0) == carry * p) by (nonlinear_arith);
        assert(carry == 0 ==> carry * p == 0) by (nonlinear_arith);
    }
    if carry > 0 {
        r.push(carry);
    }
    r
}

/// The digits of a number, the last first.
fn digits_of(n: u64) -> (r: Vec<u8>)
    ensures
        is_proper(r@),
        value(r@) == n,
{
    let mut r: Vec<u8> = Vec::new();
    let mut rest: u64 = n;
    proof {
        assert(1 * n == n) by (nonlinear_arith);
    }
    while rest >= 10
        invariant
            forall|k: int| 0 <= k < r.len() ==> #[trigger] r@[k] < 10,
            value(r@) + decimal::pow10(r@.len()) * rest == n,
            r.len() > 0 ==> rest > 0,
        decreases rest,
    {
        let low: u8 = (rest % 10) as u8;
        proof {
            lemma_value_push(r@, low);
            let p = decimal::pow10(r@.len());
            let up = rest / 10;
            assert(p * rest == low * p + (10 * p) * up) by (nonlinear_arith)
                requires
                    rest == 10 * up + low,
            ;
        }
        r.push(low);
        rest = rest / 10;
    }
    proof {
        lemma_value_push(r@, rest as u8);
        let p = decimal::pow10(r@.len());
        assert(p * rest == rest * p) by (nonlinear_arith);
    }
    r.push(rest as u8);
    r
}

/// Appends the number in decimal.
fn push_digits(out: &mut String, d: &Vec<u8>)
    requires
        is_proper(d@),
    ensures
        final(out)@ == old(out)@ + text::decimal(value(d@)),
{
    let mut i: usize = d.len();
    let ghost before = out@;
    while i > 0
        invariant
            i <= d.len(),
            is_proper(d@),
            i == d.len() ==> out@ == before,
            i < d.len() ==> out@ == before + text::decimal(value(d@.skip(i as int))),
            i < d.len() && (d.len() > 1) ==> value(d@.skip(i as int)) > 0,
        decreases i,
    {
        i = i - 1;
        let x: u8 = d[i];
        out.push((48 + x) as char);
        proof {
            let high = value(d@.skip(i + 1));
            let all = value(d@.skip(i as int));
            assert(d@.skip(i as int).drop_first() =~= d@.skip(i + 1));
            assert(all == x + 10 * high);
            if i + 1 == d.len() {
                assert(d@.skip(i + 1) =~= Seq::<u8>::empty());
                assert(out@ =~= before + text::decimal(all));
            } else {
                assert(all / 10 == high && all % 10 == x as nat);
                assert(out@ =~= before + text::decimal(all));
            }
        }
    }
    proof {
        assert(d@.skip(0) =~= d@);
    }
}

/// Appends `n` times 2 to the power of `k`, in decimal.
pub fn push_scaled_up(out: &mut String, n: u64, k: u32)
    ensures
        final(out)@ == old(out)@ + text::decimal(n as nat * double::exp2(k as nat)),
{
    let mut d: Vec<u8> = digits_of(n);
    let mut i: u32 = 0;
    proof {
        assert(n as nat * 1 == n as nat) by (nonlinear_arith);
    }
    while i < k
        invariant
            i <= k,
            is_proper(d@),
            value(d@) == n as nat * double::exp2(i as nat),
        decreases k - i,
    {
        d = doubled(&d);
        proof {
            let e = double::exp2(i as nat);
            assert(2 * (n as nat * e) == n as nat * (2 * e)) by (nonlinear_arith);
        }
        i = i + 1;
    }
    push_digits(out, &d);
}

} // verus!
