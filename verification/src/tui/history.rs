//! The scores of the recent reports, and their average.
use vstd::prelude::*;

use crate::double;
use crate::double::Double;

verus! {

/// The sum of the scores; a negative one stands for none.
pub open spec fn total(history: Seq<i32>) -> nat
    decreases history.len(),
{
    if history.len() == 0 {
        0
    } else {
        total(history.drop_last()) + if history.last() >= 0 {
            history.last() as nat
        } else {
            0
        }
    }
}

/// How many of the entries are scores.
pub open spec fn reported(history: Seq<i32>) -> nat
    decreases history.len(),
{
    if history.len() == 0 {
        0
    } else {
        reported(history.drop_last()) + if history.last() >= 0 {
            1nat
        } else {
            0nat
        }
    }
}

/// The average of the scores, in double precision, where there are any.
pub open spec fn mean(history: Seq<i32>) -> Option<Double> {
    if reported(history) == 0 {
        None
    } else {
        Some(double::ratio(total(history), reported(history)))
    }
}

proof fn lemma_prefix(history: Seq<i32>, i: int)
    requires
        0 <= i <= history.len(),
    ensures
        total(history.take(i)) <= total(history),
        reported(history.take(i)) <= i,
    decreases history.len(), i,
{
    if i < history.len() {
        let init = history.drop_last();
        lemma_prefix(init, i);
        assert(init.take(i) =~= history.take(i));
    } else {
        assert(history.take(i) =~= history);
        if i > 0 {
            let init = history.drop_last();
            lemma_prefix(init, i - 1);
            assert(init.take(i - 1) =~= init);
        }
    }
}

pub fn average(history: &Vec<i32>) -> (a: Option<Double>)
    requires
        total(history@) <= i32::MAX,
    ensures
        a == mean(history@),
        a matches Some(q) ==> q.is_valid() && q.num() < 0x1_0000_0000_0000_0000 * q.den(),
{
    let mut sum: i32 = 0;
    let mut count: usize = 0;
    let mut i: usize = 0;
    while i < history.len()
        invariant
            i <= history.len(),
            total(history@) <= i32::MAX,
            sum == total(history@.take(i as int)),
            count == reported(history@.take(i as int)),
            count <= i,
        decreases history.len() - i,
    {
        let v: i32 = history[i];
        proof {
            assert(history@.take(i + 1).drop_last() =~= history@.take(i as int));
            lemma_prefix(history@, i + 1);
        }
        if v >= 0 {
            sum = sum + v;
            count = count + 1;
        }
        i = i + 1;
    }
    proof {
        assert(history@.take(i as int) =~= history@);
    }
    if count == 0 {
        None
    } else {
        Some(Double::ratio_of(sum as u64, count as u64))
    }
}

/// Law: scores add up entry by entry, and an entry that is negative is no score:
/// it adds nothing and is not counted.
pub proof fn law_scores_add_up(a: Seq<i32>, b: Seq<i32>, v: i32)
    ensures
        total(a + b) == total(a) + total(b),
        reported(a + b) == reported(a) + reported(b),
        v >= 0 ==> total(seq![v]) == v && reported(seq![v]) == 1,
        v < 0 ==> total(seq![v]) == 0 && reported(seq![v]) == 0,
        total(Seq::<i32>::empty()) == 0,
        reported(Seq::<i32>::empty()) == 0,
    decreases b.len(),
{
    reveal_with_fuel(total, 2);
    reveal_with_fuel(reported, 2);
    assert(seq![v].drop_last() =~= Seq::<i32>::empty());
    if b.len() == 0 {
        assert(a + b =~= a);
    } else {
        law_scores_add_up(a, b.drop_last(), v);
        assert((a + b).drop_last() =~= a + b.drop_last());
    }
}

pub proof fn lemma_reported_bound(history: Seq<i32>)
    ensures
        reported(history) <= history.len(),
    decreases history.len(),
{
    if history.len() > 0 {
        lemma_reported_bound(history.drop_last());
    }
}

/// Law: the average is the sum of the scores over their number, as near as a
/// double comes to it, and there is one exactly where there is a score.
pub proof fn law_average_is_sum_over_number(history: Vec<i32>, a: Option<Double>)
    requires
        call_ensures(average, (&history,), a),
        total(history@) <= i32::MAX,
        history@.len() < 0x20_0000_0000_0000,
    ensures
        a is Some <==> exists|i: int| 0 <= i < history@.len() && #[trigger] history@[i] >= 0,
        a matches Some(q) ==> ({
            let sum = total(history@);
            let count = reported(history@);
            let off = q.num() * count - sum * q.den();
            &&& count > 0
            &&& q.den() > 0
            &&& -(sum * q.den()) <= 0x20_0000_0000_0000 * off <= sum * q.den()
        }),
{
    lemma_some_score(history@);
    if reported(history@) > 0 {
        lemma_reported_bound(history@);
        double::law_integers_are_nearly_doubles(total(history@));
        double::law_integers_are_nearly_doubles(reported(history@));
        double::lemma_exp2_is_pow(1200);
        double::lemma_exp2_values();
        double::lemma_exp2_bound(64, 1200);
        double::lemma_quotient_is_close(total(history@), reported(history@));
    }
}

proof fn lemma_some_score(history: Seq<i32>)
    ensures
        reported(history) > 0 <==> exists|i: int| 0 <= i < history.len() && #[trigger] history[i] >= 0,
    decreases history.len(),
{
    if history.len() > 0 {
        let init = history.drop_last();
        lemma_some_score(init);
        if reported(init) > 0 {
            let i = choose|i: int| 0 <= i < init.len() && #[trigger] init[i] >= 0;
            assert(history[i] >= 0);
        }
        if exists|i: int| 0 <= i < history.len() && #[trigger] history[i] >= 0 {
            let i = choose|i: int| 0 <= i < history.len() && #[trigger] history[i] >= 0;
            if i < init.len() {
                assert(init[i] >= 0);
            }
        }
        if history.last() >= 0 {
            assert(history[history.len() - 1] >= 0);
        }
    }
}

/// The average is printed to the nearest tenth.
pub proof fn lemma_average_printed(scores: Seq<i32>) -> (u: nat)
    requires
        total(scores) <= i32::MAX,
        reported(scores) > 0,
        reported(scores) < 0x20_0000_0000_0000,
    ensures
        mean(scores).unwrap().printed(1) == double::fixed_point(u, 1),
        double::nearly(u, 10, total(scores), reported(scores)),
{
    double::law_integers_are_nearly_doubles(total(scores));
    double::law_integers_are_nearly_doubles(reported(scores));
    double::lemma_exp2_is_pow(1200);
    double::lemma_exp2_values();
    double::lemma_exp2_bound(64, 1200);
    double::lemma_print_of_quotient(total(scores), reported(scores), 1)
}

} // verus!
