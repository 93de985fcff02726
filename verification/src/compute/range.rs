//! What a backend is asked for: the best shuffle in a range of indices.
use vstd::arithmetic::div_mod;
use vstd::prelude::*;

use crate::compute::rng;
use crate::compute::shuffle;

verus! {

/// The best shuffle of a range, as it is reported.
#[derive(Clone, Copy, Debug)]
pub struct RangeResult {
    pub lo: u64,
    pub hi: u64,
    /// How many values are seated correctly; -1 where there is no shuffle.
    pub best_correct: i32,
    pub best_arr: [u8; 25],
    pub best_index: u64,
}

/// The seed of the shuffle with the given index.
pub open spec fn seed_at(base_seed: u64, index: u64) -> u64 {
    base_seed.wrapping_add(index.wrapping_mul(rng::GOLDEN))
}

/// The board that the shuffle with the given index deals.
pub open spec fn board_at(base_seed: u64, index: u64) -> Seq<u8> {
    shuffle::shuffled(seed_at(base_seed, index))
}

/// The score of the shuffle with the given index.
pub open spec fn score_at(base_seed: u64, index: u64) -> int {
    shuffle::score(board_at(base_seed, index)) as int
}

/// The best score among the shuffles with index `lo` up to `hi`, without
/// `hi`; -1 where there are none.
pub open spec fn best_score(base_seed: u64, lo: int, hi: int) -> int
    decreases hi - lo,
{
    if hi <= lo {
        -1
    } else {
        let last = score_at(base_seed, (hi - 1) as u64);
        let rest = best_score(base_seed, lo, hi - 1);
        if rest >= last {
            rest
        } else {
            last
        }
    }
}

/// `best` is the score of one shuffle in the range, and no shuffle in the
/// range has a better one.
pub proof fn lemma_best_score(base_seed: u64, lo: int, hi: int, best: int, index: u64)
    requires
        0 <= lo <= index < hi <= u64::MAX,
        best == score_at(base_seed, index),
        forall|i: u64| lo <= i < hi ==> score_at(base_seed, i) <= best,
    ensures
        best_score(base_seed, lo, hi) == best,
    decreases hi - lo,
{
    let last = (hi - 1) as u64;
    assert(score_at(base_seed, last) <= best);
    if index == last {
        lemma_best_score_bound(base_seed, lo, hi - 1, best);
    } else {
        lemma_best_score(base_seed, lo, hi - 1, best, index);
    }
}

proof fn lemma_best_score_bound(base_seed: u64, lo: int, hi: int, best: int)
    requires
        0 <= lo,
        hi <= u64::MAX,
        best >= -1,
        forall|i: u64| lo <= i < hi ==> score_at(base_seed, i) <= best,
    ensures
        best_score(base_seed, lo, hi) <= best,
    decreases hi - lo,
{
    if lo < hi {
        lemma_best_score_bound(base_seed, lo, hi - 1, best);
        assert(score_at(base_seed, (hi - 1) as u64) <= best);
    }
}

/// No shuffle of a range beats its best score.
pub proof fn lemma_best_score_is_reached(base_seed: u64, lo: int, hi: int, i: u64)
    requires
        lo <= i < hi,
    ensures
        score_at(base_seed, i) <= best_score(base_seed, lo, hi),
    decreases hi - lo,
{
    if i < hi - 1 {
        lemma_best_score_is_reached(base_seed, lo, hi - 1, i);
    }
}

/// Law: a range may be worked on in pieces. The best score of the whole is the
/// better one of its two parts.
pub proof fn law_best_of_parts(base_seed: u64, lo: u64, mid: u64, hi: u64)
    requires
        lo <= mid <= hi,
    ensures
        best_score(base_seed, lo as int, hi as int) == if best_score(
            base_seed,
            lo as int,
            mid as int,
        ) >= best_score(base_seed, mid as int, hi as int) {
            best_score(base_seed, lo as int, mid as int)
        } else {
            best_score(base_seed, mid as int, hi as int)
        },
    decreases hi - mid,
{
    if mid < hi {
        law_best_of_parts(base_seed, lo, mid, (hi - 1) as u64);
    } else {
        lemma_best_score_floor(base_seed, lo as int, mid as int);
    }
}

/// Law: a longer range never has a worse best score.
pub proof fn law_best_score_grows(base_seed: u64, lo: u64, hi: u64, from: u64, to: u64)
    requires
        from <= lo <= hi <= to,
    ensures
        best_score(base_seed, lo as int, hi as int) <= best_score(
            base_seed,
            from as int,
            to as int,
        ),
{
    law_best_of_parts(base_seed, from, lo, to);
    law_best_of_parts(base_seed, lo, hi, to);
}

/// Remainders of 2 to the power of 64 add up to that of the sum, or to one range
/// more.
proof fn lemma_remainder_of_sum(p: nat, q: nat)
    ensures
        ({
            let m = 0x1_0000_0000_0000_0000nat;
            (p + q) % m == p % m + q % m || (p + q) % m + m == p % m + q % m
        }),
{
}

proof fn lemma_shifted_seed(base_seed: u64, index: u64, k: u64)
    requires
        index + k <= u64::MAX,
    ensures
        seed_at(base_seed, (index + k) as u64) == seed_at(seed_at(base_seed, k), index),
{
    let g = rng::GOLDEN as nat;
    let p = index as nat * g;
    let q = k as nat * g;
    assert((index as nat + k as nat) * g == p + q) by (nonlinear_arith)
        requires
            p == index as nat * g,
            q == k as nat * g,
    ;
    lemma_remainder_of_sum(p, q);
    let x: u64 = index.wrapping_mul(rng::GOLDEN);
    let y: u64 = k.wrapping_mul(rng::GOLDEN);
    let z: u64 = ((index + k) as u64).wrapping_mul(rng::GOLDEN);
    assert(z == x + y || z + 0x1_0000_0000_0000_0000 == x + y);
}

/// Law: the best score of a range `k` indices further on is that of the range
/// itself from a base seed that is `k` steps further on.
pub proof fn law_shifted_best_score(base_seed: u64, lo: u64, hi: u64, k: u64)
    requires
        lo <= hi,
        hi + k <= u64::MAX,
    ensures
        best_score(base_seed, lo + k, hi + k) == best_score(
            seed_at(base_seed, k),
            lo as int,
            hi as int,
        ),
    decreases hi - lo,
{
    if lo < hi {
        law_shifted_best_score(base_seed, lo, (hi - 1) as u64, k);
        lemma_shifted_seed(base_seed, (hi - 1) as u64, k);
    }
}

proof fn lemma_best_score_floor(base_seed: u64, lo: int, hi: int)
    ensures
        best_score(base_seed, lo, hi) >= -1,
    decreases hi - lo,
{
    if lo < hi {
        lemma_best_score_floor(base_seed, lo, hi - 1);
    }
}

/// The seed of the shuffle with the given index.
pub fn shuffle_seed(base_seed: u64, index: u64) -> (seed: u64)
    ensures
        seed == seed_at(base_seed, index),
{
    base_seed.wrapping_add(index.wrapping_mul(rng::GOLDEN))
}

pub proof fn lemma_seed_at(base_seed: u64, index: u64)
    ensures
        seed_at(base_seed, index) == (base_seed + index * 0x9e3779b97f4a7c15)
            % 0x1_0000_0000_0000_0000int,
{
    let m = 0x1_0000_0000_0000_0000int;
    div_mod::lemma_add_mod_noop_right(base_seed as int, index * 0x9e3779b97f4a7c15, m);
}

/// Law: neighbouring shuffles have seeds one step of the golden ratio apart, all
/// modulo 2 to the power of 64.
pub proof fn law_seeds_are_golden_steps(base_seed: u64, index: u64, seed: u64)
    requires
        call_ensures(shuffle_seed, (base_seed, index), seed),
    ensures
        seed == (base_seed + index * 0x9e3779b97f4a7c15) % 0x1_0000_0000_0000_0000int,
{
    lemma_seed_at(base_seed, index);
}

/// Law: the best score of a range is reached by one of its shuffles and exceeded
/// by none.
pub proof fn law_best_score_is_the_maximum(base_seed: u64, lo: u64, hi: u64)
    ensures
        hi <= lo ==> best_score(base_seed, lo as int, hi as int) == -1,
        lo < hi ==> exists|i: u64|
            lo <= i < hi && #[trigger] score_at(base_seed, i) == best_score(
                base_seed,
                lo as int,
                hi as int,
            ),
        forall|i: u64|
            lo <= i < hi ==> #[trigger] score_at(base_seed, i) <= best_score(
                base_seed,
                lo as int,
                hi as int,
            ),
    decreases hi - lo,
{
    if lo < hi {
        let last = (hi - 1) as u64;
        law_best_score_is_the_maximum(base_seed, lo, last);
        if best_score(base_seed, lo as int, hi as int) == score_at(base_seed, last) {
            assert(lo <= last < hi);
        } else {
            let i = choose|i: u64|
                lo <= i < last && #[trigger] score_at(base_seed, i) == best_score(
                    base_seed,
                    lo as int,
                    last as int,
                );
            assert(lo <= i < hi);
        }
        assert forall|i: u64| lo <= i < hi implies #[trigger] score_at(base_seed, i) <= best_score(
            base_seed,
            lo as int,
            hi as int,
        ) by {
            lemma_best_score_is_reached(base_seed, lo as int, hi as int, i);
        }
    }
}

/// Law: the shuffle with an index is the one that its seed deals, and its score
/// is that of its board.
pub proof fn law_index_stands_for_its_shuffle(
    base_seed: u64,
    index: u64,
    seed: u64,
    dealt: (i32, [u8; 25]),
)
    requires
        seed == (base_seed + index * 0x9e3779b97f4a7c15) % 0x1_0000_0000_0000_0000int,
        call_ensures(shuffle::one_shuffle, (seed,), dealt),
    ensures
        board_at(base_seed, index) == dealt.1@,
        score_at(base_seed, index) == dealt.0,
        score_at(base_seed, index) == Set::new(
            |i: int| 0 <= i < 25 && dealt.1@[i] as int == i + 1,
        ).len(),
{
    lemma_seed_at(base_seed, index);
    shuffle::law_shuffle_scores_its_board(seed, dealt);
}

} // verus!
