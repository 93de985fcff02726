//! The CPU backend: sixteen shuffles at a time, batches spread over threads.
use vstd::prelude::*;

use orx_parallel::{Par, Parallelizable};

use crate::compute::batch;
use crate::compute::range;
use crate::compute::range::RangeResult;
use crate::compute::shuffle;

verus! {

/// The best shuffle of a part of a range.
#[derive(Clone, Copy)]
pub struct LocalBest {
    pub score: i32,
    pub arr: [u8; 25],
    pub index: u64,
}

/// `best` is the first of the best shuffles with index `lo` up to `hi`,
/// without `hi`.
pub open spec fn is_first_best(base_seed: u64, lo: int, hi: int, best: LocalBest) -> bool {
    &&& lo <= best.index < hi
    &&& best.score == range::score_at(base_seed, best.index)
    &&& best.arr@ == range::board_at(base_seed, best.index)
    &&& forall|i: u64| lo <= i < hi ==> range::score_at(base_seed, i) <= best.score
    &&& forall|i: u64| lo <= i < best.index ==> range::score_at(base_seed, i) < best.score
}

/// `best` is the first of the best shuffles of batch `b`.
pub open spec fn is_batch_best(base_seed: u64, lo: u64, b: nat, best: LocalBest) -> bool {
    is_first_best(base_seed, lo + 16 * b, lo + 16 * b + 16, best)
}

/// The one with the better score; the first of two that are equally good.
pub open spec fn better_of(a: LocalBest, b: LocalBest) -> LocalBest {
    if a.score >= b.score {
        a
    } else {
        b
    }
}

/// One way of combining the results of batches pair by pair: a leaf is the
/// result of one batch, a node combines two results.
pub enum Reduction {
    Leaf(nat, LocalBest),
    Node(Box<Reduction>, Box<Reduction>),
}

impl Reduction {
    /// The result that the combination ends with.
    pub open spec fn value(self) -> LocalBest
        decreases self,
    {
        match self {
            Reduction::Leaf(b, best) => best,
            Reduction::Node(l, r) => better_of(l.value(), r.value()),
        }
    }

    /// The batches that it combines, from left to right.
    pub open spec fn batches(self) -> Seq<nat>
        decreases self,
    {
        match self {
            Reduction::Leaf(b, best) => seq![b],
            Reduction::Node(l, r) => l.batches() + r.batches(),
        }
    }

    /// Every leaf holds the first of the best shuffles of its batch.
    pub open spec fn is_sound(self, base_seed: u64, lo: u64) -> bool
        decreases self,
    {
        match self {
            Reduction::Leaf(b, best) => is_batch_best(base_seed, lo, b, best),
            Reduction::Node(l, r) => l.is_sound(base_seed, lo) && r.is_sound(base_seed, lo),
        }
    }

    /// Every batch below `n` is combined exactly once, and no other.
    pub open spec fn covers(self, n: nat) -> bool {
        &&& self.batches().no_duplicates()
        &&& forall|b: nat| b < n <==> #[trigger] self.batches().contains(b)
    }

    /// The batches below `n` are combined from the first to the last.
    pub open spec fn is_in_order(self, n: nat) -> bool {
        self.batches() == Seq::new(n, |b: int| b as nat)
    }
}

/// However the batches are combined, the outcome is the result of one of
/// them, and as good as each.
proof fn lemma_reduction(t: Reduction, base_seed: u64, lo: u64)
    requires
        t.is_sound(base_seed, lo),
    ensures
        exists|b: nat| #[trigger]
            t.batches().contains(b) && is_batch_best(base_seed, lo, b, t.value()),
        forall|b: nat, i: u64| #[trigger]
            t.batches().contains(b) && lo + 16 * b <= i < lo + 16 * b + 16 ==> #[trigger]
            range::score_at(base_seed, i) <= t.value().score,
    decreases t,
{
    match t {
        Reduction::Leaf(b, best) => {
            assert(t.batches()[0] == b);
            assert(t.batches().contains(b));
        },
        Reduction::Node(l, r) => {
            lemma_reduction(*l, base_seed, lo);
            lemma_reduction(*r, base_seed, lo);
            let all = t.batches();
            let nl = l.batches().len() as int;
            assert forall|b: nat| #[trigger] all.contains(b) implies l.batches().contains(b)
                || r.batches().contains(b) by {
                let k = choose|k: int| 0 <= k < all.len() && all[k] == b;
                if k < nl {
                    assert(l.batches()[k] == b);
                } else {
                    assert(r.batches()[k - nl] == b);
                }
            }
            assert forall|b: nat| #[trigger] l.batches().contains(b) implies all.contains(b) by {
                let k = choose|k: int| 0 <= k < nl && l.batches()[k] == b;
                assert(all[k] == b);
            }
            assert forall|b: nat| #[trigger] r.batches().contains(b) implies all.contains(b) by {
                let k = choose|k: int| 0 <= k < r.batches().len() && r.batches()[k] == b;
                assert(all[nl + k] == b);
            }
            let bl = choose|b: nat| #[trigger]
                l.batches().contains(b) && is_batch_best(base_seed, lo, b, l.value());
            let br = choose|b: nat| #[trigger]
                r.batches().contains(b) && is_batch_best(base_seed, lo, b, r.value());
            if l.value().score >= r.value().score {
                assert(all.contains(bl));
            } else {
                assert(all.contains(br));
            }
        },
    }
}

/// Where the batches are combined in order, the outcome is the first of the
/// best shuffles of all of them.
proof fn lemma_reduction_in_order(t: Reduction, base_seed: u64, lo: u64)
    requires
        t.is_sound(base_seed, lo),
        forall|i: int, j: int|
            0 <= i < j < t.batches().len() ==> t.batches()[i] < t.batches()[j],
    ensures
        forall|b: nat, i: u64| #[trigger]
            t.batches().contains(b) && lo + 16 * b <= i < lo + 16 * b + 16 && i < t.value().index
                ==> #[trigger] range::score_at(base_seed, i) < t.value().score,
    decreases t,
{
    match t {
        Reduction::Leaf(b, best) => {},
        Reduction::Node(l, r) => {
            let all = t.batches();
            let nl = l.batches().len() as int;
            assert forall|i: int, j: int| 0 <= i < j < nl implies l.batches()[i]
                < l.batches()[j] by {
                assert(all[i] < all[j]);
            }
            assert forall|i: int, j: int| 0 <= i < j < r.batches().len() implies r.batches()[i]
                < r.batches()[j] by {
                assert(all[nl + i] < all[nl + j]);
            }
            lemma_reduction_in_order(*l, base_seed, lo);
            lemma_reduction_in_order(*r, base_seed, lo);
            lemma_reduction(*l, base_seed, lo);
            lemma_reduction(*r, base_seed, lo);
            let bl = choose|b: nat| #[trigger]
                l.batches().contains(b) && is_batch_best(base_seed, lo, b, l.value());
            let v = t.value();
            assert forall|b: nat, i: u64| #[trigger]
                all.contains(b) && lo + 16 * b <= i < lo + 16 * b + 16 && i
                    < v.index implies #[trigger] range::score_at(base_seed, i) < v.score by {
                let k = choose|k: int| 0 <= k < all.len() && all[k] == b;
                if k < nl {
                    assert(l.batches()[k] == b);
                    assert(l.batches().contains(b));
                } else {
                    assert(r.batches()[k - nl] == b);
                    assert(r.batches().contains(b));
                    let m = choose|m: int| 0 <= m < nl && l.batches()[m] == bl;
                    assert(all[m] < all[k]);
                }
            }
        },
    }
}

fn better(a: LocalBest, b: LocalBest) -> (r: LocalBest)
    ensures
        r == better_of(a, b),
{
    if a.score >= b.score {
        a
    } else {
        b
    }
}

/// The first of the best shuffles of batch `b`.
pub fn best_of_batch(base_seed: u64, lo: u64, b: usize) -> (best: LocalBest)
    requires
        lo + 16 * b + 16 <= u64::MAX,
    ensures
        is_batch_best(base_seed, lo, b as nat, best),
{
    let base_i: u64 = lo + b as u64 * 16;
    let mut seeds: [u64; 16] = [0; 16];
    let mut l: usize = 0;
    while l < 16
        invariant
            l <= 16,
            base_i + 16 <= u64::MAX,
            forall|m: int|
                0 <= m < l ==> #[trigger] seeds[m] == range::seed_at(base_seed, (base_i + m) as u64),
        decreases 16 - l,
    {
        seeds[l] = range::shuffle_seed(base_seed, base_i + l as u64);
        l = l + 1;
    }
    let dealt: [(i32, [u8; 25]); 16] = batch::one_shuffle_batch(seeds);
    let mut best = LocalBest { score: -1, arr: [0; 25], index: base_i };
    l = 0;
    while l < 16
        invariant
            l <= 16,
            base_i + 16 <= u64::MAX,
            forall|m: int|
                0 <= m < 16 ==> #[trigger] seeds[m] == range::seed_at(
                    base_seed,
                    (base_i + m) as u64,
                ),
            forall|m: int|
                0 <= m < 16 ==> (#[trigger] dealt[m]).1@ == shuffle::shuffled(seeds[m])
                    && dealt[m].0 == shuffle::score(shuffle::shuffled(seeds[m])),
            l == 0 ==> best.score == -1,
            l > 0 ==> is_first_best(base_seed, base_i as int, base_i + l, best),
        decreases 16 - l,
    {
        assert(seeds[l as int] == range::seed_at(base_seed, (base_i + l) as u64));
        let (score, arr) = dealt[l];
        assert(score == range::score_at(base_seed, (base_i + l) as u64));
        if score > best.score {
            best = LocalBest { score, arr, index: base_i + l as u64 };
        }
        l = l + 1;
    }
    best
}

/// `orx_parallel::Par::reduce` over the batches `0..n_batches`, each mapped
/// to its best shuffle, on at most `threads` threads (all of them for 0).
///
/// The iterator hands every batch to exactly one thread; a thread combines
/// what it gets as it comes, and the outcomes of the threads are combined in
/// the order in which they are done. So every batch goes into the outcome
/// exactly once, and in which order and grouping is left open. With one thread
/// the batches are folded one after the other, as by a sequential iterator.
/// There is no outcome where there is no batch.
#[verifier::external_body]
fn reduce_batches(base_seed: u64, lo: u64, n_batches: usize, threads: usize) -> (best: Option<
    LocalBest,
>)
    requires
        lo + 16 * n_batches <= u64::MAX,
    ensures
        best is None <==> n_batches == 0,
        best matches Some(v) ==> exists|t: Reduction|
            t.covers(n_batches as nat) && t.is_sound(base_seed, lo) && (threads == 1
                ==> t.is_in_order(n_batches as nat)) && #[trigger] t.value() == v,
{
    (0usize..n_batches)
        .par()
        .num_threads(threads)
        .map(|b| best_of_batch(base_seed, lo, b))
        .reduce(|a, b| better(a, b))
}

/// The end of the part of a range that is worked on in batches.
pub open spec fn batch_end(lo: int, hi: int) -> int {
    lo + (hi - lo) / 16 * 16
}

/// The first index of the piece of a range that an index belongs to: a batch
/// of sixteen, or the rest that does not fill one.
pub open spec fn piece_start(lo: int, hi: int, index: int) -> int {
    if index < batch_end(lo, hi) {
        lo + (index - lo) / 16 * 16
    } else {
        batch_end(lo, hi)
    }
}

/// `r` reports the range from `lo` up to `hi`, without `hi`: a best shuffle of
/// it. Of equally good ones it is the first in its batch, and one in a batch
/// goes before those in the rest.
pub open spec fn is_range_best(base_seed: u64, lo: u64, hi: u64, r: RangeResult) -> bool {
    &&& r.lo == lo
    &&& r.hi == hi
    &&& r.best_correct == range::best_score(base_seed, lo as int, hi as int)
    &&& lo == hi ==> {
        &&& r.best_correct == -1
        &&& r.best_arr@ == Seq::new(25, |i: int| 0u8)
        &&& r.best_index == lo
    }
    &&& lo < hi ==> {
        &&& lo <= r.best_index < hi
        &&& r.best_correct == range::score_at(base_seed, r.best_index)
        &&& r.best_arr@ == range::board_at(base_seed, r.best_index)
        &&& forall|i: u64|
            piece_start(lo as int, hi as int, r.best_index as int) <= i < r.best_index
                ==> range::score_at(base_seed, i) < r.best_correct
        &&& r.best_index >= batch_end(lo as int, hi as int) ==> forall|i: u64|
            lo <= i < batch_end(lo as int, hi as int) ==> range::score_at(base_seed, i)
                < r.best_correct
    }
}

/// No shuffle of the range before the one reported is as good.
pub open spec fn is_first_in_range(base_seed: u64, r: RangeResult) -> bool {
    forall|i: u64| r.lo <= i < r.best_index ==> range::score_at(base_seed, i) < r.best_correct
}

/// Computes ranges on the processor.
pub struct CpuBackend {
    num_threads: usize,
}

impl CpuBackend {
    /// How many threads the backend may use; 0 for all logical cores.
    pub closed spec fn threads(self) -> usize {
        self.num_threads
    }

    /// `threads` = 0 means use all logical cores.
    pub fn new(threads: usize) -> (r: Self)
        ensures
            r.threads() == threads,
    {
        CpuBackend { num_threads: threads }
    }

    /// The best shuffle with an index from `lo` up to `hi`, without `hi`.
    pub fn compute_range(&mut self, base_seed: u64, lo: u64, hi: u64) -> (r: RangeResult)
        requires
            lo <= hi,
            (hi - lo) / 16 <= usize::MAX,
        ensures
            is_range_best(base_seed, lo, hi, r),
            old(self).threads() == 1 ==> is_first_in_range(base_seed, r),
            *final(self) == *old(self),
    {
        let threads: usize = self.num_threads;
        let total: u64 = hi - lo;
        let n_batches: u64 = total / 16;
        let tail_start: u64 = lo + n_batches * 16;
        let batched_best: Option<LocalBest> = reduce_batches(
            base_seed,
            lo,
            n_batches as usize,
            threads,
        );
        let ghost bs = base_seed;
        proof {
            if let Some(v) = batched_best {
                let t = choose|t: Reduction|
                    t.covers(n_batches as nat) && t.is_sound(bs, lo) && (threads == 1
                        ==> t.is_in_order(n_batches as nat)) && #[trigger] t.value() == v;
                lemma_reduction(t, bs, lo);
                let b = choose|b: nat| #[trigger]
                    t.batches().contains(b) && is_batch_best(bs, lo, b, v);
                assert(b < n_batches);
                assert((v.index - lo) / 16 == b);
                assert forall|i: u64| lo <= i < tail_start implies range::score_at(bs, i)
                    <= v.score by {
                    let c = ((i - lo) / 16) as nat;
                    assert(t.batches().contains(c));
                }
                if threads == 1 {
                    lemma_reduction_in_order(t, bs, lo);
                    assert forall|i: u64| lo <= i < v.index implies range::score_at(bs, i)
                        < v.score by {
                        let c = ((i - lo) / 16) as nat;
                        assert(t.batches().contains(c));
                    }
                }
            }
        }
        let mut tail_best: Option<LocalBest> = None;
        let mut i: u64 = tail_start;
        while i < hi
            invariant
                tail_start <= i <= hi,
                tail_best is None <==> i == tail_start,
                tail_best matches Some(v) ==> is_first_best(
                    base_seed,
                    tail_start as int,
                    i as int,
                    v,
                ),
            decreases hi - i,
        {
            let (score, arr) = shuffle::one_shuffle(range::shuffle_seed(base_seed, i));
            let cur = LocalBest { score, arr, index: i };
            tail_best = match tail_best {
                None => Some(cur),
                Some(best) => Some(better(best, cur)),
            };
            i = i + 1;
        }
        let result: LocalBest = match (batched_best, tail_best) {
            (Some(a), Some(b)) => better(a, b),
            (Some(a), None) => a,
            (None, Some(b)) => b,
            (None, None) => LocalBest { score: -1, arr: [0; 25], index: lo },
        };
        proof {
            assert(tail_start == batch_end(lo as int, hi as int));
            if lo < hi {
                assert forall|i: u64| lo <= i < hi implies range::score_at(bs, i)
                    <= result.score by {}
                range::lemma_best_score(
                    bs,
                    lo as int,
                    hi as int,
                    result.score as int,
                    result.index,
                );
            } else {
                assert(result.arr@ =~= Seq::new(25, |i: int| 0u8));
            }
        }
        RangeResult {
            lo,
            hi,
            best_correct: result.score,
            best_arr: result.arr,
            best_index: result.index,
        }
    }
}

/// Law: a range may be cut anywhere. Its report has the better score of the
/// reports of the two parts, wherever the seams between batches fall.
pub proof fn law_report_of_parts(
    base_seed: u64,
    lo: u64,
    mid: u64,
    hi: u64,
    whole: RangeResult,
    left: RangeResult,
    right: RangeResult,
)
    requires
        lo <= mid <= hi,
        is_range_best(base_seed, lo, hi, whole),
        is_range_best(base_seed, lo, mid, left),
        is_range_best(base_seed, mid, hi, right),
    ensures
        whole.best_correct == (if left.best_correct >= right.best_correct {
            left.best_correct
        } else {
            right.best_correct
        }),
{
    range::law_best_of_parts(base_seed, lo, mid, hi);
}

/// Law: a longer range never has a worse report.
pub proof fn law_report_grows(
    base_seed: u64,
    lo: u64,
    hi: u64,
    part: RangeResult,
    from: u64,
    to: u64,
    whole: RangeResult,
)
    requires
        from <= lo <= hi <= to,
        is_range_best(base_seed, lo, hi, part),
        is_range_best(base_seed, from, to, whole),
    ensures
        part.best_correct <= whole.best_correct,
{
    range::law_best_score_grows(base_seed, lo, hi, from, to);
}

/// Law: moving a range is moving the seed. The range `k` indices further on has
/// the score of the range itself from a base seed that is `k` steps further on,
/// however many threads work on either.
pub proof fn law_shifted_reports_agree(
    base_seed: u64,
    lo: u64,
    hi: u64,
    k: u64,
    a: RangeResult,
    b: RangeResult,
)
    requires
        lo <= hi,
        hi + k <= u64::MAX,
        is_range_best(base_seed, (lo + k) as u64, (hi + k) as u64, a),
        is_range_best(range::seed_at(base_seed, k), lo, hi, b),
    ensures
        a.best_correct == b.best_correct,
{
    range::law_shifted_best_score(base_seed, lo, hi, k);
}

/// Law: two reports of one range agree on the score, however the work was
/// spread over threads.
pub proof fn law_reports_agree(base_seed: u64, lo: u64, hi: u64, a: RangeResult, b: RangeResult)
    requires
        is_range_best(base_seed, lo, hi, a),
        is_range_best(base_seed, lo, hi, b),
    ensures
        a.best_correct == b.best_correct,
{
}

/// Law: a report can be checked. Its board holds every value from 1 to 25 once
/// and has the score that is reported, which no shuffle of the range beats.
pub proof fn law_report_holds(base_seed: u64, lo: u64, hi: u64, r: RangeResult, i: u64)
    requires
        is_range_best(base_seed, lo, hi, r),
        lo <= i < hi,
    ensures
        shuffle::is_permutation(r.best_arr@),
        shuffle::score(r.best_arr@) == r.best_correct,
        range::score_at(base_seed, i) <= r.best_correct,
        r.best_correct <= 25,
{
    shuffle::law_shuffle_is_permutation(range::seed_at(base_seed, r.best_index));
    shuffle::law_full_score_means_sorted(r.best_arr@);
    range::lemma_best_score_is_reached(base_seed, lo as int, hi as int, i);
}

/// Law: a report is as good as every shuffle of its range, seat by seat. It
/// counts the seated slots of its own board, that board is the one dealt to the
/// index it names, and no shuffle of the range has more slots seated. A range
/// without shuffles is reported as such.
pub proof fn law_report_seats_the_most(
    base_seed: u64,
    lo: u64,
    hi: u64,
    r: RangeResult,
    i: u64,
    seed: u64,
    dealt: (i32, [u8; 25]),
)
    requires
        is_range_best(base_seed, lo, hi, r),
        lo <= hi,
        seed == (base_seed + i * 0x9e3779b97f4a7c15) % 0x1_0000_0000_0000_0000int,
        call_ensures(shuffle::one_shuffle, (seed,), dealt),
    ensures
        r.lo == lo,
        r.hi == hi,
        lo < hi ==> lo <= r.best_index < hi,
        lo < hi ==> r.best_correct == Set::new(
            |k: int| 0 <= k < 25 && r.best_arr@[k] as int == k + 1,
        ).len(),
        lo <= i < hi ==> Set::new(|k: int| 0 <= k < 25 && dealt.1@[k] as int == k + 1).len()
            <= r.best_correct,
        lo < hi && i == r.best_index ==> r.best_arr@ == dealt.1@,
        lo == hi ==> r.best_correct == -1 && r.best_index == lo && forall|k: int|
            0 <= k < 25 ==> #[trigger] r.best_arr@[k] == 0,
{
    range::lemma_seed_at(base_seed, i);
    lemma_report_board(base_seed, lo, hi, r);
    shuffle::law_shuffle_scores_its_board(seed, dealt);
    if lo <= i < hi {
        range::lemma_best_score_is_reached(base_seed, lo as int, hi as int, i);
    }
}

proof fn lemma_report_board(base_seed: u64, lo: u64, hi: u64, r: RangeResult)
    requires
        is_range_best(base_seed, lo, hi, r),
    ensures
        lo < hi ==> r.best_correct == Set::new(
            |k: int| 0 <= k < 25 && r.best_arr@[k] as int == k + 1,
        ).len(),
{
    shuffle::lemma_seated_slots(r.best_arr@);
    assert(shuffle::seated_slots(r.best_arr@) =~= Set::new(
        |k: int| 0 <= k < 25 && r.best_arr@[k] as int == k + 1,
    ));
}

/// Law: of equally good shuffles the earlier one in a batch is reported. A
/// batch is sixteen indices from the start of the range on; what does not fill
/// one comes last, and wins only where it is better than all before it.
pub proof fn law_ties_go_to_the_earlier(
    base_seed: u64,
    lo: u64,
    hi: u64,
    r: RangeResult,
    i: u64,
)
    requires
        is_range_best(base_seed, lo, hi, r),
        lo <= i < r.best_index,
        lo < hi,
        (i - lo) / 16 == (r.best_index - lo) / 16 || (r.best_index - lo) / 16 == (hi - lo) / 16,
    ensures
        range::score_at(base_seed, i) < range::score_at(base_seed, r.best_index),
{
}

/// Law: on one thread the report is of the first shuffle with the best score.
pub proof fn law_one_thread_reports_the_first(
    base_seed: u64,
    lo: u64,
    hi: u64,
    r: RangeResult,
    i: u64,
)
    requires
        is_range_best(base_seed, lo, hi, r),
        is_first_in_range(base_seed, r),
        lo < hi,
        lo <= i < r.best_index,
    ensures
        range::score_at(base_seed, i) < range::score_at(base_seed, r.best_index),
{
}

} // verus!
