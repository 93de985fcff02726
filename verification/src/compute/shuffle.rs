//! One shuffle: the board that a seed deals, and how many of its values are
//! seated correctly.
use vstd::prelude::*;

use crate::compute::rng;

verus! {

/// The sorted board: every value in its own slot.
pub const IDENTITY: [u8; 25] = [
    1,
    2,
    3,
    4,
    5,
    6,
    7,
    8,
    9,
    10,
    11,
    12,
    13,
    14,
    15,
    16,
    17,
    18,
    19,
    20,
    21,
    22,
    23,
    24,
    25,
];

/// The sorted board: slot `i` holds `i + 1`.
pub open spec fn identity() -> Seq<u8> {
    Seq::new(25, |i: int| (i + 1) as u8)
}

/// `a` with the values in slots `i` and `j` exchanged.
pub open spec fn swapped(a: Seq<u8>, i: int, j: int) -> Seq<u8> {
    a.update(i, a[j]).update(j, a[i])
}

/// The Fisher-Yates shuffle of the first `i + 1` slots: slot `i` is exchanged
/// with one drawn from those not above it, then the slots below follow.
pub open spec fn fisher_yates(s: rng::Words, arr: Seq<u8>, i: nat) -> Seq<u8>
    decreases i,
{
    if i == 0 {
        arr
    } else {
        let max = (i + 1) as u32;
        fisher_yates(
            rng::bounded_words(s, max),
            swapped(arr, i as int, rng::bounded(s, max) as int),
            (i - 1) as nat,
        )
    }
}

/// The board that a seed deals.
pub open spec fn shuffled(seed: u64) -> Seq<u8> {
    fisher_yates(rng::seeded(seed), identity(), 24)
}

/// Slot `i` holds the value that belongs there.
pub open spec fn seated(arr: Seq<u8>, i: int) -> bool {
    arr[i] == i + 1
}

/// How many of the first `n` slots hold the value that belongs there.
pub open spec fn seated_below(arr: Seq<u8>, n: nat) -> nat
    decreases n,
{
    if n == 0 {
        0
    } else {
        seated_below(arr, (n - 1) as nat) + if seated(arr, n - 1) {
            1nat
        } else {
            0nat
        }
    }
}

/// How many of the 25 values of a board are seated correctly.
pub open spec fn score(arr: Seq<u8>) -> nat {
    seated_below(arr, 25)
}

/// Every value from 1 to 25 stands in exactly one slot.
pub open spec fn is_permutation(arr: Seq<u8>) -> bool {
    &&& arr.len() == 25
    &&& forall|i: int| 0 <= i < 25 ==> 1 <= #[trigger] arr[i] <= 25
    &&& forall|i: int, j: int| 0 <= i < j < 25 ==> arr[i] != arr[j]
}

pub proof fn lemma_fisher_yates_permutes(s: rng::Words, arr: Seq<u8>, i: nat)
    requires
        !rng::is_zero(s),
        is_permutation(arr),
        i <= 24,
    ensures
        is_permutation(fisher_yates(s, arr, i)),
    decreases i,
{
    if i > 0 {
        let max = (i + 1) as u32;
        rng::law_every_draw_ends(s, max);
        lemma_fisher_yates_permutes(
            rng::bounded_words(s, max),
            swapped(arr, i as int, rng::bounded(s, max) as int),
            (i - 1) as nat,
        );
    }
}

/// Law: a shuffle only rearranges the board. Whatever the seed, every value
/// from 1 to 25 is dealt exactly once.
pub proof fn law_shuffle_is_permutation(seed: u64)
    ensures
        is_permutation(shuffled(seed)),
{
    lemma_fisher_yates_permutes(rng::seeded(seed), identity(), 24);
}

proof fn lemma_seated_below(arr: Seq<u8>, n: nat)
    ensures
        seated_below(arr, n) <= n,
        seated_below(arr, n) == n <==> forall|i: int| 0 <= i < n ==> seated(arr, i),
        seated_below(arr, n) + 1 == n ==> exists|p: int|
            0 <= p < n && !seated(arr, p) && forall|i: int|
                0 <= i < n && i != p ==> seated(arr, i),
    decreases n,
{
    if n > 0 {
        let m = (n - 1) as nat;
        lemma_seated_below(arr, m);
        if seated_below(arr, n) + 1 == n {
            if seated(arr, n - 1) {
                let p = choose|p: int|
                    0 <= p < m && !seated(arr, p) && forall|i: int|
                        0 <= i < m && i != p ==> seated(arr, i);
                assert(!seated(arr, p));
            } else {
                assert(!seated(arr, n - 1));
            }
        }
        if forall|i: int| 0 <= i < n ==> seated(arr, i) {
            assert(seated(arr, n - 1));
        }
    }
}

/// Law: the score of a board lies between 0 and 25, and 25 is the score of the
/// sorted board alone.
pub proof fn law_full_score_means_sorted(arr: Seq<u8>)
    requires
        arr.len() == 25,
    ensures
        score(arr) <= 25,
        score(arr) == 25 <==> arr == identity(),
{
    lemma_seated_below(arr, 25);
    if score(arr) == 25 {
        assert forall|i: int| 0 <= i < 25 implies arr[i] == identity()[i] by {
            assert(seated(arr, i));
        }
        assert(arr =~= identity());
    }
}

/// Law: no rearrangement of the board scores 24. The last value has nowhere
/// else to go.
pub proof fn law_no_score_of_24(arr: Seq<u8>)
    requires
        is_permutation(arr),
    ensures
        score(arr) != 24,
{
    lemma_seated_below(arr, 25);
    if score(arr) == 24 {
        let p = choose|p: int|
            0 <= p < 25 && !seated(arr, p) && forall|i: int|
                0 <= i < 25 && i != p ==> seated(arr, i);
        let q = arr[p] - 1;
        assert(seated(arr, q));
        assert(arr[q] == arr[p]);
    }
}

/// How many values of a board are seated correctly.
pub fn count_seated(arr: &[u8; 25]) -> (n: i32)
    ensures
        n == score(arr@),
        0 <= n <= 25,
{
    let mut n: i32 = 0;
    let mut i: usize = 0;
    while i < 25
        invariant
            i <= 25,
            n == seated_below(arr@, i as nat),
            n <= i,
        decreases 25 - i,
    {
        if arr[i] == (i + 1) as u8 {
            n = n + 1;
        }
        i = i + 1;
    }
    n
}

/// Exchanges the values in slots `i` and `j`.
pub fn swap_slots(arr: &mut [u8; 25], i: usize, j: usize)
    requires
        i < 25,
        j < 25,
    ensures
        final(arr)@ == swapped(old(arr)@, i as int, j as int),
{
    let held: u8 = arr[i];
    arr[i] = arr[j];
    arr[j] = held;
}

/// The exchange of slot `I` in the Fisher-Yates shuffle. The bound is a
/// constant, so that the remainder costs a multiplication, not a division.
fn fy_step<const I: usize, const MAX: u32>(s: &mut [u32; 4], arr: &mut [u8; 25])
    requires
        0 < I < 25,
        MAX == I + 1,
        !rng::is_zero(rng::words(*old(s))),
    ensures
        !rng::is_zero(rng::words(*final(s))),
        fisher_yates(rng::words(*final(s)), final(arr)@, (I - 1) as nat) == fisher_yates(
            rng::words(*old(s)),
            old(arr)@,
            I as nat,
        ),
{
    proof {
        rng::law_every_draw_ends(rng::words(*s), MAX);
    }
    let j: usize = rng::xint_const::<MAX>(s) as usize;
    swap_slots(arr, I, j);
}

/// The board that a seed deals, with its score.
pub fn one_shuffle(seed: u64) -> (r: (i32, [u8; 25]))
    ensures
        r.1@ == shuffled(seed),
        r.0 == score(shuffled(seed)),
        is_permutation(r.1@),
        0 <= r.0 <= 25,
{
    let mut s: [u32; 4] = rng::xseed(seed);
    let mut arr: [u8; 25] = IDENTITY;
    proof {
        assert(arr@ =~= identity());
        law_shuffle_is_permutation(seed);
    }
    fy_step::<24, 25>(&mut s, &mut arr);
    fy_step::<23, 24>(&mut s, &mut arr);
    fy_step::<22, 23>(&mut s, &mut arr);
    fy_step::<21, 22>(&mut s, &mut arr);
    fy_step::<20, 21>(&mut s, &mut arr);
    fy_step::<19, 20>(&mut s, &mut arr);
    fy_step::<18, 19>(&mut s, &mut arr);
    fy_step::<17, 18>(&mut s, &mut arr);
    fy_step::<16, 17>(&mut s, &mut arr);
    fy_step::<15, 16>(&mut s, &mut arr);
    fy_step::<14, 15>(&mut s, &mut arr);
    fy_step::<13, 14>(&mut s, &mut arr);
    fy_step::<12, 13>(&mut s, &mut arr);
    fy_step::<11, 12>(&mut s, &mut arr);
    fy_step::<10, 11>(&mut s, &mut arr);
    fy_step::<9, 10>(&mut s, &mut arr);
    fy_step::<8, 9>(&mut s, &mut arr);
    fy_step::<7, 8>(&mut s, &mut arr);
    fy_step::<6, 7>(&mut s, &mut arr);
    fy_step::<5, 6>(&mut s, &mut arr);
    fy_step::<4, 5>(&mut s, &mut arr);
    fy_step::<3, 4>(&mut s, &mut arr);
    fy_step::<2, 3>(&mut s, &mut arr);
    fy_step::<1, 2>(&mut s, &mut arr);
    let correct: i32 = count_seated(&arr);
    (correct, arr)
}

/// The slots of a board that hold the value that belongs there: slot `i` counts
/// where it holds `i + 1`.
pub open spec fn seated_slots(arr: Seq<u8>) -> Set<int> {
    Set::new(|i: int| 0 <= i < 25 && arr[i] as int == i + 1)
}

proof fn lemma_seated_slots_below(arr: Seq<u8>, n: nat)
    requires
        n <= 25,
    ensures
        ({
            let below = Set::new(|i: int| 0 <= i < n && arr[i] as int == i + 1);
            below.finite() && below.len() == seated_below(arr, n)
        }),
    decreases n,
{
    let below = Set::new(|i: int| 0 <= i < n && arr[i] as int == i + 1);
    if n == 0 {
        assert(below =~= Set::empty());
    } else {
        let m = (n - 1) as nat;
        let rest = Set::new(|i: int| 0 <= i < m && arr[i] as int == i + 1);
        lemma_seated_slots_below(arr, m);
        if arr[n - 1] as int == n {
            assert(below =~= rest.insert(n - 1));
        } else {
            assert(below =~= rest);
        }
    }
}

pub proof fn lemma_seated_slots(arr: Seq<u8>)
    ensures
        seated_slots(arr).finite(),
        seated_slots(arr).len() == score(arr),
{
    lemma_seated_slots_below(arr, 25);
    assert(seated_slots(arr) =~= Set::new(|i: int| 0 <= i < 25nat && arr[i] as int == i + 1));
}

/// Law: counting the seated values of a board gives the number of slots `i`,
/// from 0 to 24, that hold the value `i + 1`.
pub proof fn law_every_seated_slot_counts(arr: &[u8; 25], n: i32)
    requires
        call_ensures(count_seated, (arr,), n),
    ensures
        n == Set::new(|i: int| 0 <= i < 25 && arr@[i] as int == i + 1).len(),
{
    lemma_seated_slots(arr@);
    assert(seated_slots(arr@) =~= Set::new(|i: int| 0 <= i < 25 && arr@[i] as int == i + 1));
}

/// Law: seating one more value raises the score by one. Where two boards differ
/// in one slot alone, and only the second has it right, the second has one
/// point more.
pub proof fn law_one_more_seat_is_one_more_point(
    a: &[u8; 25],
    b: &[u8; 25],
    slot: int,
    na: i32,
    nb: i32,
)
    requires
        call_ensures(count_seated, (a,), na),
        call_ensures(count_seated, (b,), nb),
        0 <= slot < 25,
        a@[slot] != slot + 1,
        b@[slot] == slot + 1,
        forall|i: int| 0 <= i < 25 && i != slot ==> #[trigger] a@[i] == b@[i],
    ensures
        nb == na + 1,
{
    lemma_seated_slots(a@);
    lemma_seated_slots(b@);
    assert(seated_slots(b@) =~= seated_slots(a@).insert(slot));
}

/// Law: of two boards, where every slot that the first has right is right in the
/// second too, and some slot in the second alone, the second has the greater
/// score.
pub proof fn law_more_seats_score_higher(
    a: &[u8; 25],
    b: &[u8; 25],
    slot: int,
    na: i32,
    nb: i32,
)
    requires
        call_ensures(count_seated, (a,), na),
        call_ensures(count_seated, (b,), nb),
        forall|i: int| 0 <= i < 25 && #[trigger] a@[i] == i + 1 ==> b@[i] == i + 1,
        0 <= slot < 25,
        a@[slot] != slot + 1,
        b@[slot] == slot + 1,
    ensures
        na < nb,
{
    let sa = seated_slots(a@);
    let sb = seated_slots(b@);
    lemma_seated_slots(a@);
    lemma_seated_slots(b@);
    assert(sa.insert(slot).subset_of(sb)) by {
        assert forall|i: int| sa.insert(slot).contains(i) implies sb.contains(i) by {
            if i != slot {
                assert(a@[i] == i + 1);
            }
        }
    }
    vstd::set_lib::lemma_len_subset(sa.insert(slot), sb);
}

/// Law: a shuffle is reported with the number of values that it seats, counted
/// on the board that it deals.
pub proof fn law_shuffle_scores_its_board(seed: u64, r: (i32, [u8; 25]))
    requires
        call_ensures(one_shuffle, (seed,), r),
    ensures
        r.0 == Set::new(|i: int| 0 <= i < 25 && r.1@[i] as int == i + 1).len(),
{
    lemma_seated_slots(r.1@);
    assert(seated_slots(r.1@) =~= Set::new(|i: int| 0 <= i < 25 && r.1@[i] as int == i + 1));
}

/// Law: a shuffle does not look at the values that it moves. Renaming them
/// before or after the shuffle gives the same board.
pub proof fn law_shuffle_is_blind(s: rng::Words, arr: Seq<u8>, i: nat, name: spec_fn(u8) -> u8)
    requires
        !rng::is_zero(s),
        i < arr.len() <= 25,
    ensures
        fisher_yates(s, arr.map_values(name), i) == fisher_yates(s, arr, i).map_values(name),
    decreases i,
{
    if i > 0 {
        let max = (i + 1) as u32;
        let j = rng::bounded(s, max) as int;
        rng::law_every_draw_ends(s, max);
        assert(swapped(arr.map_values(name), i as int, j) =~= swapped(arr, i as int, j).map_values(
            name,
        ));
        law_shuffle_is_blind(
            rng::bounded_words(s, max),
            swapped(arr, i as int, j),
            (i - 1) as nat,
            name,
        );
    }
}

/// Law: a shuffle settles its slots from the last one down. The last slot gets
/// what stood in the slot that is drawn for it, nothing above it moves, and the
/// slots below are the shuffle of what is left, with the value of the last slot
/// in the place of the one that was taken.
pub proof fn law_last_slot_is_drawn_first(s: rng::Words, arr: Seq<u8>, i: nat)
    requires
        !rng::is_zero(s),
        0 < i < arr.len() <= 25,
    ensures
        ({
            let j = rng::bounded(s, (i + 1) as u32) as int;
            let dealt = fisher_yates(s, arr, i);
            let below = fisher_yates(
                rng::bounded_words(s, (i + 1) as u32),
                arr.update(j, arr[i as int]),
                (i - 1) as nat,
            );
            &&& 0 <= j <= i
            &&& dealt.len() == arr.len()
            &&& dealt[i as int] == arr[j]
            &&& forall|k: int| i < k < arr.len() ==> #[trigger] dealt[k] == arr[k]
            &&& forall|k: int| 0 <= k < i ==> #[trigger] dealt[k] == below[k]
        }),
        fisher_yates(s, arr, 0) == arr,
{
    let max = (i + 1) as u32;
    let j = rng::bounded(s, max) as int;
    let t = rng::bounded_words(s, max);
    rng::law_every_draw_ends(s, max);
    let a = swapped(arr, i as int, j);
    let b = arr.update(j, arr[i as int]);
    assert(forall|k: int| 0 <= k < i ==> a[k] == b[k]);
    lemma_slots_below(t, a, b, (i - 1) as nat);
}

/// A shuffle of the first slots leaves the others alone, and does not look at
/// them.
proof fn lemma_slots_below(s: rng::Words, a: Seq<u8>, b: Seq<u8>, i: nat)
    requires
        !rng::is_zero(s),
        i < a.len() <= 25,
        b.len() == a.len(),
        forall|k: int| 0 <= k <= i ==> a[k] == b[k],
    ensures
        fisher_yates(s, a, i).len() == a.len(),
        fisher_yates(s, b, i).len() == a.len(),
        forall|k: int| 0 <= k <= i ==> #[trigger] fisher_yates(s, a, i)[k] == fisher_yates(s, b, i)[k],
        forall|k: int| i < k < a.len() ==> #[trigger] fisher_yates(s, a, i)[k] == a[k],
        forall|k: int| i < k < a.len() ==> #[trigger] fisher_yates(s, b, i)[k] == b[k],
    decreases i,
{
    if i > 0 {
        let max = (i + 1) as u32;
        let j = rng::bounded(s, max) as int;
        rng::law_every_draw_ends(s, max);
        lemma_slots_below(
            rng::bounded_words(s, max),
            swapped(a, i as int, j),
            swapped(b, i as int, j),
            (i - 1) as nat,
        );
    }
}

/// Law: a seed deals the shuffle of the sorted board, in which slot `i` holds
/// `i + 1`, with the generator that the seed starts.
pub proof fn law_seed_deals_the_sorted_board(seed: u64, r: (i32, [u8; 25]))
    requires
        call_ensures(one_shuffle, (seed,), r),
    ensures
        r.1@ == fisher_yates(rng::seeded(seed), Seq::new(25, |i: int| (i + 1) as u8), 24),
{
    assert(identity() =~= Seq::new(25, |i: int| (i + 1) as u8));
}

} // verus!
