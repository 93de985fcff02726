//! Sixteen shuffles side by side.
//!
//! The lanes draw in lockstep. A lane whose draw would have been thrown away
//! is tainted and falls out of step; when the batch is done it is dealt again
//! on its own, so that every lane ends up with the board that its seed deals.
use vstd::prelude::*;

use crate::compute::rng;
use crate::compute::shuffle;

verus! {

/// How many shuffles run side by side.
pub const LANES: usize = 16;

/// One generator per lane, word by word.
pub struct LaneState {
    pub s0: [u32; 16],
    pub s1: [u32; 16],
    pub s2: [u32; 16],
    pub s3: [u32; 16],
}

impl LaneState {
    /// The generator words of lane `l`.
    pub open spec fn lane(self, l: int) -> rng::Words {
        rng::Words { s0: self.s0[l], s1: self.s1[l], s2: self.s2[l], s3: self.s3[l] }
    }
}

/// Every lane of `x`, rotated left by `k` bits.
pub fn rotl_simd(x: &[u32; 16], k: u32) -> (r: [u32; 16])
    requires
        0 < k < 32,
    ensures
        forall|l: int| 0 <= l < 16 ==> #[trigger] r[l] == rng::rotated(x[l], k),
{
    let mut r: [u32; 16] = [0; 16];
    let mut l: usize = 0;
    while l < 16
        invariant
            l <= 16,
            0 < k < 32,
            forall|m: int| 0 <= m < l ==> #[trigger] r[m] == rng::rotated(x[m], k),
        decreases 16 - l,
    {
        r[l] = (x[l] << k) | (x[l] >> (32 - k));
        l = l + 1;
    }
    r
}

/// One xoshiro128++ draw in every lane.
pub fn xnext_simd(s: &mut LaneState) -> (x: [u32; 16])
    ensures
        forall|l: int| 0 <= l < 16 ==> #[trigger] x[l] == rng::output(old(s).lane(l)),
        forall|l: int|
            0 <= l < 16 ==> #[trigger] final(s).lane(l) == rng::next_words(old(s).lane(l)),
{
    let ghost before = *s;
    let mut sum: [u32; 16] = [0; 16];
    let mut l: usize = 0;
    while l < 16
        invariant
            l <= 16,
            *s == before,
            forall|m: int|
                0 <= m < l ==> #[trigger] sum[m] == before.s0[m].wrapping_add(before.s3[m]),
        decreases 16 - l,
    {
        sum[l] = s.s0[l].wrapping_add(s.s3[l]);
        l = l + 1;
    }
    let mut result: [u32; 16] = rotl_simd(&sum, 7);
    let ghost turned = result;
    l = 0;
    while l < 16
        invariant
            l <= 16,
            forall|m: int|
                0 <= m < 16 ==> #[trigger] turned[m] == rng::rotated(
                    before.s0[m].wrapping_add(before.s3[m]),
                    7,
                ),
            forall|m: int| 0 <= m < l ==> #[trigger] result[m] == rng::output(before.lane(m)),
            forall|m: int| l <= m < 16 ==> #[trigger] result[m] == turned[m],
            forall|m: int|
                0 <= m < l ==> #[trigger] s.s0[m] == before.s0[m] ^ (before.s3[m] ^ before.s1[m]),
            forall|m: int|
                0 <= m < l ==> #[trigger] s.s1[m] == before.s1[m] ^ (before.s2[m] ^ before.s0[m]),
            forall|m: int|
                0 <= m < l ==> #[trigger] s.s2[m] == (before.s2[m] ^ before.s0[m]) ^ (before.s1[m]
                    << 9u32),
            forall|m: int| 0 <= m < l ==> #[trigger] s.s3[m] == before.s3[m] ^ before.s1[m],
            forall|m: int| l <= m < 16 ==> #[trigger] s.s0[m] == before.s0[m],
            forall|m: int| l <= m < 16 ==> #[trigger] s.s1[m] == before.s1[m],
            forall|m: int| l <= m < 16 ==> #[trigger] s.s2[m] == before.s2[m],
            forall|m: int| l <= m < 16 ==> #[trigger] s.s3[m] == before.s3[m],
        decreases 16 - l,
    {
        result[l] = result[l].wrapping_add(s.s0[l]);
        let t: u32 = s.s1[l] << 9;
        s.s2[l] = s.s2[l] ^ s.s0[l];
        s.s3[l] = s.s3[l] ^ s.s1[l];
        s.s1[l] = s.s1[l] ^ s.s2[l];
        s.s0[l] = s.s0[l] ^ s.s3[l];
        s.s2[l] = s.s2[l] ^ t;
        l = l + 1;
    }
    s.s3 = rotl_simd(&s.s3, 11);
    result
}

/// Seeds one generator per lane.
pub fn load_state(seeds: &[u64; 16]) -> (s: LaneState)
    ensures
        forall|l: int| 0 <= l < 16 ==> #[trigger] s.lane(l) == rng::seeded(seeds[l]),
        forall|l: int| 0 <= l < 16 ==> !rng::is_zero(#[trigger] s.lane(l)),
{
    let mut s = LaneState { s0: [0; 16], s1: [0; 16], s2: [0; 16], s3: [0; 16] };
    let mut l: usize = 0;
    while l < 16
        invariant
            l <= 16,
            forall|m: int| 0 <= m < l ==> #[trigger] s.lane(m) == rng::seeded(seeds[m]),
            forall|m: int| 0 <= m < l ==> !rng::is_zero(#[trigger] s.lane(m)),
        decreases 16 - l,
    {
        let ghost before = s;
        let w: [u32; 4] = rng::xseed(seeds[l]);
        s.s0[l] = w[0];
        s.s1[l] = w[1];
        s.s2[l] = w[2];
        s.s3[l] = w[3];
        proof {
            assert(forall|m: int| 0 <= m < l ==> #[trigger] s.lane(m) == before.lane(m));
        }
        l = l + 1;
    }
    s
}

/// Every lane that is not tainted has the rest of the shuffle of its seed
/// before it, from slot `i` down.
spec fn on_track(
    s: LaneState,
    arrs: [[u8; 25]; 16],
    tainted: [bool; 16],
    seeds: [u64; 16],
    i: nat,
) -> bool {
    forall|l: int|
        0 <= l < 16 ==> !rng::is_zero(#[trigger] s.lane(l)) && (tainted[l]
            || shuffle::fisher_yates(s.lane(l), arrs[l]@, i) == shuffle::shuffled(seeds[l]))
}

/// The first draw is kept, so it is the bounded draw.
proof fn lemma_first_draw_kept(s: rng::Words, max: u32)
    requires
        rng::output(s) >= rng::threshold(max),
        0 < max <= 25,
    ensures
        rng::bounded(s, max) == rng::output(s) % max,
        rng::bounded_words(s, max) == rng::next_words(s),
{
    assert(rng::words_after(0, s) == s);
    assert(rng::first_kept(s, max, 0));
    rng::lemma_rejections_unique(s, max, 0);
    reveal_with_fuel(rng::words_after, 2);
}

/// The exchange of slot `I` in every lane. A lane whose draw lies below the
/// threshold is tainted.
fn fy_step_simd<const I: usize, const MAX: u32>(
    s: &mut LaneState,
    arrs: &mut [[u8; 25]; 16],
    tainted: &mut [bool; 16],
    seeds: &[u64; 16],
)
    requires
        0 < I < 25,
        MAX == I + 1,
        on_track(*old(s), *old(arrs), *old(tainted), *seeds, I as nat),
    ensures
        on_track(*final(s), *final(arrs), *final(tainted), *seeds, (I - 1) as nat),
{
    let thr: u32 = (0x100000000u64 % MAX as u64) as u32;
    let ghost s0 = *s;
    let ghost arrs0 = *arrs;
    let ghost tainted0 = *tainted;
    let x: [u32; 16] = xnext_simd(s);
    let mut l: usize = 0;
    while l < 16
        invariant
            l <= 16,
            0 < I < 25,
            MAX == I + 1,
            thr == rng::threshold(MAX),
            on_track(s0, arrs0, tainted0, *seeds, I as nat),
            forall|m: int| 0 <= m < 16 ==> #[trigger] x[m] == rng::output(s0.lane(m)),
            forall|m: int|
                0 <= m < 16 ==> #[trigger] s.lane(m) == rng::next_words(s0.lane(m)),
            forall|m: int|
                0 <= m < l ==> #[trigger] tainted[m] == (tainted0[m] || x[m] < thr),
            forall|m: int|
                0 <= m < l ==> #[trigger] arrs[m]@ == shuffle::swapped(
                    arrs0[m]@,
                    I as int,
                    (x[m] % MAX) as int,
                ),
            forall|m: int| l <= m < 16 ==> #[trigger] tainted[m] == tainted0[m],
            forall|m: int| l <= m < 16 ==> #[trigger] arrs[m] == arrs0[m],
        decreases 16 - l,
    {
        if x[l] < thr {
            tainted[l] = true;
        }
        let j: usize = (x[l] % MAX) as usize;
        let mut arr: [u8; 25] = arrs[l];
        shuffle::swap_slots(&mut arr, I, j);
        arrs[l] = arr;
        l = l + 1;
    }
    proof {
        assert forall|m: int| 0 <= m < 16 implies !rng::is_zero(#[trigger] s.lane(m)) && (
        tainted[m] || shuffle::fisher_yates(s.lane(m), arrs[m]@, (I - 1) as nat)
            == shuffle::shuffled(seeds[m])) by {
            assert(!rng::is_zero(s0.lane(m)));
            rng::lemma_next_words_nonzero(s0.lane(m));
            assert(tainted[m] == (tainted0[m] || x[m] < thr));
            assert(x[m] == rng::output(s0.lane(m)));
            if !tainted[m] {
                lemma_first_draw_kept(s0.lane(m), MAX);
            }
        }
    }
}

/// The boards that sixteen seeds deal, lane by lane, with their scores.
pub fn one_shuffle_batch(seeds: [u64; 16]) -> (r: [(i32, [u8; 25]); 16])
    ensures
        forall|l: int|
            0 <= l < 16 ==> (#[trigger] r[l]).1@ == shuffle::shuffled(seeds[l]) && r[l].0
                == shuffle::score(shuffle::shuffled(seeds[l])),
{
    let id: [u8; 25] = shuffle::IDENTITY;
    let mut s: LaneState = load_state(&seeds);
    let mut arrs: [[u8; 25]; 16] = [id; 16];
    let mut tainted: [bool; 16] = [false; 16];
    proof {
        assert(id@ =~= shuffle::identity());
        assert forall|l: int| 0 <= l < 16 implies !rng::is_zero(#[trigger] s.lane(l)) && (tainted[l]
            || shuffle::fisher_yates(s.lane(l), arrs[l]@, 24) == shuffle::shuffled(seeds[l])) by {
            assert(s.lane(l) == rng::seeded(seeds[l]));
        }
    }
    fy_step_simd::<24, 25>(&mut s, &mut arrs, &mut tainted, &seeds);
    fy_step_simd::<23, 24>(&mut s, &mut arrs, &mut tainted, &seeds);
    fy_step_simd::<22, 23>(&mut s, &mut arrs, &mut tainted, &seeds);
    fy_step_simd::<21, 22>(&mut s, &mut arrs, &mut tainted, &seeds);
    fy_step_simd::<20, 21>(&mut s, &mut arrs, &mut tainted, &seeds);
    fy_step_simd::<19, 20>(&mut s, &mut arrs, &mut tainted, &seeds);
    fy_step_simd::<18, 19>(&mut s, &mut arrs, &mut tainted, &seeds);
    fy_step_simd::<17, 18>(&mut s, &mut arrs, &mut tainted, &seeds);
    fy_step_simd::<16, 17>(&mut s, &mut arrs, &mut tainted, &seeds);
    fy_step_simd::<15, 16>(&mut s, &mut arrs, &mut tainted, &seeds);
    fy_step_simd::<14, 15>(&mut s, &mut arrs, &mut tainted, &seeds);
    fy_step_simd::<13, 14>(&mut s, &mut arrs, &mut tainted, &seeds);
    fy_step_simd::<12, 13>(&mut s, &mut arrs, &mut tainted, &seeds);
    fy_step_simd::<11, 12>(&mut s, &mut arrs, &mut tainted, &seeds);
    fy_step_simd::<10, 11>(&mut s, &mut arrs, &mut tainted, &seeds);
    fy_step_simd::<9, 10>(&mut s, &mut arrs, &mut tainted, &seeds);
    fy_step_simd::<8, 9>(&mut s, &mut arrs, &mut tainted, &seeds);
    fy_step_simd::<7, 8>(&mut s, &mut arrs, &mut tainted, &seeds);
    fy_step_simd::<6, 7>(&mut s, &mut arrs, &mut tainted, &seeds);
    fy_step_simd::<5, 6>(&mut s, &mut arrs, &mut tainted, &seeds);
    fy_step_simd::<4, 5>(&mut s, &mut arrs, &mut tainted, &seeds);
    fy_step_simd::<3, 4>(&mut s, &mut arrs, &mut tainted, &seeds);
    fy_step_simd::<2, 3>(&mut s, &mut arrs, &mut tainted, &seeds);
    fy_step_simd::<1, 2>(&mut s, &mut arrs, &mut tainted, &seeds);
    let mut results: [(i32, [u8; 25]); 16] = [(0, id); 16];
    let mut l: usize = 0;
    while l < 16
        invariant
            l <= 16,
            on_track(s, arrs, tainted, seeds, 0),
            forall|m: int|
                0 <= m < l ==> (#[trigger] results[m]).1@ == shuffle::shuffled(seeds[m])
                    && results[m].0 == shuffle::score(shuffle::shuffled(seeds[m])),
        decreases 16 - l,
    {
        if tainted[l] {
            results[l] = shuffle::one_shuffle(seeds[l]);
        } else {
            let arr: [u8; 25] = arrs[l];
            let correct: i32 = shuffle::count_seated(&arr);
            results[l] = (correct, arr);
            assert(!rng::is_zero(s.lane(l as int)));
        }
        l = l + 1;
    }
    results
}

/// Law: working on sixteen seeds side by side changes nothing. Every lane has
/// the board and the score that its seed has alone.
pub proof fn law_batch_matches_scalar(
    seeds: [u64; 16],
    r: [(i32, [u8; 25]); 16],
    l: int,
    alone: (i32, [u8; 25]),
)
    requires
        0 <= l < 16,
        call_ensures(one_shuffle_batch, (seeds,), r),
        call_ensures(shuffle::one_shuffle, (seeds[l],), alone),
    ensures
        r[l].0 == alone.0,
        r[l].1@ == alone.1@,
{
}

} // verus!
