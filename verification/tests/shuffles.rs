use bogoforge::compute::batch::{one_shuffle_batch, LANES};
use bogoforge::compute::cpu::CpuBackend;
use bogoforge::compute::range::shuffle_seed;
use bogoforge::compute::rng::{splitmix64, xint_const, xnext, xseed, GOLDEN};
use bogoforge::compute::shuffle::{count_seated, one_shuffle, IDENTITY};

/// The lanes have to match the scalar path exactly, seed for seed.
#[test]
fn batch_matches_scalar() {
    for base in [0u64, 1, 12345, u64::MAX / 3, GOLDEN] {
        let seeds: [u64; LANES] =
            core::array::from_fn(|l| base.wrapping_add((l as u64).wrapping_mul(GOLDEN)));

        let batched = one_shuffle_batch(seeds);
        for (lane, seed) in seeds.into_iter().enumerate() {
            assert_eq!(
                batched[lane],
                one_shuffle(seed),
                "lane {lane} (seed {seed}) diverged from scalar one_shuffle"
            );
        }
    }
}

/// Sweep consecutive chunks the way `compute_range` derives its seeds.
#[test]
fn batch_matches_scalar_sweep() {
    let base_seed = 0x1234_5678_9abc_def0u64;
    for chunk in 0u64..64 {
        let base_i = chunk * LANES as u64;
        let seeds: [u64; LANES] = core::array::from_fn(|l| {
            let i = base_i + l as u64;
            base_seed.wrapping_add(i.wrapping_mul(GOLDEN))
        });

        let batched = one_shuffle_batch(seeds);
        for (lane, seed) in seeds.into_iter().enumerate() {
            assert_eq!(batched[lane], one_shuffle(seed));
        }
    }
}

/// Seeds whose draws are thrown away once, at different steps, among others
/// whose draws are not.
#[test]
fn tainted_lanes_are_dealt_again() {
    let mut seeds: [u64; LANES] = core::array::from_fn(|l| l as u64);
    seeds[0] = 35_228_960;
    seeds[7] = 51_532_667;
    seeds[8] = 130_864_524;
    seeds[15] = 145_755_768;
    let batched = one_shuffle_batch(seeds);
    for (lane, seed) in seeds.into_iter().enumerate() {
        assert_eq!(batched[lane], one_shuffle(seed));
    }
    assert_eq!(
        batched[0],
        (
            0,
            [
                21, 1, 2, 17, 8, 20, 14, 19, 15, 18, 6, 22, 4, 23, 16, 10, 7, 13, 11, 12, 9, 24, 3,
                25, 5
            ]
        )
    );
    assert_eq!(
        batched[15],
        (
            3,
            [
                19, 13, 18, 24, 5, 21, 22, 25, 16, 10, 3, 4, 14, 2, 7, 17, 11, 6, 1, 9, 8, 20, 23,
                12, 15
            ]
        )
    );
}

#[test]
fn seeds_are_mixed() {
    let mut z = 0u64;
    assert_eq!(splitmix64(&mut z), 16_294_208_416_658_607_535);
    assert_eq!(z, GOLDEN);
    assert_eq!(xseed(0), [2_065_550_767, 3_793_791_033, 2_713_282_036, 1_853_398_634]);
    assert_eq!(xseed(12345), [2_849_051_040, 571_572_824, 4_145_281_261, 879_680_741]);
}

#[test]
fn numbers_are_drawn() {
    let mut s = [1u32, 2, 3, 4];
    assert_eq!(xnext(&mut s), 641);
    assert_eq!(xnext(&mut s), 1_573_767);
    assert_eq!(xnext(&mut s), 3_222_811_527);
    assert_eq!(s, [25_179_138, 12_295, 540_162, 2_107_404]);
}

/// The first draw of the first state is 0 and is thrown away below 25; below a
/// power of two nothing is, from any state.
#[test]
fn small_draws_are_thrown_away() {
    let mut s = [0u32, 1, 2, 0];
    assert_eq!(xint_const::<25>(&mut s), 23);
    assert_eq!(s, [2050, 512, 1027, 4_200_448]);
    let mut s = [0u32, 0, 0, 5];
    assert_eq!(xint_const::<25>(&mut s), 15);
    assert_eq!(s, [5, 0, 0, 10_240]);
    let mut s = [0u32, 1, 2, 0];
    assert_eq!(xint_const::<16>(&mut s), 0);
    let mut s = [0u32; 4];
    assert_eq!(xint_const::<1024>(&mut s), 0);
    let mut s = xseed(7);
    let mut t = s;
    assert_eq!(xint_const::<1>(&mut s), 0);
    xnext(&mut t);
    assert_eq!(s, t);
}

/// Bounds above half the range throw away almost every second draw.
#[test]
fn large_bounds_are_drawn_below() {
    let mut s = [0u32, 1, 2, 0];
    assert_eq!(xint_const::<2_147_483_649>(&mut s), 139_006_977);
    assert_eq!(s, [9_444_353, 4_460_546, 5_774_339, 2_154_829_830]);
    let mut s = [0u32, 1, 2, 0];
    assert_eq!(xint_const::<3_000_000_000>(&mut s), 2_286_490_626);
    assert_eq!(s, [9_444_353, 4_460_546, 5_774_339, 2_154_829_830]);
    let mut s = [0u32, 1, 2, 0];
    assert_eq!(xint_const::<{ u32::MAX }>(&mut s), 262_273);
    assert_eq!(s, [2050, 512, 1027, 4_200_448]);
    let mut s = [1u32, 2, 3, 4];
    assert_eq!(xint_const::<2_147_483_649>(&mut s), 1_075_327_878);
    assert_eq!(s, [25_179_138, 12_295, 540_162, 2_107_404]);
    for seed in 0..1000u64 {
        let mut s = xseed(seed);
        assert!(xint_const::<2_147_483_649>(&mut s) < 2_147_483_649);
    }
}

#[test]
fn states_do_not_come_back_early() {
    let start = [1u32, 0, 0, 0];
    let mut s = start;
    for _ in 0..100_000 {
        xnext(&mut s);
        assert_ne!(s, start);
        assert_ne!(s, [0; 4]);
    }
    let mut zero = [0u32; 4];
    assert_eq!(xnext(&mut zero), 0);
    assert_eq!(zero, [0; 4]);
}

#[test]
fn boards_are_dealt() {
    assert_eq!(
        one_shuffle(0),
        (
            0,
            [
                16, 18, 13, 21, 11, 19, 24, 15, 22, 1, 7, 8, 14, 10, 23, 20, 4, 17, 6, 12, 25, 2, 3,
                9, 5
            ]
        )
    );
    assert_eq!(
        one_shuffle(12345),
        (
            2,
            [
                25, 10, 22, 15, 3, 4, 7, 21, 5, 11, 20, 12, 17, 8, 18, 1, 6, 9, 23, 16, 13, 2, 24,
                19, 14
            ]
        )
    );
}

#[test]
fn boards_are_permutations() {
    for seed in 0..500u64 {
        let (score, arr) = one_shuffle(seed);
        let mut sorted = arr;
        sorted.sort();
        assert_eq!(sorted, IDENTITY);
        let seated = (0..25).filter(|&i| arr[i] as usize == i + 1).count();
        assert_eq!(score as usize, seated);
        assert_eq!(count_seated(&arr), score);
        assert_ne!(score, 24);
    }
    assert_eq!(count_seated(&IDENTITY), 25);
}

#[test]
fn seeds_follow_the_index() {
    assert_eq!(shuffle_seed(42, 0), 42);
    assert_eq!(shuffle_seed(42, 1), 42u64.wrapping_add(GOLDEN));
    assert_eq!(shuffle_seed(u64::MAX, 2), GOLDEN.wrapping_mul(2).wrapping_sub(1));
}

const BEST_OF_A_THOUSAND: [u8; 25] = [
    1, 4, 24, 12, 9, 6, 23, 8, 7, 2, 21, 11, 13, 17, 20, 19, 14, 5, 18, 15, 16, 22, 25, 10, 3,
];

/// The work comes to the same on any number of threads.
#[test]
fn ranges_find_their_best() {
    for threads in [0usize, 1, 2, 3, 8] {
        let mut cpu = CpuBackend::new(threads);
        let r = cpu.compute_range(42, 0, 1000);
        assert_eq!((r.lo, r.hi), (0, 1000));
        assert_eq!(r.best_correct, 5);
        assert_eq!(one_shuffle(shuffle_seed(42, r.best_index)), (5, r.best_arr));
        // One thread reports the first of the best.
        if threads == 1 {
            assert_eq!(r.best_index, 394);
            assert_eq!(r.best_arr, BEST_OF_A_THOUSAND);
        }
    }
}

#[test]
fn ranges_that_fill_no_batch() {
    let mut cpu = CpuBackend::new(2);
    let r = cpu.compute_range(42, 7, 12);
    assert_eq!((r.lo, r.hi, r.best_correct, r.best_index), (7, 12, 3, 7));
    let r = cpu.compute_range(42, 0, 20);
    assert_eq!((r.best_correct, r.best_index), (3, 7));
    let r = cpu.compute_range(42, 384, 400);
    assert_eq!((r.best_correct, r.best_index), (5, 394));
}

#[test]
fn empty_ranges_find_nothing() {
    let mut cpu = CpuBackend::new(0);
    let r = cpu.compute_range(42, 5, 5);
    assert_eq!((r.lo, r.hi, r.best_correct, r.best_index), (5, 5, -1, 5));
    assert_eq!(r.best_arr, [0u8; 25]);
}

/// A range has the best score of its parts.
#[test]
fn ranges_can_be_cut() {
    let mut cpu = CpuBackend::new(2);
    let whole = cpu.compute_range(7, 100, 900);
    for mid in [100u64, 101, 333, 500, 899, 900] {
        let a = cpu.compute_range(7, 100, mid);
        let b = cpu.compute_range(7, mid, 900);
        assert_eq!(whole.best_correct, a.best_correct.max(b.best_correct));
        assert!(a.best_correct <= whole.best_correct);
    }
}

/// One thread works from the first index to the last.
#[test]
fn one_thread_reports_the_first_best() {
    let mut cpu = CpuBackend::new(1);
    for (lo, hi) in [(0u64, 500u64), (3, 100), (17, 333), (40, 57)] {
        let r = cpu.compute_range(99, lo, hi);
        let scores: Vec<i32> = (lo..hi).map(|i| one_shuffle(shuffle_seed(99, i)).0).collect();
        let best = *scores.iter().max().unwrap();
        let first = scores.iter().position(|&s| s == best).unwrap() as u64;
        assert_eq!((r.best_correct, r.best_index), (best, lo + first));
    }
}

/// A range further on has the score of the range from a seed further on.
#[test]
fn ranges_move_with_the_seed() {
    for (lo, hi, k) in [(0u64, 100u64, 0u64), (0, 100, 1), (5, 77, 1_000), (0, 20, u64::MAX - 20)] {
        let a = CpuBackend::new(2).compute_range(42, lo + k, hi + k);
        let b = CpuBackend::new(3).compute_range(shuffle_seed(42, k), lo, hi);
        assert_eq!(a.best_correct, b.best_correct);
    }
}

/// The last indices there are.
#[test]
fn ranges_reach_the_end() {
    let mut cpu = CpuBackend::new(1);
    let r = cpu.compute_range(1, u64::MAX - 40, u64::MAX);
    let best = (u64::MAX - 40..u64::MAX)
        .map(|i| one_shuffle(shuffle_seed(1, i)).0)
        .max()
        .unwrap();
    assert_eq!(r.best_correct, best);
}
