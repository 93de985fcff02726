//! Walks in which each value decides the next, and how long they take to come
//! back to where they started.
use vstd::arithmetic::div_mod;
use vstd::prelude::*;
use vstd::set_lib;

verus! {

/// The value after `k` steps from `start`.
pub open spec fn walk(step: spec_fn(int) -> int, start: int, k: nat) -> int
    decreases k,
{
    if k == 0 {
        start
    } else {
        step(walk(step, start, (k - 1) as nat))
    }
}

/// The walk from `start` comes back after `m` steps, and not before.
pub open spec fn is_period(step: spec_fn(int) -> int, start: int, m: nat) -> bool {
    &&& 0 < m
    &&& walk(step, start, m) == start
    &&& forall|j: nat| 0 < j < m ==> #[trigger] walk(step, start, j) != start
}

pub proof fn lemma_walk_add(step: spec_fn(int) -> int, start: int, i: nat, j: nat)
    ensures
        walk(step, start, i + j) == walk(step, walk(step, start, i), j),
    decreases j,
{
    if j > 0 {
        lemma_walk_add(step, start, i, (j - 1) as nat);
    }
}

/// A walk that comes back has a period.
pub proof fn lemma_period_exists(step: spec_fn(int) -> int, start: int, n: nat)
    requires
        0 < n,
        walk(step, start, n) == start,
    ensures
        exists|m: nat| is_period(step, start, m),
    decreases n,
{
    if !is_period(step, start, n) {
        let j = choose|j: nat| 0 < j < n && #[trigger] walk(step, start, j) == start;
        lemma_period_exists(step, start, j);
    }
}

/// The walk is back where it started after multiples of the period, and at no
/// other time.
pub proof fn lemma_returns(step: spec_fn(int) -> int, start: int, m: nat, n: nat)
    requires
        is_period(step, start, m),
    ensures
        walk(step, start, n) == start <==> n % m == 0,
    decreases n,
{
    if n < m {
        div_mod::lemma_small_mod(n, m);
        if n > 0 {
            assert(walk(step, start, n) != start);
        }
    } else {
        let r = (n - m) as nat;
        lemma_walk_add(step, start, m, r);
        lemma_returns(step, start, m, r);
        div_mod::lemma_mod_add_multiples_vanish(r as int, m as int);
    }
}

/// No value occurs twice within a period.
pub proof fn lemma_distinct(step: spec_fn(int) -> int, start: int, m: nat, i: nat, j: nat)
    requires
        is_period(step, start, m),
        i < j < m,
    ensures
        walk(step, start, i) != walk(step, start, j),
{
    if walk(step, start, i) == walk(step, start, j) {
        let rest = (m - i) as nat;
        let gap = (j - i) as nat;
        lemma_walk_add(step, start, i, rest);
        lemma_walk_add(step, start, j, rest);
        lemma_walk_add(step, start, m, gap);
        assert(walk(step, start, gap) == start);
    }
}


/// The walk comes to `v` within `m` steps.
pub open spec fn meets(step: spec_fn(int) -> int, start: int, m: nat, v: int) -> bool {
    exists|k: nat| k < m && #[trigger] walk(step, start, k) == v
}

/// A walk among the values from `lo` to below `hi` has no longer a period than
/// there are values. Where it is as long, the walk meets each of them.
pub proof fn lemma_room(step: spec_fn(int) -> int, start: int, m: nat, lo: int, hi: int)
    requires
        is_period(step, start, m),
        forall|k: nat| lo <= #[trigger] walk(step, start, k) < hi,
    ensures
        m <= hi - lo,
        m == hi - lo ==> forall|v: int|
            lo <= v < hi ==> #[trigger] meets(step, start, m, v),
{
    let times = set_lib::set_int_range(0, m as int);
    let at = |k: int| walk(step, start, k as nat);
    let met = times.map(at);
    let all = set_lib::set_int_range(lo, hi);
    assert(lo <= walk(step, start, 0) < hi);
    set_lib::lemma_int_range(0, m as int);
    set_lib::lemma_int_range(lo, hi);
    assert(vstd::relations::injective_on(at, times)) by {
        assert forall|i: int, j: int|
            times.contains(i) && times.contains(j) && #[trigger] at(i) == #[trigger] at(j) implies i
            == j by {
            if i < j {
                lemma_distinct(step, start, m, i as nat, j as nat);
            } else if j < i {
                lemma_distinct(step, start, m, j as nat, i as nat);
            }
        }
    }
    set_lib::lemma_map_size(times, met, at);
    assert(met.subset_of(all)) by {
        assert forall|v: int| met.contains(v) implies all.contains(v) by {
            let k = choose|k: int| times.contains(k) && at(k) == v;
            assert(lo <= walk(step, start, k as nat) < hi);
        }
    }
    set_lib::lemma_len_subset(met, all);
    if m == hi - lo {
        set_lib::lemma_subset_equality(met, all);
        assert forall|v: int| lo <= v < hi implies #[trigger] meets(step, start, m, v) by {
            assert(met.contains(v));
            let k = choose|k: int| times.contains(k) && at(k) == v;
            assert(walk(step, start, k as nat) == v);
        }
    }
}

} // verus!
