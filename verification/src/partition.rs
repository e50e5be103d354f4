//! Partition planner: divides the entry-index space `[0, n)` into `w`
//! contiguous, disjoint, exhaustive ranges, one per worker.
//!
//! Worker `i` receives the half-open interval
//! `[n*i/w, n*(i+1)/w)`, so range sizes differ by at most one entry.

use vstd::prelude::*;
use vstd::arithmetic::div_mod::{
    lemma_div_is_ordered, lemma_div_multiples_vanish, lemma_div_pos_is_pos,
    lemma_fundamental_div_mod, lemma_fundamental_div_mod_converse, lemma_mod_bound,
};
use vstd::arithmetic::mul::{lemma_mul_inequality, lemma_mul_is_commutative};

verus! {

/// The boundary between worker `i - 1`'s range and worker `i`'s range,
/// when `n` entries are split across `w` workers.
pub open spec fn range_bound(n: int, w: int, i: int) -> int {
    n * i / w
}

/// A half-open interval `[start, end)` of entry indices assigned to one worker.
#[derive(Clone, Copy, Debug)]
pub struct WorkRange {
    pub start: usize,
    pub end: usize,
}

impl WorkRange {
    /// Whether entry index `k` belongs to this range.
    pub open spec fn spec_contains(self, k: int) -> bool {
        self.start <= k < self.end
    }

    /// Number of entries the range covers.
    pub open spec fn spec_len(self) -> int {
        self.end - self.start
    }
}

/// Entry index `k` falls inside one of `ranges`.
pub open spec fn covered_by(ranges: Seq<WorkRange>, k: int) -> bool {
    exists|i: int| 0 <= i < ranges.len() && (#[trigger] ranges[i]).spec_contains(k)
}

/// `ranges` is exactly the partition of `[0, n)` that the planner produces
/// for `w` workers.
pub open spec fn partition_of(ranges: Seq<WorkRange>, n: int, w: int) -> bool {
    &&& ranges.len() == w
    &&& forall|i: int|
        0 <= i < w ==> (#[trigger] ranges[i]).start == range_bound(n, w, i)
    &&& forall|i: int|
        0 <= i < w ==> (#[trigger] ranges[i]).end == range_bound(n, w, i + 1)
}

/// Range boundaries are monotone and stay within `[0, n]`.
pub proof fn lemma_range_bound_monotone(n: int, w: int, i: int, j: int)
    requires
        n >= 0,
        w >= 1,
        0 <= i <= j <= w,
    ensures
        0 <= range_bound(n, w, i) <= range_bound(n, w, j) <= n,
{
    lemma_mul_inequality(i, j, n);
    lemma_mul_is_commutative(i, n);
    lemma_mul_is_commutative(j, n);
    lemma_div_is_ordered(n * i, n * j, w);
    lemma_mul_inequality(j, w, n);
    lemma_mul_is_commutative(w, n);
    lemma_div_is_ordered(n * j, n * w, w);
    lemma_div_multiples_vanish(n, w);
    if i > 0 {
        lemma_mul_inequality(0, i, n);
        lemma_mul_is_commutative(0, n);
        lemma_div_pos_is_pos(n * i, w);
    } else {
        assert(n * 0 == 0) by (nonlinear_arith);
        assert(range_bound(n, w, 0) == 0);
    }
}

/// The first boundary is `0` and the last is `n`: the ranges leave no
/// index of `[0, n)` uncovered at either end.
pub proof fn lemma_range_bound_ends(n: int, w: int)
    requires
        n >= 0,
        w >= 1,
    ensures
        range_bound(n, w, 0) == 0,
        range_bound(n, w, w) == n,
{
    assert(n * 0 == 0) by (nonlinear_arith);
    lemma_mul_is_commutative(n, w);
    lemma_div_multiples_vanish(n, w);
}

/// Each range has size `n / w` or `n / w + 1`; when `w` divides `n`
/// evenly, every range has size exactly `n / w`.
pub proof fn lemma_range_size(n: int, w: int, i: int)
    requires
        n >= 0,
        w >= 1,
        0 <= i < w,
    ensures
        n / w <= range_bound(n, w, i + 1) - range_bound(n, w, i) <= n / w + 1,
        n % w == 0 ==> range_bound(n, w, i + 1) - range_bound(n, w, i) == n / w,
{
    let x = n * i;
    let q = x / w;
    let s = x % w;
    lemma_mul_inequality(0, i, n);
    lemma_mul_is_commutative(0, n);
    assert(n * 0 == 0) by (nonlinear_arith);
    lemma_fundamental_div_mod(x, w);
    lemma_mod_bound(x, w);
    lemma_fundamental_div_mod(n, w);
    lemma_mod_bound(n, w);
    assert(n * (i + 1) == x + n) by (nonlinear_arith)
        requires
            x == n * i,
    ;
    if s + n % w < w {
        assert(x + n == (q + n / w) * w + (s + n % w)) by (nonlinear_arith)
            requires
                x == w * q + s,
                n == w * (n / w) + n % w,
        ;
        lemma_fundamental_div_mod_converse(x + n, w, q + n / w, s + n % w);
    } else {
        assert(x + n == (q + n / w + 1) * w + (s + n % w - w)) by (nonlinear_arith)
            requires
                x == w * q + s,
                n == w * (n / w) + n % w,
        ;
        lemma_fundamental_div_mod_converse(x + n, w, q + n / w + 1, s + n % w - w);
    }
}

/// Every entry index `k` in `[0, n)` is covered by some worker's range;
/// returns the index of that worker.
pub proof fn lemma_partition_covers(n: int, w: int, k: int) -> (i: int)
    requires
        w >= 1,
        0 <= k < n,
    ensures
        0 <= i < w,
        range_bound(n, w, i) <= k < range_bound(n, w, i + 1),
    decreases w,
{
    lemma_range_bound_ends(n, w);
    if range_bound(n, w, w - 1) <= k {
        w - 1
    } else {
        lemma_partition_covers_below(n, w, k, w - 1)
    }
}

/// Helper: if `k` lies below boundary `m`, some range among the first `m`
/// covers it.
proof fn lemma_partition_covers_below(n: int, w: int, k: int, m: int) -> (i: int)
    requires
        w >= 1,
        n >= 0,
        1 <= m <= w,
        0 <= k < range_bound(n, w, m),
    ensures
        0 <= i < m,
        range_bound(n, w, i) <= k < range_bound(n, w, i + 1),
    decreases m,
{
    if range_bound(n, w, m - 1) <= k {
        m - 1
    } else {
        lemma_partition_covers_below(n, w, k, m - 1)
    }
}

/// What the planner guarantees, in one statement: for any entry count
/// `n >= 0` and worker count `w >= 1`, the planned ranges are contiguous,
/// pairwise disjoint, union to exactly `[0, n)`, and each has size `n / w`
/// (rounded down) or one more.
pub proof fn lemma_partition_properties(ranges: Seq<WorkRange>, n: int, w: int)
    requires
        n >= 0,
        w >= 1,
        partition_of(ranges, n, w),
    ensures
        ranges[0].start == 0,
        ranges[w - 1].end == n,
        forall|i: int| 0 <= i < w ==> (#[trigger] ranges[i]).start <= ranges[i].end,
        forall|i: int| 0 <= i < w - 1 ==> (#[trigger] ranges[i]).end == ranges[i + 1].start,
        forall|i: int, j: int, k: int|
            0 <= i < j < w && #[trigger] ranges[i].spec_contains(k) ==> !#[trigger] ranges[j].spec_contains(k),
        forall|k: int| 0 <= k < n ==> #[trigger] covered_by(ranges, k),
        forall|k: int| #[trigger] covered_by(ranges, k) ==> 0 <= k < n,
        forall|i: int|
            0 <= i < w ==> n / w <= (#[trigger] ranges[i]).spec_len() <= n / w + 1,
        n % w == 0 ==> forall|i: int| 0 <= i < w ==> (#[trigger] ranges[i]).spec_len() == n / w,
{
    lemma_range_bound_ends(n, w);
    assert forall|i: int| 0 <= i < w implies (#[trigger] ranges[i]).start <= ranges[i].end by {
        lemma_range_bound_monotone(n, w, i, i + 1);
    }
    assert forall|i: int, j: int, k: int|
        0 <= i < j < w && #[trigger] ranges[i].spec_contains(k) implies !#[trigger] ranges[j].spec_contains(k) by {
        lemma_range_bound_monotone(n, w, i + 1, j);
    }
    assert forall|k: int| 0 <= k < n implies #[trigger] covered_by(ranges, k) by {
        let i = lemma_partition_covers(n, w, k);
        assert(ranges[i].spec_contains(k));
    }
    assert forall|k: int| #[trigger] covered_by(ranges, k) implies 0 <= k < n by {
        let i = choose|i: int| 0 <= i < ranges.len() && (#[trigger] ranges[i]).spec_contains(k);
        lemma_range_bound_monotone(n, w, 0, i);
        lemma_range_bound_monotone(n, w, i + 1, w);
    }
    assert forall|i: int| 0 <= i < w implies n / w <= (#[trigger] ranges[i]).spec_len() <= n / w
        + 1 by {
        lemma_range_size(n, w, i);
    }
    if n % w == 0 {
        assert forall|i: int| 0 <= i < w implies (#[trigger] ranges[i]).spec_len() == n / w by {
            lemma_range_size(n, w, i);
        }
    }
}

/// Computes the partition of `[0, n)` into `w` ranges. A worker count of
/// zero yields no work and no error.
pub fn plan_partition(n: usize, w: usize) -> (ranges: Vec<WorkRange>)
    ensures
        partition_of(ranges@, n as int, w as int),
{
    let mut ranges: Vec<WorkRange> = Vec::new();
    let mut i: usize = 0;
    while i < w
        invariant
            i <= w,
            ranges@.len() == i,
            forall|j: int|
                0 <= j < i ==> (#[trigger] ranges@[j]).start == range_bound(
                    n as int,
                    w as int,
                    j,
                ),
            forall|j: int|
                0 <= j < i ==> (#[trigger] ranges@[j]).end == range_bound(
                    n as int,
                    w as int,
                    j + 1,
                ),
        decreases w - i,
    {
        proof {
            lemma_range_bound_monotone(n as int, w as int, i as int, i as int + 1);
            assert((n as int) * (i as int) < 0x100000000000000000000000000000000int)
                by (nonlinear_arith)
                requires
                    0 <= n < 0x10000000000000000,
                    0 <= i < 0x10000000000000000,
            ;
            assert((n as int) * (i as int + 1) < 0x100000000000000000000000000000000int)
                by (nonlinear_arith)
                requires
                    0 <= n < 0x10000000000000000,
                    0 <= i < 0x10000000000000000,
            ;
        }
        let start_wide: u128 = (n as u128) * (i as u128) / (w as u128);
        let end_wide: u128 = (n as u128) * ((i as u128) + 1) / (w as u128);
        ranges.push(
            WorkRange { start: start_wide as usize, end: end_wide as usize },
        );
        i = i + 1;
    }
    ranges
}

} // verus!
