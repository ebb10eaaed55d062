use vstd::prelude::*;
use vstd::arithmetic::div_mod::{lemma_div_is_ordered, lemma_div_multiples_vanish, lemma_hoist_over_denominator};

verus! {

pub open spec fn sum(s: Seq<i32>) -> int
    decreases s.len(),
{
    if s.len() == 0 { 0 } else { sum(s.drop_last()) + s.last() }
}

pub open spec fn sum_sq(s: Seq<i32>) -> int
    decreases s.len(),
{
    if s.len() == 0 { 0 } else { sum_sq(s.drop_last()) + s.last() * s.last() }
}

/// The least element of a non-empty sample.
pub open spec fn seq_min(s: Seq<i32>) -> int
    decreases s.len(),
{
    if s.len() <= 1 {
        s[0] as int
    } else {
        let m = seq_min(s.drop_last());
        if s.last() < m { s.last() as int } else { m }
    }
}

/// The greatest element of a non-empty sample.
pub open spec fn seq_max(s: Seq<i32>) -> int
    decreases s.len(),
{
    if s.len() <= 1 {
        s[0] as int
    } else {
        let m = seq_max(s.drop_last());
        if s.last() > m { s.last() as int } else { m }
    }
}

/// The mean of a non-empty sample, rounded down.
pub open spec fn mean_of(s: Seq<i32>) -> int {
    sum(s) / (s.len() as int)
}

/// The population variance of a non-empty sample, rounded down:
/// `(n * sum(x^2) - sum(x)^2) / n^2`.
pub open spec fn variance_of(s: Seq<i32>) -> int {
    let n = s.len() as int;
    (n * sum_sq(s) - sum(s) * sum(s)) / (n * n)
}

/// `n * sum(x^2) >= sum(x)^2`: the variance is never negative.
pub proof fn lemma_spread_nonneg(s: Seq<i32>)
    ensures
        s.len() * sum_sq(s) >= sum(s) * sum(s),
    decreases s.len(),
{
    if s.len() > 0 {
        let t = s.drop_last();
        lemma_spread_nonneg(t);
        let k = t.len() as int;
        let sm = sum(t);
        let q = sum_sq(t);
        let x = s.last() as int;
        assert(k * q >= sm * sm);
        if k == 0 {
            assert(sm == 0 && q == 0);
            assert((k + 1) * (q + x * x) >= (sm + x) * (sm + x)) by (nonlinear_arith)
                requires k == 0, sm == 0, q == 0;
        } else {
            assert(k * (q - 2 * sm * x + k * x * x) >= (sm - k * x) * (sm - k * x)) by (nonlinear_arith)
                requires k * q >= sm * sm;
            assert((sm - k * x) * (sm - k * x) >= 0) by (nonlinear_arith);
            assert(q - 2 * sm * x + k * x * x >= 0) by (nonlinear_arith)
                requires k > 0, k * (q - 2 * sm * x + k * x * x) >= 0;
            assert((k + 1) * (q + x * x) - (sm + x) * (sm + x)
                == (k * q - sm * sm) + (q - 2 * sm * x + k * x * x)) by (nonlinear_arith);
        }
    }
}

/// Largest `r <= bound` with `r * r <= v`, or 0 where there is none.
pub open spec fn root_at_most(v: int, bound: int) -> int
    decreases bound,
{
    if bound <= 0 {
        0
    } else if bound * bound <= v {
        bound
    } else {
        root_at_most(v, bound - 1)
    }
}

/// The square root of `v >= 0`, rounded down.
pub open spec fn floor_sqrt(v: int) -> int {
    root_at_most(v, v)
}

/// The `r >= 0` with `r * r <= v < (r + 1) * (r + 1)` is `floor_sqrt(v)`.
pub proof fn lemma_floor_sqrt(v: int, r: int)
    requires
        0 <= r,
        r * r <= v < (r + 1) * (r + 1),
    ensures
        floor_sqrt(v) == r,
{
    assert(r <= v) by (nonlinear_arith)
        requires 0 <= r, r * r <= v;
    lemma_root_at_most(v, r, v);
}

proof fn lemma_root_at_most(v: int, r: int, bound: int)
    requires
        0 <= r <= bound,
        r * r <= v < (r + 1) * (r + 1),
    ensures
        root_at_most(v, bound) == r,
    decreases bound,
{
    if bound > r {
        assert(bound * bound > v) by (nonlinear_arith)
            requires bound >= r + 1, r >= 0, v < (r + 1) * (r + 1);
        lemma_root_at_most(v, r, bound - 1);
    }
}

/// Largest `r` with `r * r <= n`.
pub fn isqrt(n: u64) -> (r: u64)
    requires
        n <= 0x4000_0000_0000_0000,
    ensures
        r == floor_sqrt(n as int),
        r * r <= n < (r + 1) * (r + 1),
{
    let mut lo: u64 = 0;
    let mut hi: u64 = 0x8000_0001;
    assert(hi * hi > 0x4000_0000_0000_0000) by (nonlinear_arith)
        requires hi == 0x8000_0001u64;
    while hi - lo > 1
        invariant
            lo < hi <= 0x8000_0001,
            lo * lo <= n < hi * hi,
        decreases hi - lo,
    {
        let mid = lo + (hi - lo) / 2;
        assert(mid * mid <= 0x8000_0000u64 * 0x8000_0000u64) by (nonlinear_arith)
            requires mid <= 0x8000_0000u64;
        if mid * mid <= n {
            lo = mid;
        } else {
            hi = mid;
        }
    }
    proof {
        lemma_floor_sqrt(n as int, lo as int);
    }
    lo
}

/// The summary of a sample; `None` for an empty one.
pub open spec fn summary_of(s: Seq<i32>) -> Option<StatValues> {
    if s.len() == 0 {
        None
    } else {
        Some(
            StatValues {
                mean: mean_of(s) as i64,
                stddev: floor_sqrt(variance_of(s)) as i64,
                min: seq_min(s) as i64,
                max: seq_max(s) as i64,
            },
        )
    }
}

/// Mean, standard deviation, least and greatest value of a numeric sample.
#[derive(Clone, Copy, Debug, PartialEq, Eq, Structural)]
pub struct StatValues {
    pub mean: i64,
    pub stddev: i64,
    pub min: i64,
    pub max: i64,
}

impl StatValues {
    /// The summary of `data`, or `None` for an empty sample: no statistic of
    /// an empty sample is defined.
    pub fn from(data: &Vec<i32>) -> (res: Option<StatValues>)
        requires
            data@.len() <= u32::MAX,
        ensures
            res == summary_of(data@),
    {
        let n = data.len();
        if n == 0 {
            return None;
        }
        let mut total: i128 = 0;
        let mut squares: i128 = 0;
        let mut lo: i32 = data[0];
        let mut hi: i32 = data[0];
        let mut i: usize = 0;
        while i < n
            invariant
                n == data@.len(),
                1 <= n <= u32::MAX,
                i <= n,
                total == sum(data@.subrange(0, i as int)),
                squares == sum_sq(data@.subrange(0, i as int)),
                -(i as int) * 2147483648 <= total <= (i as int) * 2147483648,
                0 <= squares <= (i as int) * 0x4000_0000_0000_0000,
                i == 0 ==> lo == data@[0] && hi == data@[0],
                i > 0 ==> lo == seq_min(data@.subrange(0, i as int)),
                i > 0 ==> hi == seq_max(data@.subrange(0, i as int)),
            decreases n - i,
        {
            let x = data[i];
            let ghost prefix = data@.subrange(0, i as int);
            let ghost next = data@.subrange(0, i as int + 1);
            assert(next.drop_last() == prefix);
            assert(0 <= (x as int) * (x as int) <= 0x4000_0000_0000_0000) by (nonlinear_arith)
                requires -2147483648 <= x <= 2147483647;
            total = total + x as i128;
            squares = squares + (x as i128) * (x as i128);
            if i == 0 {
                assert(next.len() == 1);
            } else {
                if x < lo {
                    lo = x;
                }
                if x > hi {
                    hi = x;
                }
            }
            i = i + 1;
        }
        assert(data@.subrange(0, n as int) == data@);
        let ghost s = data@;
        let nn = n as i128;
        proof {
            lemma_spread_nonneg(s);
            assert(nn * squares <= 0x1_0000_0000 * (0x1_0000_0000 * 0x4000_0000_0000_0000)) by (nonlinear_arith)
                requires 1 <= nn <= 0x1_0000_0000, 0 <= squares <= nn * 0x4000_0000_0000_0000;
            assert(total * total <= (nn * 2147483648) * (nn * 2147483648)) by (nonlinear_arith)
                requires -nn * 2147483648 <= total <= nn * 2147483648;
            assert((nn * 2147483648) * (nn * 2147483648) <= 0x1_0000_0000 * 2147483648 * (0x1_0000_0000 * 2147483648)) by (nonlinear_arith)
                requires 1 <= nn <= 0x1_0000_0000;
            assert(1 <= nn * nn <= 0x1_0000_0000 * 0x1_0000_0000) by (nonlinear_arith)
                requires 1 <= nn <= 0x1_0000_0000;
            assert(0 <= nn * squares <= 0x4000_0000_0000_0000_0000_0000_0000_0000int) by (nonlinear_arith)
                requires 1 <= nn <= 0x1_0000_0000, 0 <= squares <= nn * 0x4000_0000_0000_0000;
            assert(0 <= total * total <= 0x4000_0000_0000_0000_0000_0000_0000_0000int) by (nonlinear_arith)
                requires 1 <= nn <= 0x1_0000_0000, -nn * 2147483648 <= total <= nn * 2147483648;
            assert(nn * squares >= total * total);
        }
        let spread: i128 = nn * squares - total * total;
        let var: i128 = spread / (nn * nn);
        proof {
            assert(spread <= nn * (nn * 0x4000_0000_0000_0000)) by (nonlinear_arith)
                requires spread <= nn * squares, 0 <= squares <= nn * 0x4000_0000_0000_0000, nn >= 1;
            assert(nn * (nn * 0x4000_0000_0000_0000) == (nn * nn) * 0x4000_0000_0000_0000) by (nonlinear_arith);
            lemma_div_is_ordered(spread as int, (nn * nn) * 0x4000_0000_0000_0000, nn * nn);
            lemma_div_multiples_vanish(0x4000_0000_0000_0000int, nn * nn);
            assert((nn * nn) * 0x4000_0000_0000_0000 == (nn * nn) * 0x4000_0000_0000_0000int);
            lemma_div_is_ordered(0, spread as int, nn * nn);
        }
        let root = isqrt(var as u64);
        assert(root <= 0x8000_0000) by (nonlinear_arith)
            requires root * root <= var, var <= 0x4000_0000_0000_0000;
        let shifted: i128 = total + nn * 2147483648;
        let q: i128 = shifted / nn;
        proof {
            lemma_hoist_over_denominator(total as int, 2147483648, nn as nat);
            lemma_div_is_ordered(0, shifted as int, nn as int);
            lemma_div_is_ordered(shifted as int, 2 * nn * 2147483648, nn as int);
            lemma_div_multiples_vanish(2 * 2147483648int, nn as int);
            assert(2 * nn * 2147483648 == nn * (2 * 2147483648)) by (nonlinear_arith);
        }
        Some(StatValues { mean: (q - 2147483648) as i64, stddev: root as i64, min: lo as i64, max: hi as i64 })
    }

    /// The named statistic.
    pub fn get(&self, stat: Stat) -> (r: i64)
        ensures
            r == self.stat(stat),
    {
        match stat {
            Stat::Mean => self.mean,
            Stat::StdDev => self.stddev,
            Stat::Min => self.min,
            Stat::Max => self.max,
        }
    }

    pub open spec fn stat(&self, stat: Stat) -> i64 {
        match stat {
            Stat::Mean => self.mean,
            Stat::StdDev => self.stddev,
            Stat::Min => self.min,
            Stat::Max => self.max,
        }
    }
}

/// A statistic of a numeric sample.
#[derive(Clone, Copy, Debug, PartialEq, Eq, Hash, Structural)]
pub enum Stat {
    Mean,
    StdDev,
    Min,
    Max,
}

} // verus!
