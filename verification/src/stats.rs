use vstd::prelude::*;
use vstd::arithmetic::div_mod::lemma_div_is_ordered;
use vstd::arithmetic::div_mod::lemma_div_multiples_vanish;
use vstd::arithmetic::mul::lemma_mul_inequality;

verus! {

/// Durations are measured in whole nanoseconds and capped at `TIME_CAP`
/// (about 3.26 days), so that summary statistics can be computed without
/// overflow.
pub const TIME_CAP: u64 = 0xFFFF_FFFF_FFFF;

/// The harness accepts at most this many repetitions, so that the sum of
/// squared deviations fits the machine's arithmetic.
pub const MAX_REPS: usize = 0xFFFF_FFFF;

/// Summary statistics over an ordered sequence of timings, in nanoseconds.
/// `stddev` is the population standard deviation (dividing by N, not N-1),
/// rounded down. Over an empty sequence every field is 0 by definition.
#[derive(Clone, Copy, PartialEq, Eq, Structural, Debug)]
pub struct Stats {
    pub mean: u64,
    pub stddev: u64,
    pub min: u64,
    pub max: u64,
}

/// The sum of a sequence of timings.
pub open spec fn sum_of(s: Seq<u64>) -> int
    decreases s.len(),
{
    if s.len() == 0 {
        0
    } else {
        sum_of(s.drop_last()) + s.last()
    }
}

/// The sum of squared deviations of a sequence of timings from `mean`.
pub open spec fn sum_sq_dev(s: Seq<u64>, mean: int) -> int
    decreases s.len(),
{
    if s.len() == 0 {
        0
    } else {
        sum_sq_dev(s.drop_last(), mean) + (s.last() - mean) * (s.last() - mean)
    }
}

/// The population mean, rounded down.
pub open spec fn spec_mean(s: Seq<u64>) -> int
    recommends
        s.len() > 0,
{
    sum_of(s) / s.len() as int
}

/// The population variance about the rounded mean, rounded down.
pub open spec fn spec_variance(s: Seq<u64>) -> int
    recommends
        s.len() > 0,
{
    sum_sq_dev(s, spec_mean(s)) / s.len() as int
}

/// `r` is the integer square root of `x`, rounded down.
pub open spec fn is_sqrt_floor(r: int, x: int) -> bool {
    0 <= r && r * r <= x && x < (r + 1) * (r + 1)
}

/// What `Stats` promises of a sequence of timings: over an empty sequence
/// all fields are 0 (the documented degenerate value); otherwise `mean` is
/// the rounded population mean, `stddev` the rounded-down square root of the
/// population variance, and `min` and `max` are attained bounds.
pub open spec fn stats_ok(ts: Seq<u64>, s: Stats) -> bool {
    if ts.len() == 0 {
        s == (Stats { mean: 0, stddev: 0, min: 0, max: 0 })
    } else {
        &&& s.mean == spec_mean(ts)
        &&& is_sqrt_floor(s.stddev as int, spec_variance(ts))
        &&& exists|i: int| 0 <= i < ts.len() && #[trigger] ts[i] == s.min
        &&& forall|i: int| 0 <= i < ts.len() ==> s.min <= #[trigger] ts[i]
        &&& exists|i: int| 0 <= i < ts.len() && #[trigger] ts[i] == s.max
        &&& forall|i: int| 0 <= i < ts.len() ==> #[trigger] ts[i] <= s.max
    }
}

/// Sums over a prefix grow by the element appended.
proof fn lemma_prefix_sums(s: Seq<u64>, i: int, mean: int)
    requires
        0 <= i < s.len(),
    ensures
        sum_of(s.subrange(0, i + 1)) == sum_of(s.subrange(0, i)) + s[i],
        sum_sq_dev(s.subrange(0, i + 1), mean) == sum_sq_dev(s.subrange(0, i), mean) + (s[i] - mean)
            * (s[i] - mean),
{
    assert(s.subrange(0, i + 1).drop_last() =~= s.subrange(0, i));
    assert(s.subrange(0, i + 1).last() == s[i]);
}

/// The integer square root, rounded down, by bisection.
pub fn isqrt(x: u128) -> (r: u128)
    requires
        x < 0x1_0000_0000_0000_0000_0000_0000,
    ensures
        is_sqrt_floor(r as int, x as int),
        r <= 0xFFFF_FFFF_FFFF,
{
    let mut lo: u128 = 0;
    let mut hi: u128 = 0x1_0000_0000_0000;
    while lo + 1 < hi
        invariant
            lo < hi <= 0x1_0000_0000_0000,
            lo * lo <= x,
            x < hi * hi,
        decreases hi - lo,
    {
        let mid = lo + (hi - lo) / 2;
        proof {
            assert(lo < mid < hi);
            assert(mid * mid < 0x1_0000_0000_0000_0000_0000_0000_0000_0000) by (nonlinear_arith)
                requires
                    0 <= mid <= 0x1_0000_0000_0000,
            ;
        }
        if mid * mid <= x {
            lo = mid;
        } else {
            hi = mid;
        }
    }
    lo
}

/// Compute the summary statistics of an ordered sequence of timings:
/// min and max by linear scan, mean as the rounded average, stddev as the
/// rounded-down square root of the population variance. Over an empty
/// sequence, all fields are 0 — the documented non-failing degenerate value.
pub fn compute_stats(times: &Vec<u64>) -> (s: Stats)
    requires
        times@.len() <= MAX_REPS,
        forall|i: int| 0 <= i < times@.len() ==> #[trigger] times@[i] <= TIME_CAP,
    ensures
        stats_ok(times@, s),
{
    let n = times.len();
    if n == 0 {
        return Stats { mean: 0, stddev: 0, min: 0, max: 0 };
    }
    let mut sum: u128 = 0;
    let mut mn: u64 = times[0];
    let mut mx: u64 = times[0];
    let mut i: usize = 0;
    while i < n
        invariant
            n == times@.len(),
            n > 0,
            i <= n,
            forall|k: int| 0 <= k < n ==> #[trigger] times@[k] <= TIME_CAP,
            sum == sum_of(times@.subrange(0, i as int)),
            sum <= (i as int) * (TIME_CAP as int),
            i == 0 ==> mn == times@[0] && mx == times@[0],
            i > 0 ==> exists|k: int| 0 <= k < i && #[trigger] times@[k] == mn,
            i > 0 ==> forall|k: int| 0 <= k < i ==> mn <= #[trigger] times@[k],
            i > 0 ==> exists|k: int| 0 <= k < i && #[trigger] times@[k] == mx,
            i > 0 ==> forall|k: int| 0 <= k < i ==> #[trigger] times@[k] <= mx,
        decreases n - i,
    {
        let t = times[i];
        proof {
            lemma_prefix_sums(times@, i as int, 0);
            assert(times@[i as int] == t);
        }
        sum = sum + (t as u128);
        if t < mn || i == 0 {
            mn = t;
        }
        if t > mx {
            mx = t;
        }
        proof {
            let iw = i as int;
            assert(times@[iw] == t);
            if mn == t {
                assert(0 <= iw < iw + 1 && times@[iw] == mn);
            } else {
                assert(i > 0);
                let k0 = choose|k: int| 0 <= k < iw && #[trigger] times@[k] == mn;
                assert(0 <= k0 < iw + 1 && times@[k0] == mn);
            }
            if mx == t {
                assert(0 <= iw < iw + 1 && times@[iw] == mx);
            } else {
                assert(i > 0);
                let k0 = choose|k: int| 0 <= k < iw && #[trigger] times@[k] == mx;
                assert(0 <= k0 < iw + 1 && times@[k0] == mx);
            }
        }
        i = i + 1;
    }
    proof {
        assert(times@.subrange(0, n as int) =~= times@);
        lemma_sum_div_bounded(sum as int, n as int, TIME_CAP as int);
    }
    let mean: u64 = (sum / (n as u128)) as u64;
    let mut acc: u128 = 0;
    let mut j: usize = 0;
    while j < n
        invariant
            n == times@.len(),
            n > 0,
            j <= n,
            n <= MAX_REPS,
            forall|k: int| 0 <= k < n ==> #[trigger] times@[k] <= TIME_CAP,
            mean <= TIME_CAP,
            mean == spec_mean(times@),
            acc == sum_sq_dev(times@.subrange(0, j as int), mean as int),
            acc <= (j as int) * ((TIME_CAP as int) * (TIME_CAP as int)),
        decreases n - j,
    {
        let t = times[j];
        let d: u64 = if t >= mean {
            t - mean
        } else {
            mean - t
        };
        proof {
            lemma_prefix_sums(times@, j as int, mean as int);
            assert((t - mean) * (t - mean) == (d as int) * (d as int)) by (nonlinear_arith)
                requires
                    d == if t >= mean {
                        t - mean
                    } else {
                        mean - t
                    },
            ;
            assert((d as int) * (d as int) <= (TIME_CAP as int) * (TIME_CAP as int))
                by (nonlinear_arith)
                requires
                    0 <= d <= TIME_CAP,
            ;
            assert((j + 1) * ((TIME_CAP as int) * (TIME_CAP as int)) == (j as int) * ((
            TIME_CAP as int) * (TIME_CAP as int)) + (TIME_CAP as int) * (TIME_CAP as int))
                by (nonlinear_arith);
            lemma_mul_inequality(j + 1, MAX_REPS as int, (TIME_CAP as int) * (TIME_CAP as int));
            assert((MAX_REPS as int) * ((TIME_CAP as int) * (TIME_CAP as int))
                < 0x1_0000_0000_0000_0000_0000_0000_0000_0000) by (nonlinear_arith);
            assert(times@[j as int] == t);
        }
        acc = acc + (d as u128) * (d as u128);
        j = j + 1;
    }
    proof {
        assert(times@.subrange(0, n as int) =~= times@);
        lemma_sum_div_bounded(acc as int, n as int, (TIME_CAP as int) * (TIME_CAP as int));
    }
    let variance: u128 = acc / (n as u128);
    let sd = isqrt(variance);
    Stats { mean, stddev: sd as u64, min: mn, max: mx }
}

/// If a sum of `n` terms is at most `n * cap`, its average is at most `cap`.
proof fn lemma_sum_div_bounded(sum: int, n: int, cap: int)
    requires
        n >= 1,
        cap >= 0,
        0 <= sum <= n * cap,
    ensures
        0 <= sum / n <= cap,
{
    lemma_div_is_ordered(sum, n * cap, n);
    lemma_div_multiples_vanish(cap, n);
    vstd::arithmetic::div_mod::lemma_div_pos_is_pos(sum, n);
}

} // verus!
