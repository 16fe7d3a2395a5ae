use vstd::prelude::*;

use crate::stats::MAX_REPS;
use crate::stats::Stats;
use crate::stats::TIME_CAP;
use crate::stats::compute_stats;
use crate::stats::stats_ok;

verus! {

#[verifier::external_type_specification]
#[verifier::external_body]
pub struct ExInstant(std::time::Instant);

/// Relies on std::time::Instant::now: an opaque monotonic timestamp.
/// Nothing is promised of a clock reading.
#[verifier::external_body]
fn instant_now() -> std::time::Instant {
    std::time::Instant::now()
}

/// Relies on std::time::Instant::elapsed: the time since `start`, as an
/// opaque duration. Nothing is promised of a clock reading.
#[verifier::external_body]
fn instant_elapsed(start: &std::time::Instant) -> core::time::Duration {
    start.elapsed()
}

/// Relies on core::time::Duration::as_nanos: the duration as a whole number
/// of nanoseconds.
#[verifier::external_body]
fn duration_as_nanos(d: &core::time::Duration) -> u128 {
    d.as_nanos()
}

/// `s` is the summary of some sequence of `n` recorded durations, each a
/// capped nanosecond count. What the durations were depends on the clock,
/// so no more can be said of a benchmark's statistics.
pub open spec fn stats_of_some_run(n: nat, s: Stats) -> bool {
    exists|ts: Seq<u64>|
        ts.len() == n && (forall|i: int| 0 <= i < ts.len() ==> #[trigger] ts[i] <= TIME_CAP)
            && #[trigger] stats_ok(ts, s)
}

/// Run `func` exactly `bench_size` times, in order, timing each invocation,
/// and return the results in invocation order together with the summary
/// statistics of the recorded durations (in nanoseconds, each capped at
/// `TIME_CAP`). With `bench_size == 0` the result sequence is empty and the
/// statistics are all 0 — the documented non-failing degenerate value.
pub fn bench<R, F: Fn() -> R>(func: F, bench_size: usize) -> (out: (Vec<R>, Stats))
    requires
        bench_size <= MAX_REPS,
        call_requires(func, ()),
    ensures
        out.0@.len() == bench_size,
        forall|i: int| 0 <= i < bench_size ==> call_ensures(func, (), #[trigger] out.0@[i]),
        stats_of_some_run(bench_size as nat, out.1),
        bench_size == 0 ==> out.1 == (Stats { mean: 0, stddev: 0, min: 0, max: 0 }),
{
    let mut results: Vec<R> = Vec::new();
    let mut times: Vec<u64> = Vec::new();
    let mut i: usize = 0;
    while i < bench_size
        invariant
            i <= bench_size,
            bench_size <= MAX_REPS,
            call_requires(func, ()),
            results@.len() == i,
            times@.len() == i,
            forall|k: int| 0 <= k < i ==> call_ensures(func, (), #[trigger] results@[k]),
            forall|k: int| 0 <= k < i ==> #[trigger] times@[k] <= TIME_CAP,
        decreases bench_size - i,
    {
        let start = instant_now();
        let r = func();
        let d = instant_elapsed(&start);
        let nanos = duration_as_nanos(&d);
        let t: u64 = if nanos > (TIME_CAP as u128) {
            TIME_CAP
        } else {
            nanos as u64
        };
        results.push(r);
        times.push(t);
        i = i + 1;
    }
    let stats = compute_stats(&times);
    proof {
        assert(times@.len() == bench_size as nat && stats_ok(times@, stats));
        assert(stats_of_some_run(bench_size as nat, stats));
    }
    (results, stats)
}

} // verus!
