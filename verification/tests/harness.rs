use std::cell::Cell;

use montecarlo::Stats;
use montecarlo::bench;
use montecarlo::compute_stats;
use montecarlo::stats::isqrt;

#[test]
fn bench_returns_all_results_in_invocation_order() {
    let counter = Cell::new(0u64);
    let (results, _stats) = bench(
        || {
            let v = counter.get();
            counter.set(v + 1);
            v
        },
        5,
    );
    assert_eq!(results, vec![0, 1, 2, 3, 4]);
    assert_eq!(counter.get(), 5);
}

#[test]
fn bench_of_zero_repetitions_is_empty_with_zero_stats() {
    let (results, stats) = bench(|| 7u8, 0);
    assert!(results.is_empty());
    assert_eq!(stats, Stats { mean: 0, stddev: 0, min: 0, max: 0 });
}

#[test]
fn statistics_of_one_two_three_seconds() {
    // 1.0 s, 2.0 s, 3.0 s in nanoseconds.
    let times = vec![1_000_000_000u64, 2_000_000_000, 3_000_000_000];
    let stats = compute_stats(&times);
    assert_eq!(stats.mean, 2_000_000_000);
    assert_eq!(stats.min, 1_000_000_000);
    assert_eq!(stats.max, 3_000_000_000);
    // Population stddev is sqrt(2/3) s ~ 0.8165 s, rounded down to whole
    // nanoseconds.
    assert_eq!(stats.stddev, 816_496_580);
}

#[test]
fn statistics_of_constant_sample() {
    let times = vec![5u64, 5, 5, 5];
    let stats = compute_stats(&times);
    assert_eq!(stats, Stats { mean: 5, stddev: 0, min: 5, max: 5 });
}

#[test]
fn statistics_of_single_sample() {
    let times = vec![42u64];
    let stats = compute_stats(&times);
    assert_eq!(stats, Stats { mean: 42, stddev: 0, min: 42, max: 42 });
}

#[test]
fn statistics_of_empty_sample_are_all_zero() {
    let stats = compute_stats(&vec![]);
    assert_eq!(stats, Stats { mean: 0, stddev: 0, min: 0, max: 0 });
}

#[test]
fn statistics_mean_rounds_down() {
    let times = vec![1u64, 2];
    let stats = compute_stats(&times);
    assert_eq!(stats.mean, 1);
    assert_eq!(stats.min, 1);
    assert_eq!(stats.max, 2);
}

#[test]
fn integer_square_roots() {
    assert_eq!(isqrt(0), 0);
    assert_eq!(isqrt(1), 1);
    assert_eq!(isqrt(2), 1);
    assert_eq!(isqrt(3), 1);
    assert_eq!(isqrt(4), 2);
    assert_eq!(isqrt(15), 3);
    assert_eq!(isqrt(16), 4);
    assert_eq!(isqrt(999_999), 999);
    assert_eq!(isqrt(1_000_000), 1000);
    assert_eq!(isqrt(666_666_666_666_666_666), 816_496_580);
}

#[test]
fn bench_results_carry_computed_values() {
    let (results, stats) = bench(|| 6 * 7, 3);
    assert_eq!(results, vec![42, 42, 42]);
    assert!(stats.min <= stats.mean && stats.mean <= stats.max);
}
