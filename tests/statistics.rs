use boxmonitor::stats::{calculate_statistics, percentile, Ratio};

fn value(r: Ratio) -> f64 {
    r.num as f64 / r.den as f64
}

#[test]
fn percentile_interpolates_between_neighbours() {
    let samples = [10u64, 20, 30, 40];
    let median = percentile(&samples, 50);
    assert_eq!(median, Ratio { num: 2500, den: 100 });
    assert!((value(median) - 25.0).abs() < 1e-9);
}

#[test]
fn percentile_exact_positions() {
    let samples = [10u64, 20, 30, 40];
    // position 0.75 lies between 10 and 20
    assert_eq!(percentile(&samples, 25), Ratio { num: 1750, den: 100 });
    assert_eq!(percentile(&samples, 0), Ratio { num: 1000, den: 100 });
    assert_eq!(percentile(&samples, 100), Ratio { num: 4000, den: 100 });
    // position 2.97: 30 * 0.03 + 40 * 0.97
    assert_eq!(percentile(&samples, 99), Ratio { num: 30 * 3 + 40 * 97, den: 100 });
}

#[test]
fn percentile_single_sample_is_that_sample() {
    for p in 0..=100u64 {
        assert_eq!(value(percentile(&[42], p)), 42.0);
    }
}

#[test]
fn percentile_of_nothing_is_zero() {
    for p in [0u64, 25, 50, 99, 100] {
        assert_eq!(value(percentile(&[], p)), 0.0);
    }
}

#[test]
fn statistics_sort_the_samples() {
    let st = calculate_statistics(&[30, 10, 40, 20], 4);
    assert_eq!(st.min, 10);
    assert_eq!(st.max, 40);
    assert_eq!(st.median, Ratio { num: 2500, den: 100 });
    assert_eq!(st.mean, Ratio { num: 100, den: 4 });
    assert_eq!(st.total_count, 4);
    assert_eq!(value(st.success_rate), 100.0);
}

#[test]
fn statistics_success_rate_counts_failures() {
    let st = calculate_statistics(&[10, 30], 3);
    assert_eq!(st.success_rate, Ratio { num: 200, den: 3 });
    assert!((value(st.success_rate) - 66.666_666).abs() < 1e-3);
    assert_eq!(st.total_count, 3);
}

#[test]
fn statistics_with_large_samples_do_not_overflow() {
    let st = calculate_statistics(&[u64::MAX, u64::MAX], 2);
    assert_eq!(st.mean.num, 2 * (u64::MAX as u128));
    assert_eq!(st.median.num, 100 * (u64::MAX as u128));
    assert_eq!(st.max, u64::MAX);
}

#[test]
fn statistics_of_no_samples() {
    let st = calculate_statistics(&[], 5);
    assert_eq!(st.min, 0);
    assert_eq!(st.max, 0);
    assert_eq!(st.mean.den, 0);
    assert_eq!(st.success_rate, Ratio { num: 0, den: 5 });
    assert_eq!(st.p95, Ratio { num: 0, den: 100 });
}
