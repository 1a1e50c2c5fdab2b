use boxmonitor::config::plain_target;
use boxmonitor::failures::recent_failures;
use boxmonitor::monitor::{FailureEntry, FailureKind, TargetStats};

fn with_failures(ip: &str, times: &[i64]) -> TargetStats {
    let mut t = TargetStats::new(plain_target(ip.to_string(), None));
    for ts in times {
        t.record_failure(
            FailureEntry { timestamp_ms: *ts, failure_type: FailureKind::PingUnreachable, reason: format!("at {}", ts) },
            100,
        );
    }
    t
}

#[test]
fn recent_failures_newest_first() {
    let targets = vec![with_failures("a", &[1, 5, 9]), with_failures("b", &[3, 7])];
    assert_eq!(recent_failures(&targets, 3), vec![(0, 2), (1, 1), (0, 1)]);
}

#[test]
fn recent_failures_ties_follow_target_order() {
    let targets = vec![with_failures("a", &[4, 4]), with_failures("b", &[4])];
    assert_eq!(recent_failures(&targets, 10), vec![(0, 0), (0, 1), (1, 0)]);
}

#[test]
fn recent_failures_fewer_than_limit() {
    let targets = vec![with_failures("a", &[2]), with_failures("b", &[])];
    assert_eq!(recent_failures(&targets, 20), vec![(0, 0)]);
    assert!(recent_failures(&targets, 0).is_empty());
    assert!(recent_failures(&[], 5).is_empty());
}
