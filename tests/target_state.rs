use boxmonitor::config::plain_target;
use boxmonitor::monitor::{FailureEntry, FailureKind, PingResult, SshResult, TargetStats};
use boxmonitor::stats::Ratio;

fn ping(ts: i64, latency: Option<u64>) -> PingResult {
    PingResult { timestamp_ms: ts, latency_ms: latency, success: latency.is_some() }
}

fn fresh() -> TargetStats {
    TargetStats::new(plain_target("10.0.0.1".to_string(), None))
}

#[test]
fn history_keeps_the_last_entries_in_order() {
    let mut t = fresh();
    for i in 0..5i64 {
        t.add_ping_result(ping(i, Some(i as u64 * 10)), 3);
    }
    let kept: Vec<i64> = t.ping_history.iter().map(|r| r.timestamp_ms).collect();
    assert_eq!(kept, vec![2, 3, 4]);
}

#[test]
fn history_below_capacity_keeps_everything() {
    let mut t = fresh();
    t.add_ping_result(ping(1, Some(5)), 3);
    t.add_ping_result(ping(2, None), 3);
    assert_eq!(t.ping_history.len(), 2);
}

#[test]
fn success_rate_decays_as_successes_age_out() {
    let mut t = fresh();
    t.add_ping_result(ping(1, Some(10)), 3);
    t.add_ping_result(ping(2, Some(20)), 3);
    t.add_ping_result(ping(3, None), 3);
    let st = t.ping_stats.unwrap();
    assert_eq!(st.success_rate, Ratio { num: 200, den: 3 });
    t.add_ping_result(ping(4, None), 3);
    let st = t.ping_stats.unwrap();
    assert_eq!(st.success_rate, Ratio { num: 100, den: 3 });
    assert_eq!(st.min, 20);
    t.add_ping_result(ping(5, None), 3);
    assert!(t.ping_stats.is_none());
}

#[test]
fn ssh_history_is_separate() {
    let mut t = fresh();
    t.add_ssh_result(SshResult { timestamp_ms: 1, connection_time_ms: Some(7), success: true }, 3);
    assert_eq!(t.ssh_history.len(), 1);
    assert!(t.ping_history.is_empty());
    assert!(t.ping_stats.is_none());
    assert_eq!(t.ssh_stats.unwrap().max, 7);
}

#[test]
fn failure_log_is_bounded() {
    let mut t = fresh();
    for i in 0..4i64 {
        t.record_failure(
            FailureEntry { timestamp_ms: i, failure_type: FailureKind::PingUnreachable, reason: format!("r{}", i) },
            3,
        );
    }
    let reasons: Vec<String> = t.failure_log.iter().map(|f| f.reason.clone()).collect();
    assert_eq!(reasons, vec!["r1", "r2", "r3"]);
}

#[test]
fn capacity_zero_keeps_the_newest() {
    let mut t = fresh();
    t.add_ping_result(ping(1, Some(1)), 0);
    t.add_ping_result(ping(2, Some(2)), 0);
    let kept: Vec<i64> = t.ping_history.iter().map(|r| r.timestamp_ms).collect();
    assert_eq!(kept, vec![2]);
}

#[test]
fn failure_tags_are_stable() {
    assert_eq!(FailureKind::PingUnreachable.tag(), "ping-unreachable");
    assert_eq!(FailureKind::SshTimeout.tag(), "ssh-timeout");
    assert_eq!(FailureKind::SshHandshakeFailed.tag(), "ssh-handshake-failed");
    assert_eq!(FailureKind::PingAddressInvalid.tag(), "ping-address-invalid");
}
