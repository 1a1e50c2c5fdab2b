use boxmonitor::config::{plain_target, Target};
use boxmonitor::engine::{Monitor, ProbeOutcome, ProbeReport};
use boxmonitor::monitor::FailureKind;
use boxmonitor::stats::Ratio;

fn value(r: Ratio) -> f64 {
    r.num as f64 / r.den as f64
}

fn reached(ts: i64, ms: u64) -> ProbeReport {
    ProbeReport { timestamp_ms: ts, outcome: ProbeOutcome::Reached { elapsed_ms: ms } }
}

fn failed(ts: i64, kind: FailureKind, reason: &str) -> ProbeReport {
    ProbeReport { timestamp_ms: ts, outcome: ProbeOutcome::Failed { kind, reason: reason.to_string() } }
}

fn ssh_target(ip: &str) -> Target {
    Target { ip: ip.to_string(), name: None, ssh_port: Some(22), ssh_user: Some("root".to_string()) }
}

#[test]
fn three_successful_ping_cycles() {
    let mut m = Monitor::new(vec![plain_target("10.0.0.1".to_string(), None)], 1000, 5000, 100);
    for (i, ms) in [10u64, 20, 30].iter().enumerate() {
        m.run_ping_cycle(vec![reached(i as i64, *ms)]);
    }
    let st = m.get_targets()[0].ping_stats.unwrap();
    assert_eq!(value(st.mean), 20.0);
    assert_eq!(value(st.median), 20.0);
    assert_eq!(value(st.success_rate), 100.0);
    assert_eq!(st.total_count, 3);
    assert!(m.get_targets()[0].failure_log.is_empty());
}

#[test]
fn window_with_one_failure() {
    let mut m = Monitor::new(vec![plain_target("10.0.0.1".to_string(), None)], 1000, 5000, 3);
    m.run_ping_cycle(vec![reached(1, 10)]);
    m.run_ping_cycle(vec![failed(2, FailureKind::PingUnreachable, "no reply")]);
    m.run_ping_cycle(vec![reached(3, 30)]);
    let t = &m.get_targets()[0];
    let st = t.ping_stats.unwrap();
    assert!((value(st.success_rate) - 66.7).abs() < 0.05);
    assert_eq!(st.total_count, 3);
    assert_eq!(st.min, 10);
    assert_eq!(st.max, 30);
    assert_eq!(value(st.median), 20.0);
    assert_eq!(value(st.mean), 20.0);
    assert_eq!(t.failure_log.len(), 1);
    assert_eq!(t.failure_log[0].failure_type, FailureKind::PingUnreachable);
    assert_eq!(t.failure_log[0].reason, "no reply");
    assert_eq!(t.failure_log[0].timestamp_ms, 2);
}

#[test]
fn slow_failure_does_not_disturb_other_targets() {
    let mut m = Monitor::new(vec![ssh_target("10.0.0.1"), ssh_target("10.0.0.2"), ssh_target("10.0.0.3")], 1000, 5000, 10);
    m.run_ssh_cycle(vec![
        Some(reached(1, 12)),
        Some(failed(1, FailureKind::SshTimeout, "timed out after 5000 ms")),
        Some(reached(1, 8)),
    ]);
    let ts = m.get_targets();
    assert_eq!(ts[0].ssh_history[0].connection_time_ms, Some(12));
    assert_eq!(ts[2].ssh_history[0].connection_time_ms, Some(8));
    assert!(ts[0].failure_log.is_empty());
    assert!(ts[2].failure_log.is_empty());
    assert_eq!(ts[1].ssh_history[0].connection_time_ms, None);
    assert!(!ts[1].ssh_history[0].success);
    assert_eq!(ts[1].failure_log[0].failure_type, FailureKind::SshTimeout);
    assert!(ts[1].ssh_stats.is_none());
    assert_eq!(ts[0].ssh_stats.unwrap().max, 12);
}

#[test]
fn ping_cycle_records_every_target() {
    let mut m = Monitor::new(
        vec![plain_target("a".to_string(), None), plain_target("b".to_string(), None)],
        1000,
        5000,
        10,
    );
    m.run_ping_cycle(vec![failed(5, FailureKind::PingAddressInvalid, "bad address"), reached(5, 3)]);
    let ts = m.get_targets();
    assert_eq!(ts[0].ping_history.len(), 1);
    assert_eq!(ts[0].failure_log[0].failure_type, FailureKind::PingAddressInvalid);
    assert_eq!(ts[1].ping_history[0].latency_ms, Some(3));
    assert!(ts[1].ping_history[0].success);
}

#[test]
fn ssh_cycle_skips_targets_without_ssh() {
    let mut m = Monitor::new(vec![plain_target("a".to_string(), None), ssh_target("b")], 1000, 5000, 10);
    let plan = m.ssh_plan();
    assert!(plan[0].is_none());
    let probe = plan[1].as_ref().unwrap();
    assert_eq!(probe.ip, "b");
    assert_eq!(probe.port, 22);
    assert_eq!(probe.user, "root");
    assert_eq!(probe.timeout_ms, 5000);
    m.run_ssh_cycle(vec![Some(reached(1, 4)), Some(reached(1, 6))]);
    let ts = m.get_targets();
    assert!(ts[0].ssh_history.is_empty());
    assert_eq!(ts[1].ssh_history.len(), 1);
}

#[test]
fn ping_plan_lists_every_address() {
    let m = Monitor::new(vec![plain_target("a".to_string(), None), ssh_target("b")], 250, 5000, 10);
    assert_eq!(m.ping_plan(), vec!["a".to_string(), "b".to_string()]);
    assert_eq!(m.ssh_interval_ms(), 1250);
    assert_eq!(m.ping_interval_ms(), 250);
    assert_eq!(m.ssh_timeout_ms(), 5000);
    assert_eq!(m.history_size(), 10);
}

#[test]
fn snapshot_copies_the_state() {
    let mut m = Monitor::new(vec![ssh_target("10.0.0.1")], 1000, 5000, 10);
    m.run_ping_cycle(vec![reached(1, 10)]);
    let snap = m.snapshot();
    m.run_ping_cycle(vec![failed(2, FailureKind::PingTimeout, "late")]);
    assert_eq!(snap.len(), 1);
    assert_eq!(snap[0].ping_history.len(), 1);
    assert!(snap[0].failure_log.is_empty());
    assert_eq!(snap[0].target.ssh_user.as_deref(), Some("root"));
    assert_eq!(m.get_targets()[0].ping_history.len(), 2);
}
