use boxmonitor::config::{parse_targets_from_args, ArgsErrorKind, Config};

#[test]
fn ip_list_is_split_and_trimmed() {
    let ts = parse_targets_from_args(Some(" 8.8.8.8 , ,1.1.1.1,".to_string()), None).ok().unwrap();
    let ips: Vec<&str> = ts.iter().map(|t| t.ip.as_str()).collect();
    assert_eq!(ips, vec!["8.8.8.8", "1.1.1.1"]);
    assert!(ts.iter().all(|t| t.name.is_none() && t.ssh_port.is_none() && t.ssh_user.is_none()));
}

#[test]
fn ssh_targets_with_and_without_port() {
    let ts = parse_targets_from_args(Some("9.9.9.9".to_string()), Some("root@10.0.0.1:2222, admin@host".to_string()))
        .ok()
        .unwrap();
    assert_eq!(ts.len(), 3);
    assert_eq!(ts[0].ip, "9.9.9.9");
    assert_eq!(ts[1].ip, "10.0.0.1");
    assert_eq!(ts[1].ssh_port, Some(2222));
    assert_eq!(ts[1].ssh_user.as_deref(), Some("root"));
    assert_eq!(ts[1].name.as_deref(), Some("root@root@10.0.0.1:2222"));
    assert_eq!(ts[2].ip, "host");
    assert_eq!(ts[2].ssh_port, Some(22));
    assert_eq!(ts[2].ssh_user.as_deref(), Some("admin"));
    assert!(ts[2].is_ssh_enabled());
}

#[test]
fn ssh_target_without_user_is_rejected() {
    let e = parse_targets_from_args(None, Some("10.0.0.1".to_string())).err().unwrap();
    assert_eq!(e.kind, ArgsErrorKind::InvalidSshFormat);
    assert_eq!(e.text, "10.0.0.1");
    assert_eq!(e.message(), "Invalid SSH format: 10.0.0.1. Expected USER@ip[:port]");
}

#[test]
fn ssh_target_with_bad_port_is_rejected() {
    let e = parse_targets_from_args(None, Some("a@h:22,b@h:65536".to_string())).err().unwrap();
    assert_eq!(e.kind, ArgsErrorKind::InvalidPort);
    assert_eq!(e.text, "65536");
    assert_eq!(e.message(), "Invalid port number: 65536");
    let e = parse_targets_from_args(None, Some("a@h:".to_string())).err().unwrap();
    assert_eq!(e.kind, ArgsErrorKind::InvalidPort);
    assert_eq!(e.text, "");
    let e = parse_targets_from_args(None, Some("a@h:x1".to_string())).err().unwrap();
    assert_eq!(e.text, "x1");
}

#[test]
fn port_accepts_a_plus_sign_and_the_largest_value() {
    let ts = parse_targets_from_args(None, Some("a@h:+65535".to_string())).ok().unwrap();
    assert_eq!(ts[0].ssh_port, Some(65535));
    let ts = parse_targets_from_args(None, Some("a@h:0".to_string())).ok().unwrap();
    assert_eq!(ts[0].ssh_port, Some(0));
    assert!(parse_targets_from_args(None, Some("a@h:+".to_string())).is_err());
    assert!(parse_targets_from_args(None, Some("a@h:-1".to_string())).is_err());
}

#[test]
fn no_lists_give_no_targets() {
    assert!(parse_targets_from_args(None, None).ok().unwrap().is_empty());
    assert!(parse_targets_from_args(Some(String::new()), Some(" , ".to_string())).ok().unwrap().is_empty());
}

#[test]
fn unicode_whitespace_is_trimmed() {
    let ts = parse_targets_from_args(Some("\u{3000}10.0.0.5\u{a0}".to_string()), None).ok().unwrap();
    assert_eq!(ts[0].ip, "10.0.0.5");
}

#[test]
fn default_config_values() {
    let c = Config::default();
    assert_eq!(c.targets.len(), 2);
    assert_eq!(c.targets[0].ip, "8.8.8.8");
    assert_eq!(c.targets[0].name.as_deref(), Some("Google DNS"));
    assert_eq!(c.targets[1].ip, "1.1.1.1");
    assert_eq!(c.targets[1].display_name(), "Cloudflare DNS");
    assert_eq!(c.ping_interval_ms, 1000);
    assert_eq!(c.ssh_timeout_ms, 5000);
    assert_eq!(c.history_size, 100);
    let c = Config::with_targets(Vec::new());
    assert!(c.targets.is_empty());
    assert_eq!(c.history_size, 100);
}
