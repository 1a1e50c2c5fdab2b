use boxmonitor::target_list::{parse_target_list, TargetList};

fn plain(text: &str) -> Vec<(String, Option<String>)> {
    match parse_target_list(text) {
        TargetList::Plain(ts) => ts.into_iter().map(|t| (t.ip, t.name)).collect(),
        TargetList::Json => panic!("read as JSON"),
    }
}

#[test]
fn json_text_is_recognised() {
    assert!(matches!(parse_target_list("  \n{\"targets\": []}"), TargetList::Json));
}

#[test]
fn plain_list_with_names_and_comments() {
    let got = plain("# monitored\n8.8.8.8   Google   DNS\r\n\n   # off\n1.1.1.1\n");
    assert_eq!(
        got,
        vec![("8.8.8.8".to_string(), Some("Google DNS".to_string())), ("1.1.1.1".to_string(), None)]
    );
}

#[test]
fn empty_list_has_no_targets() {
    assert!(plain("").is_empty());
    assert!(plain("\n \n\t\n").is_empty());
}

#[test]
fn last_line_without_newline_counts() {
    let got = plain("10.0.0.1 a\n10.0.0.2");
    assert_eq!(got.len(), 2);
    assert_eq!(got[1].0, "10.0.0.2");
}
