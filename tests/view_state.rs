use boxmonitor::config::{plain_target, Target};
use boxmonitor::monitor::TargetStats;
use boxmonitor::ui::{App, KeyInput, PlotView, TabMode};

fn targets(with_ssh: bool) -> Vec<TargetStats> {
    let mut v = vec![TargetStats::new(plain_target("a".to_string(), None))];
    if with_ssh {
        let t = Target { ip: "b".to_string(), name: None, ssh_port: Some(22), ssh_user: Some("u".to_string()) };
        v.push(TargetStats::new(t));
    }
    v
}

#[test]
fn tabs_wrap_both_ways() {
    let mut app = App::new();
    app.next_tab(2);
    assert_eq!(app.current_tab, 1);
    assert!(app.tab_mode == TabMode::Individual(0));
    app.next_tab(2);
    app.next_tab(2);
    assert_eq!(app.current_tab, 0);
    assert!(app.tab_mode == TabMode::AllTargets);
    app.previous_tab(2);
    assert_eq!(app.current_tab, 2);
    assert!(app.tab_mode == TabMode::Individual(1));
}

#[test]
fn next_tab_with_largest_count() {
    let mut app = App::new();
    app.current_tab = usize::MAX;
    app.next_tab(usize::MAX);
    assert_eq!(app.current_tab, 0);
}

#[test]
fn plot_view_skips_ssh_without_ssh_targets() {
    let mut app = App::new();
    let ts = targets(false);
    app.handle_key(KeyInput::CyclePlot, &ts);
    assert!(app.current_plot_view == PlotView::PingOnly);
    app.handle_key(KeyInput::CyclePlot, &ts);
    assert!(app.current_plot_view == PlotView::AllTargets);
}

#[test]
fn plot_view_offers_ssh_when_available() {
    let mut app = App::new();
    let ts = targets(true);
    app.handle_key(KeyInput::CyclePlot, &ts);
    app.handle_key(KeyInput::CyclePlot, &ts);
    assert!(app.current_plot_view == PlotView::SshOnly);
    app.handle_key(KeyInput::NextTab, &ts);
    assert!(!app.ssh_view_available(&ts));
    app.handle_key(KeyInput::NextTab, &ts);
    assert!(app.ssh_view_available(&ts));
}

#[test]
fn keys_quit_and_ignore() {
    let mut app = App::new();
    let ts = targets(false);
    app.handle_key(KeyInput::Other, &ts);
    assert!(!app.should_quit);
    app.handle_key(KeyInput::PreviousTab, &ts);
    assert_eq!(app.current_tab, 1);
    app.handle_key(KeyInput::Quit, &ts);
    assert!(app.should_quit);
}
