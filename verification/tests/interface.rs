//! The terminal interface's state.

use mc_server_wrapper::ui::{
    choose_log_lines, make_session_time_string, InputState, KeyPress, LogsState,
    ProgressBarState, TabsState, TuiState,
};

fn filled_cells(bar: &ProgressBarState) -> i32 {
    ((bar.complete as f32 / bar.out_of as f32) * 10.0) as i32
}

#[test]
fn progress_zero() {
    let bar = ProgressBarState { complete: 0, out_of: 100 };
    assert_eq!(bar.text(filled_cells(&bar)), "[          ] 0%");
}

#[test]
fn progress_forty() {
    let bar = ProgressBarState { complete: 40, out_of: 100 };
    assert_eq!(bar.text(filled_cells(&bar)), "[====      ] 40%");
}

#[test]
fn progress_one_hundred() {
    let bar = ProgressBarState { complete: 100, out_of: 100 };
    assert_eq!(bar.text(filled_cells(&bar)), "[==========] 100%");
}

#[test]
fn progress_past_the_end() {
    let bar = ProgressBarState { complete: 150, out_of: 100 };
    assert_eq!(bar.text(15), "[===============] 150%");
    assert_eq!(bar.text(-3), "[             ] 150%");
}

#[test]
fn minutes() {
    let d = chrono::Duration::minutes(23);
    assert_eq!(make_session_time_string(d.num_seconds()), "23m");
}

#[test]
fn hours() {
    let d = chrono::Duration::hours(2) + chrono::Duration::minutes(12);
    assert_eq!(make_session_time_string(d.num_seconds()), "2h 12m");
}

#[test]
fn days() {
    let d = chrono::Duration::days(1) + chrono::Duration::hours(2) + chrono::Duration::minutes(12);
    assert_eq!(make_session_time_string(d.num_seconds()), "1d 2h 12m");
}

#[test]
fn session_edges() {
    assert_eq!(make_session_time_string(0), "0m");
    assert_eq!(make_session_time_string(59), "0m");
    // a whole number of days shows only the minutes, as hours are checked first
    assert_eq!(make_session_time_string(86400), "0m");
    assert_eq!(make_session_time_string(90061), "1d 1h 1m");
    assert_eq!(make_session_time_string(-3720), "-1h -2m");
    assert_eq!(make_session_time_string(i64::MIN), "-106751991167300d -15h -30m");
}

#[test]
fn tabs_wrap_around() {
    let mut tabs = TabsState::new(vec!["a".to_string(), "b".to_string(), "c".to_string()]);
    assert_eq!(tabs.current_idx(), 0);
    tabs.previous();
    assert_eq!(tabs.current_idx(), 2);
    tabs.next();
    assert_eq!(tabs.current_idx(), 0);
    tabs.handle_input(KeyPress::Tab);
    assert_eq!(tabs.current_idx(), 1);
    tabs.handle_input(KeyPress::BackTab);
    assert_eq!(tabs.current_idx(), 0);
    tabs.handle_input(KeyPress::Char('x'));
    assert_eq!(tabs.current_idx(), 0);
}

#[test]
fn input_typing() {
    let mut input = InputState::new();
    input.handle_input(KeyPress::Char('h'));
    input.handle_input(KeyPress::Char('é'));
    assert_eq!(input.value(), "hé");
    input.handle_input(KeyPress::Backspace);
    assert_eq!(input.value(), "h");
    input.handle_input(KeyPress::Tab);
    assert_eq!(input.value(), "h");
    input.clear();
    assert_eq!(input.value(), "");
    input.handle_input(KeyPress::Backspace);
    assert_eq!(input.value(), "");
}

#[test]
fn progress_bar_comes_and_goes() {
    let mut logs = LogsState::new();
    assert_eq!(logs.progress_bar(), None);
    logs.set_progress_percent(40);
    assert_eq!(logs.progress_bar(), Some(ProgressBarState { complete: 40, out_of: 100 }));
    logs.set_progress_percent(70);
    assert_eq!(logs.progress_bar(), Some(ProgressBarState { complete: 70, out_of: 100 }));
    logs.set_progress_percent(100);
    assert_eq!(logs.progress_bar(), None);
    logs.set_progress_percent(100);
    assert_eq!(logs.progress_bar(), None);
}

#[test]
fn records_are_kept_in_order() {
    let mut logs = LogsState::new();
    logs.add_record("one".to_string());
    logs.add_record("two".to_string());
    assert_eq!(logs.record_list(), &vec!["one".to_string(), "two".to_string()]);
}

#[test]
fn keys_go_to_the_active_pane() {
    let mut tui = TuiState::new();
    assert_eq!(tui.tab_state.title_list(), &vec!["Logs".to_string(), "Players".to_string()]);
    tui.handle_input(KeyPress::Char('a'));
    assert_eq!(tui.logs_state.input_state.value(), "a");
    tui.handle_input(KeyPress::Tab);
    assert_eq!(tui.tab_state.current_idx(), 1);
    tui.handle_input(KeyPress::Char('b'));
    assert_eq!(tui.logs_state.input_state.value(), "a");
    tui.handle_input(KeyPress::Tab);
    assert_eq!(tui.tab_state.current_idx(), 0);
}

#[test]
fn log_pane_lines() {
    let mut logs = LogsState::new();
    logs.add_record("hello world".to_string());
    logs.add_record("x".to_string());
    assert_eq!(logs.visible_lines(3, 5, 0), vec!["hello", "world", "x"]);
    assert_eq!(logs.visible_lines(2, 5, 0), vec!["world", "x"]);
    assert_eq!(logs.visible_lines(1, 20, 0), vec!["x"]);
    assert!(logs.visible_lines(0, 20, 0).is_empty());
    logs.set_progress_percent(40);
    assert_eq!(
        logs.visible_lines(3, 5, 4),
        vec!["world".to_string(), "x".to_string(), "[====      ] 40%".to_string()]
    );
    assert_eq!(logs.visible_lines(1, 5, 4), vec!["[====      ] 40%".to_string()]);
}

#[test]
fn choosing_log_lines() {
    let parts = vec![
        vec!["a1".to_string(), "a2".to_string()],
        vec![],
        vec!["b1".to_string()],
    ];
    assert_eq!(choose_log_lines(&parts, None, 5), vec!["a1", "a2", "b1"]);
    assert_eq!(choose_log_lines(&parts, None, 2), vec!["a2", "b1"]);
    assert_eq!(
        choose_log_lines(&parts, Some("bar".to_string()), 1),
        vec!["b1".to_string(), "bar".to_string()]
    );
    assert_eq!(choose_log_lines(&parts, Some("bar".to_string()), 0), vec!["bar".to_string()]);
    assert!(choose_log_lines(&vec![], None, 3).is_empty());
}
