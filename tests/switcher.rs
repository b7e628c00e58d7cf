use aerospace_switcher::switcher::{AerospaceWindowSwitcher, FrameAction, KeyInput, LOAD_TIMEOUT_NANOS};
use aerospace_switcher::window::parse_window_list;

fn loaded(query: &str) -> AerospaceWindowSwitcher {
    let mut s = AerospaceWindowSwitcher::new(0);
    let ws = parse_window_list("1|Terminal|~/proj\n2|Browser|github.com\n3|Editor|main.rs");
    s.poll_loading(Some(ws), 10);
    s.set_search_query(query.to_string());
    s
}

#[test]
fn new_switcher_is_loading() {
    let s = AerospaceWindowSwitcher::new(5);
    assert!(s.is_loading);
    assert!(s.windows.is_empty());
    assert!(s.filtered_windows.is_empty());
    assert_eq!(s.selected_index, None);
    assert_eq!(s.window_to_focus, None);
}

#[test]
fn timeout_is_strictly_after_two_seconds() {
    let s = AerospaceWindowSwitcher::new(1_000);
    assert!(!s.is_loading_timed_out(1_000));
    assert!(!s.is_loading_timed_out(1_000 + LOAD_TIMEOUT_NANOS));
    assert!(s.is_loading_timed_out(1_001 + LOAD_TIMEOUT_NANOS));
    assert!(!s.is_loading_timed_out(0));
}

#[test]
fn loading_times_out_with_empty_list() {
    let mut s = AerospaceWindowSwitcher::new(0);
    s.poll_loading(None, 1_000_000_000);
    assert!(s.is_loading);
    s.poll_loading(None, 2_000_000_001);
    assert!(!s.is_loading);
    assert!(s.windows.is_empty());
    assert!(s.filtered_windows.is_empty());
    assert_eq!(s.selected_index, Some(0));
}

#[test]
fn fetched_list_ends_loading() {
    let s = loaded("");
    assert!(!s.is_loading);
    assert_eq!(s.windows.len(), 3);
    assert_eq!(s.filtered_windows, vec![0, 1, 2]);
    assert_eq!(s.selected_index, Some(0));
}

#[test]
fn poll_after_loading_changes_nothing() {
    let mut s = loaded("");
    s.poll_loading(Some(Vec::new()), 10_000_000_000);
    assert_eq!(s.windows.len(), 3);
}

#[test]
fn query_change_reranks_and_resets_selection() {
    let mut s = loaded("");
    s.select_next();
    assert_eq!(s.selected_index, Some(1));
    s.set_search_query("term".to_string());
    assert_eq!(s.filtered_windows, vec![0]);
    assert_eq!(s.selected_index, Some(0));
}

#[test]
fn same_query_keeps_selection() {
    let mut s = loaded("");
    s.select_next();
    s.set_search_query(String::new());
    assert_eq!(s.selected_index, Some(1));
}

#[test]
fn next_wraps_after_len_steps() {
    let mut s = loaded("");
    for start in 0..3usize {
        s.selected_index = Some(start);
        for _ in 0..3 {
            s.select_next();
        }
        assert_eq!(s.selected_index, Some(start));
    }
    s.selected_index = Some(2);
    s.select_next();
    assert_eq!(s.selected_index, Some(0));
}

#[test]
fn previous_wraps_after_len_steps() {
    let mut s = loaded("");
    for start in 0..3usize {
        s.selected_index = Some(start);
        for _ in 0..3 {
            s.select_previous();
        }
        assert_eq!(s.selected_index, Some(start));
    }
    s.selected_index = Some(0);
    s.select_previous();
    assert_eq!(s.selected_index, Some(2));
}

#[test]
fn navigation_without_selection() {
    let mut s = loaded("");
    s.selected_index = None;
    s.select_next();
    assert_eq!(s.selected_index, Some(1));
    s.selected_index = None;
    s.select_previous();
    assert_eq!(s.selected_index, Some(0));
}

#[test]
fn navigation_on_empty_list_does_nothing() {
    let mut s = loaded("zzzz");
    assert!(s.filtered_windows.is_empty());
    s.select_next();
    s.select_previous();
    assert_eq!(s.selected_index, Some(0));
    assert!(!s.focus_selected_window());
    assert_eq!(s.handle_key(KeyInput::Commit), FrameAction::Stay);
    assert_eq!(s.window_to_focus, None);
}

#[test]
fn commit_focuses_selected_record() {
    let mut s = loaded("");
    s.filtered_windows = vec![2];
    s.selected_index = Some(0);
    assert_eq!(s.handle_key(KeyInput::Commit), FrameAction::FocusAndClose("3".to_string()));
    assert_eq!(s.window_to_focus, None);
}

#[test]
fn focus_selected_window_records_id() {
    let mut s = loaded("");
    s.selected_index = Some(1);
    assert!(s.focus_selected_window());
    assert_eq!(s.window_to_focus, Some("2".to_string()));
    assert_eq!(s.take_window_to_focus(), Some("2".to_string()));
    assert_eq!(s.window_to_focus, None);
}

#[test]
fn cancel_closes_without_focus() {
    let mut s = loaded("");
    assert_eq!(s.handle_key(KeyInput::Cancel), FrameAction::Close);
    assert_eq!(s.window_to_focus, None);
    let mut waiting = AerospaceWindowSwitcher::new(0);
    assert_eq!(waiting.handle_key(KeyInput::Cancel), FrameAction::Close);
}

#[test]
fn keys_move_selection() {
    let mut s = loaded("");
    assert_eq!(s.handle_key(KeyInput::Next), FrameAction::Stay);
    assert_eq!(s.selected_index, Some(1));
    assert_eq!(s.handle_key(KeyInput::Previous), FrameAction::Stay);
    assert_eq!(s.handle_key(KeyInput::Previous), FrameAction::Stay);
    assert_eq!(s.selected_index, Some(2));
}

#[test]
fn click_commits_that_row() {
    let mut s = loaded("");
    assert_eq!(s.click_row(1), FrameAction::FocusAndClose("2".to_string()));
    assert_eq!(s.selected_index, Some(1));
    assert_eq!(s.click_row(7), FrameAction::Stay);
}

#[test]
fn commit_before_loading_does_nothing() {
    let mut s = AerospaceWindowSwitcher::new(0);
    assert_eq!(s.handle_key(KeyInput::Commit), FrameAction::Stay);
}
