use aerospace_switcher::ranking::{combine_scores, rank_by_score, rank_windows, score_window};
use aerospace_switcher::window::{parse_window_list, WindowInfo};

fn sample() -> Vec<WindowInfo> {
    parse_window_list("1|Terminal|~/proj\n2|Browser|github.com\nbad-line\n  \n3|Editor|main.rs")
}

fn record(name: &str, info: &str) -> WindowInfo {
    WindowInfo { id: "0".to_string(), name: name.to_string(), info: info.to_string() }
}

#[test]
fn empty_query_keeps_listing_order() {
    assert_eq!(rank_windows(&sample(), ""), vec![0, 1, 2]);
    assert_eq!(rank_windows(&Vec::new(), ""), Vec::<usize>::new());
}

#[test]
fn query_term_ranks_terminal_alone() {
    assert_eq!(rank_windows(&sample(), "term"), vec![0]);
}

#[test]
fn query_matches_info_field() {
    assert_eq!(rank_windows(&sample(), "github"), vec![1]);
    assert_eq!(rank_windows(&sample(), "main.rs"), vec![2]);
}

#[test]
fn query_without_match_ranks_nothing() {
    assert_eq!(rank_windows(&sample(), "zzzz"), Vec::<usize>::new());
    assert_eq!(rank_windows(&Vec::new(), "a"), Vec::<usize>::new());
}

#[test]
fn matching_is_case_insensitive_for_lowercase_query() {
    assert_eq!(rank_windows(&sample(), "edit"), vec![2]);
}

#[test]
fn ranking_twice_gives_same_order() {
    let ws = vec![record("abc", "x"), record("a_b_c", "y"), record("cab", "abc"), record("q", "r")];
    let first = rank_windows(&ws, "abc");
    let second = rank_windows(&ws, "abc");
    assert_eq!(first, second);
    assert!(!first.contains(&3));
}

#[test]
fn every_ranked_window_matches() {
    let ws = vec![record("Terminal", "~"), record("Slack", "chat"), record("Term2", "tmux")];
    let r = rank_windows(&ws, "term");
    assert_eq!(r.len(), 2);
    for &i in &r {
        assert!(score_window(&ws[i], "term").is_some());
    }
    assert!(score_window(&ws[1], "term").is_none());
}

#[test]
fn score_window_uses_matcher() {
    let w = record("Terminal", "~/proj");
    assert!(score_window(&w, "term").unwrap() > 0);
    assert_eq!(score_window(&w, "xyz"), None);
    assert_eq!(score_window(&w, ""), Some(0));
}

#[test]
fn better_field_score_wins() {
    let w = record("xtxexrxm", "term");
    let both = score_window(&w, "term").unwrap();
    let info_only = score_window(&record("nothing", "term"), "term").unwrap();
    assert_eq!(both, info_only);
}

#[test]
fn combine_scores_takes_the_better() {
    assert_eq!(combine_scores(Some(3), Some(8)), Some(8));
    assert_eq!(combine_scores(Some(8), Some(3)), Some(8));
    assert_eq!(combine_scores(Some(-2), None), Some(-2));
    assert_eq!(combine_scores(None, Some(4)), Some(4));
    assert_eq!(combine_scores(None, None), None);
}

#[test]
fn rank_by_score_orders_descending_with_stable_ties() {
    let scores = vec![Some(5), None, Some(9), Some(5), Some(-1), Some(9)];
    assert_eq!(rank_by_score(&scores), vec![2, 5, 0, 3, 4]);
}

#[test]
fn rank_by_score_of_nothing() {
    assert_eq!(rank_by_score(&Vec::new()), Vec::<usize>::new());
    assert_eq!(rank_by_score(&vec![None, None]), Vec::<usize>::new());
}

#[test]
fn contiguous_match_ranks_above_scattered() {
    let ws = vec![record("a_x_b_x_c", ""), record("abc", "")];
    assert_eq!(rank_windows(&ws, "abc"), vec![1, 0]);
}
