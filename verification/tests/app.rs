use log_lens::app::{App, InputMode, PopupState, SearchState};
use log_lens::source::SourceMsg;
use std::collections::VecDeque;

fn app_with(lines: &[&str], buffer: usize) -> App {
    let mut app = App::new(buffer, vec!["stdin".to_string()], true);
    for l in lines {
        app.add_line(l.to_string(), 0);
    }
    app.refilter();
    app
}

#[test]
fn new_app_defaults() {
    let app = App::new(100, vec!["a".to_string(), "b".to_string()], false);
    assert_eq!(app.total_count(), 0);
    assert_eq!(app.filtered_count(), 0);
    assert_eq!(app.buffer_size, 100);
    assert!(app.auto_scroll);
    assert!(!app.line_wrap);
    assert_eq!(app.viewport_height, 24);
    assert_eq!(app.input_mode, InputMode::Normal);
    assert_eq!(app.popup, PopupState::Closed);
    assert!(app.needs_refilter);
    assert!(!app._follow_mode);
    assert!(!app.should_quit);
}

#[test]
fn search_state_new_and_clear() {
    let mut s = SearchState::new();
    assert!(!s.is_active());
    s.pattern = "x".to_string();
    s.current_match = Some(0);
    s.match_indices = vec![1];
    assert!(s.is_active());
    s.clear();
    assert!(s.pattern.is_empty());
    assert_eq!(s.current_match, None);
    assert!(s.match_indices.is_empty());
}

#[test]
fn ring_buffer_drops_oldest() {
    let mut app = app_with(&["a", "b", "c"], 3);
    assert!(!app.needs_refilter);
    app.add_line("d".to_string(), 0);
    assert_eq!(app.total_count(), 3);
    assert_eq!(app.lines[0].content, "b");
    assert_eq!(app.lines[2].content, "d");
    assert!(app.needs_refilter);
    app.refilter();
    assert_eq!(app.filtered_indices, vec![0, 1, 2]);
}

#[test]
fn zero_buffer_keeps_one_line() {
    let mut app = App::new(0, vec![], true);
    app.add_line("x".to_string(), 0);
    app.add_line("y".to_string(), 0);
    assert_eq!(app.total_count(), 1);
    assert_eq!(app.lines[0].content, "y");
}

#[test]
fn fast_path_appends_passing_lines() {
    let mut app = app_with(&["keep 1", "drop 2"], 10);
    app.add_filter("keep".to_string(), false).unwrap();
    app.refilter();
    assert_eq!(app.filtered_indices, vec![0]);
    app.add_line("keep 3".to_string(), 0);
    app.add_line("drop 4".to_string(), 0);
    assert!(!app.needs_refilter);
    assert_eq!(app.filtered_indices, vec![0, 2]);
    let fast = app.filtered_indices.clone();
    app.refilter();
    assert_eq!(app.filtered_indices, fast);
}

#[test]
fn inverse_filter_hides_matches() {
    let mut app = app_with(&["alpha", "beta", "gamma"], 10);
    app.add_filter("a$".to_string(), true).unwrap();
    app.refilter();
    assert!(app.filtered_indices.is_empty());
    app.pop_filter();
    assert!(app.needs_refilter);
    app.refilter();
    assert_eq!(app.filtered_indices, vec![0, 1, 2]);
    app.add_filter("^b".to_string(), true).unwrap();
    app.refilter();
    assert_eq!(app.filtered_indices, vec![0, 2]);
}

#[test]
fn stacked_filters_all_apply() {
    let mut app = app_with(&["err db", "err net", "ok db"], 10);
    app.add_filter("err".to_string(), false).unwrap();
    app.add_filter("net".to_string(), true).unwrap();
    app.refilter();
    assert_eq!(app.filtered_indices, vec![0]);
}

#[test]
fn add_filter_rejects_bad_pattern() {
    let mut app = app_with(&["x"], 10);
    let err = app.add_filter("foo(bar".to_string(), false).unwrap_err();
    assert!(!err.is_empty());
    assert!(app.filters.is_empty());
    assert!(!app.needs_refilter);
}

#[test]
fn pop_filter_on_empty_is_noop() {
    let mut app = app_with(&["x"], 10);
    app.pop_filter();
    assert!(!app.needs_refilter);
}

#[test]
fn set_search_jumps_to_first_match_at_or_after_scroll() {
    let mut app = app_with(&["a", "hit", "b", "hit", "c"], 10);
    app.scroll_offset = 2;
    app.set_search("hit").unwrap();
    assert_eq!(app.search.match_indices, vec![1, 3]);
    assert_eq!(app.search.current_match, Some(1));
    assert_eq!(app.scroll_offset, 3);
    assert!(!app.auto_scroll);
}

#[test]
fn set_search_wraps_to_first_match() {
    let mut app = app_with(&["hit", "a", "b"], 10);
    app.scroll_offset = 2;
    app.set_search("hit").unwrap();
    assert_eq!(app.search.current_match, Some(0));
    assert_eq!(app.scroll_offset, 0);
}

#[test]
fn set_search_empty_and_invalid() {
    let mut app = app_with(&["hit"], 10);
    app.set_search("hit").unwrap();
    assert!(app.search.is_active());
    assert!(app.set_search("(").is_err());
    assert_eq!(app.search.pattern, "hit");
    app.set_search("").unwrap();
    assert!(!app.search.is_active());
    assert!(app.search.match_indices.is_empty());
}

#[test]
fn set_search_without_matches_keeps_scroll() {
    let mut app = app_with(&["a", "b"], 10);
    app.scroll_offset = 1;
    app.set_search("zzz").unwrap();
    assert!(app.search.match_indices.is_empty());
    assert_eq!(app.search.current_match, None);
    assert_eq!(app.scroll_offset, 1);
    assert!(app.auto_scroll);
}

#[test]
fn search_next_and_prev_wrap() {
    let mut app = app_with(&["x1", "y", "x2", "x3"], 10);
    app.set_search("x").unwrap();
    assert_eq!(app.search.current_match, Some(0));
    app.search_next();
    assert_eq!(app.search.current_match, Some(1));
    assert_eq!(app.scroll_offset, 2);
    app.search_next();
    app.search_next();
    assert_eq!(app.search.current_match, Some(0));
    assert_eq!(app.scroll_offset, 0);
    app.search_prev();
    assert_eq!(app.search.current_match, Some(2));
    assert_eq!(app.scroll_offset, 3);
    app.search_next();
    assert_eq!(app.search.current_match, Some(0));
}

#[test]
fn search_prev_without_selection_goes_to_last() {
    let mut app = app_with(&["x", "x"], 10);
    app.set_search("x").unwrap();
    app.search.current_match = None;
    app.search_prev();
    assert_eq!(app.search.current_match, Some(1));
    let mut empty = app_with(&["a"], 10);
    empty.search_next();
    assert_eq!(empty.search.current_match, None);
}

#[test]
fn refilter_clamps_selected_match() {
    let mut app = app_with(&["x", "x", "x"], 10);
    app.set_search("x").unwrap();
    app.search.current_match = Some(2);
    app.add_filter("nothing".to_string(), false).unwrap();
    app.refilter();
    assert!(app.search.match_indices.is_empty());
    assert_eq!(app.search.current_match, None);
}

#[test]
fn toggle_bookmark_twice_restores() {
    let mut app = app_with(&["a", "b", "c", "d"], 10);
    app.scroll_offset = 2;
    app.toggle_bookmark();
    app.scroll_offset = 0;
    app.toggle_bookmark();
    assert_eq!(app.bookmarks, vec![0, 2]);
    app.scroll_offset = 100;
    app.toggle_bookmark();
    assert_eq!(app.bookmarks, vec![0, 2, 3]);
    app.toggle_bookmark();
    assert_eq!(app.bookmarks, vec![0, 2]);
    let mut empty = App::new(5, vec![], true);
    empty.toggle_bookmark();
    assert!(empty.bookmarks.is_empty());
}

#[test]
fn current_line_content_follows_cursor() {
    let mut app = app_with(&["one", "two"], 10);
    assert_eq!(app.current_line_content(), Some("one"));
    app.scroll_offset = 9;
    assert_eq!(app.current_line_content(), Some("two"));
    let empty = App::new(5, vec![], true);
    assert_eq!(empty.current_line_content(), None);
}

#[test]
fn scrolling_limits() {
    let mut app = app_with(&["1", "2", "3", "4", "5"], 10);
    app.scroll_down(3);
    assert_eq!(app.scroll_offset, 3);
    app.scroll_down(10);
    assert_eq!(app.scroll_offset, 4);
    app.scroll_down(usize::MAX);
    assert_eq!(app.scroll_offset, 4);
    app.scroll_up(2);
    assert_eq!(app.scroll_offset, 2);
    assert!(!app.auto_scroll);
    app.scroll_up(10);
    assert_eq!(app.scroll_offset, 0);
}

#[test]
fn bottom_and_auto_scroll() {
    let mut app = app_with(&["1", "2", "3", "4", "5"], 10);
    app.viewport_height = 2;
    app.auto_scroll = false;
    app.scroll_to_bottom();
    assert!(app.auto_scroll);
    assert_eq!(app.scroll_offset, 3);
    app.scroll_offset = 0;
    app.maybe_auto_scroll();
    assert_eq!(app.scroll_offset, 3);
    app.viewport_height = 10;
    app.maybe_auto_scroll();
    assert_eq!(app.scroll_offset, 0);
    app.auto_scroll = false;
    app.scroll_offset = 1;
    app.maybe_auto_scroll();
    assert_eq!(app.scroll_offset, 1);
}

#[test]
fn sync_view_resumes_search_like_a_rebuild() {
    let mut app = app_with(&["x", "y"], 10);
    app.set_search("x").unwrap();
    app.sync_view(false);
    app.add_line("y".to_string(), 0);
    app.add_line("x again".to_string(), 0);
    app.sync_view(true);
    let incremental = app.search.match_indices.clone();
    assert_eq!(incremental, vec![0, 3]);
    app.refilter();
    assert_eq!(app.search.match_indices, incremental);
}

#[test]
fn sync_view_refilters_when_stale() {
    let mut app = App::new(10, vec![], true);
    app.add_line("a".to_string(), 0);
    assert!(app.needs_refilter);
    app.sync_view(false);
    assert!(!app.needs_refilter);
    assert_eq!(app.filtered_indices, vec![0]);
    app.add_filter("b".to_string(), false).unwrap();
    app.after_input();
    assert!(app.filtered_indices.is_empty());
}

#[test]
fn bookmarks_follow_lines_when_oldest_is_evicted() {
    let mut app = app_with(&["a", "b", "c"], 3);
    app.bookmarks = vec![0, 2];
    app.add_line("d".to_string(), 0);
    // "a" left the buffer with its bookmark; "c" is now at index 1.
    assert_eq!(app.bookmarks, vec![1]);
    assert_eq!(app.lines[1].content, "c");
    app.bookmarks = vec![1, 2];
    app.add_line("e".to_string(), 0);
    assert_eq!(app.bookmarks, vec![0, 1]);
    assert_eq!(app.lines[0].content, "c");
    assert_eq!(app.lines[1].content, "d");
}

#[test]
fn bookmarks_stay_while_buffer_has_room() {
    let mut app = app_with(&["a", "b"], 5);
    app.bookmarks = vec![0, 1];
    app.add_line("c".to_string(), 0);
    assert_eq!(app.bookmarks, vec![0, 1]);
}

#[test]
fn many_messages_then_resumed_search_match_a_rebuild() {
    let mut app = app_with(&["x 1", "y 2"], 20);
    app.add_filter("x|z".to_string(), false).unwrap();
    app.set_search("x").unwrap();
    app.after_input();
    let msgs = vec![
        SourceMsg::Line { content: "z 3".to_string(), source_idx: 0 },
        SourceMsg::Line { content: "x 4".to_string(), source_idx: 0 },
        SourceMsg::Eof { source_idx: 1 },
        SourceMsg::Error { msg: "x broke".to_string(), source_idx: 1 },
        SourceMsg::Line { content: "y 5".to_string(), source_idx: 0 },
        SourceMsg::Line { content: "zx 6".to_string(), source_idx: 0 },
    ];
    let mut got_new = false;
    for m in msgs {
        got_new |= app.ingest(m);
    }
    assert!(!app.needs_refilter);
    app.sync_view(got_new);
    let view = app.filtered_indices.clone();
    let hits = app.search.match_indices.clone();
    assert_eq!(view, vec![0, 2, 3, 4, 6]);
    assert_eq!(hits, vec![0, 2, 3, 4]);
    app.refilter();
    assert_eq!(app.filtered_indices, view);
    assert_eq!(app.search.match_indices, hits);
}

#[test]
fn take_in_brings_view_and_hits_up_to_date() {
    let mut app = app_with(&["x 1", "y 2"], 20);
    app.add_filter("x|z".to_string(), false).unwrap();
    app.set_search("x").unwrap();
    app.after_input();
    let msgs: VecDeque<SourceMsg> = VecDeque::from(vec![
        SourceMsg::Line { content: "z 3".to_string(), source_idx: 0 },
        SourceMsg::Eof { source_idx: 1 },
        SourceMsg::Line { content: "x 4".to_string(), source_idx: 0 },
    ]);
    assert!(app.take_in(msgs));
    assert_eq!(app.filtered_indices, vec![0, 2, 3]);
    assert_eq!(app.search.match_indices, vec![0, 2]);
    assert!(!app.take_in(VecDeque::from(vec![SourceMsg::Eof { source_idx: 0 }])));
    assert!(!app.take_in(VecDeque::new()));
    assert_eq!(app.search.match_indices, vec![0, 2]);
    // Overflowing the buffer makes the view stale; take_in rebuilds it.
    let mut small = app_with(&["x a", "b"], 2);
    small.set_search("x").unwrap();
    assert!(small.take_in(VecDeque::from(vec![SourceMsg::Line { content: "x c".to_string(), source_idx: 0 }])));
    assert!(!small.needs_refilter);
    assert_eq!(small.filtered_indices, vec![0, 1]);
    assert_eq!(small.search.match_indices, vec![1]);
}
