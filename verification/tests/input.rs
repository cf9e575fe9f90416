use log_lens::app::{App, InputMode, PopupState};
use log_lens::input::{handle_events, normal_command, Command, KeyCode, KeyEvent};

fn key(code: KeyCode) -> KeyEvent {
    KeyEvent { code, ctrl: false }
}

fn ch(c: char) -> KeyEvent {
    key(KeyCode::Char(c))
}

fn ctrl(c: char) -> KeyEvent {
    KeyEvent { code: KeyCode::Char(c), ctrl: true }
}

fn app_with(lines: &[&str]) -> App {
    let mut app = App::new(100, vec!["stdin".to_string()], true);
    for l in lines {
        app.add_line(l.to_string(), 0);
    }
    app.refilter();
    app
}

fn type_text(app: &mut App, text: &str) {
    for c in text.chars() {
        handle_events(app, ch(c));
    }
}

#[test]
fn key_map() {
    assert_eq!(normal_command(ch('q')), Command::Quit);
    assert_eq!(normal_command(key(KeyCode::Esc)), Command::Quit);
    assert_eq!(normal_command(ctrl('c')), Command::Quit);
    assert_eq!(normal_command(ch('c')), Command::Ignore);
    assert_eq!(normal_command(ch('k')), Command::LineUp);
    assert_eq!(normal_command(key(KeyCode::Down)), Command::LineDown);
    assert_eq!(normal_command(key(KeyCode::PageUp)), Command::PageUp);
    assert_eq!(normal_command(key(KeyCode::PageDown)), Command::PageDown);
    assert_eq!(normal_command(ch('g')), Command::Top);
    assert_eq!(normal_command(key(KeyCode::End)), Command::Bottom);
    assert_eq!(normal_command(ch('f')), Command::ToggleFollow);
    assert_eq!(normal_command(ctrl('f')), Command::StartSearch);
    assert_eq!(normal_command(ch('w')), Command::ToggleWrap);
    assert_eq!(normal_command(ch('/')), Command::StartFilter);
    assert_eq!(normal_command(ch('!')), Command::StartInverseFilter);
    assert_eq!(normal_command(ch('d')), Command::PopFilter);
    assert_eq!(normal_command(ch('n')), Command::NextMatch);
    assert_eq!(normal_command(ch('N')), Command::PrevMatch);
    assert_eq!(normal_command(ch('b')), Command::ToggleBookmark);
    assert_eq!(normal_command(ch('B')), Command::OpenBookmarks);
    assert_eq!(normal_command(ch('y')), Command::CopyLine);
    assert_eq!(normal_command(ctrl('k')), Command::LineUp);
    assert_eq!(normal_command(key(KeyCode::Other)), Command::Ignore);
}

#[test]
fn quit_keys() {
    let mut app = app_with(&[]);
    handle_events(&mut app, ch('q'));
    assert!(app.should_quit);
}

#[test]
fn typing_a_filter() {
    let mut app = app_with(&["keep me", "drop me"]);
    handle_events(&mut app, ch('/'));
    assert_eq!(app.input_mode, InputMode::FilterInput);
    type_text(&mut app, "keepx");
    handle_events(&mut app, key(KeyCode::Backspace));
    assert_eq!(app.input_buffer, "keep");
    handle_events(&mut app, key(KeyCode::Enter));
    assert_eq!(app.input_mode, InputMode::Normal);
    assert!(app.input_buffer.is_empty());
    assert_eq!(app.filters.len(), 1);
    assert!(!app.filters[0].inverse);
    app.after_input();
    assert_eq!(app.filtered_indices, vec![0]);
    handle_events(&mut app, ch('d'));
    app.after_input();
    assert_eq!(app.filtered_indices, vec![0, 1]);
}

#[test]
fn inverse_filter_and_cancel() {
    let mut app = app_with(&["a"]);
    handle_events(&mut app, ch('!'));
    assert_eq!(app.input_mode, InputMode::InverseFilterInput);
    type_text(&mut app, "a");
    handle_events(&mut app, key(KeyCode::Enter));
    assert!(app.filters[0].inverse);
    handle_events(&mut app, ch('/'));
    type_text(&mut app, "zz");
    handle_events(&mut app, key(KeyCode::Esc));
    assert_eq!(app.input_mode, InputMode::Normal);
    assert_eq!(app.filters.len(), 1);
}

#[test]
fn bad_or_empty_filter_is_dropped() {
    let mut app = app_with(&["a"]);
    handle_events(&mut app, ch('/'));
    handle_events(&mut app, key(KeyCode::Enter));
    assert!(app.filters.is_empty());
    handle_events(&mut app, ch('/'));
    type_text(&mut app, "(");
    handle_events(&mut app, key(KeyCode::Enter));
    assert!(app.filters.is_empty());
    assert_eq!(app.input_mode, InputMode::Normal);
}

#[test]
fn typing_a_search() {
    let mut app = app_with(&["a", "needle", "b"]);
    handle_events(&mut app, ctrl('f'));
    assert_eq!(app.input_mode, InputMode::SearchInput);
    type_text(&mut app, "needle");
    let copy = handle_events(&mut app, key(KeyCode::Enter));
    assert!(copy.is_none());
    assert_eq!(app.search.pattern, "needle");
    assert_eq!(app.scroll_offset, 1);
    handle_events(&mut app, ch('n'));
    assert_eq!(app.search.current_match, Some(0));
    handle_events(&mut app, ch('N'));
    assert_eq!(app.search.current_match, Some(0));
}

#[test]
fn scroll_and_follow_keys() {
    let mut app = app_with(&["1", "2", "3", "4", "5"]);
    app.viewport_height = 2;
    handle_events(&mut app, ch('j'));
    handle_events(&mut app, ch('j'));
    assert_eq!(app.scroll_offset, 2);
    handle_events(&mut app, key(KeyCode::Up));
    assert_eq!(app.scroll_offset, 1);
    assert!(!app.auto_scroll);
    handle_events(&mut app, key(KeyCode::PageDown));
    assert_eq!(app.scroll_offset, 3);
    handle_events(&mut app, ch('G'));
    assert!(app.auto_scroll);
    assert_eq!(app.scroll_offset, 3);
    handle_events(&mut app, ch('g'));
    assert_eq!(app.scroll_offset, 0);
    assert!(!app.auto_scroll);
    handle_events(&mut app, ch('f'));
    assert!(app.auto_scroll);
    assert_eq!(app.scroll_offset, 3);
    handle_events(&mut app, ch('f'));
    assert!(!app.auto_scroll);
    handle_events(&mut app, ch('w'));
    assert!(app.line_wrap);
}

#[test]
fn copy_current_line() {
    let mut app = app_with(&["first", "second"]);
    app.scroll_offset = 1;
    assert_eq!(handle_events(&mut app, ch('y')), Some("second".to_string()));
    let mut empty = app_with(&[]);
    assert_eq!(handle_events(&mut empty, ch('y')), None);
}

#[test]
fn bookmark_popup() {
    let mut app = app_with(&["a", "b", "c"]);
    handle_events(&mut app, ch('B'));
    assert_eq!(app.popup, PopupState::Closed);
    handle_events(&mut app, ch('b'));
    app.scroll_offset = 2;
    handle_events(&mut app, ch('b'));
    assert_eq!(app.bookmarks, vec![0, 2]);
    handle_events(&mut app, ch('B'));
    assert_eq!(app.popup, PopupState::BookmarkList);
    assert_eq!(app.bookmark_scroll, 0);
    handle_events(&mut app, ch('j'));
    handle_events(&mut app, ch('j'));
    assert_eq!(app.bookmark_scroll, 1);
    handle_events(&mut app, ch('k'));
    handle_events(&mut app, ch('k'));
    assert_eq!(app.bookmark_scroll, 0);
    handle_events(&mut app, key(KeyCode::Down));
    handle_events(&mut app, key(KeyCode::Enter));
    assert_eq!(app.popup, PopupState::Closed);
    assert_eq!(app.scroll_offset, 2);
    handle_events(&mut app, ch('B'));
    handle_events(&mut app, ch('j'));
    handle_events(&mut app, ch('d'));
    assert_eq!(app.bookmarks, vec![0]);
    assert_eq!(app.bookmark_scroll, 0);
    assert_eq!(app.popup, PopupState::BookmarkList);
    // While the list is open, normal keys do not apply.
    handle_events(&mut app, ch('y'));
    assert!(!app.should_quit);
    handle_events(&mut app, ch('d'));
    assert!(app.bookmarks.is_empty());
    assert_eq!(app.popup, PopupState::Closed);
}

#[test]
fn popup_closes_with_q_without_quitting() {
    let mut app = app_with(&["a"]);
    handle_events(&mut app, ch('b'));
    handle_events(&mut app, ch('B'));
    handle_events(&mut app, ch('q'));
    assert_eq!(app.popup, PopupState::Closed);
    assert!(!app.should_quit);
}

#[test]
fn popup_enter_on_filtered_out_line_only_closes() {
    let mut app = app_with(&["a", "b"]);
    app.scroll_offset = 1;
    handle_events(&mut app, ch('b'));
    app.add_filter("a".to_string(), false).unwrap();
    app.after_input();
    app.scroll_offset = 0;
    handle_events(&mut app, ch('B'));
    handle_events(&mut app, key(KeyCode::Enter));
    assert_eq!(app.popup, PopupState::Closed);
    assert_eq!(app.scroll_offset, 0);
}
