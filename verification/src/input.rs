//! What each key does: the key handling of the terminal front end, as state
//! transitions of the viewer.
use vstd::prelude::*;
use crate::app::{App, InputMode, PopupState};
use crate::text::{pop_char, push_char};

verus! {

/// A key, as the front end reports it.
#[derive(PartialEq, Eq, Structural, Clone, Copy, Debug)]
pub enum KeyCode {
    Char(char),
    Up,
    Down,
    PageUp,
    PageDown,
    Home,
    End,
    Enter,
    Esc,
    Backspace,
    Other,
}

/// A key press: the key and whether Control was held.
#[derive(PartialEq, Eq, Structural, Clone, Copy, Debug)]
pub struct KeyEvent {
    pub code: KeyCode,
    pub ctrl: bool,
}

/// What a key does in normal mode.
#[derive(PartialEq, Eq, Structural, Clone, Copy, Debug)]
pub enum Command {
    Quit,
    LineUp,
    LineDown,
    PageUp,
    PageDown,
    Top,
    Bottom,
    ToggleFollow,
    ToggleWrap,
    StartFilter,
    StartInverseFilter,
    PopFilter,
    StartSearch,
    NextMatch,
    PrevMatch,
    ToggleBookmark,
    OpenBookmarks,
    CopyLine,
    Ignore,
}

/// The normal-mode key map: `q`/Esc/Ctrl-C quit; `k`/Up, `j`/Down,
/// PageUp/PageDown scroll; `g`/Home top; `G`/End bottom; `f` follow;
/// `w` wrap; `/` and `!` filters; `d` drops a filter; Ctrl-F search; `n`/`N`
/// hits; `b`/`B` bookmarks; `y` copies. The first rule that applies wins.
pub open spec fn spec_normal_command(key: KeyEvent) -> Command {
    let c = key.code;
    if c == KeyCode::Char('q') || c == KeyCode::Esc {
        Command::Quit
    } else if c == KeyCode::Char('c') && key.ctrl {
        Command::Quit
    } else if c == KeyCode::Up || c == KeyCode::Char('k') {
        Command::LineUp
    } else if c == KeyCode::Down || c == KeyCode::Char('j') {
        Command::LineDown
    } else if c == KeyCode::PageUp {
        Command::PageUp
    } else if c == KeyCode::PageDown {
        Command::PageDown
    } else if c == KeyCode::Home || c == KeyCode::Char('g') {
        Command::Top
    } else if c == KeyCode::End || c == KeyCode::Char('G') {
        Command::Bottom
    } else if c == KeyCode::Char('f') && !key.ctrl {
        Command::ToggleFollow
    } else if c == KeyCode::Char('w') {
        Command::ToggleWrap
    } else if c == KeyCode::Char('/') {
        Command::StartFilter
    } else if c == KeyCode::Char('!') {
        Command::StartInverseFilter
    } else if c == KeyCode::Char('d') {
        Command::PopFilter
    } else if c == KeyCode::Char('f') && key.ctrl {
        Command::StartSearch
    } else if c == KeyCode::Char('n') {
        Command::NextMatch
    } else if c == KeyCode::Char('N') {
        Command::PrevMatch
    } else if c == KeyCode::Char('b') {
        Command::ToggleBookmark
    } else if c == KeyCode::Char('B') {
        Command::OpenBookmarks
    } else if c == KeyCode::Char('y') {
        Command::CopyLine
    } else {
        Command::Ignore
    }
}

/// Looks a normal-mode key up in the key map.
pub fn normal_command(key: KeyEvent) -> (cmd: Command)
    ensures
        cmd == spec_normal_command(key),
{
    let c = key.code;
    if c == KeyCode::Char('q') || c == KeyCode::Esc {
        Command::Quit
    } else if c == KeyCode::Char('c') && key.ctrl {
        Command::Quit
    } else if c == KeyCode::Up || c == KeyCode::Char('k') {
        Command::LineUp
    } else if c == KeyCode::Down || c == KeyCode::Char('j') {
        Command::LineDown
    } else if c == KeyCode::PageUp {
        Command::PageUp
    } else if c == KeyCode::PageDown {
        Command::PageDown
    } else if c == KeyCode::Home || c == KeyCode::Char('g') {
        Command::Top
    } else if c == KeyCode::End || c == KeyCode::Char('G') {
        Command::Bottom
    } else if c == KeyCode::Char('f') && !key.ctrl {
        Command::ToggleFollow
    } else if c == KeyCode::Char('w') {
        Command::ToggleWrap
    } else if c == KeyCode::Char('/') {
        Command::StartFilter
    } else if c == KeyCode::Char('!') {
        Command::StartInverseFilter
    } else if c == KeyCode::Char('d') {
        Command::PopFilter
    } else if c == KeyCode::Char('f') && key.ctrl {
        Command::StartSearch
    } else if c == KeyCode::Char('n') {
        Command::NextMatch
    } else if c == KeyCode::Char('N') {
        Command::PrevMatch
    } else if c == KeyCode::Char('b') {
        Command::ToggleBookmark
    } else if c == KeyCode::Char('B') {
        Command::OpenBookmarks
    } else if c == KeyCode::Char('y') {
        Command::CopyLine
    } else {
        Command::Ignore
    }
}

/// `after` is `before` in input mode `mode` with an empty input line.
pub open spec fn input_started(before: App, after: App, mode: InputMode) -> bool {
    &&& after == (App { input_mode: mode, input_buffer: after.input_buffer, ..before })
    &&& after.input_buffer@.len() == 0
}

/// `copy` is the text of the line under the cursor, if there is one.
pub open spec fn copies_cursor_line(app: App, copy: Option<String>) -> bool {
    if app.filtered_indices@.len() == 0 {
        copy is None
    } else {
        let li = app.filtered_indices@[app.cursor()];
        &&& copy is Some <==> li < app.lines@.len()
        &&& copy matches Some(s) ==> s@ == app.lines@[li as int].content@
    }
}

/// What command `cmd` does: `after` is the new state and `copy` the text to
/// put on the clipboard.
pub open spec fn command_effect(before: App, after: App, cmd: Command, copy: Option<String>) -> bool {
    &&& cmd != Command::CopyLine ==> copy is None
    &&& match cmd {
        Command::Quit => after == (App { should_quit: true, ..before }),
        Command::LineUp => after == before.spec_scroll_up(1),
        Command::LineDown => after == before.spec_scroll_down(1),
        Command::PageUp => after == before.spec_scroll_up(before.viewport_height),
        Command::PageDown => after == before.spec_scroll_down(before.viewport_height),
        Command::Top => after == (App { scroll_offset: 0, auto_scroll: false, ..before }),
        Command::Bottom => after == before.spec_scroll_to_bottom(),
        Command::ToggleFollow => if before.auto_scroll {
            after == (App { auto_scroll: false, ..before })
        } else {
            after == (App { auto_scroll: true, ..before }).spec_scroll_to_bottom()
        },
        Command::ToggleWrap => after == (App { line_wrap: !before.line_wrap, ..before }),
        Command::StartFilter => input_started(before, after, InputMode::FilterInput),
        Command::StartInverseFilter => input_started(before, after, InputMode::InverseFilterInput),
        Command::StartSearch => input_started(before, after, InputMode::SearchInput),
        Command::PopFilter => {
            &&& after == (App { filters: after.filters, ..before.spec_pop_filter() })
            &&& before.filters@.len() > 0 ==> after.filters@ == before.filters@.drop_last()
            &&& before.filters@.len() == 0 ==> after.filters == before.filters
        },
        Command::NextMatch => after == before.spec_search_next(),
        Command::PrevMatch => after == before.spec_search_prev(),
        Command::ToggleBookmark => App::bookmark_toggled(before, after),
        Command::OpenBookmarks => if before.bookmarks@.len() > 0 {
            after == (App { popup: PopupState::BookmarkList, bookmark_scroll: 0, ..before })
        } else {
            after == before
        },
        Command::CopyLine => after == before && copies_cursor_line(before, copy),
        Command::Ignore => after == before,
    }
}

/// The first position from `i` on whose entry is `x`, if any.
pub open spec fn position_of(s: Seq<usize>, x: usize, i: int) -> Option<int>
    decreases s.len() - i,
{
    if i < 0 || i >= s.len() {
        None
    } else if s[i] == x {
        Some(i)
    } else {
        position_of(s, x, i + 1)
    }
}

/// What a key does while the bookmark list is open: Esc/`B`/`q` close it;
/// `k`/Up and `j`/Down move the selection; Enter jumps to the selected
/// bookmark's line when the view shows it, and closes the list; `d` deletes
/// the selected bookmark, closing the list when none is left.
pub open spec fn popup_key_effect(before: App, after: App, key: KeyEvent) -> bool {
    let c = key.code;
    let sel = before.bookmark_scroll;
    let n = before.bookmarks@.len();
    if c == KeyCode::Esc || c == KeyCode::Char('B') || c == KeyCode::Char('q') {
        after == (App { popup: PopupState::Closed, ..before })
    } else if c == KeyCode::Up || c == KeyCode::Char('k') {
        after == (App { bookmark_scroll: if sel > 0 { (sel - 1) as usize } else { 0 }, ..before })
    } else if c == KeyCode::Down || c == KeyCode::Char('j') {
        after == (App { bookmark_scroll: if sel + 1 < n { (sel + 1) as usize } else { sel }, ..before })
    } else if c == KeyCode::Enter {
        let target = if sel < n {
            position_of(before.filtered_indices@, before.bookmarks@[sel as int], 0)
        } else {
            None
        };
        match target {
            Some(fi) => after == (App {
                scroll_offset: fi as usize,
                auto_scroll: false,
                popup: PopupState::Closed,
                ..before
            }),
            None => after == (App { popup: PopupState::Closed, ..before }),
        }
    } else if c == KeyCode::Char('d') {
        if sel < n {
            let left = (n - 1) as nat;
            &&& after.bookmarks@ == before.bookmarks@.remove(sel as int)
            &&& after == (App {
                bookmarks: after.bookmarks,
                bookmark_scroll: if sel > 0 && sel >= left {
                    (left - 1) as usize
                } else {
                    sel
                },
                popup: if left == 0 {
                    PopupState::Closed
                } else {
                    before.popup
                },
                ..before
            })
        } else {
            after == before
        }
    } else {
        after == before
    }
}

/// What a key does while a filter or search pattern is typed: Esc cancels,
/// Backspace deletes the last character, a character is appended; Enter is
/// handled by the caller.
pub open spec fn line_edit_effect(before: App, after: App, key: KeyEvent) -> bool {
    match key.code {
        KeyCode::Esc => after == (App { input_mode: InputMode::Normal, input_buffer: after.input_buffer, ..before })
            && after.input_buffer@.len() == 0,
        KeyCode::Backspace => after == (App { input_buffer: after.input_buffer, ..before }) && (if before.input_buffer@.len()
            > 0 {
            after.input_buffer@ == before.input_buffer@.drop_last()
        } else {
            after.input_buffer@ == before.input_buffer@
        }),
        KeyCode::Char(ch) => after == (App { input_buffer: after.input_buffer, ..before })
            && after.input_buffer@ == before.input_buffer@.push(ch),
        _ => after == before,
    }
}

/// `after` left input mode with an empty input line; apart from that it is
/// `mid`.
pub open spec fn input_finished(mid: App, after: App) -> bool {
    &&& after == (App { input_mode: InputMode::Normal, input_buffer: after.input_buffer, ..mid })
    &&& after.input_buffer@.len() == 0
}

/// What a key does in normal mode: the bookmark list takes it when open,
/// else the key map's command.
pub open spec fn normal_key_effect(before: App, after: App, key: KeyEvent, copy: Option<String>) -> bool {
    &&& before.popup == PopupState::BookmarkList ==> copy is None && popup_key_effect(before, after, key)
    &&& before.popup == PopupState::Closed ==> command_effect(before, after, spec_normal_command(key), copy)
}

/// What a key does while a filter pattern is typed.
pub open spec fn filter_key_effect(before: App, after: App, key: KeyEvent, inverse: bool) -> bool {
    if key.code == KeyCode::Enter {
        let mid = App { input_mode: before.input_mode, input_buffer: before.input_buffer, ..after };
        &&& input_finished(mid, after)
        &&& before.input_buffer@.len() == 0 ==> mid == before
        &&& before.input_buffer@.len() > 0 ==> App::filter_added(before, mid, before.input_buffer, inverse)
    } else {
        line_edit_effect(before, after, key)
    }
}

/// What a key does while a search pattern is typed.
pub open spec fn search_key_effect(before: App, after: App, key: KeyEvent) -> bool {
    if key.code == KeyCode::Enter {
        let mid = App { input_mode: before.input_mode, input_buffer: before.input_buffer, ..after };
        &&& input_finished(mid, after)
        &&& App::search_set(before, mid, before.input_buffer@)
    } else {
        line_edit_effect(before, after, key)
    }
}

/// Handles a key in normal mode (or in the bookmark list when it is open).
/// Returns the text to copy to the clipboard, if the key asks for it.
pub fn handle_normal_key(app: &mut App, key: KeyEvent) -> (copy: Option<String>)
    requires
        old(app).wf(),
    ensures
        final(app).wf(),
        normal_key_effect(*old(app), *final(app), key, copy),
{
    if app.popup == PopupState::BookmarkList {
        handle_bookmark_popup_key(app, key);
        return None;
    }
    match normal_command(key) {
        Command::Quit => {
            app.should_quit = true;
        },
        Command::LineUp => app.scroll_up(1),
        Command::LineDown => app.scroll_down(1),
        Command::PageUp => {
            let h = app.viewport_height;
            app.scroll_up(h);
        },
        Command::PageDown => {
            let h = app.viewport_height;
            app.scroll_down(h);
        },
        Command::Top => {
            app.scroll_offset = 0;
            app.auto_scroll = false;
        },
        Command::Bottom => app.scroll_to_bottom(),
        Command::ToggleFollow => {
            app.auto_scroll = !app.auto_scroll;
            if app.auto_scroll {
                app.scroll_to_bottom();
            }
        },
        Command::ToggleWrap => {
            app.line_wrap = !app.line_wrap;
        },
        Command::StartFilter => {
            app.input_mode = InputMode::FilterInput;
            app.input_buffer = String::new();
        },
        Command::StartInverseFilter => {
            app.input_mode = InputMode::InverseFilterInput;
            app.input_buffer = String::new();
        },
        Command::PopFilter => app.pop_filter(),
        Command::StartSearch => {
            app.input_mode = InputMode::SearchInput;
            app.input_buffer = String::new();
        },
        Command::NextMatch => app.search_next(),
        Command::PrevMatch => app.search_prev(),
        Command::ToggleBookmark => app.toggle_bookmark(),
        Command::OpenBookmarks => {
            if app.bookmarks.len() > 0 {
                app.popup = PopupState::BookmarkList;
                app.bookmark_scroll = 0;
            }
        },
        Command::CopyLine => {
            return match app.current_line_content() {
                Some(text) => Some(text.to_owned()),
                None => None,
            };
        },
        Command::Ignore => {},
    }
    None
}

/// Handles a key while a filter pattern is typed. Enter adds the filter
/// (inverse or not) when the line is not empty, dropping a pattern that does
/// not compile, and returns to normal mode.
pub fn handle_input_key(app: &mut App, key: KeyEvent, inverse: bool)
    requires
        old(app).wf(),
    ensures
        final(app).wf(),
        filter_key_effect(*old(app), *final(app), key, inverse),
{
    match key.code {
        KeyCode::Enter => {
            let pattern = app.input_buffer.clone();
            if !pattern.as_str().is_empty() {
                let _ = app.add_filter(pattern, inverse);
            }
            app.input_mode = InputMode::Normal;
            app.input_buffer = String::new();
        },
        KeyCode::Esc => {
            app.input_mode = InputMode::Normal;
            app.input_buffer = String::new();
        },
        KeyCode::Backspace => {
            pop_char(&mut app.input_buffer);
        },
        KeyCode::Char(c) => {
            push_char(&mut app.input_buffer, c);
        },
        _ => {},
    }
}

/// Handles a key while a search pattern is typed. Enter sets the search
/// (an empty line ends it; a pattern that does not compile is dropped) and
/// returns to normal mode.
pub fn handle_search_key(app: &mut App, key: KeyEvent)
    requires
        old(app).wf(),
    ensures
        final(app).wf(),
        search_key_effect(*old(app), *final(app), key),
{
    match key.code {
        KeyCode::Enter => {
            let pattern = app.input_buffer.clone();
            let _ = app.set_search(pattern.as_str());
            app.input_mode = InputMode::Normal;
            app.input_buffer = String::new();
        },
        KeyCode::Esc => {
            app.input_mode = InputMode::Normal;
            app.input_buffer = String::new();
        },
        KeyCode::Backspace => {
            pop_char(&mut app.input_buffer);
        },
        KeyCode::Char(c) => {
            push_char(&mut app.input_buffer, c);
        },
        _ => {},
    }
}

/// Handles a key while the bookmark list is open.
pub fn handle_bookmark_popup_key(app: &mut App, key: KeyEvent)
    requires
        old(app).wf(),
    ensures
        final(app).wf(),
        popup_key_effect(*old(app), *final(app), key),
{
    let c = key.code;
    if c == KeyCode::Esc || c == KeyCode::Char('B') || c == KeyCode::Char('q') {
        app.popup = PopupState::Closed;
    } else if c == KeyCode::Up || c == KeyCode::Char('k') {
        app.bookmark_scroll = app.bookmark_scroll.saturating_sub(1);
    } else if c == KeyCode::Down || c == KeyCode::Char('j') {
        if app.bookmark_scroll < app.bookmarks.len() && app.bookmark_scroll + 1 < app.bookmarks.len() {
            app.bookmark_scroll = app.bookmark_scroll + 1;
        }
    } else if c == KeyCode::Enter {
        if app.bookmark_scroll < app.bookmarks.len() {
            let line_idx = app.bookmarks[app.bookmark_scroll];
            let n = app.filtered_indices.len();
            let mut i: usize = 0;
            while i < n && app.filtered_indices[i] != line_idx
                invariant
                    i <= n == app.filtered_indices@.len(),
                    position_of(app.filtered_indices@, line_idx, 0) == position_of(
                        app.filtered_indices@,
                        line_idx,
                        i as int,
                    ),
                decreases n - i,
            {
                i = i + 1;
            }
            if i < n {
                app.scroll_offset = i;
                app.auto_scroll = false;
            }
        }
        app.popup = PopupState::Closed;
    } else if c == KeyCode::Char('d') {
        if app.bookmark_scroll < app.bookmarks.len() {
            let ghost before = app.bookmarks@;
            app.bookmarks.remove(app.bookmark_scroll);
            proof {
                crate::app::lemma_sorted_remove(before, old(app).bookmark_scroll as int);
            }
            let left = app.bookmarks.len();
            if app.bookmark_scroll > 0 && app.bookmark_scroll >= left {
                app.bookmark_scroll = left.saturating_sub(1);
            }
            if left == 0 {
                app.popup = PopupState::Closed;
            }
        }
    }
}

/// Handles a key in whatever mode the viewer is in. Returns the text to copy
/// to the clipboard, if the key asks for it.
pub fn handle_events(app: &mut App, key: KeyEvent) -> (copy: Option<String>)
    requires
        old(app).wf(),
    ensures
        final(app).wf(),
        old(app).input_mode != InputMode::Normal ==> copy is None,
        match old(app).input_mode {
            InputMode::Normal => normal_key_effect(*old(app), *final(app), key, copy),
            InputMode::FilterInput => filter_key_effect(*old(app), *final(app), key, false),
            InputMode::InverseFilterInput => filter_key_effect(*old(app), *final(app), key, true),
            InputMode::SearchInput => search_key_effect(*old(app), *final(app), key),
        },
{
    match app.input_mode {
        InputMode::Normal => handle_normal_key(app, key),
        InputMode::FilterInput => {
            handle_input_key(app, key, false);
            None
        },
        InputMode::InverseFilterInput => {
            handle_input_key(app, key, true);
            None
        },
        InputMode::SearchInput => {
            handle_search_key(app, key);
            None
        },
    }
}

} // verus!
