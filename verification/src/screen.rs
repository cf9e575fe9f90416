//! What the terminal screen shows, as plain values: the log view's
//! geometry and line labels, the status bar, the input prompt, and the
//! bookmark list. Drawing them is left to the front end.
use vstd::prelude::*;
use vstd::string::{StrSliceExecFns, StringExecFns, StringSliceAdditionalSpecFns};
use vstd::utf8::encode_utf8;
use crate::app::{App, Filter, InputMode, SearchState};
use crate::highlight::{is_json_line, spec_detect_level, spec_is_json_line, Color, Highlighter, TextStyle};
use crate::json::{fields_view, json_object_fields, json_object_fields_of, JsonValue, JsonValueView};
use crate::pattern::{is_match, regex_matches};
use crate::render::{line_segments, on_char_boundaries, spec_line_segments, tiles, Segment, SegmentKind};
use crate::text::{trim_bounds, trimmed};
use crate::text::{chars_of, decimal, decimal_len, decimal_string, spaces};

verus! {

/// The default colour of log text.
pub open spec fn spec_phosphor_green() -> Color {
    Color::Rgb(0, 255, 200)
}

/// The colour of borders, separators and line numbers.
pub open spec fn spec_dim_green() -> Color {
    Color::Rgb(0, 128, 100)
}

/// The default colour of log text.
pub fn phosphor_green() -> (c: Color)
    ensures
        c == spec_phosphor_green(),
{
    Color::Rgb(0, 255, 200)
}

/// The colour of borders, separators and line numbers.
pub fn dim_green() -> (c: Color)
    ensures
        c == spec_dim_green(),
{
    Color::Rgb(0, 128, 100)
}

/// The background of the log view, input bar and bookmark list.
pub fn background() -> (c: Color)
    ensures
        c == Color::Rgb(8, 12, 8),
{
    Color::Rgb(8, 12, 8)
}

/// The background of the status bar.
pub fn status_background() -> (c: Color)
    ensures
        c == Color::Rgb(20, 30, 20),
{
    Color::Rgb(20, 30, 20)
}

/// Lines of log text that fit in a log area of the given height, inside its
/// border.
pub fn log_viewport_height(area_height: u16) -> (h: usize)
    ensures
        h == if area_height >= 2 { area_height - 2 } else { 0 },
{
    if area_height >= 2 {
        (area_height - 2) as usize
    } else {
        0
    }
}

/// What the log view says when it shows no line: waiting for input when the
/// buffer is empty, else that no line passes the filters.
pub fn empty_view_message(app: &App) -> (msg: &'static str)
    ensures
        app.lines@.len() == 0 ==> msg@ == "Waiting for input..."@,
        app.lines@.len() > 0 ==> msg@ == "No lines match current filters"@,
{
    if app.lines.len() == 0 {
        "Waiting for input..."
    } else {
        "No lines match current filters"
    }
}

/// The positions `[start, end)` of the filtered view shown in a log area of
/// `height` lines: from the scroll position, as many as fit and exist.
pub fn visible_range(app: &App, height: usize) -> (r: (usize, usize))
    ensures
        r.0 == app.scroll_offset,
        r.1 == if app.scroll_offset + height < app.filtered_indices@.len() {
            app.scroll_offset + height
        } else {
            app.filtered_indices@.len() as int
        },
{
    let start = app.scroll_offset;
    let n = app.filtered_indices.len();
    let end = if start < n && height < n - start {
        start + height
    } else {
        n
    };
    (start, end)
}

/// Width of the line-number column: the digits of the largest line number
/// shown (1-based), and at least 4.
pub open spec fn spec_line_number_width(app: App) -> nat {
    let n = app.filtered_indices@.len();
    let max_line: nat = if n > 0 {
        (app.filtered_indices@[n - 1] + 1) as nat
    } else {
        1
    };
    let d = decimal(max_line).len();
    if d > 4 {
        d
    } else {
        4
    }
}

/// Width of the line-number column.
pub fn line_number_width(app: &App) -> (w: usize)
    requires
        app.wf(),
    ensures
        w == spec_line_number_width(*app),
{
    let n = app.filtered_indices.len();
    let max_line = if n > 0 {
        app.filtered_indices[n - 1] + 1
    } else {
        1
    };
    let d = decimal_len(max_line);
    if d > 4 {
        d
    } else {
        4
    }
}

/// The separator after a line number.
pub const LINE_NUMBER_SEPARATOR: &'static str = " │ ";

/// The label of line number `number` in a column `width` wide: the number
/// right-aligned, then the separator.
pub open spec fn spec_line_number_label(number: nat, width: nat) -> Seq<char> {
    let digits = decimal(number);
    let pad: nat = if width > digits.len() {
        (width - digits.len()) as nat
    } else {
        0
    };
    Seq::new(pad, |i: int| ' ') + digits + LINE_NUMBER_SEPARATOR@
}

/// The label of line number `number` in a column `width` wide.
pub fn line_number_label(number: usize, width: usize) -> (s: String)
    ensures
        s@ == spec_line_number_label(number as nat, width as nat),
{
    let digits = decimal_string(number);
    let d = decimal_len(number);
    let pad = if width > d {
        width - d
    } else {
        0
    };
    let s = spaces(pad).concat(digits.as_str()).concat(LINE_NUMBER_SEPARATOR);
    s
}

/// The marker in front of a bookmarked line, and of any other line.
pub fn bookmark_marker(bookmarked: bool) -> (s: &'static str)
    ensures
        bookmarked ==> s@ == "★ "@,
        !bookmarked ==> s@ == "  "@,
{
    if bookmarked {
        "★ "
    } else {
        "  "
    }
}

/// The style of the bookmark marker: yellow on a bookmarked line.
pub fn marker_style(bookmarked: bool) -> (s: TextStyle)
    ensures
        bookmarked ==> s == (TextStyle { fg: Some(Color::Yellow), bg: None, bold: false }),
        !bookmarked ==> s == (TextStyle { fg: None, bg: None, bold: false }),
{
    if bookmarked {
        TextStyle::fg(Color::Yellow)
    } else {
        TextStyle::plain()
    }
}

/// Whether line `li` is bookmarked.
pub fn is_bookmarked(app: &App, li: usize) -> (b: bool)
    ensures
        b == app.bookmarks@.contains(li),
{
    let n = app.bookmarks.len();
    for k in 0..n
        invariant
            n == app.bookmarks@.len(),
            forall|j: int| 0 <= j < k ==> app.bookmarks@[j] != li,
    {
        if app.bookmarks[k] == li {
            return true;
        }
    }
    false
}

/// The tag naming a line's source in multi-source mode: names over 12 bytes
/// are cut to their first 11 bytes and an ellipsis; a space follows.
pub fn source_tag(name: &str) -> (s: String)
    requires
        name.len() > 12 ==> vstd::utf8::is_char_boundary(name.spec_bytes(), 11),
    ensures
        name.len() > 12 ==> encode_utf8(s@) == name.spec_bytes().subrange(0, 11) + encode_utf8(
            "… "@,
        ),
        name.len() <= 12 ==> s@ == name@ + " "@,
{
    if name.len() > 12 {
        let (head, _) = name.split_at(11);
        let owned = head.to_owned();
        let tag = owned.concat("… ");
        proof {
            crate::text::lemma_encode_utf8_concat(owned@, "… "@);
        }
        tag
    } else {
        name.to_owned().concat(" ")
    }
}

/// The style of a log line's plain text: its level's style, else the
/// default green.
pub open spec fn spec_line_style(content: Seq<char>) -> TextStyle {
    match spec_detect_level(content) {
        Some(level) => level.spec_style(),
        None => TextStyle { fg: Some(spec_phosphor_green()), bg: None, bold: false },
    }
}

/// The style of a log line's plain text.
pub fn line_style(hl: &Highlighter, content: &str) -> (s: TextStyle)
    ensures
        s == spec_line_style(content@),
{
    match hl.detect_level(content) {
        Some(level) => level.style(),
        None => TextStyle::fg(phosphor_green()),
    }
}

/// The style of a line segment: plain text in the line's style, timestamps
/// light blue, search hits black on yellow and bold.
pub fn segment_style(kind: SegmentKind, base: TextStyle) -> (s: TextStyle)
    ensures
        kind == SegmentKind::Base ==> s == base,
        kind == SegmentKind::Timestamp ==> s == (TextStyle { fg: Some(Color::Rgb(100, 160, 255)), bg: None, bold: false }),
        kind == SegmentKind::SearchHit ==> s == (TextStyle { fg: Some(Color::Black), bg: Some(Color::Yellow), bold: true }),
{
    match kind {
        SegmentKind::Base => base,
        SegmentKind::Timestamp => TextStyle::fg(Color::Rgb(100, 160, 255)),
        SegmentKind::SearchHit => TextStyle { fg: Some(Color::Black), bg: Some(Color::Yellow), bold: true },
    }
}

/// The prompt of the input bar in each input mode.
pub fn input_prompt(mode: InputMode) -> (s: &'static str)
    ensures
        mode == InputMode::FilterInput ==> s@ == "/"@,
        mode == InputMode::InverseFilterInput ==> s@ == "!"@,
        mode == InputMode::SearchInput ==> s@ == "search: "@,
        mode == InputMode::Normal ==> s@ == ""@,
{
    match mode {
        InputMode::FilterInput => "/",
        InputMode::InverseFilterInput => "!",
        InputMode::SearchInput => "search: ",
        InputMode::Normal => "",
    }
}

/// A piece of text and its style.
pub struct StyledText {
    pub text: String,
    pub style: TextStyle,
}

/// Pieces as plain values.
pub open spec fn text_parts(v: Seq<StyledText>) -> Seq<(Seq<char>, TextStyle)> {
    Seq::new(v.len(), |i: int| (v[i].text@, v[i].style))
}

fn push_part(parts: &mut Vec<StyledText>, text: String, style: TextStyle)
    ensures
        text_parts(final(parts)@) == text_parts(old(parts)@).push((text@, style)),
{
    let ghost t = text@;
    parts.push(StyledText { text, style });
    assert(text_parts(parts@) =~= text_parts(old(parts)@).push((t, style)));
}

/// A style with only a foreground colour.
pub open spec fn fg_style(c: Color) -> TextStyle {
    TextStyle { fg: Some(c), bg: None, bold: false }
}

/// The mode indicator: FOLLOW on green when following, else SCROLL on the
/// default green; black and bold.
pub open spec fn mode_part(app: App) -> (Seq<char>, TextStyle) {
    if app.auto_scroll {
        (" FOLLOW "@, TextStyle { fg: Some(Color::Black), bg: Some(Color::Green), bold: true })
    } else {
        (" SCROLL "@, TextStyle { fg: Some(Color::Black), bg: Some(spec_phosphor_green()), bold: true })
    }
}

/// The listed filters from the `n`-th on: `/pattern` or `!pattern` for an
/// inverse filter, in yellow and bold, separated by dim commas.
pub open spec fn filter_list(filters: Seq<Filter>, n: int) -> Seq<(Seq<char>, TextStyle)>
    decreases n,
{
    if n <= 0 {
        Seq::empty()
    } else {
        let f = filters[n - 1];
        let prefix = if f.inverse { "!"@ } else { "/"@ };
        let item = (prefix + f.pattern@, TextStyle { fg: Some(Color::Yellow), bg: None, bold: true });
        if n == 1 {
            filter_list(filters, n - 1).push(item)
        } else {
            filter_list(filters, n - 1).push((", "@, fg_style(spec_dim_green()))).push(item)
        }
    }
}

/// The search indicator's count: selected hit (1-based, 0 when none) over
/// the number of hits, or `0/0` without hits.
pub open spec fn match_info(app: App) -> Seq<char> {
    let n = app.search.match_indices@.len();
    if n == 0 {
        "0/0"@
    } else {
        let cur: nat = match app.search.current_match {
            Some(i) => (i + 1) as nat,
            None => 0,
        };
        decimal(cur) + "/"@ + decimal(n)
    }
}

/// The dim separator between status indicators.
pub open spec fn separator_part() -> (Seq<char>, TextStyle) {
    ("│ "@, fg_style(spec_dim_green()))
}

/// The mode indicator and a space.
pub open spec fn head_section(app: App) -> Seq<(Seq<char>, TextStyle)> {
    seq![mode_part(app), (" "@, TextStyle { fg: None, bg: None, bold: false })]
}

/// `[WRAP]` when lines wrap.
pub open spec fn wrap_section(app: App) -> Seq<(Seq<char>, TextStyle)> {
    if app.line_wrap {
        seq![("[WRAP] "@, fg_style(Color::Cyan))]
    } else {
        Seq::empty()
    }
}

/// The filtered and total line counts.
pub open spec fn counts_section(app: App) -> Seq<(Seq<char>, TextStyle)> {
    seq![
        (
            "Lines: "@ + decimal(app.filtered_indices@.len()) + "/"@ + decimal(app.lines@.len()) + " "@,
            fg_style(spec_phosphor_green()),
        ),
    ]
}

/// The active filters, when there are any.
pub open spec fn filters_section(app: App) -> Seq<(Seq<char>, TextStyle)> {
    if app.filters@.len() > 0 {
        seq![separator_part(), ("Filters: "@, fg_style(Color::Yellow))] + filter_list(
            app.filters@,
            app.filters@.len() as int,
        ) + seq![(" "@, TextStyle { fg: None, bg: None, bold: false })]
    } else {
        Seq::empty()
    }
}

/// The search pattern and hit count, when a search is active.
pub open spec fn search_section(app: App) -> Seq<(Seq<char>, TextStyle)> {
    if app.search.pattern@.len() > 0 {
        seq![
            separator_part(),
            ("Search: "@ + app.search.pattern@ + " ["@ + match_info(app) + "] "@, fg_style(Color::Cyan)),
        ]
    } else {
        Seq::empty()
    }
}

/// The bookmark count, when there are bookmarks.
pub open spec fn marks_section(app: App) -> Seq<(Seq<char>, TextStyle)> {
    if app.bookmarks@.len() > 0 {
        seq![separator_part(), ("★"@ + decimal(app.bookmarks@.len()) + " "@, fg_style(Color::Yellow))]
    } else {
        Seq::empty()
    }
}

/// The status bar's indicators: mode, wrap, line counts, filters, search and
/// bookmark count, each shown only when it applies.
pub open spec fn status_body(app: App) -> Seq<(Seq<char>, TextStyle)> {
    head_section(app) + wrap_section(app) + counts_section(app) + filters_section(app) + search_section(app)
        + marks_section(app)
}

/// The key help shown at the right of the status bar.
pub const STATUS_HELP: &'static str = "q:quit /:filter !:inv f:follow w:wrap ^F:search b:mark";

/// The bytes the pieces take, summed (capped at the largest `usize`).
pub open spec fn used_bytes(parts: Seq<(Seq<char>, TextStyle)>) -> nat
    decreases parts.len(),
{
    if parts.len() == 0 {
        0
    } else {
        let rest = used_bytes(parts.drop_last());
        let b = encode_utf8(parts.last().0).len() as usize;
        if rest + b > usize::MAX {
            usize::MAX as nat
        } else {
            (rest + b) as nat
        }
    }
}

/// The status bar of a screen `width` columns wide: the indicators, then,
/// when more than the help text and two spaces remain, padding and the help
/// text at the right edge.
pub open spec fn spec_status_parts(app: App, width: u16) -> Seq<(Seq<char>, TextStyle)> {
    let body = status_body(app);
    let used = used_bytes(body);
    let remaining: nat = if width > used {
        (width - used) as nat
    } else {
        0
    };
    let help_len = STATUS_HELP.len();
    if remaining > help_len + 2 {
        body.push((Seq::new((remaining - help_len) as nat, |i: int| ' '), TextStyle { fg: None, bg: None, bold: false }))
            .push((STATUS_HELP@, fg_style(spec_dim_green())))
    } else {
        body
    }
}

fn plain_style() -> (s: TextStyle)
    ensures
        s == (TextStyle { fg: None, bg: None, bold: false }),
{
    TextStyle::plain()
}

fn match_info_text(app: &App) -> (s: String)
    requires
        app.wf(),
    ensures
        s@ == match_info(*app),
{
    let n = app.search.match_indices.len();
    if n == 0 {
        "0/0".to_owned()
    } else {
        let cur = match app.search.current_match {
            Some(i) => i + 1,
            None => 0,
        };
        decimal_string(cur).concat("/").concat(decimal_string(n).as_str())
    }
}

fn push_filter_list(parts: &mut Vec<StyledText>, filters: &Vec<Filter>)
    ensures
        text_parts(final(parts)@) == text_parts(old(parts)@) + filter_list(filters@, filters@.len() as int),
{
    let ghost base = text_parts(parts@);
    let n = filters.len();
    assert(base + filter_list(filters@, 0) =~= base);
    for i in 0..n
        invariant
            n == filters@.len(),
            text_parts(parts@) == base + filter_list(filters@, i as int),
    {
        if i > 0 {
            push_part(parts, ", ".to_owned(), TextStyle::fg(dim_green()));
        }
        let f = &filters[i];
        let prefix = if f.inverse {
            "!"
        } else {
            "/"
        };
        push_part(parts, prefix.to_owned().concat(f.pattern.as_str()), TextStyle { fg: Some(Color::Yellow), bg: None, bold: true });
        proof {
            let item = (
                (if f.inverse { "!"@ } else { "/"@ }) + f.pattern@,
                TextStyle { fg: Some(Color::Yellow), bg: None, bold: true },
            );
            if i > 0 {
                assert(base + filter_list(filters@, i + 1) =~= (base + filter_list(filters@, i as int)).push(
                    (", "@, fg_style(spec_dim_green())),
                ).push(item));
            } else {
                assert(base + filter_list(filters@, i + 1) =~= (base + filter_list(filters@, i as int)).push(item));
            }
        }
    }
}

fn push_head(parts: &mut Vec<StyledText>, app: &App)
    ensures
        text_parts(final(parts)@) == text_parts(old(parts)@) + head_section(*app),
{
    let ghost base = text_parts(parts@);
    if app.auto_scroll {
        push_part(parts, " FOLLOW ".to_owned(), TextStyle { fg: Some(Color::Black), bg: Some(Color::Green), bold: true });
    } else {
        push_part(parts, " SCROLL ".to_owned(), TextStyle { fg: Some(Color::Black), bg: Some(phosphor_green()), bold: true });
    }
    push_part(parts, " ".to_owned(), plain_style());
    assert(text_parts(parts@) =~= base + head_section(*app));
}

fn push_wrap(parts: &mut Vec<StyledText>, app: &App)
    ensures
        text_parts(final(parts)@) == text_parts(old(parts)@) + wrap_section(*app),
{
    let ghost base = text_parts(parts@);
    if app.line_wrap {
        push_part(parts, "[WRAP] ".to_owned(), TextStyle::fg(Color::Cyan));
    }
    assert(text_parts(parts@) =~= base + wrap_section(*app));
}

fn push_counts(parts: &mut Vec<StyledText>, app: &App)
    ensures
        text_parts(final(parts)@) == text_parts(old(parts)@) + counts_section(*app),
{
    let ghost base = text_parts(parts@);
    let counts = "Lines: ".to_owned().concat(decimal_string(app.filtered_indices.len()).as_str()).concat(
        "/",
    ).concat(decimal_string(app.lines.len()).as_str()).concat(" ");
    push_part(parts, counts, TextStyle::fg(phosphor_green()));
    assert(text_parts(parts@) =~= base + counts_section(*app));
}

fn push_filters(parts: &mut Vec<StyledText>, app: &App)
    ensures
        text_parts(final(parts)@) == text_parts(old(parts)@) + filters_section(*app),
{
    let ghost base = text_parts(parts@);
    if app.filters.len() > 0 {
        push_part(parts, "│ ".to_owned(), TextStyle::fg(dim_green()));
        push_part(parts, "Filters: ".to_owned(), TextStyle::fg(Color::Yellow));
        let ghost mid = text_parts(parts@);
        push_filter_list(parts, &app.filters);
        push_part(parts, " ".to_owned(), plain_style());
        assert(mid =~= base + seq![separator_part(), ("Filters: "@, fg_style(Color::Yellow))]);
    }
    assert(text_parts(parts@) =~= base + filters_section(*app));
}

fn push_search(parts: &mut Vec<StyledText>, app: &App)
    requires
        app.wf(),
    ensures
        text_parts(final(parts)@) == text_parts(old(parts)@) + search_section(*app),
{
    let ghost base = text_parts(parts@);
    if app.search.is_active() {
        push_part(parts, "│ ".to_owned(), TextStyle::fg(dim_green()));
        let text = "Search: ".to_owned().concat(app.search.pattern.as_str()).concat(" [").concat(
            match_info_text(app).as_str(),
        ).concat("] ");
        push_part(parts, text, TextStyle::fg(Color::Cyan));
    }
    assert(text_parts(parts@) =~= base + search_section(*app));
}

fn push_marks(parts: &mut Vec<StyledText>, app: &App)
    ensures
        text_parts(final(parts)@) == text_parts(old(parts)@) + marks_section(*app),
{
    let ghost base = text_parts(parts@);
    if app.bookmarks.len() > 0 {
        push_part(parts, "│ ".to_owned(), TextStyle::fg(dim_green()));
        let text = "★".to_owned().concat(decimal_string(app.bookmarks.len()).as_str()).concat(" ");
        push_part(parts, text, TextStyle::fg(Color::Yellow));
    }
    assert(text_parts(parts@) =~= base + marks_section(*app));
}

fn bytes_used(parts: &Vec<StyledText>) -> (used: usize)
    ensures
        used as nat == used_bytes(text_parts(parts@)),
{
    let ghost body = text_parts(parts@);
    let mut used: usize = 0;
    let n = parts.len();
    for i in 0..n
        invariant
            n == parts@.len(),
            body == text_parts(parts@),
            used as nat == used_bytes(body.take(i as int)),
    {
        assert(body.take(i + 1).drop_last() =~= body.take(i as int));
        let b = parts[i].text.as_str().len();
        used = used.saturating_add(b);
    }
    assert(body.take(n as int) =~= body);
    used
}

/// The status bar of a screen `width` columns wide, as styled pieces.
pub fn status_parts(app: &App, width: u16) -> (parts: Vec<StyledText>)
    requires
        app.wf(),
    ensures
        text_parts(parts@) == spec_status_parts(*app, width),
{
    let mut parts: Vec<StyledText> = Vec::new();
    push_head(&mut parts, app);
    push_wrap(&mut parts, app);
    push_counts(&mut parts, app);
    push_filters(&mut parts, app);
    push_search(&mut parts, app);
    push_marks(&mut parts, app);
    assert(text_parts(parts@) =~= status_body(*app));
    let used = bytes_used(&parts);
    let w = width as usize;
    let remaining = if w > used {
        w - used
    } else {
        0
    };
    let help_len = STATUS_HELP.len();
    if remaining > 2 && remaining - 2 > help_len {
        push_part(&mut parts, spaces(remaining - help_len), plain_style());
        push_part(&mut parts, STATUS_HELP.to_owned(), TextStyle::fg(dim_green()));
    }
    parts
}

/// Where the bookmark list pops up on a screen `area_w` by `area_h`: `(x,
/// y, width, height)`, between 30 and 60 columns wide, four rows taller than
/// the list but four rows short of the screen, centred.
pub open spec fn spec_popup_area(area_w: u16, area_h: u16, n: usize) -> (u16, u16, u16, u16) {
    let w: u16 = if area_w > 60 {
        60
    } else if area_w < 30 {
        30
    } else {
        area_w
    };
    let want: int = (n as u16) + 4;
    let h: u16 = if want < area_h - 4 {
        want as u16
    } else {
        (area_h - 4) as u16
    };
    (((area_w - w) / 2) as u16, ((area_h - h) / 2) as u16, w, h)
}

/// Where the bookmark list of `n` bookmarks pops up. The screen must be at
/// least 30 columns wide and 4 rows high.
pub fn popup_area(area_w: u16, area_h: u16, n: usize) -> (r: (u16, u16, u16, u16))
    requires
        area_w >= 30,
        area_h >= 4,
        (n as u16) + 4 <= u16::MAX,
    ensures
        r == spec_popup_area(area_w, area_h, n),
{
    let w: u16 = if area_w > 60 {
        60
    } else if area_w < 30 {
        30
    } else {
        area_w
    };
    let want: u16 = (n as u16) + 4;
    let room: u16 = area_h - 4;
    let h: u16 = if want < room {
        want
    } else {
        room
    };
    ((area_w - w) / 2, (area_h - h) / 2, w, h)
}

/// The text shown for a bookmark on a line no longer in the buffer.
pub const DELETED_LINE: &'static str = "<deleted>";

/// The list entry of the `i`-th bookmark in a list `width` columns wide
/// inside its border: a pointer when selected, `L` and the 1-based line
/// number, and the line's text cut to `width - 10` characters.
pub open spec fn bookmark_entry(app: App, i: int, width: u16) -> Seq<char> {
    let li = app.bookmarks@[i];
    let content = if li < app.lines@.len() {
        app.lines@[li as int].content@
    } else {
        DELETED_LINE@
    };
    let keep: int = if width >= 10 {
        width - 10
    } else {
        0
    };
    let shown = if keep < content.len() {
        content.take(keep)
    } else {
        content
    };
    let prefix = if i == app.bookmark_scroll {
        "▸ "@
    } else {
        "  "@
    };
    prefix + "L"@ + decimal((li + 1) as nat) + ": "@ + shown
}

/// The style of a bookmark list entry: yellow and bold when selected.
pub open spec fn bookmark_entry_style(app: App, i: int) -> TextStyle {
    if i == app.bookmark_scroll {
        TextStyle { fg: Some(Color::Yellow), bg: None, bold: true }
    } else {
        fg_style(spec_phosphor_green())
    }
}

fn first_chars(s: &str, k: usize) -> (r: String)
    ensures
        r@ == if k < s@.len() {
            s@.take(k as int)
        } else {
            s@
        },
{
    let n = chars_of(s).len();
    let m = if k < n {
        k
    } else {
        n
    };
    let r = s.substring_char(0, m).to_owned();
    assert(s@.subrange(0, n as int) =~= s@);
    r
}

/// The entries of the bookmark list, in bookmark order, for a list `width`
/// columns wide inside its border.
pub fn bookmark_list(app: &App, width: u16) -> (entries: Vec<StyledText>)
    requires
        app.wf(),
    ensures
        entries@.len() == app.bookmarks@.len(),
        forall|i: int|
            0 <= i < entries@.len() ==> (#[trigger] entries@[i]).text@ == bookmark_entry(*app, i, width)
                && entries@[i].style == bookmark_entry_style(*app, i),
{
    let mut entries: Vec<StyledText> = Vec::new();
    let keep: usize = if width >= 10 {
        (width - 10) as usize
    } else {
        0
    };
    let n = app.bookmarks.len();
    for i in 0..n
        invariant
            n == app.bookmarks@.len(),
            app.wf(),
            keep == if width >= 10 { width - 10 } else { 0 },
            entries@.len() == i,
            forall|j: int|
                0 <= j < i ==> (#[trigger] entries@[j]).text@ == bookmark_entry(*app, j, width)
                    && entries@[j].style == bookmark_entry_style(*app, j),
    {
        let li = app.bookmarks[i];
        let selected = i == app.bookmark_scroll;
        let content: &str = if li < app.lines.len() {
            app.lines[li].content.as_str()
        } else {
            DELETED_LINE
        };
        let prefix = if selected {
            "▸ "
        } else {
            "  "
        };
        let text = prefix.to_owned().concat("L").concat(decimal_string(li + 1).as_str()).concat(": ").concat(
            first_chars(content, keep).as_str(),
        );
        let style = if selected {
            TextStyle { fg: Some(Color::Yellow), bg: None, bold: true }
        } else {
            TextStyle::fg(phosphor_green())
        };
        entries.push(StyledText { text, style });
    }
    entries
}

/// How a JSON member's value is shown: strings quoted, in green, or black
/// on yellow when the active search matches them; numbers yellow; booleans
/// magenta; null dark grey; arrays and objects in the line's style.
pub open spec fn json_value_part(v: JsonValueView, search_pattern: Seq<char>, base: TextStyle) -> (
    Seq<char>,
    TextStyle,
) {
    match v {
        JsonValueView::Str(s) => if search_pattern.len() > 0 && regex_matches(search_pattern, s) {
            ("\""@ + s + "\""@, TextStyle { fg: Some(Color::Black), bg: Some(Color::Yellow), bold: false })
        } else {
            ("\""@ + s + "\""@, fg_style(Color::Green))
        },
        JsonValueView::Number(t) => (t, fg_style(Color::Yellow)),
        JsonValueView::Bool(b) => (if b { "true"@ } else { "false"@ }, fg_style(Color::Magenta)),
        JsonValueView::Null => ("null"@, fg_style(Color::DarkGray)),
        JsonValueView::Composite(t) => (t, base),
    }
}

/// The first `n` members shown inline: quoted cyan bold keys, `: `, the
/// values, separated by `, `.
pub open spec fn json_members(
    fields: Seq<(Seq<char>, JsonValueView)>,
    n: int,
    search_pattern: Seq<char>,
    base: TextStyle,
) -> Seq<(Seq<char>, TextStyle)>
    decreases n,
{
    if n <= 0 {
        Seq::empty()
    } else {
        let (k, v) = fields[n - 1];
        let member = seq![
            ("\""@ + k + "\""@, TextStyle { fg: Some(Color::Cyan), bg: None, bold: true }),
            (": "@, base),
            json_value_part(v, search_pattern, base),
        ];
        if n == 1 {
            json_members(fields, n - 1, search_pattern, base) + member
        } else {
            json_members(fields, n - 1, search_pattern, base) + seq![(", "@, base)] + member
        }
    }
}

/// A JSON line as the log view shows it: an object, trimmed of whitespace,
/// inline between braces; anything else as it is, in the line's style.
pub open spec fn spec_json_line_parts(content: Seq<char>, search_pattern: Seq<char>, base: TextStyle) -> Seq<
    (Seq<char>, TextStyle),
> {
    match json_object_fields_of(trimmed(content)) {
        Some(fields) => seq![("{ "@, base)] + json_members(fields, fields.len() as int, search_pattern, base)
            + seq![(" }"@, base)],
        None => seq![(content, base)],
    }
}

fn json_value_text(v: &JsonValue, search: &SearchState, base: TextStyle) -> (r: (String, TextStyle))
    requires
        search.consistent(),
    ensures
        (r.0@, r.1) == json_value_part(v.view_value(), search.pattern@, base),
{
    match v {
        JsonValue::Str(s) => {
            let quoted = "\"".to_owned().concat(s.as_str()).concat("\"");
            let hit = match &search.regex {
                Some(regex) => is_match(regex, s.as_str()),
                None => false,
            };
            if hit {
                (quoted, TextStyle { fg: Some(Color::Black), bg: Some(Color::Yellow), bold: false })
            } else {
                (quoted, TextStyle::fg(Color::Green))
            }
        },
        JsonValue::Number(t) => (t.clone(), TextStyle::fg(Color::Yellow)),
        JsonValue::Bool(b) => (if *b {
            "true".to_owned()
        } else {
            "false".to_owned()
        }, TextStyle::fg(Color::Magenta)),
        JsonValue::Null => ("null".to_owned(), TextStyle::fg(Color::DarkGray)),
        JsonValue::Composite(t) => (t.clone(), base),
    }
}

/// The pieces of a JSON line as the log view shows it.
pub fn json_line_parts(content: &str, search: &SearchState, base: TextStyle) -> (parts: Vec<StyledText>)
    requires
        search.consistent(),
    ensures
        text_parts(parts@) == spec_json_line_parts(content@, search.pattern@, base),
{
    let chars = chars_of(content);
    let (start, end) = trim_bounds(&chars);
    let trimmed_text = content.substring_char(start, end);
    let mut parts: Vec<StyledText> = Vec::new();
    match json_object_fields(trimmed_text) {
        None => {
            push_part(&mut parts, content.to_owned(), base);
            assert(text_parts(parts@) =~= seq![(content@, base)]);
        },
        Some(fields) => {
            let ghost fv = fields_view(fields@);
            push_part(&mut parts, "{ ".to_owned(), base);
            let n = fields.len();
            for i in 0..n
                invariant
                    n == fields@.len(),
                    fv == fields_view(fields@),
                    search.consistent(),
                    text_parts(parts@) == seq![("{ "@, base)] + json_members(fv, i as int, search.pattern@, base),
            {
                let ghost before = text_parts(parts@);
                if i > 0 {
                    push_part(&mut parts, ", ".to_owned(), base);
                }
                let f = &fields[i];
                let key = "\"".to_owned().concat(f.key.as_str()).concat("\"");
                push_part(&mut parts, key, TextStyle { fg: Some(Color::Cyan), bg: None, bold: true });
                push_part(&mut parts, ": ".to_owned(), base);
                let (text, style) = json_value_text(&f.value, search, base);
                push_part(&mut parts, text, style);
                proof {
                    assert(fv[i as int] == (f.key@, f.value.view_value()));
                    let member = seq![
                        ("\""@ + f.key@ + "\""@, TextStyle { fg: Some(Color::Cyan), bg: None, bold: true }),
                        (": "@, base),
                        json_value_part(f.value.view_value(), search.pattern@, base),
                    ];
                    if i > 0 {
                        assert(text_parts(parts@) =~= before + seq![(", "@, base)] + member);
                    } else {
                        assert(text_parts(parts@) =~= before + member);
                    }
                }
            }
            push_part(&mut parts, " }".to_owned(), base);
            assert(text_parts(parts@) =~= seq![("{ "@, base)] + json_members(fv, n as int, search.pattern@, base)
                + seq![(" }"@, base)]);
        },
    }
    parts
}

/// How a log line's text is drawn: a JSON object line as its styled
/// pieces; any other line as its segments, drawn in the line's style.
pub enum RowContent {
    Json(Vec<StyledText>),
    Segments { segs: Vec<Segment>, base: TextStyle },
}

/// How the log view draws the text of a line: a line that looks like a JSON
/// object as its pieces, in the line's style; any other line as its
/// segments, with the line's style for the plain ones.
pub fn row_content(hl: &Highlighter, content: &str, search: &SearchState) -> (r: RowContent)
    requires
        search.consistent(),
    ensures
        match r {
            RowContent::Json(parts) => spec_is_json_line(content@) && text_parts(parts@) == spec_json_line_parts(
                content@,
                search.pattern@,
                spec_line_style(content@),
            ),
            RowContent::Segments { segs, base } => {
                &&& !spec_is_json_line(content@)
                &&& base == spec_line_style(content@)
                &&& segs@ == spec_line_segments(content@, content.len(), search.pattern@)
                &&& tiles(segs@, 0, content.len() as int)
                &&& forall|k: int|
                    0 <= k < segs@.len() ==> on_char_boundaries(#[trigger] segs@[k], content.spec_bytes())
            },
        },
{
    let base = line_style(hl, content);
    if is_json_line(content) {
        RowContent::Json(json_line_parts(content, search, base))
    } else {
        RowContent::Segments { segs: line_segments(hl, content, search), base }
    }
}

} // verus!
