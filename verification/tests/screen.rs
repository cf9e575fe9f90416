use log_lens::app::App;
use log_lens::highlight::{Color, Highlighter, TextStyle};
use log_lens::render::{line_segments, overlay_regions, plan_line_segments, Segment, SegmentKind};
use log_lens::screen::{
    marker_style, row_content, RowContent, bookmark_list, empty_view_message, json_line_parts, line_number_label, line_number_width, line_style,
    log_viewport_height, popup_area, source_tag, status_parts, visible_range,
};
use log_lens::text::{decimal_string, spaces};

fn app_with(lines: &[&str]) -> App {
    let mut app = App::new(100, vec!["stdin".to_string()], true);
    for l in lines {
        app.add_line(l.to_string(), 0);
    }
    app.refilter();
    app
}

fn seg(start: usize, end: usize, kind: SegmentKind) -> Segment {
    Segment { start, end, kind }
}

#[test]
fn decimal_and_spaces() {
    assert_eq!(decimal_string(0), "0");
    assert_eq!(decimal_string(907), "907");
    assert_eq!(decimal_string(usize::MAX), usize::MAX.to_string());
    assert_eq!(spaces(3), "   ");
}

#[test]
fn plan_segments_merges_and_drops_overlaps() {
    let ts = SegmentKind::Timestamp;
    let regions = vec![seg(4, 6, ts), seg(0, 3, ts), seg(1, 2, ts)];
    let segs = plan_line_segments(10, &regions);
    assert_eq!(segs, vec![seg(0, 3, ts), seg(3, 4, SegmentKind::Base), seg(4, 6, ts), seg(6, 10, SegmentKind::Base)]);
    assert_eq!(plan_line_segments(5, &vec![]), vec![seg(0, 5, SegmentKind::Base)]);
    // Equal starts: the longer region is drawn.
    let segs = plan_line_segments(4, &vec![seg(0, 2, ts), seg(0, 4, ts)]);
    assert_eq!(segs, vec![seg(0, 4, ts)]);
}

#[test]
fn line_segments_with_timestamp_and_search() {
    let mut app = app_with(&["2026-05-30 12:34:56 boot ok boot"]);
    let line = app.lines[0].content.clone();
    let segs = line_segments(&Highlighter::new(), &line, &app.search);
    assert_eq!(segs, vec![seg(0, 19, SegmentKind::Timestamp), seg(19, 32, SegmentKind::Base)]);
    app.set_search("boot").unwrap();
    let segs = line_segments(&Highlighter::new(), &line, &app.search);
    assert_eq!(
        segs,
        vec![
            seg(0, 19, SegmentKind::Timestamp),
            seg(19, 20, SegmentKind::Base),
            seg(20, 24, SegmentKind::SearchHit),
            seg(24, 28, SegmentKind::Base),
            seg(28, 32, SegmentKind::SearchHit),
        ]
    );
}

#[test]
fn view_geometry() {
    assert_eq!(log_viewport_height(10), 8);
    assert_eq!(log_viewport_height(1), 0);
    let mut app = app_with(&["a", "b", "c"]);
    assert_eq!(visible_range(&app, 2), (0, 2));
    app.scroll_offset = 2;
    assert_eq!(visible_range(&app, 5), (2, 3));
    app.scroll_offset = usize::MAX;
    assert_eq!(visible_range(&app, 5), (usize::MAX, 3));
    assert_eq!(empty_view_message(&App::new(1, vec![], true)), "Waiting for input...");
    let mut filtered = app_with(&["a"]);
    filtered.add_filter("z".to_string(), false).unwrap();
    filtered.refilter();
    assert_eq!(empty_view_message(&filtered), "No lines match current filters");
}

#[test]
fn line_numbers() {
    let app = app_with(&["a", "b"]);
    assert_eq!(line_number_width(&app), 4);
    assert_eq!(line_number_label(7, 4), "   7 │ ");
    assert_eq!(line_number_label(123456, 4), "123456 │ ");
    let many: Vec<String> = (0..12345).map(|i| i.to_string()).collect();
    let mut big = App::new(20000, vec![], true);
    for l in many {
        big.add_line(l, 0);
    }
    big.refilter();
    assert_eq!(line_number_width(&big), 5);
}

#[test]
fn source_tags() {
    assert_eq!(source_tag("app.log"), "app.log ");
    assert_eq!(source_tag("twelve_bytes"), "twelve_bytes ");
    assert_eq!(source_tag("a_much_longer_name.log"), "a_much_long… ");
}

#[test]
fn line_styles() {
    let hl = Highlighter::new();
    assert_eq!(line_style(&hl, "[ERROR] x").fg, Some(Color::Red));
    assert_eq!(line_style(&hl, "plain").fg, Some(Color::Rgb(0, 255, 200)));
}

#[test]
fn status_bar_text() {
    let mut app = app_with(&["x1", "y", "x2"]);
    app.add_filter("x".to_string(), false).unwrap();
    app.add_filter("2".to_string(), true).unwrap();
    app.refilter();
    app.set_search("x").unwrap();
    app.scroll_offset = 0;
    app.toggle_bookmark();
    app.line_wrap = true;
    let parts = status_parts(&app, 40);
    let texts: Vec<String> = parts.iter().map(|p| p.text.clone()).collect();
    assert_eq!(
        texts,
        vec![
            " SCROLL ", " ", "[WRAP] ", "Lines: 1/3 ", "│ ", "Filters: ", "/x", ", ", "!2", " ", "│ ",
            "Search: x [1/1] ", "│ ", "★1 ",
        ]
    );
    assert_eq!(parts[0].style, TextStyle { fg: Some(Color::Black), bg: Some(Color::Rgb(0, 255, 200)), bold: true });
    let wide = status_parts(&app, 200);
    let used: usize = texts.iter().map(|t| t.len()).sum();
    let help = "q:quit /:filter !:inv f:follow w:wrap ^F:search b:mark";
    assert_eq!(wide.len(), texts.len() + 2);
    assert_eq!(wide[wide.len() - 2].text, " ".repeat(200 - used - help.len()));
    assert_eq!(wide[wide.len() - 1].text, help);
}

#[test]
fn status_bar_plain_follow() {
    let app = App::new(10, vec![], true);
    let parts = status_parts(&app, 0);
    let texts: Vec<String> = parts.iter().map(|p| p.text.clone()).collect();
    assert_eq!(texts, vec![" FOLLOW ", " ", "Lines: 0/0 "]);
}

#[test]
fn popup_geometry() {
    assert_eq!(popup_area(100, 40, 3), (20, 16, 60, 7));
    assert_eq!(popup_area(30, 10, 50), (0, 2, 30, 6));
    assert_eq!(popup_area(45, 20, 0), (0, 8, 45, 4));
}

#[test]
fn bookmark_entries() {
    let mut app = app_with(&["first line here", "second"]);
    app.toggle_bookmark();
    app.scroll_offset = 1;
    app.toggle_bookmark();
    app.bookmark_scroll = 1;
    let entries = bookmark_list(&app, 15);
    assert_eq!(entries[0].text, "  L1: first");
    assert_eq!(entries[1].text, "▸ L2: secon");
    assert!(entries[1].style.bold);
    let mut small = App::new(1, vec![], true);
    small.add_line("only".to_string(), 0);
    small.refilter();
    small.toggle_bookmark();
    assert_eq!(small.bookmarks, vec![0]);
    // "only" leaves the buffer and takes its bookmark along.
    small.add_line("next".to_string(), 0);
    assert!(small.bookmarks.is_empty());
    small.refilter();
    small.toggle_bookmark();
    assert_eq!(small.bookmarks, vec![0]);
}

#[test]
fn json_line_rendering() {
    let mut app = app_with(&[]);
    app.set_search("hit").unwrap();
    let base = TextStyle::plain();
    let parts = json_line_parts(r#" {"b":"hit me","a":1,"c":[1,2],"d":null,"e":true} "#, &app.search, base);
    let texts: Vec<String> = parts.iter().map(|p| p.text.clone()).collect();
    assert_eq!(
        texts,
        vec![
            "{ ", "\"a\"", ": ", "1", ", ", "\"b\"", ": ", "\"hit me\"", ", ", "\"c\"", ": ", "[1,2]", ", ",
            "\"d\"", ": ", "null", ", ", "\"e\"", ": ", "true", " }",
        ]
    );
    assert_eq!(parts[7].style.bg, Some(Color::Yellow));
    assert_eq!(parts[3].style.fg, Some(Color::Yellow));
    app.set_search("").unwrap();
    let parts = json_line_parts(r#"{"b":"hit me"}"#, &app.search, base);
    assert_eq!(parts[3].style.fg, Some(Color::Green));
    let plain = json_line_parts("{not json}", &app.search, base);
    assert_eq!(plain.len(), 1);
    assert_eq!(plain[0].text, "{not json}");
}

#[test]
fn search_hit_inside_timestamp_wins() {
    let mut app = app_with(&["2026-05-30 12:34:56 boot"]);
    let line = app.lines[0].content.clone();
    app.set_search("34").unwrap();
    let segs = line_segments(&Highlighter::new(), &line, &app.search);
    assert_eq!(
        segs,
        vec![
            seg(0, 14, SegmentKind::Timestamp),
            seg(14, 16, SegmentKind::SearchHit),
            seg(16, 19, SegmentKind::Timestamp),
            seg(19, 24, SegmentKind::Base),
        ]
    );
}

#[test]
fn overlay_cuts_what_lies_under_a_region() {
    let base = vec![seg(0, 5, SegmentKind::Timestamp), seg(5, 10, SegmentKind::Base)];
    let hits = vec![seg(3, 7, SegmentKind::SearchHit), seg(8, 8, SegmentKind::SearchHit)];
    assert_eq!(
        overlay_regions(&base, &hits),
        vec![
            seg(0, 3, SegmentKind::Timestamp),
            seg(3, 7, SegmentKind::SearchHit),
            seg(7, 8, SegmentKind::Base),
            seg(8, 8, SegmentKind::SearchHit),
            seg(8, 10, SegmentKind::Base),
        ]
    );
    assert_eq!(overlay_regions(&base, &vec![]), base);
    let whole = vec![seg(0, 10, SegmentKind::SearchHit)];
    assert_eq!(overlay_regions(&base, &whole), whole);
}

#[test]
fn row_content_picks_json_or_segments() {
    let mut app = app_with(&[]);
    app.set_search("boot").unwrap();
    let hl = Highlighter::new();
    match row_content(&hl, r#"{"a":1}"#, &app.search) {
        RowContent::Json(parts) => {
            let texts: Vec<String> = parts.iter().map(|p| p.text.clone()).collect();
            assert_eq!(texts, vec!["{ ", "\"a\"", ": ", "1", " }"]);
        }
        RowContent::Segments { .. } => panic!("a JSON object line is drawn as its pieces"),
    }
    match row_content(&hl, "[ERROR] boot é failed", &app.search) {
        RowContent::Segments { segs, base } => {
            assert_eq!(base, TextStyle { fg: Some(Color::Red), bg: None, bold: true });
            assert_eq!(
                segs,
                vec![seg(0, 8, SegmentKind::Base), seg(8, 12, SegmentKind::SearchHit), seg(12, 22, SegmentKind::Base)]
            );
        }
        RowContent::Json(_) => panic!("a plain line is drawn as segments"),
    }
}

#[test]
fn bookmark_marker_styles() {
    assert_eq!(marker_style(true), TextStyle { fg: Some(Color::Yellow), bg: None, bold: false });
    assert_eq!(marker_style(false), TextStyle::plain());
}
