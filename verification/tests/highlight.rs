use log_lens::highlight::{detect_level, find_timestamps, is_json_line, pretty_json, source_color, Color, Highlighter, LogLevel};

#[test]
fn detect_level_bracket_forms() {
    assert_eq!(detect_level("[ERROR] boom"), Some(LogLevel::Error));
    assert_eq!(detect_level("[WARN] careful"), Some(LogLevel::Warn));
    assert_eq!(detect_level("[WARNING] careful"), Some(LogLevel::Warn));
    assert_eq!(detect_level("[INFO] hello"), Some(LogLevel::Info));
    assert_eq!(detect_level("[DEBUG] details"), Some(LogLevel::Debug));
    assert_eq!(detect_level("[TRACE] noise"), Some(LogLevel::Trace));
}

#[test]
fn detect_level_keyvalue_and_json_forms() {
    assert_eq!(detect_level("ts=1 level=error msg=x"), Some(LogLevel::Error));
    assert_eq!(detect_level(r#"{"level":"warning","msg":"x"}"#), Some(LogLevel::Warn));
    assert_eq!(detect_level("INFO: starting up"), Some(LogLevel::Info));
}

#[test]
fn detect_level_is_case_insensitive() {
    assert_eq!(detect_level("[error] boom"), Some(LogLevel::Error));
    assert_eq!(detect_level("Level=Info ready"), Some(LogLevel::Info));
}

#[test]
fn detect_level_none_for_plain_text() {
    assert_eq!(detect_level("just a plain line of text"), None);
    // "error" embedded in a word should not match the delimited patterns
    assert_eq!(detect_level("terrorist database loaded"), None);
}

#[test]
fn detect_level_priority_error_over_others() {
    // A line mentioning multiple levels resolves to the most severe.
    assert_eq!(detect_level("[ERROR] failed after [INFO] retry"), Some(LogLevel::Error));
}

#[test]
fn find_timestamps_iso8601() {
    let line = "2026-05-30T12:34:56.789Z something happened";
    let spans = find_timestamps(line);
    assert_eq!(spans.len(), 1);
    let (s, e) = spans[0];
    assert_eq!(&line[s..e], "2026-05-30T12:34:56.789Z");
}

#[test]
fn find_timestamps_space_separated() {
    let line = "2026-05-30 12:34:56 boot complete";
    let spans = find_timestamps(line);
    assert_eq!(spans.len(), 1);
    let (s, e) = spans[0];
    assert_eq!(&line[s..e], "2026-05-30 12:34:56");
}

#[test]
fn find_timestamps_none_when_absent() {
    assert!(find_timestamps("no timestamp here at all").is_empty());
}

#[test]
fn is_json_line_detection() {
    assert!(is_json_line(r#"{"a":1}"#));
    assert!(is_json_line("  { \"a\": 1 }  "));
    assert!(!is_json_line("plain text"));
    assert!(!is_json_line("{not closed"));
    assert!(!is_json_line("[1,2,3]")); // arrays are not treated as JSON object lines
}

#[test]
fn pretty_json_valid_and_invalid() {
    let pretty = pretty_json(r#"{"b":2,"a":1}"#).expect("valid json");
    assert!(pretty.contains('\n'));
    assert!(pretty.contains("\"a\""));
    assert!(pretty_json("{not valid}").is_none());
}

#[test]
fn source_color_wraps_around() {
    // Indices wrap modulo the palette length and stay stable per slot.
    assert_eq!(source_color(0), source_color(8));
    assert_eq!(source_color(3), source_color(11));
    assert_ne!(source_color(0), source_color(1));
}

#[test]
fn source_color_palette_order() {
    assert_eq!(source_color(0), Color::Green);
    assert_eq!(source_color(1), Color::Cyan);
    assert_eq!(source_color(2), Color::Magenta);
    assert_eq!(source_color(7), Color::LightCyan);
    assert_eq!(source_color(13), Color::LightRed);
}

#[test]
fn level_styles() {
    let e = LogLevel::Error.style();
    assert_eq!(e.fg, Some(Color::Red));
    assert!(e.bold);
    assert_eq!(LogLevel::Warn.style().fg, Some(Color::Yellow));
    assert_eq!(LogLevel::Info.style().fg, Some(Color::Green));
    assert_eq!(LogLevel::Debug.style().fg, Some(Color::Cyan));
    assert_eq!(LogLevel::Trace.style().fg, Some(Color::DarkGray));
    assert!(!LogLevel::Trace.style().bold);
}

#[test]
fn detect_level_each_severity_over_lower() {
    assert_eq!(detect_level("WARN: x [DEBUG] y"), Some(LogLevel::Warn));
    assert_eq!(detect_level("level=debug [TRACE]"), Some(LogLevel::Debug));
    assert_eq!(detect_level("trace: deep"), Some(LogLevel::Trace));
}

#[test]
fn find_timestamps_other_formats() {
    let line = "Jan  5 10:00:01 host sshd: accepted";
    let spans = find_timestamps(line);
    assert_eq!(spans.len(), 1);
    assert_eq!(&line[spans[0].0..spans[0].1], "Jan  5 10:00:01");

    let line = "127.0.0.1 - - [10/Oct/2000:13:55:36 -0700] GET";
    let spans = find_timestamps(line);
    assert_eq!(&line[spans[0].0..spans[0].1], "10/Oct/2000:13:55:36");

    let line = "at 1717000000 and 1717000000123";
    let spans = find_timestamps(line);
    assert_eq!(spans, vec![(3, 13), (18, 31)]);
}

#[test]
fn pretty_json_trims_and_rejects_scalars_only_when_invalid() {
    let pretty = pretty_json("   {\"k\": [1, 2]}   ").expect("valid json");
    assert_eq!(pretty, "{\n  \"k\": [\n    1,\n    2\n  ]\n}");
    assert_eq!(pretty_json("42").as_deref(), Some("42"));
    assert!(pretty_json("").is_none());
}

#[test]
fn is_json_line_edge_cases() {
    assert!(!is_json_line(""));
    assert!(!is_json_line("   "));
    assert!(!is_json_line("{"));
    assert!(is_json_line("{}"));
    assert!(is_json_line("\t{x}\n"));
}

#[test]
fn highlighter_agrees_with_free_functions() {
    let hl = Highlighter::new();
    for line in ["[ERROR] x", "warn: y", "level=info", "DEBUG z", "[trace]", "plain", "2026-05-30T12:34:56Z a 1717000000"] {
        assert_eq!(hl.detect_level(line), detect_level(line));
        assert_eq!(hl.find_timestamps(line), find_timestamps(line));
    }
}

#[test]
fn detect_level_keyword_must_start_a_word() {
    assert_eq!(detect_level("terror alert"), None);
    assert_eq!(detect_level("mywarning: x"), None);
    assert_eq!(detect_level("disk error: full"), Some(LogLevel::Error));
    assert_eq!(detect_level("retry warn: slow"), Some(LogLevel::Warn));
}

#[test]
fn is_json_line_trims_unicode_whitespace() {
    assert!(is_json_line("\u{3000}\t{\"a\":1}\u{2029}\u{85}"));
    assert!(is_json_line("\u{a0}{}\u{202f}"));
    // A zero-width space is not whitespace.
    assert!(!is_json_line("\u{200b}{}"));
    assert!(!is_json_line("{}\u{feff}"));
}

#[test]
fn trimming_whitespace_agrees_with_std_for_every_char() {
    for c in (0u32..=0x10FFFF).filter_map(char::from_u32) {
        if c == '{' || c == '}' {
            continue;
        }
        let line = format!("{c}{{}}{c}");
        assert_eq!(is_json_line(&line), c.is_whitespace(), "char {:?}", c);
    }
}
