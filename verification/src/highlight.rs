//! Classification of log lines for highlighting: severity level, timestamps,
//! JSON lines, and the colour given to each input source.
use vstd::prelude::*;
use crate::json::{json_pretty, json_pretty_of};
use crate::pattern::{compile, find_spans, is_match, regex_compiles, regex_match_spans, regex_matches, CompiledPattern};
use crate::text::{chars_of, trim_bounds, trimmed};
use vstd::string::{StrSliceExecFns, StringSliceAdditionalSpecFns};

verus! {

/// Severity of a log line.
#[derive(Debug, Clone, Copy, PartialEq, Eq, Structural)]
pub enum LogLevel {
    Error,
    Warn,
    Info,
    Debug,
    Trace,
}

/// The colours the viewer draws with.
#[derive(Debug, Clone, Copy, PartialEq, Eq, Structural)]
pub enum Color {
    Black,
    Red,
    Green,
    Yellow,
    Blue,
    Magenta,
    Cyan,
    DarkGray,
    LightRed,
    LightGreen,
    LightCyan,
    Rgb(u8, u8, u8),
}

/// A text style: optional foreground and background colours, and boldness.
#[derive(Debug, Clone, Copy, PartialEq, Eq, Structural)]
pub struct TextStyle {
    pub fg: Option<Color>,
    pub bg: Option<Color>,
    pub bold: bool,
}

impl TextStyle {
    /// No colours, not bold.
    pub fn plain() -> (s: TextStyle)
        ensures
            s == (TextStyle { fg: None, bg: None, bold: false }),
    {
        TextStyle { fg: None, bg: None, bold: false }
    }

    /// Only a foreground colour.
    pub fn fg(color: Color) -> (s: TextStyle)
        ensures
            s == (TextStyle { fg: Some(color), bg: None, bold: false }),
    {
        TextStyle { fg: Some(color), bg: None, bold: false }
    }
}

impl LogLevel {
    /// The style in which lines of this level are drawn.
    pub open spec fn spec_style(self) -> TextStyle {
        match self {
            LogLevel::Error => TextStyle { fg: Some(Color::Red), bg: None, bold: true },
            LogLevel::Warn => TextStyle { fg: Some(Color::Yellow), bg: None, bold: false },
            LogLevel::Info => TextStyle { fg: Some(Color::Green), bg: None, bold: false },
            LogLevel::Debug => TextStyle { fg: Some(Color::Cyan), bg: None, bold: false },
            LogLevel::Trace => TextStyle { fg: Some(Color::DarkGray), bg: None, bold: false },
        }
    }

    /// The style in which lines of this level are drawn: red and bold for
    /// errors, yellow, green, cyan and dark grey for the others.
    pub fn style(self) -> (s: TextStyle)
        ensures
            s == self.spec_style(),
    {
        match self {
            LogLevel::Error => TextStyle { fg: Some(Color::Red), bg: None, bold: true },
            LogLevel::Warn => TextStyle::fg(Color::Yellow),
            LogLevel::Info => TextStyle::fg(Color::Green),
            LogLevel::Debug => TextStyle::fg(Color::Cyan),
            LogLevel::Trace => TextStyle::fg(Color::DarkGray),
        }
    }
}

/// Case-insensitive pattern of an error line. The bare keyword must start a
/// word, so that "error" inside a word does not count.
pub const ERROR_PATTERN: &'static str = r#"(?i)(\[ERROR\]|\bERROR[:\s]|level=error|"level"\s*:\s*"error")"#;
/// Case-insensitive pattern of a warning line.
pub const WARN_PATTERN: &'static str = r#"(?i)(\[WARN(ING)?\]|\bWARN(ING)?[:\s]|level=warn(ing)?|"level"\s*:\s*"warn(ing)?")"#;
/// Case-insensitive pattern of an info line.
pub const INFO_PATTERN: &'static str = r#"(?i)(\[INFO\]|\bINFO[:\s]|level=info|"level"\s*:\s*"info")"#;
/// Case-insensitive pattern of a debug line.
pub const DEBUG_PATTERN: &'static str = r#"(?i)(\[DEBUG\]|\bDEBUG[:\s]|level=debug|"level"\s*:\s*"debug")"#;
/// Case-insensitive pattern of a trace line.
pub const TRACE_PATTERN: &'static str = r#"(?i)(\[TRACE\]|\bTRACE[:\s]|level=trace|"level"\s*:\s*"trace")"#;
/// Timestamps: ISO 8601 (optional fraction and zone), syslog, Apache CLF,
/// and Unix epoch seconds or milliseconds.
pub const TIMESTAMP_PATTERN: &'static str = r"(\d{4}-\d{2}-\d{2}[T ]\d{2}:\d{2}:\d{2}(\.\d+)?([Zz]|[+-]\d{2}:?\d{2})?|[A-Z][a-z]{2}\s+\d{1,2}\s+\d{2}:\d{2}:\d{2}|\d{2}/[A-Z][a-z]{2}/\d{4}:\d{2}:\d{2}:\d{2}|\d{10,13})";

/// A built-in pattern finds a match in `text`. A pattern that does not
/// compile finds nothing.
pub open spec fn pattern_finds(pattern: Seq<char>, text: Seq<char>) -> bool {
    regex_compiles(pattern) && regex_matches(pattern, text)
}

/// `compiled` is the compiled `pattern`, or `None` when it does not compile.
pub open spec fn holds_pattern(compiled: Option<CompiledPattern>, pattern: Seq<char>) -> bool {
    match compiled {
        Some(cp) => cp@ == pattern && regex_compiles(pattern),
        None => !regex_compiles(pattern),
    }
}

fn compiled(pattern: &str) -> (c: Option<CompiledPattern>)
    ensures
        holds_pattern(c, pattern@),
{
    match compile(pattern) {
        Ok(cp) => Some(cp),
        Err(_) => None,
    }
}

fn finds(compiled: &Option<CompiledPattern>, Ghost(pattern): Ghost<Seq<char>>, text: &str) -> (b: bool)
    requires
        holds_pattern(*compiled, pattern),
    ensures
        b == pattern_finds(pattern, text@),
{
    match compiled {
        Some(cp) => is_match(cp, text),
        None => false,
    }
}

/// The built-in patterns, compiled once: the five level patterns and the
/// timestamp pattern.
pub struct Highlighter {
    error: Option<CompiledPattern>,
    warn: Option<CompiledPattern>,
    info: Option<CompiledPattern>,
    debug: Option<CompiledPattern>,
    trace: Option<CompiledPattern>,
    timestamp: Option<CompiledPattern>,
}

impl Highlighter {
    /// Each field holds its built-in pattern compiled: the five level
    /// patterns and the timestamp pattern, each `None` only when it does not
    /// compile.
    #[verifier::type_invariant]
    pub closed spec fn holds_builtins(self) -> bool {
        &&& holds_pattern(self.error, ERROR_PATTERN@)
        &&& holds_pattern(self.warn, WARN_PATTERN@)
        &&& holds_pattern(self.info, INFO_PATTERN@)
        &&& holds_pattern(self.debug, DEBUG_PATTERN@)
        &&& holds_pattern(self.trace, TRACE_PATTERN@)
        &&& holds_pattern(self.timestamp, TIMESTAMP_PATTERN@)
    }

    /// Compiles the built-in patterns.
    pub fn new() -> (h: Highlighter)
        ensures
            h.holds_builtins(),
    {
        Highlighter {
            error: compiled(ERROR_PATTERN),
            warn: compiled(WARN_PATTERN),
            info: compiled(INFO_PATTERN),
            debug: compiled(DEBUG_PATTERN),
            trace: compiled(TRACE_PATTERN),
            timestamp: compiled(TIMESTAMP_PATTERN),
        }
    }

    /// Detects the log level of a line, checking the most severe first.
    pub fn detect_level(&self, line: &str) -> (r: Option<LogLevel>)
        ensures
            r == spec_detect_level(line@),
    {
        proof {
            use_type_invariant(self);
        }
        if finds(&self.error, Ghost(ERROR_PATTERN@), line) {
            Some(LogLevel::Error)
        } else if finds(&self.warn, Ghost(WARN_PATTERN@), line) {
            Some(LogLevel::Warn)
        } else if finds(&self.info, Ghost(INFO_PATTERN@), line) {
            Some(LogLevel::Info)
        } else if finds(&self.debug, Ghost(DEBUG_PATTERN@), line) {
            Some(LogLevel::Debug)
        } else if finds(&self.trace, Ghost(TRACE_PATTERN@), line) {
            Some(LogLevel::Trace)
        } else {
            None
        }
    }

    /// Finds the byte spans `(start, end)` of the timestamps in a line, in
    /// order and without overlap, each non-empty and with both ends on
    /// character boundaries.
    pub fn find_timestamps(&self, line: &str) -> (r: Vec<(usize, usize)>)
        ensures
            r@ == spec_timestamps(line@),
            forall|k: int| 0 <= k < r@.len() ==> #[trigger] r@[k].0 < r@[k].1 <= line.len(),
            forall|k: int|
                0 <= k < r@.len() ==> vstd::utf8::is_char_boundary(line.spec_bytes(), #[trigger] r@[k].0 as int)
                    && vstd::utf8::is_char_boundary(line.spec_bytes(), r@[k].1 as int),
            forall|k: int| 0 <= k < r@.len() - 1 ==> #[trigger] r@[k].1 <= r@[k + 1].0,
    {
        proof {
            use_type_invariant(self);
        }
        match &self.timestamp {
            Some(cp) => find_spans(cp, line),
            None => Vec::new(),
        }
    }
}

/// The level of a line: the most severe level whose pattern it matches.
pub open spec fn spec_detect_level(line: Seq<char>) -> Option<LogLevel> {
    if pattern_finds(ERROR_PATTERN@, line) {
        Some(LogLevel::Error)
    } else if pattern_finds(WARN_PATTERN@, line) {
        Some(LogLevel::Warn)
    } else if pattern_finds(INFO_PATTERN@, line) {
        Some(LogLevel::Info)
    } else if pattern_finds(DEBUG_PATTERN@, line) {
        Some(LogLevel::Debug)
    } else if pattern_finds(TRACE_PATTERN@, line) {
        Some(LogLevel::Trace)
    } else {
        None
    }
}

/// Detects the log level of a line, checking the most severe first.
pub fn detect_level(line: &str) -> (r: Option<LogLevel>)
    ensures
        r == spec_detect_level(line@),
{
    Highlighter::new().detect_level(line)
}

/// The timestamp spans of a line: the matches of the timestamp pattern.
pub open spec fn spec_timestamps(line: Seq<char>) -> Seq<(usize, usize)> {
    if regex_compiles(TIMESTAMP_PATTERN@) {
        regex_match_spans(TIMESTAMP_PATTERN@, line)
    } else {
        Seq::empty()
    }
}

/// Finds the byte spans `(start, end)` of the timestamps in a line, in order
/// and without overlap, each non-empty and with both ends on character
/// boundaries.
pub fn find_timestamps(line: &str) -> (r: Vec<(usize, usize)>)
    ensures
        r@ == spec_timestamps(line@),
        forall|k: int| 0 <= k < r@.len() ==> #[trigger] r@[k].0 < r@[k].1 <= line.len(),
        forall|k: int|
            0 <= k < r@.len() ==> vstd::utf8::is_char_boundary(line.spec_bytes(), #[trigger] r@[k].0 as int)
                && vstd::utf8::is_char_boundary(line.spec_bytes(), r@[k].1 as int),
        forall|k: int| 0 <= k < r@.len() - 1 ==> #[trigger] r@[k].1 <= r@[k + 1].0,
{
    match compiled(TIMESTAMP_PATTERN) {
        Some(cp) => find_spans(&cp, line),
        None => Vec::new(),
    }
}

/// A line is a JSON line when, trimmed of whitespace, it starts with `{` and
/// ends with `}`.
pub open spec fn spec_is_json_line(line: Seq<char>) -> bool {
    let t = trimmed(line);
    t.len() > 0 && t[0] == '{' && t[t.len() - 1] == '}'
}

/// Whether a line looks like a JSON object.
pub fn is_json_line(line: &str) -> (b: bool)
    ensures
        b == spec_is_json_line(line@),
{
    let chars = chars_of(line);
    let (start, end) = trim_bounds(&chars);
    start < end && chars[start] == '{' && chars[end - 1] == '}'
}

/// Pretty-prints a JSON line, trimmed of whitespace first; `None` when it is
/// not valid JSON.
pub fn pretty_json(line: &str) -> (r: Option<String>)
    ensures
        match r {
            Some(s) => json_pretty_of(trimmed(line@)) == Some(s@),
            None => json_pretty_of(trimmed(line@)) is None,
        },
{
    let chars = chars_of(line);
    let (start, end) = trim_bounds(&chars);
    let t = line.substring_char(start, end);
    json_pretty(t)
}

/// The palette of source colours, in order.
pub open spec fn palette(k: int) -> Color {
    if k == 0 {
        Color::Green
    } else if k == 1 {
        Color::Cyan
    } else if k == 2 {
        Color::Magenta
    } else if k == 3 {
        Color::Yellow
    } else if k == 4 {
        Color::Blue
    } else if k == 5 {
        Color::LightRed
    } else if k == 6 {
        Color::LightGreen
    } else {
        Color::LightCyan
    }
}

/// The number of colours in the source palette.
pub const PALETTE_LEN: usize = 8;

/// The colour of source `idx` in multi-source mode: the palette, cycled.
pub fn source_color(idx: usize) -> (c: Color)
    ensures
        c == palette(idx as int % PALETTE_LEN as int),
{
    let k = idx % PALETTE_LEN;
    if k == 0 {
        Color::Green
    } else if k == 1 {
        Color::Cyan
    } else if k == 2 {
        Color::Magenta
    } else if k == 3 {
        Color::Yellow
    } else if k == 4 {
        Color::Blue
    } else if k == 5 {
        Color::LightRed
    } else if k == 6 {
        Color::LightGreen
    } else {
        Color::LightCyan
    }
}

} // verus!
