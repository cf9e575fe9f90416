use log_lens::app::App;
use log_lens::source::{open_error, reader_step, strip_line_ending, ReadResult, ReaderStep, SourceMsg};

#[test]
fn ingest_messages() {
    let mut app = App::new(10, vec!["f".to_string()], false);
    assert!(app.ingest(SourceMsg::Line { content: "hello".to_string(), source_idx: 0 }));
    assert!(app.ingest(SourceMsg::Error { msg: "boom".to_string(), source_idx: 1 }));
    assert!(!app.ingest(SourceMsg::Eof { source_idx: 0 }));
    assert_eq!(app.total_count(), 2);
    assert_eq!(app.lines[1].content, "[log-lens error] boom");
    assert_eq!(app.lines[1].source_idx, 0);
}

#[test]
fn strip_line_endings() {
    assert_eq!(strip_line_ending("abc\n"), "abc");
    assert_eq!(strip_line_ending("abc\r\n"), "abc");
    assert_eq!(strip_line_ending("abc\n\n"), "abc");
    assert_eq!(strip_line_ending("abc\r\r\n"), "abc");
    assert_eq!(strip_line_ending("a\nb"), "a\nb");
    assert_eq!(strip_line_ending("abc\n\r"), "abc\n");
    assert_eq!(strip_line_ending(""), "");
}

#[test]
fn reader_step_at_end_of_file() {
    assert!(matches!(reader_step("a.log", 2, true, ReadResult::End), ReaderStep::Wait));
    assert!(matches!(
        reader_step("a.log", 2, false, ReadResult::End),
        ReaderStep::SendThenStop(SourceMsg::Eof { source_idx: 2 })
    ));
}

#[test]
fn reader_step_sends_lines_without_line_ending() {
    for follow in [true, false] {
        match reader_step("a.log", 1, follow, ReadResult::Line("hello\r\n".to_string())) {
            ReaderStep::Send(SourceMsg::Line { content, source_idx }) => {
                assert_eq!(content, "hello");
                assert_eq!(source_idx, 1);
            }
            _ => panic!("a line is sent and reading goes on"),
        }
    }
}

#[test]
fn reader_step_on_read_error() {
    match reader_step("/var/log/x", 3, true, ReadResult::Failed("bad utf-8".to_string())) {
        ReaderStep::SendThenWait(SourceMsg::Error { msg, source_idx }) => {
            assert_eq!(msg, "Read error on /var/log/x: bad utf-8");
            assert_eq!(source_idx, 3);
        }
        _ => panic!("a follower reports the error and waits"),
    }
    match reader_step("/var/log/x", 3, false, ReadResult::Failed("bad utf-8".to_string())) {
        ReaderStep::SendThenStop(SourceMsg::Error { msg, source_idx }) => {
            assert_eq!(msg, "Read error on /var/log/x: bad utf-8");
            assert_eq!(source_idx, 3);
        }
        _ => panic!("a reader that does not follow reports the error and stops"),
    }
}

#[test]
fn open_error_message() {
    match open_error("missing.log", "No such file or directory (os error 2)", 4) {
        SourceMsg::Error { msg, source_idx } => {
            assert_eq!(msg, "Cannot open missing.log: No such file or directory (os error 2)");
            assert_eq!(source_idx, 4);
        }
        _ => panic!("an open failure is reported as an error"),
    }
}
