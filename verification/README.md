# log-lens

A streaming log viewer for the terminal, whose core is verified with Verus.

- `src/` is the verified library: the bounded line buffer, stackable
  include/exclude regex filters and the filtered view, search with
  next/previous hits, bookmarks, scrolling and follow mode (`app.rs`); the
  key map and what each key does (`input.rs`); source messages and what a
  file reader does after each read, tailing included (`source.rs`);
  line classification for highlighting (`highlight.rs`); how a line is cut
  into highlighted segments (`render.rs`) and what the status bar, line
  labels and bookmark list show (`screen.rs`). Regex matching and JSON
  parsing are done by the `regex` and `serde_json` crates (`pattern.rs`,
  `json.rs`); `laws.rs` proves properties that span calls.
- `app/` is the program around it: argument parsing, the reads, sends and
  sleeps of the source readers, the terminal, drawing with ratatui, and the clipboard.
- `tests/` runs the library on concrete inputs.
