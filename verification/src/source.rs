//! Messages from the input sources, what a file reader does after each
//! read, and what the viewer does with the messages.
use vstd::prelude::*;
use vstd::string::{StrSliceExecFns, StringExecFns};
use crate::app::{App, LogLine};
use crate::laws::law_drain_then_resume_is_current;
use std::collections::VecDeque;
use crate::text::chars_of;

verus! {

/// A message from a source reader.
pub enum SourceMsg {
    /// A line read from source `source_idx`.
    Line { content: String, source_idx: usize },
    /// A read error on source `source_idx`.
    Error { msg: String, source_idx: usize },
    /// Source `source_idx` reached its end.
    Eof { source_idx: usize },
}

/// The text in front of a read error when it is shown as a line.
pub const ERROR_LINE_PREFIX: &'static str = "[log-lens error] ";

impl App {
    /// `after` is `before` having taken in `msg`: a line is appended; a read
    /// error is appended as a line of source 0 carrying the error text; end
    /// of input changes nothing.
    pub open spec fn took_in(before: App, after: App, msg: SourceMsg) -> bool {
        match msg {
            SourceMsg::Line { content, source_idx } => App::line_added(
                before,
                after,
                LogLine { content, source_idx },
            ),
            SourceMsg::Error { msg, source_idx } => after.lines@.len() > 0
                && after.lines@.last().content@ == ERROR_LINE_PREFIX@ + msg@
                && after.lines@.last().source_idx == 0
                && App::line_added(before, after, after.lines@.last()),
            SourceMsg::Eof { .. } => after == before,
        }
    }

    /// Takes in one message: a line is appended; a read error is appended as
    /// a line of source 0 carrying the error text; end of input changes
    /// nothing. Returns whether a line was appended.
    pub fn ingest(&mut self, msg: SourceMsg) -> (got_new: bool)
        requires
            old(self).wf(),
        ensures
            final(self).wf(),
            got_new == !(msg is Eof),
            App::took_in(*old(self), *final(self), msg),
            old(self).lines@.len() <= old(self).capacity() ==> final(self).lines@.len() <= final(self).capacity(),
            old(self).filter_current() && !final(self).needs_refilter ==> final(self).filter_current(),
            forall|m: int|
                old(self).filter_current() && old(self).search_prefix_current(m) && !final(self).needs_refilter
                    ==> #[trigger] final(self).search_prefix_current(m),
    {
        match msg {
            SourceMsg::Line { content, source_idx } => {
                self.add_line(content, source_idx);
                true
            },
            SourceMsg::Error { msg, source_idx: _ } => {
                let content = ERROR_LINE_PREFIX.to_owned().concat(msg.as_str());
                self.add_line(content, 0);
                true
            },
            SourceMsg::Eof { .. } => false,
        }
    }
}

/// `states` are the viewer's states as it takes in `msgs` one by one: the
/// first before any message, each next one after the message at its index.
pub open spec fn drained(states: Seq<App>, msgs: Seq<SourceMsg>) -> bool {
    &&& states.len() == msgs.len() + 1
    &&& forall|i: int| 0 <= i < msgs.len() ==> App::took_in(states[i], #[trigger] states[i + 1], msgs[i])
}

impl App {
    /// Takes in the messages that arrived, in order, then brings the view up
    /// to date. Returns whether a line was appended. When the view and the
    /// search hits were up to date (or due for a rebuild) before, they are
    /// afterwards exactly what a rebuild from scratch gives, whether a
    /// rebuild happened or the search was resumed.
    pub fn take_in(&mut self, msgs: VecDeque<SourceMsg>) -> (got_new: bool)
        requires
            old(self).wf(),
        ensures
            final(self).wf(),
            got_new == exists|i: int| 0 <= i < msgs@.len() && !(#[trigger] msgs@[i] is Eof),
            exists|states: Seq<App>|
                #![trigger drained(states, msgs@)]
                drained(states, msgs@) && states[0] == *old(self) && App::view_synced(
                    states.last(),
                    *final(self),
                    got_new,
                ),
            old(self).needs_refilter || (old(self).filter_current() && old(self).search_current())
                ==> final(self).filter_current() && final(self).search_current(),
    {
        let ghost start = *self;
        let ghost all = msgs@;
        let mut pending = msgs;
        let mut got_new = false;
        let ghost mut states: Seq<App> = seq![*self];
        while pending.len() > 0
            invariant
                self.wf(),
                states.len() >= 1,
                states.len() - 1 <= all.len(),
                states[0] == start,
                states.last() == *self,
                drained(states, all.take(states.len() - 1)),
                pending@ == all.skip(states.len() - 1),
                got_new == exists|i: int| 0 <= i < states.len() - 1 && !(#[trigger] all[i] is Eof),
                !got_new ==> *self == start,
                start.needs_refilter ==> self.needs_refilter,
            decreases pending@.len(),
        {
            let ghost k = states.len() - 1;
            match pending.pop_front() {
                Some(msg) => {
                    assert(msg == all[k]);
                    let got = self.ingest(msg);
                    proof {
                        let prev = states;
                        states = states.push(*self);
                        assert(all.take(k + 1) == all.take(k).push(all[k]));
                        assert forall|i: int| 0 <= i < all.take(k + 1).len() implies App::took_in(
                            states[i],
                            #[trigger] states[i + 1],
                            all.take(k + 1)[i],
                        ) by {
                            if i < k {
                                assert(prev[i] == states[i]);
                                assert(prev[i + 1] == states[i + 1]);
                                assert(all.take(k)[i] == all.take(k + 1)[i]);
                            }
                        }
                        assert(all.skip(k + 1) =~= all.skip(k).drop_first());
                        if got {
                            assert(!(all[k] is Eof));
                        }
                    }
                    got_new = got_new || got;
                },
                None => {},
            }
        }
        proof {
            assert(all.take(all.len() as int) =~= all);
        }
        let ghost mid = *self;
        self.sync_view(got_new);
        proof {
            if !mid.needs_refilter && start.filter_current() && start.search_current() {
                law_drain_then_resume_is_current(states, all);
                if !got_new || mid.search.pattern@.len() == 0 {
                    assert(mid.search_prefix_current(start.filtered_indices@.len() as int));
                }
            }
            assert(drained(states, msgs@));
        }
        got_new
    }
}

/// `s` without the copies of `c` at its end.
pub open spec fn without_trailing(s: Seq<char>, c: char) -> Seq<char>
    decreases s.len(),
{
    if s.len() > 0 && s.last() == c {
        without_trailing(s.drop_last(), c)
    } else {
        s
    }
}

/// A line as read, without its line ending: trailing `\n`s, then trailing
/// `\r`s, removed.
pub open spec fn spec_strip_line_ending(s: Seq<char>) -> Seq<char> {
    without_trailing(without_trailing(s, '\n'), '\r')
}

fn trailing_start(chars: &Vec<char>, end: usize, c: char) -> (j: usize)
    requires
        end <= chars@.len(),
    ensures
        j <= end,
        chars@.subrange(0, j as int) == without_trailing(chars@.subrange(0, end as int), c),
{
    let mut j = end;
    while j > 0 && chars[j - 1] == c
        invariant
            j <= end <= chars@.len(),
            without_trailing(chars@.subrange(0, end as int), c) == without_trailing(
                chars@.subrange(0, j as int),
                c,
            ),
        decreases j,
    {
        assert(chars@.subrange(0, j as int).drop_last() =~= chars@.subrange(0, j - 1));
        j = j - 1;
    }
    j
}

/// Removes a read line's line ending: trailing `\n`s, then trailing `\r`s.
pub fn strip_line_ending(line: &str) -> (r: String)
    ensures
        r@ == spec_strip_line_ending(line@),
{
    let chars = chars_of(line);
    let n = chars.len();
    assert(chars@.subrange(0, n as int) =~= chars@);
    let j = trailing_start(&chars, n, '\n');
    let k = trailing_start(&chars, j, '\r');
    line.substring_char(0, k).to_owned()
}

/// What one read of a file gave.
pub enum ReadResult {
    /// Nothing more for now: the end of the file.
    End,
    /// A line as read, line ending included.
    Line(String),
    /// A read error, as its message.
    Failed(String),
}

/// What a file reader does after a read.
pub enum ReaderStep {
    /// Send the message and read on; stop once nobody receives messages.
    Send(SourceMsg),
    /// Send the message and stop reading.
    SendThenStop(SourceMsg),
    /// Wait a moment, then read again.
    Wait,
    /// Send the message, wait a moment, then read again.
    SendThenWait(SourceMsg),
}

/// The message sent for a read error on the file at `path`.
pub open spec fn read_error_text(path: Seq<char>, err: Seq<char>) -> Seq<char> {
    "Read error on "@ + path + ": "@ + err
}

/// The message sent when the file at `path` cannot be opened.
pub open spec fn open_error_text(path: Seq<char>, err: Seq<char>) -> Seq<char> {
    "Cannot open "@ + path + ": "@ + err
}

/// The file reader's decision after a read from source `source_idx`, the
/// file at `path`. At the end of the file a follower waits for more, and
/// otherwise the reader reports the end and stops. A line is sent without
/// its line ending. A read error is reported; then a follower waits and
/// tries again, and otherwise the reader stops.
pub fn reader_step(path: &str, source_idx: usize, follow: bool, read: ReadResult) -> (step: ReaderStep)
    ensures
        match read {
            ReadResult::End => if follow {
                step is Wait
            } else {
                step == ReaderStep::SendThenStop(SourceMsg::Eof { source_idx })
            },
            ReadResult::Line(raw) => match step {
                ReaderStep::Send(SourceMsg::Line { content, source_idx: i }) => content@
                    == spec_strip_line_ending(raw@) && i == source_idx,
                _ => false,
            },
            ReadResult::Failed(err) => match step {
                ReaderStep::SendThenWait(SourceMsg::Error { msg, source_idx: i }) => follow && msg@
                    == read_error_text(path@, err@) && i == source_idx,
                ReaderStep::SendThenStop(SourceMsg::Error { msg, source_idx: i }) => !follow && msg@
                    == read_error_text(path@, err@) && i == source_idx,
                _ => false,
            },
        },
{
    match read {
        ReadResult::End => if follow {
            ReaderStep::Wait
        } else {
            ReaderStep::SendThenStop(SourceMsg::Eof { source_idx })
        },
        ReadResult::Line(raw) => {
            let content = strip_line_ending(raw.as_str());
            ReaderStep::Send(SourceMsg::Line { content, source_idx })
        },
        ReadResult::Failed(err) => {
            let msg = "Read error on ".to_owned().concat(path).concat(": ").concat(err.as_str());
            let m = SourceMsg::Error { msg, source_idx };
            if follow {
                ReaderStep::SendThenWait(m)
            } else {
                ReaderStep::SendThenStop(m)
            }
        },
    }
}

/// The message a file reader sends, before it stops, when the file at
/// `path` cannot be opened.
pub fn open_error(path: &str, err: &str, source_idx: usize) -> (m: SourceMsg)
    ensures
        match m {
            SourceMsg::Error { msg, source_idx: i } => msg@ == open_error_text(path@, err@) && i == source_idx,
            _ => false,
        },
{
    let msg = "Cannot open ".to_owned().concat(path).concat(": ").concat(err);
    SourceMsg::Error { msg, source_idx }
}

} // verus!
