//! The viewer's state: a bounded buffer of log lines, the stack of filters
//! and the filtered view they give, search, bookmarks and scrolling.
use vstd::prelude::*;
use std::collections::VecDeque;
use crate::laws::{lemma_hits_bound, lemma_hits_extend, lemma_hits_last, lemma_hits_split, lemma_passing_bound, lemma_passing_extend};
use crate::pattern::{compile, is_match, regex_compile_error, regex_compiles, regex_matches, CompiledPattern};

verus! {

/// A log line and the index of the source (file or stdin) it came from.
#[derive(Clone, Debug)]
pub struct LogLine {
    pub content: String,
    pub source_idx: usize,
}

/// A filter: a regex pattern, compiled, and whether it hides matching lines
/// (`inverse`) or shows only matching lines.
pub struct Filter {
    pub pattern: String,
    pub regex: CompiledPattern,
    pub inverse: bool,
}

/// Search state: the active pattern (empty when no search is active) and
/// its compiled regex, the selected match, and the positions in the filtered
/// view whose lines match.
pub struct SearchState {
    pub pattern: String,
    pub regex: Option<CompiledPattern>,
    pub current_match: Option<usize>,
    pub match_indices: Vec<usize>,
}

impl SearchState {
    /// No search.
    pub open spec fn is_empty_search(self) -> bool {
        &&& self.pattern@.len() == 0
        &&& self.regex is None
        &&& self.current_match is None
        &&& self.match_indices@.len() == 0
    }

    /// The compiled regex is there exactly when a search is active, and is
    /// the active pattern's.
    pub open spec fn consistent(self) -> bool {
        &&& self.regex is Some <==> self.pattern@.len() > 0
        &&& self.regex matches Some(r) ==> r@ == self.pattern@
    }

    /// A state with no active search.
    pub fn new() -> (s: SearchState)
        ensures
            s.is_empty_search(),
    {
        SearchState { pattern: String::new(), regex: None, current_match: None, match_indices: Vec::new() }
    }

    /// Drops the active search.
    pub fn clear(&mut self)
        ensures
            final(self).is_empty_search(),
    {
        self.pattern = String::new();
        self.regex = None;
        self.current_match = None;
        self.match_indices = Vec::new();
    }

    /// Whether a search is active.
    pub fn is_active(&self) -> (b: bool)
        ensures
            b == (self.pattern@.len() > 0),
    {
        !self.pattern.as_str().is_empty()
    }
}

/// Input mode of the terminal front end.
#[derive(PartialEq, Eq, Structural, Clone, Copy, Debug)]
pub enum InputMode {
    Normal,
    FilterInput,
    InverseFilterInput,
    SearchInput,
}

/// Whether the bookmark list is open.
#[derive(PartialEq, Eq, Structural, Clone, Copy, Debug)]
pub enum PopupState {
    Closed,
    BookmarkList,
}

/// The whole viewer state.
pub struct App {
    pub lines: VecDeque<LogLine>,
    pub buffer_size: usize,
    pub source_names: Vec<String>,
    pub scroll_offset: usize,
    pub auto_scroll: bool,
    pub line_wrap: bool,
    pub viewport_height: usize,
    pub filters: Vec<Filter>,
    pub filtered_indices: Vec<usize>,
    pub search: SearchState,
    pub input_mode: InputMode,
    pub input_buffer: String,
    pub bookmarks: Vec<usize>,
    pub popup: PopupState,
    pub bookmark_scroll: usize,
    pub _follow_mode: bool,
    pub should_quit: bool,
    pub needs_refilter: bool,
}

/// A filter lets `text` through: an inverse filter when its pattern does not
/// match, a plain one when it does.
pub open spec fn filter_admits(f: Filter, text: Seq<char>) -> bool {
    if f.inverse {
        !regex_matches(f.pattern@, text)
    } else {
        regex_matches(f.pattern@, text)
    }
}

/// `text` gets through every filter.
pub open spec fn passes_filters(filters: Seq<Filter>, text: Seq<char>) -> bool {
    forall|k: int| 0 <= k < filters.len() ==> filter_admits(#[trigger] filters[k], text)
}

/// Line `idx` exists and gets through every filter.
pub open spec fn line_passes(lines: Seq<LogLine>, filters: Seq<Filter>, idx: int) -> bool {
    0 <= idx < lines.len() && passes_filters(filters, lines[idx].content@)
}

/// The indices below `n` of the lines that pass the filters, ascending.
pub open spec fn passing_indices(lines: Seq<LogLine>, filters: Seq<Filter>, n: int) -> Seq<usize>
    decreases n,
{
    if n <= 0 {
        Seq::empty()
    } else {
        let p = passing_indices(lines, filters, n - 1);
        if line_passes(lines, filters, n - 1) {
            p.push((n - 1) as usize)
        } else {
            p
        }
    }
}

/// The filtered view: the indices of all lines that pass the filters.
pub open spec fn filtered_view(lines: Seq<LogLine>, filters: Seq<Filter>) -> Seq<usize> {
    passing_indices(lines, filters, lines.len() as int)
}

/// Position `fi` of the filtered view names an existing line that the
/// search pattern matches.
pub open spec fn search_hit(lines: Seq<LogLine>, filtered: Seq<usize>, pattern: Seq<char>, fi: int) -> bool {
    filtered[fi] < lines.len() && regex_matches(pattern, lines[filtered[fi] as int].content@)
}

/// The positions below `n` of the filtered view that are search hits.
pub open spec fn search_hits(lines: Seq<LogLine>, filtered: Seq<usize>, pattern: Seq<char>, n: int) -> Seq<usize>
    decreases n,
{
    if n <= 0 {
        Seq::empty()
    } else {
        let p = search_hits(lines, filtered, pattern, n - 1);
        if search_hit(lines, filtered, pattern, n - 1) {
            p.push((n - 1) as usize)
        } else {
            p
        }
    }
}

/// The positions in `[lo, n)` of the filtered view that are search hits.
pub open spec fn hits_between(lines: Seq<LogLine>, filtered: Seq<usize>, pattern: Seq<char>, lo: int, n: int) -> Seq<usize>
    decreases n - lo,
{
    if n <= lo {
        Seq::empty()
    } else {
        let p = hits_between(lines, filtered, pattern, lo, n - 1);
        if search_hit(lines, filtered, pattern, n - 1) {
            p.push((n - 1) as usize)
        } else {
            p
        }
    }
}

/// Where an incremental search scan resumes: one past the last known hit.
pub open spec fn resume_position(hits: Seq<usize>) -> int {
    if hits.len() > 0 {
        hits.last() + 1
    } else {
        0
    }
}

/// The selected match after the hit list changed to `len` entries: one
/// past the end is pulled back to the last hit, or dropped when there is
/// none.
pub open spec fn adjusted_match(current: Option<usize>, len: nat) -> Option<usize> {
    match current {
        Some(cm) => if cm >= len {
            if len == 0 {
                None
            } else {
                Some((len - 1) as usize)
            }
        } else {
            Some(cm)
        },
        None => None,
    }
}

/// The first position from `i` on whose entry is at least `x`, or 0 when
/// there is none.
pub open spec fn first_at_least(s: Seq<usize>, x: usize, i: int) -> int
    decreases s.len() - i,
{
    if i < 0 || i >= s.len() {
        0
    } else if s[i] >= x {
        i
    } else {
        first_at_least(s, x, i + 1)
    }
}

/// The hit after `current`, wrapping around, among `n` hits.
pub open spec fn next_match(current: Option<usize>, n: nat) -> int {
    match current {
        Some(c) => (c + 1) % (n as int),
        None => 0,
    }
}

/// The hit before `current`, wrapping around, among `n` hits.
pub open spec fn prev_match(current: Option<usize>, n: nat) -> int {
    match current {
        Some(c) => if c == 0 {
            n - 1
        } else {
            c - 1
        },
        None => n - 1,
    }
}

/// The bookmarks once the oldest line (index 0) has left the buffer: the
/// bookmark on it goes, and every other one moves down by one so that it
/// names the same line. With strictly ascending bookmarks only the first can
/// be 0.
pub open spec fn bookmarks_after_eviction(b: Seq<usize>) -> Seq<usize> {
    let rest = if b.len() > 0 && b[0] == 0 {
        b.drop_first()
    } else {
        b
    };
    rest.map_values(|x: usize| (x - 1) as usize)
}

/// Strictly ascending: sorted, with nothing twice.
pub open spec fn strictly_sorted(s: Seq<usize>) -> bool {
    forall|i: int, j: int| 0 <= i < j < s.len() ==> s[i] < s[j]
}

/// `after` holds exactly what `before` holds, with `x` added when it was
/// missing and removed when it was there.
pub open spec fn toggled(before: Seq<usize>, x: usize, after: Seq<usize>) -> bool {
    forall|y: usize|
        after.contains(y) <==> (if y == x {
            !before.contains(x)
        } else {
            before.contains(y)
        })
}

pub(crate) proof fn lemma_sorted_remove(s: Seq<usize>, i: int)
    requires
        strictly_sorted(s),
        0 <= i < s.len(),
    ensures
        strictly_sorted(s.remove(i)),
        toggled(s, s[i], s.remove(i)),
{
    s.remove_ensures(i);
    let t = s.remove(i);
    assert forall|y: usize| t.contains(y) <==> (if y == s[i] { !s.contains(s[i]) } else { s.contains(y) }) by {
        if t.contains(y) {
            let k = choose|k: int| 0 <= k < t.len() && t[k] == y;
            if k < i {
                assert(s[k] == y);
            } else {
                assert(s[k + 1] == y);
            }
        }
        if y != s[i] && s.contains(y) {
            let k = choose|k: int| 0 <= k < s.len() && s[k] == y;
            if k < i {
                assert(t[k] == y);
            } else {
                assert(t[k - 1] == y);
            }
        }
        assert(s.contains(s[i]));
    }
}

proof fn lemma_sorted_insert(s: Seq<usize>, i: int, x: usize)
    requires
        strictly_sorted(s),
        0 <= i <= s.len(),
        forall|k: int| 0 <= k < i ==> s[k] < x,
        forall|k: int| i <= k < s.len() ==> s[k] > x,
    ensures
        strictly_sorted(s.insert(i, x)),
        toggled(s, x, s.insert(i, x)),
{
    s.insert_ensures(i, x);
    let t = s.insert(i, x);
    assert forall|a: int, b: int| 0 <= a < b < t.len() implies t[a] < t[b] by {
        if b < i {
        } else if b == i {
        } else if a < i {
            assert(t[b] == s[b - 1]);
        } else if a == i {
            assert(t[b] == s[b - 1]);
        } else {
            assert(t[b] == s[b - 1]);
            assert(t[a] == s[a - 1]);
        }
    }
    assert forall|y: usize| t.contains(y) <==> (if y == x { !s.contains(x) } else { s.contains(y) }) by {
        assert(t[i] == x);
        if s.contains(x) {
            let k = choose|k: int| 0 <= k < s.len() && s[k] == x;
            assert(false);
        }
        if t.contains(y) && y != x {
            let k = choose|k: int| 0 <= k < t.len() && t[k] == y;
            if k < i {
                assert(s[k] == y);
            } else {
                assert(s[k - 1] == y);
            }
        }
        if y != x && s.contains(y) {
            let k = choose|k: int| 0 <= k < s.len() && s[k] == y;
            if k < i {
                assert(t[k] == y);
            } else {
                assert(t[k + 1] == y);
            }
        }
    }
}

impl App {
    /// The state's invariant: the settings are valid, the selected search hit
    /// exists, and every hit is a position of the filtered view.
    pub open spec fn wf(self) -> bool {
        &&& self.settings_valid()
        &&& self.search.current_match matches Some(c) ==> c < self.search.match_indices@.len()
        &&& forall|k: int|
            0 <= k < self.search.match_indices@.len() ==> #[trigger] self.search.match_indices@[k]
                < self.filtered_indices@.len()
    }

    /// The part of the invariant that does not involve the search hits:
    /// filters and the active search hold the regex of their pattern,
    /// bookmarks are strictly
    /// ascending, and line indices leave room for their 1-based numbers.
    pub open spec fn settings_valid(self) -> bool {
        &&& self.filters_compile()
        &&& self.search.consistent()
        &&& strictly_sorted(self.bookmarks@)
        &&& forall|k: int| 0 <= k < self.bookmarks@.len() ==> #[trigger] self.bookmarks@[k] < usize::MAX
        &&& forall|k: int|
            0 <= k < self.filtered_indices@.len() ==> #[trigger] self.filtered_indices@[k] < usize::MAX
    }

    /// Every filter holds the regex of its pattern.
    pub open spec fn filters_compile(self) -> bool {
        forall|k: int| 0 <= k < self.filters@.len() ==> (#[trigger] self.filters@[k]).regex@ == self.filters@[k].pattern@
    }

    /// The search hits that the filtered view as it stands gives: none when
    /// no search is active.
    pub open spec fn expected_matches(self) -> Seq<usize> {
        if self.search.pattern@.len() > 0 {
            search_hits(self.lines@, self.filtered_indices@, self.search.pattern@, self.filtered_indices@.len() as int)
        } else {
            Seq::empty()
        }
    }

    /// The position in the filtered view that the cursor line commands act
    /// on: the scroll position, kept inside the view.
    pub open spec fn cursor(self) -> int {
        let n = self.filtered_indices@.len();
        if self.scroll_offset < n - 1 {
            self.scroll_offset as int
        } else {
            n - 1
        }
    }

    /// The filtered view is that of the current lines and filters.
    pub open spec fn filter_current(self) -> bool {
        self.filtered_indices@ == filtered_view(self.lines@, self.filters@)
    }

    /// The search hits are those of the current filtered view.
    pub open spec fn search_current(self) -> bool {
        self.search.match_indices@ == self.expected_matches()
    }

    /// The search hits are those of the first `m` positions of the filtered
    /// view.
    pub open spec fn search_prefix_current(self, m: int) -> bool {
        &&& 0 <= m <= self.filtered_indices@.len()
        &&& self.search.match_indices@ == if self.search.pattern@.len() > 0 {
            search_hits(self.lines@, self.filtered_indices@, self.search.pattern@, m)
        } else {
            Seq::empty()
        }
    }

    /// `after` is `before` with `line` appended to the buffer: the oldest
    /// line dropped when the buffer was full (which makes the filtered view
    /// stale, and moves every bookmark to the line's new index, the one on the
    /// dropped line going), else the new line joining an up-to-date view when
    /// it passes the filters.
    pub open spec fn line_added(before: App, after: App, line: LogLine) -> bool {
        let full = before.lines@.len() >= before.buffer_size;
        let evicted = full && before.lines@.len() > 0;
        let kept = if evicted {
            before.lines@.drop_first()
        } else {
            before.lines@
        };
        &&& after.lines@ == kept.push(line)
        &&& after.needs_refilter == (before.needs_refilter || full)
        &&& after.filtered_indices@ == if after.needs_refilter || !passes_filters(before.filters@, line.content@) {
            before.filtered_indices@
        } else {
            before.filtered_indices@.push(before.lines@.len() as usize)
        }
        &&& after.bookmarks@ == if evicted {
            bookmarks_after_eviction(before.bookmarks@)
        } else {
            before.bookmarks@
        }
        &&& after == (App {
            lines: after.lines,
            filtered_indices: after.filtered_indices,
            needs_refilter: after.needs_refilter,
            bookmarks: after.bookmarks,
            ..before
        })
    }

    /// The state after scrolling up by `n` lines.
    pub open spec fn spec_scroll_up(self, n: usize) -> App {
        App {
            scroll_offset: if self.scroll_offset >= n {
                (self.scroll_offset - n) as usize
            } else {
                0
            },
            auto_scroll: false,
            ..self
        }
    }

    /// The state after scrolling down by `n` lines.
    pub open spec fn spec_scroll_down(self, n: usize) -> App {
        let max: int = if self.filtered_indices@.len() > 0 {
            self.filtered_indices@.len() - 1
        } else {
            0
        };
        let target: int = self.scroll_offset + n;
        App { scroll_offset: if target < max { target as usize } else { max as usize }, ..self }
    }

    /// The scroll position that shows the last page of a view of `total`
    /// lines in a viewport of `height` lines.
    pub open spec fn last_page(total: nat, height: usize) -> usize {
        if total > height {
            (total - height) as usize
        } else {
            0
        }
    }

    /// The state after jumping to the bottom.
    pub open spec fn spec_scroll_to_bottom(self) -> App {
        App {
            auto_scroll: true,
            scroll_offset: if self.filtered_indices@.len() > 0 {
                App::last_page(self.filtered_indices@.len(), self.viewport_height)
            } else {
                self.scroll_offset
            },
            ..self
        }
    }

    /// The state after the follow-mode adjustment.
    pub open spec fn spec_maybe_auto_scroll(self) -> App {
        if self.auto_scroll && self.filtered_indices@.len() > 0 {
            App { scroll_offset: App::last_page(self.filtered_indices@.len(), self.viewport_height), ..self }
        } else {
            self
        }
    }

    /// The state after removing the last filter.
    pub open spec fn spec_pop_filter(self) -> App {
        if self.filters@.len() > 0 {
            App { needs_refilter: true, ..self }
        } else {
            self
        }
    }

    /// The state that selects hit `k` and scrolls to it.
    pub open spec fn select_match(self, k: int) -> App {
        App {
            search: SearchState { current_match: Some(k as usize), ..self.search },
            scroll_offset: self.search.match_indices@[k],
            auto_scroll: false,
            ..self
        }
    }

    /// The state after moving to the next search hit.
    pub open spec fn spec_search_next(self) -> App {
        let n = self.search.match_indices@.len();
        if n == 0 {
            self
        } else {
            self.select_match(next_match(self.search.current_match, n))
        }
    }

    /// The state after moving to the previous search hit.
    pub open spec fn spec_search_prev(self) -> App {
        let n = self.search.match_indices@.len();
        if n == 0 {
            self
        } else {
            self.select_match(prev_match(self.search.current_match, n))
        }
    }

    /// `after` is `before` with a filter of `pattern` added, when the pattern
    /// compiles, and the view marked stale; else `after` is `before`.
    pub open spec fn filter_added(before: App, after: App, pattern: String, inverse: bool) -> bool {
        if regex_compiles(pattern@) {
            &&& after == (App { filters: after.filters, needs_refilter: true, ..before })
            &&& after.filters@.len() == before.filters@.len() + 1
            &&& after.filters@.drop_last() == before.filters@
            &&& after.filters@.last().pattern == pattern
            &&& after.filters@.last().inverse == inverse
        } else {
            after == before
        }
    }

    /// `after` is `before` with the search set to `pattern`: no search for an
    /// empty pattern; no change for a pattern that does not compile;
    /// otherwise the hits of the pattern in the view, and, when there are
    /// any, the first hit at or after the scroll position (else the first hit)
    /// selected and scrolled to, with following off.
    pub open spec fn search_set(before: App, after: App, pattern: Seq<char>) -> bool {
        if pattern.len() == 0 {
            &&& after.search.is_empty_search()
            &&& after == (App { search: after.search, ..before })
        } else if !regex_compiles(pattern) {
            after == before
        } else {
            let ms = after.search.match_indices@;
            &&& after.search.pattern@ == pattern
            &&& after.search_current()
            &&& ms.len() == 0 ==> after == (App {
                search: SearchState {
                    pattern: after.search.pattern,
                    regex: after.search.regex,
                    match_indices: after.search.match_indices,
                    current_match: adjusted_match(before.search.current_match, ms.len()),
                },
                ..before
            })
            &&& ms.len() > 0 ==> {
                let first = first_at_least(ms, before.scroll_offset, 0);
                after == (App {
                    search: SearchState {
                        pattern: after.search.pattern,
                        regex: after.search.regex,
                        match_indices: after.search.match_indices,
                        current_match: Some(first as usize),
                    },
                    scroll_offset: ms[first],
                    auto_scroll: false,
                    ..before
                })
            }
        }
    }

    /// `after` is `before` with the bookmark on the cursor line toggled.
    pub open spec fn bookmark_toggled(before: App, after: App) -> bool {
        if before.filtered_indices@.len() == 0 {
            after == before
        } else {
            &&& after == (App { bookmarks: after.bookmarks, ..before })
            &&& toggled(before.bookmarks@, before.filtered_indices@[before.cursor()], after.bookmarks@)
        }
    }

    /// The most lines the buffer holds: its size, and at least one.
    pub open spec fn capacity(self) -> nat {
        if self.buffer_size > 0 {
            self.buffer_size as nat
        } else {
            1
        }
    }

    /// A new viewer: empty buffer of the given capacity, following the end,
    /// viewport of 24 lines, no filter, search or bookmark.
    pub fn new(buffer_size: usize, source_names: Vec<String>, follow_mode: bool) -> (app: App)
        ensures
            app.wf(),
            app.lines@.len() == 0,
            app.buffer_size == buffer_size,
            app.source_names == source_names,
            app.scroll_offset == 0,
            app.auto_scroll,
            !app.line_wrap,
            app.viewport_height == 24,
            app.filters@.len() == 0,
            app.filtered_indices@.len() == 0,
            app.search.is_empty_search(),
            app.input_mode == InputMode::Normal,
            app.input_buffer@.len() == 0,
            app.bookmarks@.len() == 0,
            app.popup == PopupState::Closed,
            app.bookmark_scroll == 0,
            app._follow_mode == follow_mode,
            !app.should_quit,
            app.needs_refilter,
    {
        App {
            lines: VecDeque::with_capacity(buffer_size),
            buffer_size,
            source_names,
            scroll_offset: 0,
            auto_scroll: true,
            line_wrap: false,
            viewport_height: 24,
            filters: Vec::new(),
            filtered_indices: Vec::new(),
            search: SearchState::new(),
            input_mode: InputMode::Normal,
            input_buffer: String::new(),
            bookmarks: Vec::new(),
            popup: PopupState::Closed,
            bookmark_scroll: 0,
            _follow_mode: follow_mode,
            should_quit: false,
            needs_refilter: true,
        }
    }

    /// Whether line `idx` exists and passes all active filters.
    fn line_passes_filters(&self, idx: usize) -> (b: bool)
        requires
            self.filters_compile(),
        ensures
            b == line_passes(self.lines@, self.filters@, idx as int),
    {
        if idx >= self.lines.len() {
            return false;
        }
        let content = self.lines[idx].content.as_str();
        let n = self.filters.len();
        for k in 0..n
            invariant
                n == self.filters@.len(),
                idx < self.lines@.len(),
                content@ == self.lines@[idx as int].content@,
                self.filters_compile(),
                forall|j: int| 0 <= j < k ==> filter_admits(#[trigger] self.filters@[j], content@),
        {
            let filter = &self.filters[k];
            let matches = is_match(&filter.regex, content);
            assert(self.filters@[k as int].regex@ == self.filters@[k as int].pattern@);
            if filter.inverse && matches {
                return false;
            }
            if !filter.inverse && !matches {
                return false;
            }
        }
        true
    }

    /// Rebuilds the search hits from the filtered view as it stands.
    fn rebuild_search_matches(&mut self)
        requires
            old(self).settings_valid(),
        ensures
            final(self).wf(),
            final(self).search_current(),
            *final(self) == (App {
                search: SearchState {
                    match_indices: final(self).search.match_indices,
                    current_match: adjusted_match(
                        old(self).search.current_match,
                        final(self).search.match_indices@.len(),
                    ),
                    ..old(self).search
                },
                ..*old(self)
            }),
    {
        self.search.match_indices = Vec::new();
        let ghost pre = *self;
        if let Some(regex) = &self.search.regex {
            let n = self.filtered_indices.len();
            for fi in 0..n
                invariant
                    n == self.filtered_indices@.len(),
                    *self == (App {
                        search: SearchState { match_indices: self.search.match_indices, ..pre.search },
                        ..pre
                    }),
                    regex@ == self.search.pattern@,
                    self.search.match_indices@ == search_hits(
                        self.lines@,
                        self.filtered_indices@,
                        self.search.pattern@,
                        fi as int,
                    ),
            {
                let li = self.filtered_indices[fi];
                if li < self.lines.len() {
                    if is_match(regex, self.lines[li].content.as_str()) {
                        self.search.match_indices.push(fi);
                    }
                }
            }
        }
        proof {
            if self.search.pattern@.len() > 0 {
                lemma_hits_bound(
                    self.lines@,
                    self.filtered_indices@,
                    self.search.pattern@,
                    self.filtered_indices@.len() as int,
                );
            }
        }
        let len = self.search.match_indices.len();
        if let Some(cm) = self.search.current_match {
            if cm >= len {
                self.search.current_match = if len == 0 {
                    None
                } else {
                    Some(len - 1)
                };
            }
        }
    }

    /// Rebuilds the filtered view from scratch, then the search hits.
    pub fn refilter(&mut self)
        requires
            old(self).wf(),
        ensures
            final(self).wf(),
            final(self).filter_current(),
            final(self).search_current(),
            *final(self) == (App {
                filtered_indices: final(self).filtered_indices,
                needs_refilter: false,
                search: SearchState {
                    match_indices: final(self).search.match_indices,
                    current_match: adjusted_match(
                        old(self).search.current_match,
                        final(self).search.match_indices@.len(),
                    ),
                    ..old(self).search
                },
                ..*old(self)
            }),
    {
        self.filtered_indices = Vec::new();
        let ghost pre = *self;
        let n = self.lines.len();
        for i in 0..n
            invariant
                n == self.lines@.len(),
                self.filters_compile(),
                self.filtered_indices@ == passing_indices(self.lines@, self.filters@, i as int),
                *self == (App { filtered_indices: self.filtered_indices, ..pre }),
                forall|k: int|
                    0 <= k < self.filtered_indices@.len() ==> #[trigger] self.filtered_indices@[k] < i,
        {
            if self.line_passes_filters(i) {
                self.filtered_indices.push(i);
            }
        }
        self.needs_refilter = false;
        self.rebuild_search_matches();
    }

    /// Adds a filter of the given pattern; it hides matching lines when
    /// `inverse`, else shows only matching lines. A pattern that does not
    /// compile is refused with the regex engine's message, and nothing changes.
    pub fn add_filter(&mut self, pattern: String, inverse: bool) -> (r: Result<(), String>)
        requires
            old(self).wf(),
        ensures
            final(self).wf(),
            r is Ok <==> regex_compiles(pattern@),
            r matches Err(msg) ==> regex_compile_error(pattern@) == Some(msg@),
            App::filter_added(*old(self), *final(self), pattern, inverse),
    {
        match compile(pattern.as_str()) {
            Err(msg) => Err(msg),
            Ok(regex) => {
                self.filters.push(Filter { pattern, regex, inverse });
                self.needs_refilter = true;
                assert(self.filters@.drop_last() =~= old(self).filters@);
                Ok(())
            },
        }
    }

    /// Removes the most recently added filter, if any.
    pub fn pop_filter(&mut self)
        requires
            old(self).wf(),
        ensures
            final(self).wf(),
            *final(self) == (App { filters: final(self).filters, ..old(self).spec_pop_filter() }),
            old(self).filters@.len() > 0 ==> final(self).filters@ == old(self).filters@.drop_last(),
            old(self).filters@.len() == 0 ==> final(self).filters == old(self).filters,
    {
        if self.filters.len() > 0 {
            self.filters.pop();
            self.needs_refilter = true;
        }
    }

    /// Sets the search pattern. An empty pattern ends the search. A pattern
    /// that does not compile is refused with the regex engine's message and
    /// nothing changes. Otherwise the hits are rebuilt and, when there are
    /// any, the view jumps to the first hit at or after the scroll position
    /// (or to the first hit) and stops following.
    pub fn set_search(&mut self, pattern: &str) -> (r: Result<(), String>)
        requires
            old(self).wf(),
        ensures
            final(self).wf(),
            r is Ok <==> (pattern@.len() == 0 || regex_compiles(pattern@)),
            r matches Err(msg) ==> regex_compile_error(pattern@) == Some(msg@),
            App::search_set(*old(self), *final(self), pattern@),
    {
        if pattern.is_empty() {
            self.search.clear();
            return Ok(());
        }
        let regex = match compile(pattern) {
            Err(msg) => {
                return Err(msg);
            },
            Ok(regex) => regex,
        };
        self.search.pattern = pattern.to_owned();
        self.search.regex = Some(regex);
        self.rebuild_search_matches();
        let n = self.search.match_indices.len();
        if n > 0 {
            let mut i: usize = 0;
            while i < n && self.search.match_indices[i] < self.scroll_offset
                invariant
                    i <= n == self.search.match_indices@.len(),
                    first_at_least(self.search.match_indices@, self.scroll_offset, 0)
                        == first_at_least(self.search.match_indices@, self.scroll_offset, i as int),
                decreases n - i,
            {
                i = i + 1;
            }
            let first = if i < n { i } else { 0 };
            self.search.current_match = Some(first);
            self.scroll_offset = self.search.match_indices[first];
            self.auto_scroll = false;
        }
        Ok(())
    }

    /// Selects the next search hit, wrapping around, scrolls to it and stops
    /// following; nothing happens without hits.
    pub fn search_next(&mut self)
        requires
            old(self).wf(),
        ensures
            final(self).wf(),
            *final(self) == old(self).spec_search_next(),
    {
        let n = self.search.match_indices.len();
        if n == 0 {
            return;
        }
        let next = match self.search.current_match {
            Some(idx) => (idx + 1) % n,
            None => 0,
        };
        self.search.current_match = Some(next);
        self.scroll_offset = self.search.match_indices[next];
        self.auto_scroll = false;
    }

    /// Selects the previous search hit, wrapping around, scrolls to it and
    /// stops following; nothing happens without hits.
    pub fn search_prev(&mut self)
        requires
            old(self).wf(),
        ensures
            final(self).wf(),
            *final(self) == old(self).spec_search_prev(),
    {
        let n = self.search.match_indices.len();
        if n == 0 {
            return;
        }
        let prev = match self.search.current_match {
            Some(0) => n - 1,
            Some(idx) => idx - 1,
            None => n - 1,
        };
        self.search.current_match = Some(prev);
        self.scroll_offset = self.search.match_indices[prev];
        self.auto_scroll = false;
    }

    fn cursor_position(&self) -> (fi: usize)
        requires
            self.filtered_indices@.len() > 0,
        ensures
            fi == self.cursor(),
            fi < self.filtered_indices@.len(),
    {
        let last = self.filtered_indices.len() - 1;
        if self.scroll_offset < last {
            self.scroll_offset
        } else {
            last
        }
    }

    /// Toggles the bookmark on the line under the cursor; nothing happens
    /// when the view is empty. Bookmarks stay strictly ascending.
    pub fn toggle_bookmark(&mut self)
        requires
            old(self).wf(),
        ensures
            final(self).wf(),
            App::bookmark_toggled(*old(self), *final(self)),
    {
        if self.filtered_indices.len() == 0 {
            return;
        }
        let fi = self.cursor_position();
        let line_idx = self.filtered_indices[fi];
        let n = self.bookmarks.len();
        let mut i: usize = 0;
        while i < n && self.bookmarks[i] < line_idx
            invariant
                i <= n == self.bookmarks@.len(),
                forall|k: int| 0 <= k < i ==> self.bookmarks@[k] < line_idx,
            decreases n - i,
        {
            i = i + 1;
        }
        let ghost before = self.bookmarks@;
        if i < n && self.bookmarks[i] == line_idx {
            self.bookmarks.remove(i);
            proof {
                lemma_sorted_remove(before, i as int);
            }
        } else {
            proof {
                assert forall|k: int| i <= k < before.len() implies before[k] > line_idx by {
                    if k > i {
                        assert(before[(i as int)] < before[k]);
                    }
                }
                lemma_sorted_insert(before, i as int, line_idx);
            }
            self.bookmarks.insert(i, line_idx);
        }
    }

    /// The text of the line under the cursor; `None` when the view is empty
    /// or names a line no longer in the buffer.
    pub fn current_line_content(&self) -> (r: Option<&str>)
        ensures
            self.filtered_indices@.len() == 0 ==> r is None,
            self.filtered_indices@.len() > 0 ==> {
                let li = self.filtered_indices@[self.cursor()];
                &&& r is Some <==> li < self.lines@.len()
                &&& r matches Some(s) ==> s@ == self.lines@[li as int].content@
            },
    {
        if self.filtered_indices.len() == 0 {
            return None;
        }
        let fi = self.cursor_position();
        let li = self.filtered_indices[fi];
        if li < self.lines.len() {
            Some(self.lines[li].content.as_str())
        } else {
            None
        }
    }

    /// Scrolls up by `n` lines (stopping at the top) and stops following.
    pub fn scroll_up(&mut self, n: usize)
        ensures
            *final(self) == old(self).spec_scroll_up(n),
    {
        self.auto_scroll = false;
        self.scroll_offset = self.scroll_offset.saturating_sub(n);
    }

    /// Scrolls down by `n` lines, stopping at the last line of the view.
    pub fn scroll_down(&mut self, n: usize)
        ensures
            *final(self) == old(self).spec_scroll_down(n),
    {
        self.scroll_offset = self.scroll_offset.saturating_add(n);
        let max = self.filtered_indices.len().saturating_sub(1);
        if self.scroll_offset >= max {
            self.scroll_offset = max;
        }
    }

    /// Jumps to the last page and follows new lines.
    pub fn scroll_to_bottom(&mut self)
        ensures
            *final(self) == old(self).spec_scroll_to_bottom(),
    {
        self.auto_scroll = true;
        if self.filtered_indices.len() > 0 {
            self.scroll_offset = self.filtered_indices.len().saturating_sub(self.viewport_height);
        }
    }

    /// When following, shows the last page of the view.
    pub fn maybe_auto_scroll(&mut self)
        ensures
            *final(self) == old(self).spec_maybe_auto_scroll(),
    {
        if self.auto_scroll && self.filtered_indices.len() > 0 {
            let total = self.filtered_indices.len();
            if total > self.viewport_height {
                self.scroll_offset = total - self.viewport_height;
            } else {
                self.scroll_offset = 0;
            }
        }
    }

    /// Number of lines in the filtered view.
    pub fn filtered_count(&self) -> (n: usize)
        ensures
            n == self.filtered_indices@.len(),
    {
        self.filtered_indices.len()
    }

    /// Number of lines in the buffer.
    pub fn total_count(&self) -> (n: usize)
        ensures
            n == self.lines@.len(),
    {
        self.lines.len()
    }

    /// Appends a line to the ring buffer. When the buffer is full the oldest
    /// line is dropped first and the filtered view is marked stale, since its
    /// indices shifted. Otherwise, when the view is up to date, the new line
    /// joins it if it passes the filters.
    pub fn add_line(&mut self, content: String, source_idx: usize)
        requires
            old(self).wf(),
        ensures
            final(self).wf(),
            App::line_added(*old(self), *final(self), LogLine { content, source_idx }),
            old(self).lines@.len() <= old(self).capacity() ==> final(self).lines@.len() <= final(self).capacity(),
            old(self).filter_current() && !final(self).needs_refilter ==> final(self).filter_current(),
            old(self).filter_current() && old(self).search_current() && !final(self).needs_refilter
                ==> final(self).search_prefix_current(old(self).filtered_indices@.len() as int),
            forall|m: int|
                old(self).filter_current() && old(self).search_prefix_current(m) && !final(self).needs_refilter
                    ==> #[trigger] final(self).search_prefix_current(m),
    {
        let line = LogLine { content, source_idx };
        if self.lines.len() >= self.buffer_size {
            if self.lines.pop_front().is_some() {
                self.shift_bookmarks();
            }
            self.needs_refilter = true;
        }
        self.lines.push_back(line);
        if !self.needs_refilter {
            let idx = self.lines.len() - 1;
            if self.line_passes_filters(idx) {
                self.filtered_indices.push(idx);
            }
            proof {
                let ol = old(self).lines@;
                let nl = self.lines@;
                assert(nl.len() == ol.len() + 1);
                assert forall|k: int| 0 <= k < ol.len() implies nl[k] == ol[k] by {}
                lemma_passing_extend(ol, nl, self.filters@, ol.len() as int);
                if old(self).filter_current() {
                    lemma_passing_bound(ol, self.filters@, ol.len() as int);
                    lemma_hits_extend(
                        ol,
                        nl,
                        old(self).filtered_indices@,
                        self.filtered_indices@,
                        self.search.pattern@,
                        old(self).filtered_indices@.len() as int,
                    );
                    assert forall|m: int|
                        old(self).search_prefix_current(m) implies #[trigger] self.search_prefix_current(m) by {
                        lemma_hits_extend(
                            ol,
                            nl,
                            old(self).filtered_indices@,
                            self.filtered_indices@,
                            self.search.pattern@,
                            m,
                        );
                    }
                }
            }
        }
    }

    /// Moves the bookmarks down by one line after the oldest line left the
    /// buffer, dropping the one on that line.
    fn shift_bookmarks(&mut self)
        requires
            old(self).settings_valid(),
        ensures
            final(self).settings_valid(),
            final(self).bookmarks@ == bookmarks_after_eviction(old(self).bookmarks@),
            *final(self) == (App { bookmarks: final(self).bookmarks, ..*old(self) }),
    {
        let ghost b = self.bookmarks@;
        let n = self.bookmarks.len();
        let start: usize = if n > 0 && self.bookmarks[0] == 0 {
            1
        } else {
            0
        };
        let ghost rest = if b.len() > 0 && b[0] == 0 {
            b.drop_first()
        } else {
            b
        };
        assert(rest =~= b.subrange(start as int, n as int));
        let mut shifted: Vec<usize> = Vec::new();
        for k in start..n
            invariant
                n == b.len(),
                b == self.bookmarks@,
                strictly_sorted(b),
                start <= n,
                start == 1 ==> b[0] == 0,
                start == 0 ==> (n > 0 ==> b[0] != 0),
                shifted@ == b.subrange(start as int, k as int).map_values(|x: usize| (x - 1) as usize),
        {
            let x = self.bookmarks[k];
            assert(x > 0) by {
                if start == 1 {
                    assert(b[0] < b[k as int]);
                } else if k > 0 {
                    assert(b[0] < b[k as int]);
                }
            }
            shifted.push(x - 1);
            assert(b.subrange(start as int, k + 1) =~= b.subrange(start as int, k as int).push(x));
            assert(shifted@ =~= b.subrange(start as int, k + 1).map_values(|x: usize| (x - 1) as usize));
        }
        proof {
            let t = shifted@;
            assert forall|i: int, j: int| 0 <= i < j < t.len() implies t[i] < t[j] by {
                assert(b[start + i] < b[start + j]);
            }
            assert forall|i: int| 0 <= i < t.len() implies #[trigger] t[i] < usize::MAX by {
                assert(b[start + i] < usize::MAX);
            }
        }
        self.bookmarks = shifted;
    }

    /// Extends the search hits over the positions of the filtered view past
    /// the last known hit.
    fn extend_search_matches(&mut self)
        requires
            old(self).wf(),
            old(self).search.pattern@.len() > 0,
        ensures
            final(self).wf(),
            final(self).search.match_indices@ == old(self).search.match_indices@ + hits_between(
                old(self).lines@,
                old(self).filtered_indices@,
                old(self).search.pattern@,
                resume_position(old(self).search.match_indices@),
                old(self).filtered_indices@.len() as int,
            ),
            *final(self) == (App {
                search: SearchState { match_indices: final(self).search.match_indices, ..old(self).search },
                ..*old(self)
            }),
    {
        let n = self.filtered_indices.len();
        let m = self.search.match_indices.len();
        let start = if m > 0 {
            self.search.match_indices[m - 1] + 1
        } else {
            0
        };
        let ghost base = self.search.match_indices@;
        let ghost pre = *self;
        let regex = match &self.search.regex {
            Some(r) => r,
            None => {
                return;
            },
        };
        for fi in start..n
            invariant
                n == self.filtered_indices@.len(),
                start == resume_position(base),
                regex@ == self.search.pattern@,
                *self == (App {
                    search: SearchState { match_indices: self.search.match_indices, ..pre.search },
                    ..pre
                }),
                self.search.match_indices@ == base + hits_between(
                    self.lines@,
                    self.filtered_indices@,
                    self.search.pattern@,
                    start as int,
                    fi as int,
                ),
                forall|k: int|
                    0 <= k < self.search.match_indices@.len() ==> #[trigger] self.search.match_indices@[k] < n,
        {
            let li = self.filtered_indices[fi];
            if li < self.lines.len() {
                if is_match(regex, self.lines[li].content.as_str()) {
                    self.search.match_indices.push(fi);
                }
            }
            proof {
                assert(self.search.match_indices@ == base + hits_between(
                    self.lines@,
                    self.filtered_indices@,
                    self.search.pattern@,
                    start as int,
                    fi + 1,
                ));
            }
        }
    }

    /// `after` is `before` brought up to date after new input (`got_new`
    /// when lines arrived): a stale filtered view is rebuilt with the search
    /// hits; otherwise, when lines arrived and a search is active, the hits
    /// are extended past the last known hit; otherwise nothing changes.
    pub open spec fn view_synced(before: App, after: App, got_new: bool) -> bool {
        &&& before.needs_refilter ==> {
            &&& after.filter_current()
            &&& after.search_current()
            &&& after == (App {
                filtered_indices: after.filtered_indices,
                needs_refilter: false,
                search: SearchState {
                    match_indices: after.search.match_indices,
                    current_match: adjusted_match(before.search.current_match, after.search.match_indices@.len()),
                    ..before.search
                },
                ..before
            })
        }
        &&& !before.needs_refilter && got_new && before.search.pattern@.len() > 0 ==> {
            &&& after.search.match_indices@ == before.search.match_indices@ + hits_between(
                before.lines@,
                before.filtered_indices@,
                before.search.pattern@,
                resume_position(before.search.match_indices@),
                before.filtered_indices@.len() as int,
            )
            &&& after == (App {
                search: SearchState { match_indices: after.search.match_indices, ..before.search },
                ..before
            })
        }
        &&& !before.needs_refilter && !(got_new && before.search.pattern@.len() > 0) ==> after == before
    }

    /// Brings the view up to date after new input: a stale filtered view is
    /// rebuilt; otherwise, when new lines arrived and a search is active, the
    /// search hits are extended past the last known hit.
    pub fn sync_view(&mut self, got_new: bool)
        requires
            old(self).wf(),
        ensures
            final(self).wf(),
            App::view_synced(*old(self), *final(self), got_new),
            old(self).filter_current() ==> final(self).filter_current(),
            !old(self).needs_refilter && got_new && (exists|m: int| old(self).search_prefix_current(m))
                ==> final(self).search_current(),
    {
        if self.needs_refilter {
            self.refilter();
        } else if got_new && self.search.is_active() {
            let n = self.filtered_indices.len();
            self.extend_search_matches();
            proof {
                if exists|m: int| old(self).search_prefix_current(m) {
                    let m = choose|m: int| old(self).search_prefix_current(m);
                    let lines = old(self).lines@;
                    let filt = old(self).filtered_indices@;
                    let pat = old(self).search.pattern@;
                    let len = filt.len() as int;
                    assert(m <= len);
                    lemma_hits_last(lines, filt, pat, m);
                    let start = resume_position(search_hits(lines, filt, pat, m));
                    lemma_hits_split(lines, filt, pat, start, len);
                }
            }
        }
    }

    /// After a key was handled: a stale filtered view is rebuilt and, when
    /// following, the view jumps to the last page.
    pub fn after_input(&mut self)
        requires
            old(self).wf(),
        ensures
            final(self).wf(),
            !old(self).needs_refilter ==> *final(self) == *old(self),
            old(self).needs_refilter ==> {
                let rebuilt = App {
                    filtered_indices: final(self).filtered_indices,
                    needs_refilter: false,
                    search: SearchState {
                        match_indices: final(self).search.match_indices,
                        current_match: adjusted_match(
                            old(self).search.current_match,
                            final(self).search.match_indices@.len(),
                        ),
                        ..old(self).search
                    },
                    ..*old(self)
                };
                &&& final(self).filter_current()
                &&& final(self).search_current()
                &&& *final(self) == rebuilt.spec_maybe_auto_scroll()
            },
    {
        if self.needs_refilter {
            self.refilter();
            self.maybe_auto_scroll();
        }
    }
}

} // verus!
