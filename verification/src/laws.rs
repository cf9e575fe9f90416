//! Facts about the filtered view, the search hits and the bookmarks, and
//! the laws the viewer keeps across calls.
use vstd::prelude::*;
use crate::app::{
    filtered_view, hits_between, line_passes, next_match, passes_filters, passing_indices, prev_match,
    resume_position, search_hit, search_hits, strictly_sorted, toggled, App, Filter, LogLine,
    bookmarks_after_eviction, first_at_least, PopupState,
};
use crate::highlight::{
    palette, pattern_finds, spec_detect_level, LogLevel, PALETTE_LEN, DEBUG_PATTERN, ERROR_PATTERN, INFO_PATTERN,
    TRACE_PATTERN, WARN_PATTERN,
};
use crate::input::{normal_key_effect, popup_key_effect, position_of, spec_normal_command, Command, KeyCode, KeyEvent};
use crate::pattern::{regex_compiles, regex_matches};
use crate::source::{drained, SourceMsg};

verus! {

/// Lines that agree on `[0, n)` give the same passing indices below `n`.
pub(crate) proof fn lemma_passing_extend(lines: Seq<LogLine>, lines2: Seq<LogLine>, filters: Seq<Filter>, n: int)
    requires
        0 <= n <= lines.len(),
        n <= lines2.len(),
        forall|k: int| 0 <= k < n ==> lines2[k] == lines[k],
    ensures
        passing_indices(lines2, filters, n) == passing_indices(lines, filters, n),
    decreases n,
{
    if n > 0 {
        lemma_passing_extend(lines, lines2, filters, n - 1);
        assert(lines2[n - 1] == lines[n - 1]);
    }
}

/// The passing indices below `n` are below `n` and strictly ascending.
pub(crate) proof fn lemma_passing_bound(lines: Seq<LogLine>, filters: Seq<Filter>, n: int)
    requires
        n <= usize::MAX,
    ensures
        forall|j: int|
            0 <= j < passing_indices(lines, filters, n).len() ==> #[trigger] passing_indices(lines, filters, n)[j]
                < n,
        forall|i: int, j: int|
            0 <= i < j < passing_indices(lines, filters, n).len() ==> passing_indices(lines, filters, n)[i]
                < passing_indices(lines, filters, n)[j],
    decreases n,
{
    if n > 0 {
        lemma_passing_bound(lines, filters, n - 1);
        let p = passing_indices(lines, filters, n - 1);
        let q = passing_indices(lines, filters, n);
        assert forall|j: int| 0 <= j < q.len() implies #[trigger] q[j] < n by {
            if j < p.len() {
                assert(q[j] == p[j]);
            }
        }
        assert forall|i: int, j: int| 0 <= i < j < q.len() implies q[i] < q[j] by {
            assert(q[i] == p[i]);
            if j < p.len() {
                assert(q[j] == p[j]);
            }
        }
    }
}

/// The search hits below `n` are below `n` and strictly ascending.
pub(crate) proof fn lemma_hits_bound(lines: Seq<LogLine>, filtered: Seq<usize>, pattern: Seq<char>, n: int)
    requires
        n <= usize::MAX,
    ensures
        forall|j: int|
            0 <= j < search_hits(lines, filtered, pattern, n).len() ==> 0 <= #[trigger] search_hits(
                lines,
                filtered,
                pattern,
                n,
            )[j] < n,
        forall|i: int, j: int|
            0 <= i < j < search_hits(lines, filtered, pattern, n).len() ==> search_hits(
                lines,
                filtered,
                pattern,
                n,
            )[i] < search_hits(lines, filtered, pattern, n)[j],
    decreases n,
{
    if n > 0 {
        lemma_hits_bound(lines, filtered, pattern, n - 1);
        let p = search_hits(lines, filtered, pattern, n - 1);
        let q = search_hits(lines, filtered, pattern, n);
        assert forall|j: int| 0 <= j < q.len() implies 0 <= #[trigger] q[j] < n by {
            if j < p.len() {
                assert(q[j] == p[j]);
            }
        }
        assert forall|i: int, j: int| 0 <= i < j < q.len() implies q[i] < q[j] by {
            assert(q[i] == p[i]);
            if j < p.len() {
                assert(q[j] == p[j]);
            }
        }
    }
}

/// Hits below `n` are the hits below `lo` followed by those in `[lo, n)`.
pub(crate) proof fn lemma_hits_split(lines: Seq<LogLine>, filtered: Seq<usize>, pattern: Seq<char>, lo: int, n: int)
    requires
        0 <= lo <= n,
    ensures
        search_hits(lines, filtered, pattern, n) == search_hits(lines, filtered, pattern, lo) + hits_between(
            lines,
            filtered,
            pattern,
            lo,
            n,
        ),
    decreases n - lo,
{
    if n > lo {
        lemma_hits_split(lines, filtered, pattern, lo, n - 1);
        let a = search_hits(lines, filtered, pattern, lo);
        let b = hits_between(lines, filtered, pattern, lo, n - 1);
        assert((a + b).push((n - 1) as usize) =~= a + b.push((n - 1) as usize));
    } else {
        assert(search_hits(lines, filtered, pattern, lo) + Seq::<usize>::empty() =~= search_hits(
            lines,
            filtered,
            pattern,
            lo,
        ));
    }
}

/// Past the last hit below `n` there is none: the hits below `n` are the
/// hits below the resume position.
pub(crate) proof fn lemma_hits_last(lines: Seq<LogLine>, filtered: Seq<usize>, pattern: Seq<char>, n: int)
    requires
        0 <= n <= usize::MAX,
    ensures
        resume_position(search_hits(lines, filtered, pattern, n)) <= n,
        search_hits(lines, filtered, pattern, n) == search_hits(
            lines,
            filtered,
            pattern,
            resume_position(search_hits(lines, filtered, pattern, n)),
        ),
    decreases n,
{
    if n > 0 {
        lemma_hits_last(lines, filtered, pattern, n - 1);
        lemma_hits_bound(lines, filtered, pattern, n - 1);
        let p = search_hits(lines, filtered, pattern, n - 1);
        if search_hit(lines, filtered, pattern, n - 1) {
            let q = p.push((n - 1) as usize);
            assert(q.last() == n - 1);
            assert(resume_position(q) == n);
        } else {
            if p.len() > 0 {
                assert(p.last() < n - 1);
            }
        }
    }
}

/// Hits below `m` stay the same when the lines and the filtered view are
/// extended, provided the first `m` positions name lines that were there.
pub(crate) proof fn lemma_hits_extend(
    lines: Seq<LogLine>,
    lines2: Seq<LogLine>,
    filtered: Seq<usize>,
    filtered2: Seq<usize>,
    pattern: Seq<char>,
    m: int,
)
    requires
        0 <= m <= filtered.len(),
        m <= filtered2.len(),
        lines.len() <= lines2.len(),
        forall|k: int| 0 <= k < lines.len() ==> lines2[k] == lines[k],
        forall|k: int| 0 <= k < m ==> filtered2[k] == filtered[k],
        forall|k: int| 0 <= k < m ==> filtered[k] < lines.len(),
    ensures
        search_hits(lines2, filtered2, pattern, m) == search_hits(lines, filtered, pattern, m),
    decreases m,
{
    if m > 0 {
        lemma_hits_extend(lines, lines2, filtered, filtered2, pattern, m - 1);
        assert(filtered2[m - 1] == filtered[m - 1]);
        assert(lines2[filtered[m - 1] as int] == lines[filtered[m - 1] as int]);
        assert(search_hit(lines2, filtered2, pattern, m - 1) == search_hit(lines, filtered, pattern, m - 1));
    }
}

/// A line index is in the passing indices below `n` exactly when it is
/// below `n` and that line passes.
proof fn lemma_passing_members(lines: Seq<LogLine>, filters: Seq<Filter>, n: int, i: usize)
    requires
        0 <= n <= usize::MAX,
    ensures
        passing_indices(lines, filters, n).contains(i) <==> (i < n && line_passes(lines, filters, i as int)),
    decreases n,
{
    if n > 0 {
        lemma_passing_members(lines, filters, n - 1, i);
        let p = passing_indices(lines, filters, n - 1);
        if line_passes(lines, filters, n - 1) {
            let q = p.push((n - 1) as usize);
            if q.contains(i) {
                let k = choose|k: int| 0 <= k < q.len() && q[k] == i;
                if k < p.len() {
                    assert(p[k] == i);
                }
            }
            if p.contains(i) {
                let k = choose|k: int| 0 <= k < p.len() && p[k] == i;
                assert(q[k] == i);
            }
            if i == n - 1 {
                assert(q[p.len() as int] == i);
            }
        }
    }
}

/// The filtered view holds exactly the lines that pass every filter, each
/// once, in buffer order.
pub proof fn law_filtered_view_exact(lines: Seq<LogLine>, filters: Seq<Filter>)
    requires
        lines.len() <= usize::MAX,
    ensures
        forall|i: usize| #[trigger]
            filtered_view(lines, filters).contains(i) <==> line_passes(lines, filters, i as int),
        strictly_sorted(filtered_view(lines, filters)),
{
    lemma_passing_bound(lines, filters, lines.len() as int);
    assert forall|i: usize| #[trigger]
        filtered_view(lines, filters).contains(i) <==> line_passes(lines, filters, i as int) by {
        lemma_passing_members(lines, filters, lines.len() as int, i);
    }
}

/// Appending a line extends the filtered view by that line exactly when it
/// passes the filters: the incremental update of the view agrees with
/// filtering from scratch.
pub proof fn law_append_extends_view(lines: Seq<LogLine>, filters: Seq<Filter>, line: LogLine)
    requires
        lines.len() < usize::MAX,
    ensures
        filtered_view(lines.push(line), filters) == if passes_filters(filters, line.content@) {
            filtered_view(lines, filters).push(lines.len() as usize)
        } else {
            filtered_view(lines, filters)
        },
{
    let l2 = lines.push(line);
    assert forall|k: int| 0 <= k < lines.len() implies l2[k] == lines[k] by {}
    lemma_passing_extend(lines, l2, filters, lines.len() as int);
    assert(l2[lines.len() as int] == line);
}

/// Resuming a search past the last known hit finds the same hits as
/// searching the whole view: the hits below `m`, followed by those from the
/// resume position on, are all the hits.
pub proof fn law_resumed_search(lines: Seq<LogLine>, filtered: Seq<usize>, pattern: Seq<char>, m: int)
    requires
        0 <= m <= filtered.len(),
        filtered.len() <= usize::MAX,
    ensures
        search_hits(lines, filtered, pattern, filtered.len() as int) == search_hits(lines, filtered, pattern, m)
            + hits_between(
            lines,
            filtered,
            pattern,
            resume_position(search_hits(lines, filtered, pattern, m)),
            filtered.len() as int,
        ),
{
    lemma_hits_last(lines, filtered, pattern, m);
    let start = resume_position(search_hits(lines, filtered, pattern, m));
    lemma_hits_split(lines, filtered, pattern, start, filtered.len() as int);
}

/// Two strictly ascending sequences that hold the same values are equal.
pub(crate) proof fn lemma_sorted_unique(s: Seq<usize>, t: Seq<usize>)
    requires
        strictly_sorted(s),
        strictly_sorted(t),
        forall|y: usize| s.contains(y) <==> t.contains(y),
    ensures
        s == t,
    decreases s.len() + t.len(),
{
    if s.len() == 0 {
        if t.len() > 0 {
            assert(t.contains(t[0]));
        }
        assert(s =~= t);
    } else if t.len() == 0 {
        assert(s.contains(s[0]));
    } else {
        assert(s.contains(s[0]));
        assert(t.contains(t[0]));
        let i = choose|i: int| 0 <= i < t.len() && t[i] == s[0];
        let j = choose|j: int| 0 <= j < s.len() && s[j] == t[0];
        if i > 0 {
            assert(t[0] < t[i]);
            if j > 0 {
                assert(s[0] < s[j]);
            }
        }
        assert(s[0] == t[0]);
        let s1 = s.drop_first();
        let t1 = t.drop_first();
        assert forall|y: usize| s1.contains(y) <==> t1.contains(y) by {
            if s1.contains(y) {
                let k = choose|k: int| 0 <= k < s1.len() && s1[k] == y;
                assert(s[k + 1] == y);
                assert(s[0] < s[k + 1]);
                assert(t.contains(y));
                let k2 = choose|k2: int| 0 <= k2 < t.len() && t[k2] == y;
                assert(k2 != 0);
                assert(t1[k2 - 1] == y);
            }
            if t1.contains(y) {
                let k = choose|k: int| 0 <= k < t1.len() && t1[k] == y;
                assert(t[k + 1] == y);
                assert(t[0] < t[k + 1]);
                assert(s.contains(y));
                let k2 = choose|k2: int| 0 <= k2 < s.len() && s[k2] == y;
                assert(k2 != 0);
                assert(s1[k2 - 1] == y);
            }
        }
        lemma_sorted_unique(s1, t1);
        assert(s =~= seq![s[0]] + s1);
        assert(t =~= seq![t[0]] + t1);
    }
}

/// Toggling the same bookmark twice gives the bookmarks back.
pub proof fn law_toggle_twice(s: Seq<usize>, x: usize, t: Seq<usize>, u: Seq<usize>)
    requires
        strictly_sorted(s),
        strictly_sorted(u),
        toggled(s, x, t),
        toggled(t, x, u),
    ensures
        u == s,
{
    assert forall|y: usize| u.contains(y) <==> s.contains(y) by {}
    lemma_sorted_unique(u, s);
}

/// Moving to the next search hit and then to the previous one comes back to
/// the hit selected before.
pub proof fn law_next_then_prev(c: usize, n: nat)
    requires
        c < n,
        n <= usize::MAX,
    ensures
        prev_match(Some(next_match(Some(c), n) as usize), n) == c,
{
    let m = c + 1;
    let k = n as int;
    if m < k {
        assert(m % k == m) by (nonlinear_arith)
            requires
                0 <= m < k,
        ;
    } else {
        assert(m % k == 0) by (nonlinear_arith)
            requires
                m == k,
                k > 0,
        ;
    }
}

/// Adding a filter and then dropping the last filter leaves the filters as
/// they were, with the view marked stale.
pub proof fn law_add_then_pop_filter(before: App, mid: App, pattern: String, inverse: bool)
    requires
        crate::pattern::regex_compiles(pattern@),
        App::filter_added(before, mid, pattern, inverse),
    ensures
        mid.filters@.drop_last() == before.filters@,
        mid.spec_pop_filter() == (App { filters: mid.filters, needs_refilter: true, ..before }),
{
    assert(mid.filters@.drop_last() =~= before.filters@);
}

/// Scrolling down never leaves the filtered view: the scroll position
/// stays at or before its last line.
pub proof fn law_scroll_down_in_view(app: App, n: usize)
    ensures
        app.filtered_indices@.len() > 0 ==> app.spec_scroll_down(n).scroll_offset < app.filtered_indices@.len(),
        app.filtered_indices@.len() == 0 ==> app.spec_scroll_down(n).scroll_offset == 0,
{
}

/// Source colours cycle through the palette: sources a palette length
/// apart share their colour.
pub proof fn law_source_colors_cycle(idx: int)
    requires
        idx >= 0,
    ensures
        palette(idx % PALETTE_LEN as int) == palette((idx + PALETTE_LEN as int) % PALETTE_LEN as int),
{
    assert((idx + 8) % 8 == idx % 8);
}

/// A position is among the search hits below `n` exactly when it is below
/// `n` and a hit.
proof fn lemma_hits_members(lines: Seq<LogLine>, filtered: Seq<usize>, pattern: Seq<char>, n: int, i: usize)
    requires
        0 <= n <= usize::MAX,
    ensures
        search_hits(lines, filtered, pattern, n).contains(i) <==> (i < n && search_hit(
            lines,
            filtered,
            pattern,
            i as int,
        )),
    decreases n,
{
    if n > 0 {
        lemma_hits_members(lines, filtered, pattern, n - 1, i);
        let p = search_hits(lines, filtered, pattern, n - 1);
        if search_hit(lines, filtered, pattern, n - 1) {
            let q = p.push((n - 1) as usize);
            if q.contains(i) {
                let k = choose|k: int| 0 <= k < q.len() && q[k] == i;
                if k < p.len() {
                    assert(p[k] == i);
                }
            }
            if p.contains(i) {
                let k = choose|k: int| 0 <= k < p.len() && p[k] == i;
                assert(q[k] == i);
            }
            if i == n - 1 {
                assert(q[p.len() as int] == i);
            }
        }
    }
}

/// The search hits are exactly the positions of the filtered view whose
/// line the pattern matches, each once, in view order.
pub proof fn law_search_hits_exact(lines: Seq<LogLine>, filtered: Seq<usize>, pattern: Seq<char>)
    requires
        filtered.len() <= usize::MAX,
    ensures
        forall|fi: usize| #[trigger]
            search_hits(lines, filtered, pattern, filtered.len() as int).contains(fi) <==> (fi < filtered.len()
                && search_hit(lines, filtered, pattern, fi as int)),
        strictly_sorted(search_hits(lines, filtered, pattern, filtered.len() as int)),
{
    lemma_hits_bound(lines, filtered, pattern, filtered.len() as int);
    assert forall|fi: usize| #[trigger]
        search_hits(lines, filtered, pattern, filtered.len() as int).contains(fi) <==> (fi < filtered.len()
            && search_hit(lines, filtered, pattern, fi as int)) by {
        lemma_hits_members(lines, filtered, pattern, filtered.len() as int, fi);
    }
}

/// Taking in a line without rebuilding and then resuming the search gives
/// what a full rebuild gives: when the view and the hits were up to date and
/// the buffer did not overflow, the new filtered view is the filtered view
/// of the new lines, and the old hits followed by those found from the
/// resume position on are the hits of the new view.
pub proof fn law_append_then_resume_is_current(before: App, after: App, line: LogLine)
    requires
        before.filter_current(),
        before.search_current(),
        App::line_added(before, after, line),
        !after.needs_refilter,
        after.lines@.len() <= usize::MAX,
        after.filtered_indices@.len() <= usize::MAX,
    ensures
        after.filter_current(),
        (if after.search.pattern@.len() > 0 {
            after.search.match_indices@ + hits_between(
                after.lines@,
                after.filtered_indices@,
                after.search.pattern@,
                resume_position(after.search.match_indices@),
                after.filtered_indices@.len() as int,
            )
        } else {
            after.search.match_indices@
        }) == after.expected_matches(),
{
    let ol = before.lines@;
    let nl = after.lines@;
    assert(!before.needs_refilter);
    assert(ol.len() < before.buffer_size);
    assert(nl == ol.push(line));
    law_append_extends_view(ol, before.filters@, line);
    if after.search.pattern@.len() > 0 {
        let p = after.search.pattern@;
        let m = before.filtered_indices@.len() as int;
        assert forall|k: int| 0 <= k < ol.len() implies nl[k] == ol[k] by {}
        lemma_passing_bound(ol, before.filters@, ol.len() as int);
        lemma_hits_extend(ol, nl, before.filtered_indices@, after.filtered_indices@, p, m);
        law_resumed_search(nl, after.filtered_indices@, p, m);
    }
}

/// Bookmarks follow their lines when the oldest line leaves a full buffer:
/// afterwards a position is bookmarked exactly when the position one further
/// on was bookmarked before, and it holds the line that position held; the
/// bookmark on the evicted line is gone.
pub proof fn law_bookmarks_follow_eviction(before: App, after: App, line: LogLine)
    requires
        before.wf(),
        App::line_added(before, after, line),
        before.lines@.len() >= before.buffer_size,
        before.lines@.len() > 0,
    ensures
        forall|c: usize| #[trigger]
            after.bookmarks@.contains(c) <==> (c < usize::MAX && before.bookmarks@.contains((c + 1) as usize)),
        forall|c: int| 0 <= c && c + 1 < before.lines@.len() ==> #[trigger] after.lines@[c] == before.lines@[c + 1],
{
    let b = before.bookmarks@;
    let rest = if b.len() > 0 && b[0] == 0 {
        b.drop_first()
    } else {
        b
    };
    let t = after.bookmarks@;
    assert(t == bookmarks_after_eviction(b));
    assert forall|i: int| 0 <= i < rest.len() implies #[trigger] rest[i] > 0 by {
        if b.len() > 0 && b[0] == 0 {
            assert(b[0] < b[i + 1]);
        } else if i > 0 {
            assert(b[0] < b[i]);
        }
    }
    assert forall|c: usize| #[trigger]
        t.contains(c) <==> (c < usize::MAX && b.contains((c + 1) as usize)) by {
        if t.contains(c) {
            let i = choose|i: int| 0 <= i < t.len() && t[i] == c;
            assert(rest[i] > 0);
            assert(rest[i] == c + 1);
            if b.len() > 0 && b[0] == 0 {
                assert(b[i + 1] == rest[i]);
            } else {
                assert(b[i] == rest[i]);
            }
        }
        if c < usize::MAX && b.contains((c + 1) as usize) {
            let j = choose|j: int| 0 <= j < b.len() && b[j] == (c + 1) as usize;
            if b.len() > 0 && b[0] == 0 {
                assert(j != 0);
                assert(rest[j - 1] == b[j]);
                assert(t[j - 1] == c);
            } else {
                assert(t[j] == c);
            }
        }
    }
}

/// One line taken in without a rebuild keeps the view up to date and the
/// search hits known below `m` unchanged.
proof fn lemma_line_added_keeps_current(before: App, after: App, line: LogLine, m: int)
    requires
        before.filter_current(),
        before.search_prefix_current(m),
        App::line_added(before, after, line),
        !after.needs_refilter,
    ensures
        after.filter_current(),
        after.search_prefix_current(m),
        after.search == before.search,
{
    let ol = before.lines@;
    let nl = after.lines@;
    assert(ol.len() < before.buffer_size);
    assert(nl == ol.push(line));
    law_append_extends_view(ol, before.filters@, line);
    assert forall|k: int| 0 <= k < ol.len() implies nl[k] == ol[k] by {}
    lemma_passing_bound(ol, before.filters@, ol.len() as int);
    lemma_hits_extend(ol, nl, before.filtered_indices@, after.filtered_indices@, before.search.pattern@, m);
}

proof fn lemma_drained_keeps_current(states: Seq<App>, msgs: Seq<SourceMsg>, n: int, m: int)
    requires
        drained(states, msgs),
        0 <= n <= msgs.len(),
        states[0].filter_current(),
        states[0].search_prefix_current(m),
        !states[n].needs_refilter,
    ensures
        states[n].filter_current(),
        states[n].search_prefix_current(m),
        states[n].search == states[0].search,
    decreases n,
{
    if n > 0 {
        let i = n - 1;
        let before = states[i];
        let after = states[i + 1];
        assert(App::took_in(before, after, msgs[i]));
        let line = match msgs[i] {
            SourceMsg::Line { content, source_idx } => LogLine { content, source_idx },
            _ => after.lines@.last(),
        };
        if !(msgs[i] is Eof) {
            assert(App::line_added(before, after, line));
        }
        assert(!before.needs_refilter);
        lemma_drained_keeps_current(states, msgs, i, m);
        if !(msgs[i] is Eof) {
            lemma_line_added_keeps_current(before, after, line, m);
        }
    }
}

/// Taking in any number of messages without a rebuild and then resuming the
/// search gives what a full rebuild gives: when the view and the hits were
/// up to date and no message overflowed the buffer, the view is that of the
/// new lines, the known hits are those of its old part, and the known hits
/// followed by those found from the resume position on are all the hits of
/// the new view.
pub proof fn law_drain_then_resume_is_current(states: Seq<App>, msgs: Seq<SourceMsg>)
    requires
        drained(states, msgs),
        states[0].filter_current(),
        states[0].search_current(),
        !states.last().needs_refilter,
    ensures
        states.last().filter_current(),
        states.last().search_prefix_current(states[0].filtered_indices@.len() as int),
        (if states.last().search.pattern@.len() > 0 {
            states.last().search.match_indices@ + hits_between(
                states.last().lines@,
                states.last().filtered_indices@,
                states.last().search.pattern@,
                resume_position(states.last().search.match_indices@),
                states.last().filtered_indices@.len() as int,
            )
        } else {
            states.last().search.match_indices@
        }) == states.last().expected_matches(),
{
    let m = states[0].filtered_indices@.len() as int;
    assert(states[0].search_prefix_current(m));
    lemma_drained_keeps_current(states, msgs, msgs.len() as int, m);
    let last = states.last();
    assert(last == states[msgs.len() as int]);
    if last.search.pattern@.len() > 0 {
        assert(last.filtered_indices.len() == last.filtered_indices@.len());
        law_resumed_search(last.lines@, last.filtered_indices@, last.search.pattern@, m);
    }
}

/// Filters stack: a line is in an up-to-date view exactly when every filter
/// lets it through, that is, the pattern of each include filter matches it
/// and the pattern of no exclude filter does.
pub proof fn law_view_lines_pass_every_filter(app: App)
    requires
        app.filter_current(),
    ensures
        forall|i: usize| #[trigger]
            app.filtered_indices@.contains(i) <==> {
                &&& i < app.lines@.len()
                &&& forall|k: int|
                    0 <= k < app.filters@.len() ==> (#[trigger] app.filters@[k].inverse ==> !regex_matches(
                        app.filters@[k].pattern@,
                        app.lines@[i as int].content@,
                    )) && (!app.filters@[k].inverse ==> regex_matches(
                        app.filters@[k].pattern@,
                        app.lines@[i as int].content@,
                    ))
            },
{
    assert(app.lines.len() == app.lines@.len());
    law_filtered_view_exact(app.lines@, app.filters@);
    assert forall|i: usize| #[trigger]
        app.filtered_indices@.contains(i) <==> {
            &&& i < app.lines@.len()
            &&& forall|k: int|
                0 <= k < app.filters@.len() ==> (#[trigger] app.filters@[k].inverse ==> !regex_matches(
                    app.filters@[k].pattern@,
                    app.lines@[i as int].content@,
                )) && (!app.filters@[k].inverse ==> regex_matches(
                    app.filters@[k].pattern@,
                    app.lines@[i as int].content@,
                ))
        } by {
        assert(filtered_view(app.lines@, app.filters@).contains(i) <==> line_passes(app.lines@, app.filters@, i as int));
        if i < app.lines@.len() {
            let text = app.lines@[i as int].content@;
            if passes_filters(app.filters@, text) {
                assert forall|k: int| 0 <= k < app.filters@.len() implies (#[trigger] app.filters@[k].inverse
                    ==> !regex_matches(app.filters@[k].pattern@, text)) && (!app.filters@[k].inverse ==> regex_matches(
                    app.filters@[k].pattern@,
                    text,
                )) by {
                    assert(crate::app::filter_admits(app.filters@[k], text));
                }
            }
        }
    }
}

/// The first position from `i` on whose entry is at least `x` is found when
/// there is one; otherwise the result is 0.
proof fn lemma_first_at_least(s: Seq<usize>, x: usize, i: int)
    requires
        0 <= i,
    ensures
        (exists|j: int| i <= j < s.len() && s[j] >= x) ==> {
            let r = first_at_least(s, x, i);
            &&& i <= r < s.len()
            &&& s[r] >= x
            &&& forall|j: int| i <= j < r ==> s[j] < x
        },
        !(exists|j: int| i <= j < s.len() && s[j] >= x) ==> first_at_least(s, x, i) == 0,
    decreases s.len() - i,
{
    if i < s.len() && s[i] < x {
        lemma_first_at_least(s, x, i + 1);
        if exists|j: int| i <= j < s.len() && s[j] >= x {
            let j = choose|j: int| i <= j < s.len() && s[j] >= x;
            assert(j != i);
            assert(i + 1 <= j < s.len() && s[j] >= x);
        }
    }
}

/// Setting a search that has hits selects the first hit at or after the
/// scroll position and scrolls to it; when every hit lies before that
/// position, it wraps around to the first hit. Either way following stops.
pub proof fn law_search_jumps_to_first_hit_at_or_after(before: App, after: App, pattern: Seq<char>)
    requires
        App::search_set(before, after, pattern),
        pattern.len() > 0,
        regex_compiles(pattern),
        after.search.match_indices@.len() > 0,
    ensures
        after.search.current_match is Some,
        after.search.current_match->0 < after.search.match_indices@.len(),
        after.scroll_offset == after.search.match_indices@[after.search.current_match->0 as int],
        !after.auto_scroll,
        (exists|j: int| 0 <= j < after.search.match_indices@.len() && #[trigger] after.search.match_indices@[j] >= before.scroll_offset) ==> {
            &&& after.scroll_offset >= before.scroll_offset
            &&& forall|j: int| 0 <= j < after.search.current_match->0 ==> #[trigger] after.search.match_indices@[j] < before.scroll_offset
        },
        (forall|j: int| 0 <= j < after.search.match_indices@.len() ==> #[trigger] after.search.match_indices@[j] < before.scroll_offset)
            ==> after.search.current_match == Some(0usize) && after.scroll_offset == after.search.match_indices@[0],
{
    let ms = after.search.match_indices@;
    let x = before.scroll_offset;
    assert(after.search.match_indices.len() == ms.len());
    lemma_first_at_least(ms, x, 0);
    let first = first_at_least(ms, x, 0);
    assert(0 <= first < ms.len());
    assert(after.search.current_match == Some(first as usize));
    if exists|j: int| 0 <= j < ms.len() && #[trigger] ms[j] >= x {
        let j = choose|j: int| 0 <= j < ms.len() && #[trigger] ms[j] >= x;
        assert(0 <= j < ms.len() && ms[j] >= x);
    } else {
        assert forall|j: int| 0 <= j < ms.len() implies ms[j] < x by {
            if ms[j] >= x {
                assert(0 <= j < ms.len() && #[trigger] ms[j] >= x);
            }
        }
    }
}

/// Enter in the bookmark list closes it; when the filtered view shows the
/// selected bookmark's line, the view scrolls to the position that shows
/// that line and stops following, and otherwise the scroll position stays.
pub proof fn law_enter_jumps_to_bookmarked_line(before: App, after: App, key: KeyEvent)
    requires
        popup_key_effect(before, after, key),
        key.code == KeyCode::Enter,
    ensures
        after.popup == PopupState::Closed,
        before.bookmark_scroll < before.bookmarks@.len() && before.filtered_indices@.contains(
            before.bookmarks@[before.bookmark_scroll as int],
        ) ==> {
            &&& after.scroll_offset < after.filtered_indices@.len()
            &&& after.filtered_indices@[after.scroll_offset as int] == before.bookmarks@[before.bookmark_scroll as int]
            &&& !after.auto_scroll
        },
        !(before.bookmark_scroll < before.bookmarks@.len() && before.filtered_indices@.contains(
            before.bookmarks@[before.bookmark_scroll as int],
        )) ==> after.scroll_offset == before.scroll_offset && after.auto_scroll == before.auto_scroll,
        after.filtered_indices == before.filtered_indices,
        after.bookmarks == before.bookmarks,
{
    let s = before.filtered_indices@;
    if before.bookmark_scroll < before.bookmarks@.len() {
        let x = before.bookmarks@[before.bookmark_scroll as int];
        lemma_position_of(s, x, 0);
        assert(before.filtered_indices.len() == s.len());
        if s.contains(x) {
            let j = choose|j: int| 0 <= j < s.len() && s[j] == x;
            assert(0 <= j < s.len() && s[j] == x);
            let p = position_of(s, x, 0)->0;
            assert(0 <= p < s.len() && s[p] == x);
            assert(after.scroll_offset == p as usize);
        } else {
            assert(!(exists|j: int| 0 <= j < s.len() && s[j] == x));
        }
    }
}

/// Looking `x` up from position `i` finds a position holding it exactly
/// when one exists from `i` on.
proof fn lemma_position_of(s: Seq<usize>, x: usize, i: int)
    requires
        0 <= i,
    ensures
        (exists|j: int| i <= j < s.len() && s[j] == x) ==> (position_of(s, x, i) matches Some(p) && i <= p < s.len()
            && s[p] == x),
        !(exists|j: int| i <= j < s.len() && s[j] == x) ==> position_of(s, x, i) is None,
    decreases s.len() - i,
{
    if i < s.len() && s[i] != x {
        lemma_position_of(s, x, i + 1);
        if exists|j: int| i <= j < s.len() && s[j] == x {
            let j = choose|j: int| i <= j < s.len() && s[j] == x;
            assert(i + 1 <= j < s.len() && s[j] == x);
        }
    }
}

/// How severe a level is: Error is the most severe, Trace the least.
pub open spec fn severity(level: LogLevel) -> int {
    match level {
        LogLevel::Error => 4,
        LogLevel::Warn => 3,
        LogLevel::Info => 2,
        LogLevel::Debug => 1,
        LogLevel::Trace => 0,
    }
}

/// The pattern that recognises lines of a level.
pub open spec fn level_pattern(level: LogLevel) -> Seq<char> {
    match level {
        LogLevel::Error => ERROR_PATTERN@,
        LogLevel::Warn => WARN_PATTERN@,
        LogLevel::Info => INFO_PATTERN@,
        LogLevel::Debug => DEBUG_PATTERN@,
        LogLevel::Trace => TRACE_PATTERN@,
    }
}

/// The level of a line is the most severe level whose pattern finds a match
/// in it: its pattern matches, and no pattern of a more severe level does;
/// a line that no level pattern matches has no level.
pub proof fn law_detect_level_most_severe(line: Seq<char>)
    ensures
        match spec_detect_level(line) {
            Some(l) => pattern_finds(level_pattern(l), line) && forall|m: LogLevel|
                severity(m) > severity(l) ==> !pattern_finds(#[trigger] level_pattern(m), line),
            None => forall|m: LogLevel| !pattern_finds(#[trigger] level_pattern(m), line),
        },
{
    assert forall|m: LogLevel| #![trigger level_pattern(m)] true by {
        match m {
            LogLevel::Error => {},
            LogLevel::Warn => {},
            LogLevel::Info => {},
            LogLevel::Debug => {},
            LogLevel::Trace => {},
        }
    }
}

/// The key map, key by key: `q` and Esc quit, and so does Ctrl-C; `k`/Up
/// and `j`/Down move a line; PageUp/PageDown a page; `g`/Home go to the top
/// and `G`/End to the bottom; `f` toggles following and Ctrl-F starts a
/// search; `w` toggles wrap; `/` and `!` start an include or exclude filter;
/// `d` drops the last filter; `n`/`N` go to the next or previous hit; `b`
/// toggles a bookmark and `B` opens the list; `y` copies the line. Control
/// changes only `c` and `f`, and any other key does nothing.
pub proof fn law_key_map(key: KeyEvent)
    ensures
        key.code == KeyCode::Char('q') || key.code == KeyCode::Esc ==> spec_normal_command(key) == Command::Quit,
        key.code == KeyCode::Char('c') ==> spec_normal_command(key) == if key.ctrl {
            Command::Quit
        } else {
            Command::Ignore
        },
        key.code == KeyCode::Up || key.code == KeyCode::Char('k') ==> spec_normal_command(key) == Command::LineUp,
        key.code == KeyCode::Down || key.code == KeyCode::Char('j') ==> spec_normal_command(key) == Command::LineDown,
        key.code == KeyCode::PageUp ==> spec_normal_command(key) == Command::PageUp,
        key.code == KeyCode::PageDown ==> spec_normal_command(key) == Command::PageDown,
        key.code == KeyCode::Home || key.code == KeyCode::Char('g') ==> spec_normal_command(key) == Command::Top,
        key.code == KeyCode::End || key.code == KeyCode::Char('G') ==> spec_normal_command(key) == Command::Bottom,
        key.code == KeyCode::Char('f') ==> spec_normal_command(key) == if key.ctrl {
            Command::StartSearch
        } else {
            Command::ToggleFollow
        },
        key.code == KeyCode::Char('w') ==> spec_normal_command(key) == Command::ToggleWrap,
        key.code == KeyCode::Char('/') ==> spec_normal_command(key) == Command::StartFilter,
        key.code == KeyCode::Char('!') ==> spec_normal_command(key) == Command::StartInverseFilter,
        key.code == KeyCode::Char('d') ==> spec_normal_command(key) == Command::PopFilter,
        key.code == KeyCode::Char('n') ==> spec_normal_command(key) == Command::NextMatch,
        key.code == KeyCode::Char('N') ==> spec_normal_command(key) == Command::PrevMatch,
        key.code == KeyCode::Char('b') ==> spec_normal_command(key) == Command::ToggleBookmark,
        key.code == KeyCode::Char('B') ==> spec_normal_command(key) == Command::OpenBookmarks,
        key.code == KeyCode::Char('y') ==> spec_normal_command(key) == Command::CopyLine,
        key.code == KeyCode::Enter || key.code == KeyCode::Backspace || key.code == KeyCode::Other
            ==> spec_normal_command(key) == Command::Ignore,
{
}

/// In the log view, Home and `g` jump to the top: the scroll position
/// becomes 0 and following stops, with or without Control, and nothing else
/// changes.
pub proof fn law_home_jumps_to_top(before: App, after: App, key: KeyEvent, copy: Option<String>)
    requires
        normal_key_effect(before, after, key, copy),
        before.popup == PopupState::Closed,
        key.code == KeyCode::Home || key.code == KeyCode::Char('g'),
    ensures
        after.scroll_offset == 0,
        !after.auto_scroll,
        after == (App { scroll_offset: 0, auto_scroll: false, ..before }),
        copy is None,
{
    law_key_map(key);
}

/// Up-to-date search hits are exactly the positions of the filtered view
/// whose line the search pattern matches, each once, in view order; with no
/// active search there are none.
pub proof fn law_search_hits_are_matching_lines(app: App)
    requires
        app.search_current(),
    ensures
        app.search.pattern@.len() == 0 ==> app.search.match_indices@.len() == 0,
        app.search.pattern@.len() > 0 ==> forall|fi: usize| #[trigger]
            app.search.match_indices@.contains(fi) <==> {
                &&& fi < app.filtered_indices@.len()
                &&& app.filtered_indices@[fi as int] < app.lines@.len()
                &&& regex_matches(app.search.pattern@, app.lines@[app.filtered_indices@[fi as int] as int].content@)
            },
        forall|i: int, j: int|
            0 <= i < j < app.search.match_indices@.len() ==> app.search.match_indices@[i]
                < app.search.match_indices@[j],
{
    if app.search.pattern@.len() > 0 {
        assert(app.filtered_indices.len() == app.filtered_indices@.len());
        law_search_hits_exact(app.lines@, app.filtered_indices@, app.search.pattern@);
    }
}

/// `d` in the bookmark list deletes exactly the selected bookmark, keeping
/// the others in order.
pub proof fn law_delete_removes_selected_bookmark(before: App, after: App, key: KeyEvent)
    requires
        before.wf(),
        popup_key_effect(before, after, key),
        key.code == KeyCode::Char('d'),
        before.bookmark_scroll < before.bookmarks@.len(),
    ensures
        after.bookmarks@.len() == before.bookmarks@.len() - 1,
        forall|y: usize| #[trigger]
            after.bookmarks@.contains(y) <==> (before.bookmarks@.contains(y) && y
                != before.bookmarks@[before.bookmark_scroll as int]),
        strictly_sorted(after.bookmarks@),
{
    crate::app::lemma_sorted_remove(before.bookmarks@, before.bookmark_scroll as int);
}

} // verus!
