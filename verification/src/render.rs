//! What the log view draws for one line: the line's text cut into
//! segments, each plain or highlighted as a timestamp or a search hit.
use vstd::prelude::*;
use crate::app::SearchState;
use crate::highlight::{spec_timestamps, Highlighter};
use crate::pattern::{find_spans, is_match, regex_match_spans, regex_matches};
use vstd::string::StringSliceAdditionalSpecFns;
use vstd::utf8::{encode_utf8_valid_utf8, is_char_boundary, is_char_boundary_start_end_of_seq, valid_utf8};

verus! {

/// How a segment of a line is drawn.
#[derive(PartialEq, Eq, Structural, Clone, Copy, Debug)]
pub enum SegmentKind {
    Base,
    Timestamp,
    SearchHit,
}

/// The byte range `[start, end)` of a line, and how it is drawn.
#[derive(PartialEq, Eq, Structural, Clone, Copy, Debug)]
pub struct Segment {
    pub start: usize,
    pub end: usize,
    pub kind: SegmentKind,
}

/// `a` comes strictly before `b` in drawing order: by start ascending, and
/// for equal starts the longer first.
pub open spec fn drawn_before(a: Segment, b: Segment) -> bool {
    a.start < b.start || (a.start == b.start && a.end > b.end)
}

/// Inserts `r` into `sorted` after every element that does not come
/// strictly after it (so equal keys keep their order).
pub open spec fn insert_region(sorted: Seq<Segment>, r: Segment) -> Seq<Segment>
    decreases sorted.len(),
{
    if sorted.len() > 0 && drawn_before(r, sorted.last()) {
        insert_region(sorted.drop_last(), r).push(sorted.last())
    } else {
        sorted.push(r)
    }
}

/// The regions in drawing order, by a stable sort.
pub open spec fn sort_regions(regions: Seq<Segment>) -> Seq<Segment>
    decreases regions.len(),
{
    if regions.len() == 0 {
        Seq::empty()
    } else {
        insert_region(sort_regions(regions.drop_last()), regions.last())
    }
}

/// One step of laying out sorted regions: the plain gap before a region,
/// then the region itself, unless it starts inside what is already laid out
/// (then it is dropped). `pos` is where the laid-out text ends.
pub open spec fn merge_step(segs: Seq<Segment>, pos: int, r: Segment) -> (Seq<Segment>, int) {
    let with_gap = if r.start > pos {
        segs.push(Segment { start: pos as usize, end: r.start, kind: SegmentKind::Base })
    } else {
        segs
    };
    if r.start >= pos {
        (with_gap.push(r), r.end as int)
    } else {
        (with_gap, pos)
    }
}

/// Lays out the sorted regions in order, from position 0.
pub open spec fn merge_regions(sorted: Seq<Segment>) -> (Seq<Segment>, int)
    decreases sorted.len(),
{
    if sorted.len() == 0 {
        (Seq::empty(), 0)
    } else {
        let prev = merge_regions(sorted.drop_last());
        merge_step(prev.0, prev.1, sorted.last())
    }
}

/// The segments of a line of `len` bytes with the given highlight regions:
/// the whole line plain when there is none; else the regions in drawing
/// order with the plain gaps between them and the plain rest of the line.
pub open spec fn plan_segments(len: usize, regions: Seq<Segment>) -> Seq<Segment> {
    if regions.len() == 0 {
        seq![Segment { start: 0, end: len, kind: SegmentKind::Base }]
    } else {
        let (segs, pos) = merge_regions(sort_regions(regions));
        if pos < len {
            segs.push(Segment { start: pos as usize, end: len, kind: SegmentKind::Base })
        } else {
            segs
        }
    }
}

/// The segments cover `[from, to)` exactly: in order, each starting where
/// the one before ended.
pub open spec fn tiles(segs: Seq<Segment>, from: int, to: int) -> bool {
    if segs.len() == 0 {
        from == to
    } else {
        &&& segs[0].start == from
        &&& segs.last().end == to
        &&& forall|k: int| 0 <= k < segs.len() ==> #[trigger] segs[k].start <= segs[k].end
        &&& forall|k: int| 0 <= k < segs.len() - 1 ==> #[trigger] segs[k].end == segs[k + 1].start
    }
}

/// A region lies inside a line of `len` bytes.
pub open spec fn region_inside(r: Segment, len: int) -> bool {
    r.start <= r.end <= len
}

/// Inserting a region keeps every region satisfying `p` when all did.
proof fn lemma_insert_region_all(sorted: Seq<Segment>, r: Segment, p: spec_fn(Segment) -> bool)
    requires
        forall|k: int| 0 <= k < sorted.len() ==> p(#[trigger] sorted[k]),
        p(r),
    ensures
        forall|k: int| 0 <= k < insert_region(sorted, r).len() ==> p(#[trigger] insert_region(sorted, r)[k]),
        insert_region(sorted, r).len() == sorted.len() + 1,
    decreases sorted.len(),
{
    if sorted.len() > 0 && drawn_before(r, sorted.last()) {
        let init = sorted.drop_last();
        assert forall|k: int| 0 <= k < init.len() implies p(#[trigger] init[k]) by {
            assert(init[k] == sorted[k]);
        }
        lemma_insert_region_all(init, r, p);
        let t = insert_region(init, r);
        assert forall|k: int| 0 <= k < t.push(sorted.last()).len() implies p(#[trigger] t.push(sorted.last())[k]) by {
            if k < t.len() {
                assert(t.push(sorted.last())[k] == t[k]);
            }
        }
    } else {
        assert forall|k: int| 0 <= k < sorted.push(r).len() implies p(#[trigger] sorted.push(r)[k]) by {
            if k < sorted.len() {
                assert(sorted.push(r)[k] == sorted[k]);
            }
        }
    }
}

/// Sorting keeps every region satisfying `p` when all did.
proof fn lemma_sort_regions_all(regions: Seq<Segment>, p: spec_fn(Segment) -> bool)
    requires
        forall|k: int| 0 <= k < regions.len() ==> p(#[trigger] regions[k]),
    ensures
        forall|k: int| 0 <= k < sort_regions(regions).len() ==> p(#[trigger] sort_regions(regions)[k]),
        sort_regions(regions).len() == regions.len(),
    decreases regions.len(),
{
    if regions.len() > 0 {
        let init = regions.drop_last();
        assert forall|k: int| 0 <= k < init.len() implies p(#[trigger] init[k]) by {
            assert(init[k] == regions[k]);
        }
        lemma_sort_regions_all(init, p);
        lemma_insert_region_all(sort_regions(init), regions.last(), p);
    }
}

proof fn lemma_merge_tiles(sorted: Seq<Segment>, len: int)
    requires
        0 <= len,
        forall|k: int| 0 <= k < sorted.len() ==> region_inside(#[trigger] sorted[k], len),
    ensures
        tiles(merge_regions(sorted).0, 0, merge_regions(sorted).1),
        0 <= merge_regions(sorted).1 <= len,
        sorted.len() > 0 ==> merge_regions(sorted).0.len() > 0,
    decreases sorted.len(),
{
    if sorted.len() > 0 {
        let init = sorted.drop_last();
        assert forall|k: int| 0 <= k < init.len() implies region_inside(#[trigger] init[k], len) by {
            assert(init[k] == sorted[k]);
        }
        lemma_merge_tiles(init, len);
        let (segs, pos) = merge_regions(init);
        let r = sorted.last();
        assert(region_inside(r, len));
        let gap = Segment { start: pos as usize, end: r.start, kind: SegmentKind::Base };
        if r.start > pos {
            let s1 = segs.push(gap);
            let s2 = s1.push(r);
            assert forall|k: int| 0 <= k < s2.len() implies #[trigger] s2[k].start <= s2[k].end by {
                if k < segs.len() {
                    assert(s2[k] == segs[k]);
                }
            }
            assert forall|k: int| 0 <= k < s2.len() - 1 implies #[trigger] s2[k].end == s2[k + 1].start by {
                if k < segs.len() - 1 {
                    assert(s2[k] == segs[k]);
                    assert(s2[k + 1] == segs[k + 1]);
                } else if k == segs.len() - 1 {
                    assert(s2[k] == segs[k]);
                }
            }
            if segs.len() > 0 {
                assert(s2[0] == segs[0]);
            }
        } else if r.start == pos {
            let s2 = segs.push(r);
            assert forall|k: int| 0 <= k < s2.len() implies #[trigger] s2[k].start <= s2[k].end by {
                if k < segs.len() {
                    assert(s2[k] == segs[k]);
                }
            }
            assert forall|k: int| 0 <= k < s2.len() - 1 implies #[trigger] s2[k].end == s2[k + 1].start by {
                if k < segs.len() - 1 {
                    assert(s2[k] == segs[k]);
                    assert(s2[k + 1] == segs[k + 1]);
                } else {
                    assert(s2[k] == segs[k]);
                }
            }
            if segs.len() > 0 {
                assert(s2[0] == segs[0]);
            }
        }
    }
}

/// Laying out regions that lie inside a line covers the whole line exactly
/// once, in order.
proof fn lemma_plan_tiles(len: usize, regions: Seq<Segment>)
    requires
        forall|k: int| 0 <= k < regions.len() ==> region_inside(#[trigger] regions[k], len as int),
    ensures
        tiles(plan_segments(len, regions), 0, len as int),
        plan_segments(len, regions).len() > 0,
{
    if regions.len() > 0 {
        let inside = |r: Segment| region_inside(r, len as int);
        assert forall|k: int| 0 <= k < regions.len() implies inside(#[trigger] regions[k]) by {}
        lemma_sort_regions_all(regions, inside);
        assert forall|k: int| 0 <= k < sort_regions(regions).len() implies region_inside(
            #[trigger] sort_regions(regions)[k],
            len as int,
        ) by {
            assert(inside(sort_regions(regions)[k]));
        }
        lemma_merge_tiles(sort_regions(regions), len as int);
        let (segs, pos) = merge_regions(sort_regions(regions));
        if pos < len {
            let gap = Segment { start: pos as usize, end: len, kind: SegmentKind::Base };
            let s2 = segs.push(gap);
            assert forall|k: int| 0 <= k < s2.len() implies #[trigger] s2[k].start <= s2[k].end by {
                if k < segs.len() {
                    assert(s2[k] == segs[k]);
                }
            }
            assert forall|k: int| 0 <= k < s2.len() - 1 implies #[trigger] s2[k].end == s2[k + 1].start by {
                if k < segs.len() - 1 {
                    assert(s2[k] == segs[k]);
                    assert(s2[k + 1] == segs[k + 1]);
                } else {
                    assert(s2[k] == segs[k]);
                }
            }
            assert(s2[0] == segs[0]);
        }
    }
}

proof fn lemma_insert_at(s: Seq<Segment>, r: Segment, j: int)
    requires
        0 <= j <= s.len(),
        forall|k: int| j <= k < s.len() ==> drawn_before(r, #[trigger] s[k]),
        j == 0 || !drawn_before(r, s[j - 1]),
    ensures
        insert_region(s, r) == s.insert(j, r),
    decreases s.len(),
{
    if j < s.len() {
        let init = s.drop_last();
        assert forall|k: int| j <= k < init.len() implies drawn_before(r, #[trigger] init[k]) by {
            assert(init[k] == s[k]);
        }
        if j > 0 {
            assert(init[j - 1] == s[j - 1]);
        }
        lemma_insert_at(init, r, j);
        assert(init.insert(j, r).push(s.last()) =~= s.insert(j, r));
    } else {
        assert(s.push(r) =~= s.insert(j, r));
    }
}

fn is_drawn_before(a: Segment, b: Segment) -> (r: bool)
    ensures
        r == drawn_before(a, b),
{
    a.start < b.start || (a.start == b.start && a.end > b.end)
}

fn insert_sorted(sorted: &mut Vec<Segment>, r: Segment)
    ensures
        final(sorted)@ == insert_region(old(sorted)@, r),
{
    let n = sorted.len();
    let mut j = n;
    while j > 0 && is_drawn_before(r, sorted[j - 1])
        invariant
            j <= n == sorted@.len(),
            forall|k: int| j <= k < n ==> drawn_before(r, #[trigger] sorted@[k]),
        decreases j,
    {
        j = j - 1;
    }
    proof {
        lemma_insert_at(sorted@, r, j as int);
    }
    sorted.insert(j, r);
}

/// Puts the regions in drawing order: by start ascending, the longer first
/// for equal starts, equal keys in their given order.
pub fn sort_regions_exec(regions: &Vec<Segment>) -> (sorted: Vec<Segment>)
    ensures
        sorted@ == sort_regions(regions@),
{
    let mut sorted: Vec<Segment> = Vec::new();
    let n = regions.len();
    for i in 0..n
        invariant
            n == regions@.len(),
            sorted@ == sort_regions(regions@.take(i as int)),
    {
        assert(regions@.take(i + 1).drop_last() =~= regions@.take(i as int));
        insert_sorted(&mut sorted, regions[i]);
    }
    assert(regions@.take(n as int) =~= regions@);
    sorted
}

/// Lays out the line: the segments for the given highlight regions, as
/// `plan_segments` describes them.
pub fn plan_line_segments(len: usize, regions: &Vec<Segment>) -> (segs: Vec<Segment>)
    ensures
        segs@ == plan_segments(len, regions@),
{
    if regions.len() == 0 {
        let mut v = Vec::new();
        v.push(Segment { start: 0, end: len, kind: SegmentKind::Base });
        assert(v@ =~= seq![Segment { start: 0, end: len, kind: SegmentKind::Base }]);
        return v;
    }
    let sorted = sort_regions_exec(regions);
    let mut segs: Vec<Segment> = Vec::new();
    let mut pos: usize = 0;
    let n = sorted.len();
    for i in 0..n
        invariant
            n == sorted@.len(),
            (segs@, pos as int) == merge_regions(sorted@.take(i as int)),
    {
        assert(sorted@.take(i + 1).drop_last() =~= sorted@.take(i as int));
        let r = sorted[i];
        if r.start > pos {
            segs.push(Segment { start: pos, end: r.start, kind: SegmentKind::Base });
        }
        if r.start >= pos {
            segs.push(r);
            pos = r.end;
        }
    }
    assert(sorted@.take(n as int) =~= sorted@);
    if pos < len {
        segs.push(Segment { start: pos, end: len, kind: SegmentKind::Base });
    }
    segs
}

/// Byte spans as regions of one kind.
pub open spec fn spans_as(spans: Seq<(usize, usize)>, kind: SegmentKind) -> Seq<Segment> {
    Seq::new(spans.len(), |i: int| Segment { start: spans[i].0, end: spans[i].1, kind })
}

/// The timestamp regions of a line.
pub open spec fn timestamp_regions(content: Seq<char>) -> Seq<Segment> {
    spans_as(spec_timestamps(content), SegmentKind::Timestamp)
}

/// The search-hit regions of a line: every match of the active search
/// pattern when it matches the line, else none.
pub open spec fn search_hit_regions(content: Seq<char>, search_pattern: Seq<char>) -> Seq<Segment> {
    if search_pattern.len() > 0 && regex_matches(search_pattern, content) {
        spans_as(regex_match_spans(search_pattern, content), SegmentKind::SearchHit)
    } else {
        Seq::empty()
    }
}

/// The part of `segs` before byte `a`: the segments that start before it,
/// each cut off at `a`.
pub open spec fn cut_before(segs: Seq<Segment>, a: usize) -> Seq<Segment>
    decreases segs.len(),
{
    if segs.len() == 0 {
        Seq::empty()
    } else {
        let s = segs.last();
        let init = cut_before(segs.drop_last(), a);
        if s.start < a {
            init.push(Segment { start: s.start, end: if s.end < a { s.end } else { a }, kind: s.kind })
        } else {
            init
        }
    }
}

/// The part of `segs` after byte `b`: the segments that end after it, each
/// cut to start no earlier than `b`.
pub open spec fn cut_after(segs: Seq<Segment>, b: usize) -> Seq<Segment>
    decreases segs.len(),
{
    if segs.len() == 0 {
        Seq::empty()
    } else {
        let s = segs.last();
        let init = cut_after(segs.drop_last(), b);
        if s.end > b {
            init.push(Segment { start: if s.start > b { s.start } else { b }, end: s.end, kind: s.kind })
        } else {
            init
        }
    }
}

/// `segs` with the region `r` drawn over them: what lies under `r` gives way
/// to it, and a segment that `r` covers in part keeps the rest.
pub open spec fn overlay(segs: Seq<Segment>, r: Segment) -> Seq<Segment> {
    cut_before(segs, r.start) + seq![r] + cut_after(segs, r.end)
}

/// `segs` with each of the regions drawn over them in turn.
pub open spec fn overlay_all(segs: Seq<Segment>, regions: Seq<Segment>) -> Seq<Segment>
    decreases regions.len(),
{
    if regions.len() == 0 {
        segs
    } else {
        overlay(overlay_all(segs, regions.drop_last()), regions.last())
    }
}

/// The segments the log view draws for a line: the timestamps laid out over
/// the plain line, then the search hits drawn over them, so that a hit wins
/// over a timestamp it overlaps.
pub open spec fn spec_line_segments(content: Seq<char>, len: usize, search_pattern: Seq<char>) -> Seq<Segment> {
    overlay_all(plan_segments(len, timestamp_regions(content)), search_hit_regions(content, search_pattern))
}

/// A tiling of `[from, to)` without its last segment tiles up to where that
/// segment starts.
proof fn lemma_tiles_drop_last(segs: Seq<Segment>, from: int, to: int)
    requires
        tiles(segs, from, to),
        segs.len() > 0,
    ensures
        tiles(segs.drop_last(), from, segs.last().start as int),
{
    let init = segs.drop_last();
    if init.len() > 0 {
        assert(init[0] == segs[0]);
        assert(init.last() == segs[segs.len() - 2]);
        assert forall|k: int| 0 <= k < init.len() - 1 implies #[trigger] init[k].end == init[k + 1].start by {
            assert(init[k] == segs[k]);
            assert(init[k + 1] == segs[k + 1]);
        }
        assert forall|k: int| 0 <= k < init.len() implies #[trigger] init[k].start <= init[k].end by {
            assert(init[k] == segs[k]);
        }
    }
}

/// In a tiling of `[from, to)`, every segment lies inside it, and a segment
/// ends no later than any later one starts.
proof fn lemma_tiles_bounds(segs: Seq<Segment>, from: int, to: int)
    requires
        tiles(segs, from, to),
    ensures
        from <= to,
        forall|k: int| 0 <= k < segs.len() ==> from <= #[trigger] segs[k].start <= segs[k].end <= to,
        forall|i: int, j: int| 0 <= i < j < segs.len() ==> #[trigger] segs[i].end <= #[trigger] segs[j].start,
    decreases segs.len(),
{
    if segs.len() > 0 {
        let init = segs.drop_last();
        let last = segs.last();
        lemma_tiles_drop_last(segs, from, to);
        lemma_tiles_bounds(init, from, last.start as int);
        assert forall|k: int| 0 <= k < segs.len() implies from <= #[trigger] segs[k].start <= segs[k].end <= to by {
            if k < init.len() {
                assert(init[k] == segs[k]);
            }
        }
        assert forall|i: int, j: int| 0 <= i < j < segs.len() implies #[trigger] segs[i].end
            <= #[trigger] segs[j].start by {
            assert(init[i] == segs[i]);
            if j < init.len() {
                assert(init[j] == segs[j]);
            }
        }
    }
}

proof fn lemma_cut_before_whole(segs: Seq<Segment>, a: usize)
    requires
        forall|k: int| 0 <= k < segs.len() ==> #[trigger] segs[k].start < a && segs[k].end <= a,
    ensures
        cut_before(segs, a) == segs,
    decreases segs.len(),
{
    if segs.len() > 0 {
        let init = segs.drop_last();
        assert forall|k: int| 0 <= k < init.len() implies #[trigger] init[k].start < a && init[k].end <= a by {
            assert(init[k] == segs[k]);
        }
        lemma_cut_before_whole(init, a);
        assert(init.push(segs.last()) =~= segs);
    }
}

proof fn lemma_cut_after_none(segs: Seq<Segment>, b: usize)
    requires
        forall|k: int| 0 <= k < segs.len() ==> #[trigger] segs[k].end <= b,
    ensures
        cut_after(segs, b) == Seq::<Segment>::empty(),
    decreases segs.len(),
{
    if segs.len() > 0 {
        let init = segs.drop_last();
        assert forall|k: int| 0 <= k < init.len() implies #[trigger] init[k].end <= b by {
            assert(init[k] == segs[k]);
        }
        lemma_cut_after_none(init, b);
    }
}

/// Cutting a tiling of `[from, to)` before `a` tiles `[from, a)`.
proof fn lemma_cut_before_tiles(segs: Seq<Segment>, from: int, to: int, a: usize)
    requires
        tiles(segs, from, to),
        from <= a <= to,
    ensures
        tiles(cut_before(segs, a), from, a as int),
    decreases segs.len(),
{
    if segs.len() > 0 {
        let init = segs.drop_last();
        let last = segs.last();
        lemma_tiles_drop_last(segs, from, to);
        lemma_tiles_bounds(init, from, last.start as int);
        if last.start < a {
            assert forall|k: int| 0 <= k < init.len() implies #[trigger] init[k].start < a && init[k].end <= a by {}
            lemma_cut_before_whole(init, a);
            let c = Segment { start: last.start, end: a, kind: last.kind };
            let r = init.push(c);
            assert(cut_before(segs, a) == r);
            assert forall|k: int| 0 <= k < r.len() implies #[trigger] r[k].start <= r[k].end by {
                if k < init.len() {
                    assert(r[k] == init[k]);
                }
            }
            assert forall|k: int| 0 <= k < r.len() - 1 implies #[trigger] r[k].end == r[k + 1].start by {
                assert(r[k] == init[k]);
                if k + 1 < init.len() {
                    assert(r[k + 1] == init[k + 1]);
                }
            }
            if init.len() > 0 {
                assert(r[0] == init[0]);
            }
        } else {
            lemma_cut_before_tiles(init, from, last.start as int, a);
        }
    }
}

/// Cutting a tiling of `[from, to)` after `b` tiles `[b, to)`.
proof fn lemma_cut_after_tiles(segs: Seq<Segment>, from: int, to: int, b: usize)
    requires
        tiles(segs, from, to),
        from <= b <= to,
    ensures
        tiles(cut_after(segs, b), b as int, to),
    decreases segs.len(),
{
    lemma_tiles_bounds(segs, from, to);
    if segs.len() > 0 {
        let init = segs.drop_last();
        let last = segs.last();
        lemma_tiles_drop_last(segs, from, to);
        lemma_tiles_bounds(init, from, last.start as int);
        if last.end > b {
            if last.start >= b {
                lemma_cut_after_tiles(init, from, last.start as int, b);
                let front = cut_after(init, b);
                let r = front.push(last);
                assert(cut_after(segs, b) == r);
                assert forall|k: int| 0 <= k < r.len() implies #[trigger] r[k].start <= r[k].end by {
                    if k < front.len() {
                        assert(r[k] == front[k]);
                    }
                }
                assert forall|k: int| 0 <= k < r.len() - 1 implies #[trigger] r[k].end == r[k + 1].start by {
                    assert(r[k] == front[k]);
                    if k + 1 < front.len() {
                        assert(r[k + 1] == front[k + 1]);
                    }
                }
                if front.len() > 0 {
                    assert(r[0] == front[0]);
                }
            } else {
                assert forall|k: int| 0 <= k < init.len() implies #[trigger] init[k].end <= b by {}
                lemma_cut_after_none(init, b);
                let c = Segment { start: b, end: last.end, kind: last.kind };
                assert(cut_after(segs, b) =~= seq![c]);
            }
        } else {
            assert forall|k: int| 0 <= k < segs.len() implies #[trigger] segs[k].end <= b by {}
            lemma_cut_after_none(segs, b);
        }
    }
}

/// Tilings of `[from, mid)` and `[mid, to)` placed one after the other tile
/// `[from, to)`.
proof fn lemma_tiles_concat(x: Seq<Segment>, y: Seq<Segment>, from: int, mid: int, to: int)
    requires
        tiles(x, from, mid),
        tiles(y, mid, to),
    ensures
        tiles(x + y, from, to),
{
    let z = x + y;
    if x.len() > 0 && y.len() > 0 {
        assert(z[0] == x[0]);
        assert(z.last() == y.last());
        assert forall|k: int| 0 <= k < z.len() implies #[trigger] z[k].start <= z[k].end by {
            if k < x.len() {
                assert(z[k] == x[k]);
            } else {
                assert(z[k] == y[k - x.len()]);
            }
        }
        assert forall|k: int| 0 <= k < z.len() - 1 implies #[trigger] z[k].end == z[k + 1].start by {
            if k < x.len() - 1 {
                assert(z[k] == x[k]);
                assert(z[k + 1] == x[k + 1]);
            } else if k == x.len() - 1 {
                assert(z[k] == x[k]);
                assert(z[k + 1] == y[0]);
            } else {
                assert(z[k] == y[k - x.len()]);
                assert(z[k + 1] == y[k + 1 - x.len()]);
            }
        }
    } else if x.len() == 0 {
        assert(z =~= y);
    } else {
        assert(z =~= x);
    }
}

/// Drawing a region inside `[0, len)` over a tiling of it gives a tiling of
/// it.
proof fn lemma_overlay_tiles(segs: Seq<Segment>, len: int, r: Segment)
    requires
        tiles(segs, 0, len),
        region_inside(r, len),
    ensures
        tiles(overlay(segs, r), 0, len),
{
    lemma_cut_before_tiles(segs, 0, len, r.start);
    lemma_cut_after_tiles(segs, 0, len, r.end);
    let mid = seq![r];
    assert(tiles(mid, r.start as int, r.end as int));
    lemma_tiles_concat(cut_before(segs, r.start), mid, 0, r.start as int, r.end as int);
    lemma_tiles_concat(cut_before(segs, r.start) + mid, cut_after(segs, r.end), 0, r.end as int, len);
}

proof fn lemma_overlay_all_tiles(segs: Seq<Segment>, len: int, regions: Seq<Segment>)
    requires
        tiles(segs, 0, len),
        forall|k: int| 0 <= k < regions.len() ==> region_inside(#[trigger] regions[k], len),
    ensures
        tiles(overlay_all(segs, regions), 0, len),
    decreases regions.len(),
{
    if regions.len() > 0 {
        let init = regions.drop_last();
        assert forall|k: int| 0 <= k < init.len() implies region_inside(#[trigger] init[k], len) by {
            assert(init[k] == regions[k]);
        }
        lemma_overlay_all_tiles(segs, len, init);
        lemma_overlay_tiles(overlay_all(segs, init), len, regions.last());
    }
}

/// A segment that starts and ends no later than `a` survives cutting at `a`
/// unchanged, when it starts before `a`.
proof fn lemma_cut_before_keeps(segs: Seq<Segment>, a: usize, x: Segment)
    requires
        segs.contains(x),
        x.start < a,
        x.end <= a,
    ensures
        cut_before(segs, a).contains(x),
    decreases segs.len(),
{
    let init = segs.drop_last();
    let c = cut_before(init, a);
    if segs.last() == x {
        assert(cut_before(segs, a) == c.push(x));
        assert(c.push(x)[c.len() as int] == x);
    } else {
        let k = choose|k: int| 0 <= k < segs.len() && segs[k] == x;
        assert(init[k] == x);
        lemma_cut_before_keeps(init, a, x);
        let j = choose|j: int| 0 <= j < c.len() && c[j] == x;
        if segs.last().start < a {
            let s = segs.last();
            let d = c.push(Segment { start: s.start, end: if s.end < a { s.end } else { a }, kind: s.kind });
            assert(d[j] == x);
        }
    }
}

/// Whatever the timestamps and search hits, as long as each lies inside the
/// line, the segments cover the whole line exactly once, in order: no byte
/// of the line is dropped or drawn twice.
pub proof fn law_segments_tile_line(len: usize, timestamps: Seq<Segment>, hits: Seq<Segment>)
    requires
        forall|k: int| 0 <= k < timestamps.len() ==> region_inside(#[trigger] timestamps[k], len as int),
        forall|k: int| 0 <= k < hits.len() ==> region_inside(#[trigger] hits[k], len as int),
    ensures
        tiles(overlay_all(plan_segments(len, timestamps), hits), 0, len as int),
{
    lemma_plan_tiles(len, timestamps);
    lemma_overlay_all_tiles(plan_segments(len, timestamps), len as int, hits);
}

/// Search hits take priority: every non-empty search hit is drawn whole, as
/// one segment, whatever timestamps lie under it, when the hits come in
/// order without overlap (as the regex engine reports them).
pub proof fn law_search_hits_drawn_whole(segs: Seq<Segment>, hits: Seq<Segment>)
    requires
        forall|k: int| 0 <= k < hits.len() ==> #[trigger] hits[k].start <= hits[k].end,
        forall|k: int| 0 <= k < hits.len() - 1 ==> #[trigger] hits[k].end <= hits[k + 1].start,
    ensures
        forall|k: int|
            0 <= k < hits.len() && hits[k].start < hits[k].end ==> overlay_all(segs, hits).contains(
                #[trigger] hits[k],
            ),
    decreases hits.len(),
{
    if hits.len() > 0 {
        let init = hits.drop_last();
        let last = hits.last();
        assert forall|k: int| 0 <= k < init.len() implies #[trigger] init[k].start <= init[k].end by {
            assert(init[k] == hits[k]);
        }
        assert forall|k: int| 0 <= k < init.len() - 1 implies #[trigger] init[k].end <= init[k + 1].start by {
            assert(init[k] == hits[k]);
            assert(init[k + 1] == hits[k + 1]);
        }
        law_search_hits_drawn_whole(segs, init);
        let prev = overlay_all(segs, init);
        lemma_overlay_keeps(prev, last, last);
        assert forall|k: int|
            0 <= k < hits.len() && hits[k].start < hits[k].end implies overlay(prev, last).contains(
            #[trigger] hits[k],
        ) by {
            if k < hits.len() - 1 {
                assert(init[k] == hits[k]);
                lemma_hits_ordered(hits, k, hits.len() - 1);
                lemma_overlay_keeps(prev, last, hits[k]);
            }
        }
    }
}

/// Drawing `r` keeps `r`, and keeps whole every non-empty segment that ends
/// by the start of `r`.
proof fn lemma_overlay_keeps(segs: Seq<Segment>, r: Segment, x: Segment)
    requires
        x == r || (segs.contains(x) && x.start < x.end <= r.start),
    ensures
        overlay(segs, r).contains(x),
{
    let before = cut_before(segs, r.start);
    let result = before + seq![r] + cut_after(segs, r.end);
    if x == r {
        assert(result[before.len() as int] == r);
    } else {
        lemma_cut_before_keeps(segs, r.start, x);
        let j = choose|j: int| 0 <= j < before.len() && before[j] == x;
        assert(result[j] == x);
    }
}

proof fn lemma_hits_ordered(hits: Seq<Segment>, i: int, j: int)
    requires
        forall|k: int| 0 <= k < hits.len() ==> #[trigger] hits[k].start <= hits[k].end,
        forall|k: int| 0 <= k < hits.len() - 1 ==> #[trigger] hits[k].end <= hits[k + 1].start,
        0 <= i < j < hits.len(),
    ensures
        hits[i].end <= hits[j].start,
    decreases j - i,
{
    if i + 1 < j {
        lemma_hits_ordered(hits, i + 1, j);
        assert(hits[i].end <= hits[i + 1].start);
        assert(hits[i + 1].start <= hits[i + 1].end);
    }
}

/// Both ends of `s` fall on character boundaries of `bytes`.
pub open spec fn on_char_boundaries(s: Segment, bytes: Seq<u8>) -> bool {
    is_char_boundary(bytes, s.start as int) && is_char_boundary(bytes, s.end as int)
}

proof fn lemma_merge_boundaries(sorted: Seq<Segment>, bytes: Seq<u8>)
    requires
        valid_utf8(bytes),
        forall|k: int| 0 <= k < sorted.len() ==> on_char_boundaries(#[trigger] sorted[k], bytes),
    ensures
        forall|k: int|
            0 <= k < merge_regions(sorted).0.len() ==> on_char_boundaries(#[trigger] merge_regions(sorted).0[k], bytes),
        is_char_boundary(bytes, merge_regions(sorted).1),
    decreases sorted.len(),
{
    if sorted.len() == 0 {
        is_char_boundary_start_end_of_seq(bytes);
    } else {
        let init = sorted.drop_last();
        assert forall|k: int| 0 <= k < init.len() implies on_char_boundaries(#[trigger] init[k], bytes) by {
            assert(init[k] == sorted[k]);
        }
        lemma_merge_boundaries(init, bytes);
        let (segs, pos) = merge_regions(init);
        let r = sorted.last();
        assert(on_char_boundaries(r, bytes));
        let gap = Segment { start: pos as usize, end: r.start, kind: SegmentKind::Base };
        let with_gap = if r.start > pos {
            segs.push(gap)
        } else {
            segs
        };
        assert forall|k: int| 0 <= k < with_gap.len() implies on_char_boundaries(#[trigger] with_gap[k], bytes) by {
            if k < segs.len() {
                assert(with_gap[k] == segs[k]);
            }
        }
        if r.start >= pos {
            let out = with_gap.push(r);
            assert forall|k: int| 0 <= k < out.len() implies on_char_boundaries(#[trigger] out[k], bytes) by {
                if k < with_gap.len() {
                    assert(out[k] == with_gap[k]);
                }
            }
        }
    }
}

/// The segments laid out for regions whose ends fall on character
/// boundaries of the line's bytes have their ends there too.
proof fn lemma_plan_boundaries(len: usize, regions: Seq<Segment>, bytes: Seq<u8>)
    requires
        valid_utf8(bytes),
        len == bytes.len(),
        forall|k: int| 0 <= k < regions.len() ==> on_char_boundaries(#[trigger] regions[k], bytes),
    ensures
        forall|k: int|
            0 <= k < plan_segments(len, regions).len() ==> on_char_boundaries(
                #[trigger] plan_segments(len, regions)[k],
                bytes,
            ),
{
    is_char_boundary_start_end_of_seq(bytes);
    if regions.len() > 0 {
        let bnd = |r: Segment| on_char_boundaries(r, bytes);
        assert forall|k: int| 0 <= k < regions.len() implies bnd(#[trigger] regions[k]) by {}
        lemma_sort_regions_all(regions, bnd);
        let sorted = sort_regions(regions);
        assert forall|k: int| 0 <= k < sorted.len() implies on_char_boundaries(#[trigger] sorted[k], bytes) by {
            assert(bnd(sorted[k]));
        }
        lemma_merge_boundaries(sorted, bytes);
        let (segs, pos) = merge_regions(sorted);
        if pos < len {
            let out = segs.push(Segment { start: pos as usize, end: len, kind: SegmentKind::Base });
            assert forall|k: int| 0 <= k < out.len() implies on_char_boundaries(#[trigger] out[k], bytes) by {
                if k < segs.len() {
                    assert(out[k] == segs[k]);
                }
            }
        }
    }
}

proof fn lemma_cut_boundaries(segs: Seq<Segment>, a: usize, b: usize, bytes: Seq<u8>)
    requires
        forall|k: int| 0 <= k < segs.len() ==> on_char_boundaries(#[trigger] segs[k], bytes),
        is_char_boundary(bytes, a as int),
        is_char_boundary(bytes, b as int),
    ensures
        forall|k: int| 0 <= k < cut_before(segs, a).len() ==> on_char_boundaries(#[trigger] cut_before(segs, a)[k], bytes),
        forall|k: int| 0 <= k < cut_after(segs, b).len() ==> on_char_boundaries(#[trigger] cut_after(segs, b)[k], bytes),
    decreases segs.len(),
{
    if segs.len() > 0 {
        let init = segs.drop_last();
        let s = segs.last();
        assert(on_char_boundaries(s, bytes));
        assert forall|k: int| 0 <= k < init.len() implies on_char_boundaries(#[trigger] init[k], bytes) by {
            assert(init[k] == segs[k]);
        }
        lemma_cut_boundaries(init, a, b, bytes);
        let cb = cut_before(init, a);
        let ca = cut_after(init, b);
        let x = Segment { start: s.start, end: if s.end < a { s.end } else { a }, kind: s.kind };
        let y = Segment { start: if s.start > b { s.start } else { b }, end: s.end, kind: s.kind };
        assert forall|k: int| 0 <= k < cb.push(x).len() implies on_char_boundaries(#[trigger] cb.push(x)[k], bytes) by {
            if k < cb.len() {
                assert(cb.push(x)[k] == cb[k]);
            }
        }
        assert forall|k: int| 0 <= k < ca.push(y).len() implies on_char_boundaries(#[trigger] ca.push(y)[k], bytes) by {
            if k < ca.len() {
                assert(ca.push(y)[k] == ca[k]);
            }
        }
    }
}

proof fn lemma_overlay_all_boundaries(segs: Seq<Segment>, regions: Seq<Segment>, bytes: Seq<u8>)
    requires
        forall|k: int| 0 <= k < segs.len() ==> on_char_boundaries(#[trigger] segs[k], bytes),
        forall|k: int| 0 <= k < regions.len() ==> on_char_boundaries(#[trigger] regions[k], bytes),
    ensures
        forall|k: int|
            0 <= k < overlay_all(segs, regions).len() ==> on_char_boundaries(
                #[trigger] overlay_all(segs, regions)[k],
                bytes,
            ),
    decreases regions.len(),
{
    if regions.len() > 0 {
        let init = regions.drop_last();
        let r = regions.last();
        assert(on_char_boundaries(r, bytes));
        assert forall|k: int| 0 <= k < init.len() implies on_char_boundaries(#[trigger] init[k], bytes) by {
            assert(init[k] == regions[k]);
        }
        lemma_overlay_all_boundaries(segs, init, bytes);
        let prev = overlay_all(segs, init);
        lemma_cut_boundaries(prev, r.start, r.end, bytes);
        let cb = cut_before(prev, r.start);
        let ca = cut_after(prev, r.end);
        let out = cb + seq![r] + ca;
        assert forall|k: int| 0 <= k < out.len() implies on_char_boundaries(#[trigger] out[k], bytes) by {
            if k < cb.len() {
                assert(out[k] == cb[k]);
            } else if k == cb.len() {
                assert(out[k] == r);
            } else {
                assert(out[k] == ca[k - cb.len() - 1]);
            }
        }
    }
}

fn cut_before_exec(segs: &Vec<Segment>, a: usize) -> (out: Vec<Segment>)
    ensures
        out@ == cut_before(segs@, a),
{
    let mut out: Vec<Segment> = Vec::new();
    let n = segs.len();
    for i in 0..n
        invariant
            n == segs@.len(),
            out@ == cut_before(segs@.take(i as int), a),
    {
        assert(segs@.take(i + 1).drop_last() =~= segs@.take(i as int));
        let s = segs[i];
        if s.start < a {
            let end = if s.end < a {
                s.end
            } else {
                a
            };
            out.push(Segment { start: s.start, end, kind: s.kind });
        }
    }
    assert(segs@.take(n as int) =~= segs@);
    out
}

fn cut_after_exec(segs: &Vec<Segment>, b: usize) -> (out: Vec<Segment>)
    ensures
        out@ == cut_after(segs@, b),
{
    let mut out: Vec<Segment> = Vec::new();
    let n = segs.len();
    for i in 0..n
        invariant
            n == segs@.len(),
            out@ == cut_after(segs@.take(i as int), b),
    {
        assert(segs@.take(i + 1).drop_last() =~= segs@.take(i as int));
        let s = segs[i];
        if s.end > b {
            let start = if s.start > b {
                s.start
            } else {
                b
            };
            out.push(Segment { start, end: s.end, kind: s.kind });
        }
    }
    assert(segs@.take(n as int) =~= segs@);
    out
}

/// Draws each region over the segments in turn, as `overlay_all` describes.
pub fn overlay_regions(segs: &Vec<Segment>, regions: &Vec<Segment>) -> (out: Vec<Segment>)
    ensures
        out@ == overlay_all(segs@, regions@),
{
    let mut out: Vec<Segment> = segs.clone();
    assert(out@ =~= overlay_all(segs@, regions@.take(0)));
    let n = regions.len();
    for i in 0..n
        invariant
            n == regions@.len(),
            out@ == overlay_all(segs@, regions@.take(i as int)),
    {
        assert(regions@.take(i + 1).drop_last() =~= regions@.take(i as int));
        let r = regions[i];
        let mut next = cut_before_exec(&out, r.start);
        next.push(r);
        let mut rest = cut_after_exec(&out, r.end);
        next.append(&mut rest);
        assert(next@ =~= overlay(out@, r));
        out = next;
    }
    assert(regions@.take(n as int) =~= regions@);
    out
}

fn push_spans(regions: &mut Vec<Segment>, spans: &Vec<(usize, usize)>, kind: SegmentKind, len: usize)
    requires
        forall|k: int| 0 <= k < old(regions)@.len() ==> region_inside(#[trigger] old(regions)@[k], len as int),
        forall|k: int| 0 <= k < spans@.len() ==> #[trigger] spans@[k].0 <= spans@[k].1 <= len,
    ensures
        final(regions)@ == old(regions)@ + spans_as(spans@, kind),
        forall|k: int| 0 <= k < final(regions)@.len() ==> region_inside(#[trigger] final(regions)@[k], len as int),
{
    let ghost base = regions@;
    let n = spans.len();
    for i in 0..n
        invariant
            n == spans@.len(),
            regions@ == base + spans_as(spans@.take(i as int), kind),
            forall|k: int| 0 <= k < base.len() ==> region_inside(#[trigger] base[k], len as int),
            forall|k: int| #![trigger spans@[k]] 0 <= k < spans@.len() ==> spans@[k].0 <= spans@[k].1 <= len,
            forall|k: int| 0 <= k < regions@.len() ==> region_inside(#[trigger] regions@[k], len as int),
    {
        let pair = spans[i];
        assert(pair.0 <= pair.1 <= len);
        regions.push(Segment { start: pair.0, end: pair.1, kind });
        assert(spans_as(spans@.take(i + 1), kind) =~= spans_as(spans@.take(i as int), kind).push(
            Segment { start: pair.0, end: pair.1, kind },
        ));
    }
    assert(spans@.take(n as int) =~= spans@);
}

/// The segments of a log line as the log view draws it: the timestamps laid
/// out over the plain line and then, when the active search matches the
/// line, the search hits drawn over them, a hit winning over a timestamp it
/// overlaps. Together they cover the line's bytes exactly once, in order.
pub fn line_segments(hl: &Highlighter, content: &str, search: &SearchState) -> (segs: Vec<Segment>)
    requires
        search.consistent(),
    ensures
        segs@ == spec_line_segments(content@, content.len(), search.pattern@),
        tiles(segs@, 0, content.len() as int),
        forall|k: int|
            0 <= k < search_hit_regions(content@, search.pattern@).len() && search_hit_regions(
                content@,
                search.pattern@,
            )[k].start < search_hit_regions(content@, search.pattern@)[k].end ==> segs@.contains(
                #[trigger] search_hit_regions(content@, search.pattern@)[k],
            ),
        forall|k: int| 0 <= k < segs@.len() ==> on_char_boundaries(#[trigger] segs@[k], content.spec_bytes()),
{
    // The byte length, taken from the byte view so that it is known to be
    // the length of `content.spec_bytes()`.
    let len = content.as_bytes().len();
    let mut ts_regions: Vec<Segment> = Vec::new();
    let ts = hl.find_timestamps(content);
    push_spans(&mut ts_regions, &ts, SegmentKind::Timestamp, len);
    assert(ts_regions@ =~= timestamp_regions(content@));
    let base = plan_line_segments(len, &ts_regions);
    let mut hits: Vec<Segment> = Vec::new();
    if let Some(regex) = &search.regex {
        if is_match(regex, content) {
            let spans = find_spans(regex, content);
            push_spans(&mut hits, &spans, SegmentKind::SearchHit, len);
            assert(hits@ =~= search_hit_regions(content@, search.pattern@));
            assert forall|k: int| 0 <= k < hits@.len() - 1 implies #[trigger] hits@[k].end <= hits@[k + 1].start by {
                assert(spans@[k].1 <= spans@[k + 1].0);
            }
            assert forall|k: int| 0 <= k < hits@.len() implies on_char_boundaries(
                #[trigger] hits@[k],
                content.spec_bytes(),
            ) by {
                assert(hits@[k].start == spans@[k].0 && hits@[k].end == spans@[k].1);
            }
        }
    }
    assert(hits@ =~= search_hit_regions(content@, search.pattern@));
    proof {
        let out = overlay_all(base@, hits@);
        assert(tiles(out, 0, len as int)) by {
            law_segments_tile_line(len, ts_regions@, hits@);
        }
        assert(forall|k: int|
            0 <= k < hits@.len() && hits@[k].start < hits@[k].end ==> out.contains(#[trigger] hits@[k])) by {
            assert forall|k: int| 0 <= k < hits@.len() implies #[trigger] hits@[k].start <= hits@[k].end by {
                assert(region_inside(hits@[k], len as int));
            }
            law_search_hits_drawn_whole(base@, hits@);
        }
        let bytes = content.spec_bytes();
        assert(forall|k: int| 0 <= k < out.len() ==> on_char_boundaries(#[trigger] out[k], bytes)) by {
            encode_utf8_valid_utf8(content@);
            assert forall|k: int| 0 <= k < ts_regions@.len() implies on_char_boundaries(
                #[trigger] ts_regions@[k],
                bytes,
            ) by {
                assert(ts_regions@[k].start == ts@[k].0 && ts_regions@[k].end == ts@[k].1);
            }
            lemma_plan_boundaries(len, ts_regions@, bytes);
            lemma_overlay_all_boundaries(base@, hits@, bytes);
        }
    }
    overlay_regions(&base, &hits)
}

} // verus!
