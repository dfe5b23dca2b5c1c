//! The segment collapser: turns a file's ordered list of point segments
//! into closed coverage spans, one per region-entry segment, each carrying
//! the sum of its own count and of every immediately following non-entry
//! segment's count. The result is handed out in reverse emission order, so
//! that downstream marker insertion proceeds from the end of the file
//! backwards and earlier character offsets stay valid.

use vstd::prelude::*;
use crate::model::{CoverageSegment, CoverageSpan};

verus! {

/// A segment list that opens with a non-entry segment has no span to extend;
/// the collapser rejects it rather than guessing.
#[derive(Clone, Copy, Debug, PartialEq, Eq, Structural)]
pub enum CollapseError {
    LeadingNonEntry,
}

/// The first region-entry index at or after `i`, or the list's length when
/// there is none.
pub open spec fn next_entry(segs: Seq<CoverageSegment>, i: int) -> int
    decreases segs.len() - i,
{
    if i >= segs.len() {
        segs.len() as int
    } else if segs[i].is_region_entry {
        i
    } else {
        next_entry(segs, i + 1)
    }
}

/// The sum of the counts of `segs[lo..hi]`, as an unbounded integer.
pub open spec fn sum_counts(segs: Seq<CoverageSegment>, lo: int, hi: int) -> int
    decreases hi - lo,
{
    if lo >= hi {
        0
    } else {
        segs[lo].count + sum_counts(segs, lo + 1, hi)
    }
}

/// The span one group of segments collapses to: the group is `segs[lo..hi]`,
/// opened by the entry at `lo`; it starts at the entry's position, ends at
/// the last member's position, and carries the group's summed count.
pub open spec fn span_of_group(segs: Seq<CoverageSegment>, lo: int, hi: int) -> CoverageSpan {
    CoverageSpan {
        start_line: segs[lo].line,
        start_col: segs[lo].col,
        end_line: segs[hi - 1].line,
        end_col: segs[hi - 1].col,
        count: sum_counts(segs, lo, hi) as i64,
    }
}

proof fn lemma_next_entry_bounds(segs: Seq<CoverageSegment>, i: int)
    requires
        0 <= i <= segs.len(),
    ensures
        i <= next_entry(segs, i) <= segs.len(),
        next_entry(segs, i) < segs.len() ==> segs[next_entry(segs, i)].is_region_entry,
        forall|j: int| i <= j < next_entry(segs, i) ==> !segs[j].is_region_entry,
    decreases segs.len() - i,
{
    if i < segs.len() && !segs[i].is_region_entry {
        lemma_next_entry_bounds(segs, i + 1);
    }
}

proof fn lemma_next_entry_exact(segs: Seq<CoverageSegment>, i: int, j: int)
    requires
        0 <= i <= j <= segs.len(),
        forall|k: int| i <= k < j ==> !segs[k].is_region_entry,
        j < segs.len() ==> segs[j].is_region_entry,
    ensures
        next_entry(segs, i) == j,
    decreases j - i,
{
    if i < j {
        lemma_next_entry_exact(segs, i + 1, j);
    }
}

#[via_fn]
proof fn collapse_from_decreases(segs: Seq<CoverageSegment>, i: int)
{
    if 0 <= i < segs.len() {
        lemma_next_entry_bounds(segs, i + 1);
    }
}

/// The spans of the groups from position `i` (an entry, or the end) on,
/// in file order.
pub open spec fn collapse_from(segs: Seq<CoverageSegment>, i: int) -> Seq<CoverageSpan>
    decreases segs.len() - i,
        when 0 <= i
        via collapse_from_decreases
{
    if i >= segs.len() {
        Seq::empty()
    } else {
        seq![span_of_group(segs, i, next_entry(segs, i + 1))] + collapse_from(
            segs,
            next_entry(segs, i + 1),
        )
    }
}

/// The whole list's spans, in file order (before the reversal the collapser
/// applies on the way out).
pub open spec fn collapse_spec(segs: Seq<CoverageSegment>) -> Seq<CoverageSpan> {
    collapse_from(segs, 0)
}

/// How many region-entry segments `segs[i..]` holds.
pub open spec fn num_entries(segs: Seq<CoverageSegment>, i: int) -> int
    decreases segs.len() - i,
{
    if i < 0 || i >= segs.len() {
        0
    } else {
        (if segs[i].is_region_entry {
            1int
        } else {
            0int
        }) + num_entries(segs, i + 1)
    }
}

/// The sum of the spans' counts, as an unbounded integer.
pub open spec fn spans_total(spans: Seq<CoverageSpan>) -> int
    decreases spans.len(),
{
    if spans.len() == 0 {
        0
    } else {
        spans[0].count + spans_total(spans.skip(1))
    }
}

pub proof fn lemma_sum_extend(segs: Seq<CoverageSegment>, lo: int, hi: int)
    requires
        lo <= hi,
    ensures
        sum_counts(segs, lo, hi + 1) == sum_counts(segs, lo, hi) + segs[hi].count,
    decreases hi - lo,
{
    if lo < hi {
        lemma_sum_extend(segs, lo + 1, hi);
    } else {
        assert(sum_counts(segs, lo + 1, hi + 1) == 0);
        assert(sum_counts(segs, lo, hi) == 0);
    }
}

proof fn lemma_sum_split(segs: Seq<CoverageSegment>, lo: int, mid: int, hi: int)
    requires
        lo <= mid <= hi,
    ensures
        sum_counts(segs, lo, hi) == sum_counts(segs, lo, mid) + sum_counts(segs, mid, hi),
    decreases mid - lo,
{
    if lo < mid {
        lemma_sum_split(segs, lo + 1, mid, hi);
    }
}

proof fn lemma_sum_nonneg(segs: Seq<CoverageSegment>, lo: int, hi: int)
    requires
        forall|k: int| 0 <= k < segs.len() ==> segs[k].count >= 0,
        0 <= lo,
        hi <= segs.len(),
    ensures
        sum_counts(segs, lo, hi) >= 0,
    decreases hi - lo,
{
    if lo < hi {
        lemma_sum_nonneg(segs, lo + 1, hi);
    }
}

/// With nonnegative counts, any group's sum is bounded by the whole list's.
pub proof fn lemma_sum_within(segs: Seq<CoverageSegment>, lo: int, hi: int)
    requires
        forall|k: int| 0 <= k < segs.len() ==> segs[k].count >= 0,
        0 <= lo <= hi <= segs.len(),
    ensures
        0 <= sum_counts(segs, lo, hi) <= sum_counts(segs, 0, segs.len() as int),
{
    lemma_sum_nonneg(segs, lo, hi);
    lemma_sum_nonneg(segs, 0, lo);
    lemma_sum_nonneg(segs, hi, segs.len() as int);
    lemma_sum_split(segs, 0, lo, segs.len() as int);
    lemma_sum_split(segs, lo, hi, segs.len() as int);
}

/// Collapses one file's ordered segment list into spans and hands them back
/// in reverse emission order. A list opening with a non-entry segment is
/// rejected; an empty list yields no spans.
pub fn collapse_segments(segments: &Vec<CoverageSegment>) -> (r: Result<
    Vec<CoverageSpan>,
    CollapseError,
>)
    requires
        forall|k: int| 0 <= k < segments@.len() ==> segments@[k].count >= 0,
        sum_counts(segments@, 0, segments@.len() as int) <= i64::MAX,
    ensures
        r is Ok <==> (segments@.len() == 0 || segments@[0].is_region_entry),
        r matches Ok(spans) ==> spans@ == collapse_spec(segments@).reverse(),
        r matches Err(e) ==> e == CollapseError::LeadingNonEntry,
{
    let ghost segs = segments@;
    let n = segments.len();
    if n == 0 {
        let empty: Vec<CoverageSpan> = Vec::new();
        proof {
            assert(collapse_spec(segs).reverse() =~= Seq::<CoverageSpan>::empty());
        }
        return Ok(empty);
    }
    let first = segments[0];
    if !first.is_region_entry {
        return Err(CollapseError::LeadingNonEntry);
    }
    let mut emitted: Vec<CoverageSpan> = Vec::new();
    let mut cur = CoverageSpan {
        start_line: first.line,
        start_col: first.col,
        end_line: first.line,
        end_col: first.col,
        count: first.count,
    };
    let ghost mut lo: int = 0;
    let mut i: usize = 1;
    proof {
        assert(sum_counts(segs, 1, 1) == 0);
        assert(sum_counts(segs, 0, 1) == segs[0].count);
        assert(emitted@ + collapse_from(segs, 0) =~= collapse_from(segs, 0));
    }
    while i < n
        invariant
            segs == segments@,
            n == segs.len(),
            segs[0].is_region_entry,
            forall|k: int| 0 <= k < segs.len() ==> segs[k].count >= 0,
            sum_counts(segs, 0, segs.len() as int) <= i64::MAX,
            1 <= i <= n,
            0 <= lo < i,
            segs[lo].is_region_entry,
            forall|j: int| lo < j < i ==> !segs[j].is_region_entry,
            cur.start_line == segs[lo].line,
            cur.start_col == segs[lo].col,
            cur.end_line == segs[i - 1].line,
            cur.end_col == segs[i - 1].col,
            cur.count as int == sum_counts(segs, lo, i as int),
            collapse_from(segs, 0) == emitted@ + collapse_from(segs, lo),
        decreases n - i,
    {
        let s = segments[i];
        if s.is_region_entry {
            proof {
                lemma_next_entry_exact(segs, lo + 1, i as int);
                lemma_sum_within(segs, lo, i as int);
                assert(cur == span_of_group(segs, lo, i as int));
                assert(collapse_from(segs, lo) == seq![span_of_group(segs, lo, i as int)]
                    + collapse_from(segs, i as int));
            }
            emitted.push(cur);
            proof {
                assert(emitted@ + collapse_from(segs, i as int) =~= collapse_from(segs, 0));
            }
            cur = CoverageSpan {
                start_line: s.line,
                start_col: s.col,
                end_line: s.line,
                end_col: s.col,
                count: s.count,
            };
            proof {
                lo = i as int;
                assert(sum_counts(segs, i as int + 1, i as int + 1) == 0);
                assert(sum_counts(segs, i as int, i as int + 1) == segs[i as int].count);
            }
        } else {
            proof {
                lemma_sum_extend(segs, lo, i as int);
                lemma_sum_within(segs, lo, i as int);
                lemma_sum_within(segs, lo, i as int + 1);
            }
            cur = CoverageSpan {
                start_line: cur.start_line,
                start_col: cur.start_col,
                end_line: s.line,
                end_col: s.col,
                count: cur.count + s.count,
            };
        }
        i = i + 1;
    }
    proof {
        lemma_next_entry_exact(segs, lo + 1, n as int);
        lemma_sum_within(segs, lo, n as int);
        assert(cur == span_of_group(segs, lo, n as int));
        assert(collapse_from(segs, lo) == seq![span_of_group(segs, lo, n as int)]
            + collapse_from(segs, n as int));
    }
    emitted.push(cur);
    proof {
        assert(emitted@ =~= collapse_from(segs, 0));
    }
    let mut out: Vec<CoverageSpan> = Vec::new();
    let mut k = emitted.len();
    while k > 0
        invariant
            k <= emitted@.len(),
            out@.len() == emitted@.len() - k,
            forall|m: int|
                0 <= m < out@.len() ==> out@[m] == emitted@[emitted@.len() - 1 - m],
        decreases k,
    {
        k = k - 1;
        out.push(emitted[k]);
    }
    proof {
        assert(out@ =~= emitted@.reverse());
    }
    Ok(out)
}

proof fn lemma_num_entries_skip(segs: Seq<CoverageSegment>, a: int, b: int)
    requires
        0 <= a <= b <= segs.len(),
        forall|k: int| a <= k < b ==> !segs[k].is_region_entry,
    ensures
        num_entries(segs, a) == num_entries(segs, b),
    decreases b - a,
{
    if a < b {
        lemma_num_entries_skip(segs, a + 1, b);
    }
}

proof fn lemma_collapse_from_counts(segs: Seq<CoverageSegment>, i: int)
    requires
        forall|k: int| 0 <= k < segs.len() ==> segs[k].count >= 0,
        sum_counts(segs, 0, segs.len() as int) <= i64::MAX,
        0 <= i <= segs.len(),
        i < segs.len() ==> segs[i].is_region_entry,
    ensures
        collapse_from(segs, i).len() == num_entries(segs, i),
        spans_total(collapse_from(segs, i)) == sum_counts(segs, i, segs.len() as int),
    decreases segs.len() - i,
{
    if i >= segs.len() {
        assert(num_entries(segs, i) == 0);
        assert(sum_counts(segs, i, segs.len() as int) == 0);
        assert(spans_total(Seq::<CoverageSpan>::empty()) == 0);
    } else {
        let ne = next_entry(segs, i + 1);
        lemma_next_entry_bounds(segs, i + 1);
        lemma_collapse_from_counts(segs, ne);
        lemma_num_entries_skip(segs, i + 1, ne);
        let span = span_of_group(segs, i, ne);
        let spans = collapse_from(segs, i);
        assert(spans == seq![span] + collapse_from(segs, ne));
        assert(spans.skip(1) =~= collapse_from(segs, ne));
        assert(spans_total(spans) == span.count + spans_total(collapse_from(segs, ne)));
        lemma_sum_within(segs, i, ne);
        assert(span.count as int == sum_counts(segs, i, ne));
        lemma_sum_split(segs, i, ne, segs.len() as int);
    }
}

/// One span per region-entry segment, and no hit count lost: the collapser
/// produces exactly as many spans as the list has region entries, each
/// span's count is by construction the sum of its group's segment counts
/// (see `span_of_group`), and in total the spans' counts sum to the
/// segments' counts.
pub proof fn lemma_collapser_conserves(segs: Seq<CoverageSegment>)
    requires
        segs.len() == 0 || segs[0].is_region_entry,
        forall|k: int| 0 <= k < segs.len() ==> segs[k].count >= 0,
        sum_counts(segs, 0, segs.len() as int) <= i64::MAX,
    ensures
        collapse_spec(segs).len() == num_entries(segs, 0),
        spans_total(collapse_spec(segs)) == sum_counts(segs, 0, segs.len() as int),
{
    lemma_collapse_from_counts(segs, 0);
}

#[via_fn]
proof fn group_bounds_from_decreases(segs: Seq<CoverageSegment>, i: int) {
    if 0 <= i < segs.len() {
        lemma_next_entry_bounds(segs, i + 1);
    }
}

/// The `(lo, hi)` index bounds of each group of segments that collapses to
/// one span, in file order: each group runs from its region entry up to,
/// not including, the next one.
pub open spec fn group_bounds_from(segs: Seq<CoverageSegment>, i: int) -> Seq<(int, int)>
    decreases segs.len() - i,
        when 0 <= i
        via group_bounds_from_decreases
{
    if i >= segs.len() {
        Seq::empty()
    } else {
        seq![(i, next_entry(segs, i + 1))] + group_bounds_from(segs, next_entry(segs, i + 1))
    }
}

/// Every span the collapser produces is the span of one group of segments:
/// the groups tile `segs[i..]`, each opens with a region entry, holds no
/// further entry, and consecutive groups share their boundary.
pub proof fn lemma_collapse_groups(segs: Seq<CoverageSegment>, i: int)
    requires
        0 <= i <= segs.len(),
        i < segs.len() ==> segs[i].is_region_entry,
    ensures
        collapse_from(segs, i).len() == group_bounds_from(segs, i).len(),
        forall|k: int|
            0 <= k < group_bounds_from(segs, i).len() ==> collapse_from(segs, i)[k]
                == span_of_group(
                segs,
                group_bounds_from(segs, i)[k].0,
                group_bounds_from(segs, i)[k].1,
            ),
        forall|k: int|
            0 <= k < group_bounds_from(segs, i).len() ==> i <= (#[trigger] group_bounds_from(
                segs,
                i,
            )[k]).0 < group_bounds_from(segs, i)[k].1 <= segs.len(),
        forall|k: int|
            0 <= k < group_bounds_from(segs, i).len() ==> segs[group_bounds_from(
                segs,
                i,
            )[k].0].is_region_entry,
        forall|k: int, j: int|
            #![trigger group_bounds_from(segs, i)[k], segs[j]]
            0 <= k < group_bounds_from(segs, i).len() && group_bounds_from(segs, i)[k].0 < j
                < group_bounds_from(segs, i)[k].1 ==> !segs[j].is_region_entry,
        forall|k: int|
            0 <= k < group_bounds_from(segs, i).len() - 1 ==> group_bounds_from(segs, i)[k].1
                == group_bounds_from(segs, i)[k + 1].0,
        group_bounds_from(segs, i).len() > 0 ==> group_bounds_from(segs, i)[0].0 == i,
    decreases segs.len() - i,
{
    if i < segs.len() {
        let ne = next_entry(segs, i + 1);
        lemma_next_entry_bounds(segs, i + 1);
        lemma_collapse_groups(segs, ne);
        let bounds = group_bounds_from(segs, i);
        let rest = group_bounds_from(segs, ne);
        assert(bounds == seq![(i, ne)] + rest);
        assert forall|k: int| 1 <= k < bounds.len() implies bounds[k] == rest[k - 1] by {}
        assert(collapse_from(segs, i) == seq![span_of_group(segs, i, ne)] + collapse_from(
            segs,
            ne,
        ));
    }
}

/// Lexicographic order on source positions.
pub open spec fn pos_le(l1: i64, c1: i64, l2: i64, c2: i64) -> bool {
    l1 < l2 || (l1 == l2 && c1 <= c2)
}

/// Segments arrive sorted by `(line, col)` ascending.
pub open spec fn segments_sorted(segs: Seq<CoverageSegment>) -> bool {
    forall|k: int|
        0 <= k < segs.len() - 1 ==> pos_le(
            #[trigger] segs[k].line,
            segs[k].col,
            segs[k + 1].line,
            segs[k + 1].col,
        )
}

proof fn lemma_sorted_trans(segs: Seq<CoverageSegment>, a: int, b: int)
    requires
        segments_sorted(segs),
        0 <= a <= b < segs.len(),
    ensures
        pos_le(segs[a].line, segs[a].col, segs[b].line, segs[b].col),
    decreases b - a,
{
    if a < b {
        lemma_sorted_trans(segs, a, b - 1);
    }
}

proof fn lemma_bounds_start_mono(segs: Seq<CoverageSegment>, i: int, k: int, l: int)
    requires
        0 <= i <= segs.len(),
        i < segs.len() ==> segs[i].is_region_entry,
        0 <= k <= l < group_bounds_from(segs, i).len(),
    ensures
        group_bounds_from(segs, i)[k].0 <= group_bounds_from(segs, i)[l].0,
    decreases l - k,
{
    lemma_collapse_groups(segs, i);
    if k < l {
        lemma_bounds_start_mono(segs, i, k + 1, l);
    }
}

/// Nesting validity: any two spans the collapser produces never cross. In
/// file order, the earlier span is itself well-formed (its start does not
/// come after its end) and ends at or before the point where the later
/// span starts, so once both are marked in the annotated text their marker
/// pairs are disjoint or properly nested, never interleaved.
pub proof fn lemma_spans_never_cross(segs: Seq<CoverageSegment>, a: int, b: int)
    requires
        segments_sorted(segs),
        segs.len() == 0 || segs[0].is_region_entry,
        0 <= a < b < collapse_spec(segs).len(),
    ensures
        pos_le(
            collapse_spec(segs)[a].start_line,
            collapse_spec(segs)[a].start_col,
            collapse_spec(segs)[a].end_line,
            collapse_spec(segs)[a].end_col,
        ),
        pos_le(
            collapse_spec(segs)[a].end_line,
            collapse_spec(segs)[a].end_col,
            collapse_spec(segs)[b].start_line,
            collapse_spec(segs)[b].start_col,
        ),
{
    lemma_collapse_groups(segs, 0);
    let bounds = group_bounds_from(segs, 0);
    let lo_a = bounds[a].0;
    let hi_a = bounds[a].1;
    let lo_b = bounds[b].0;
    lemma_sorted_trans(segs, lo_a, hi_a - 1);
    if a + 1 < bounds.len() {
        lemma_bounds_start_mono(segs, 0, a + 1, b);
    }
    assert(hi_a <= lo_b);
    lemma_sorted_trans(segs, hi_a - 1, lo_b);
}

} // verus!
