//! The source annotator: inserts textual begin/end markers for each
//! coverage span into the file's lines, at character (not byte) offsets, so
//! that multi-byte text is never corrupted. Spans are handed in reverse
//! file order, so every insertion lands at or before the positions already
//! marked and never invalidates an offset still to be used.

use vstd::prelude::*;
use crate::model::CoverageSpan;
use crate::text::dec_rep;

verus! {

/// An insertion index is clamped to the line's character count: a request
/// at or beyond the end appends.
pub open spec fn clamp_index(len: nat, index: int) -> int {
    if index <= len {
        index
    } else {
        len as int
    }
}

/// The line with `ins` inserted immediately before the character at the
/// clamped index: a pure character-sequence splice, which cannot split a
/// code point.
pub open spec fn insert_at_spec(line: Seq<char>, index: int, ins: Seq<char>) -> Seq<char> {
    let i = clamp_index(line.len(), index);
    line.subrange(0, i) + ins + line.subrange(i, line.len() as int)
}

/// Inserts `ins` immediately before the character at `index`, counted in
/// characters, appending when `index` is at or past the end. Safe on
/// multi-byte text: the splice happens on character boundaries only.
pub fn insert_at_char(line: &str, index: usize, ins: &str) -> (r: String)
    ensures
        r@ == insert_at_spec(line@, index as int, ins@),
{
    let n = line.unicode_len();
    let i = if index > n {
        n
    } else {
        index
    };
    let mut r = line.substring_char(0, i).to_owned();
    r.append(ins);
    r.append(line.substring_char(i, n));
    r
}

/// The text of the marker closing a span.
pub open spec fn end_marker_text() -> Seq<char> {
    "{{ end_segment }}"@
}

/// The text of the marker opening span number `idx` with hit count `count`.
pub open spec fn start_marker_text(idx: nat, count: nat) -> Seq<char> {
    "{{ start_segment "@ + dec_rep(idx) + " "@ + dec_rep(count) + " }}"@
}

/// Builds the closing marker.
pub fn end_marker() -> (r: String)
    ensures
        r@ == end_marker_text(),
{
    "{{ end_segment }}".to_owned()
}

/// Builds the opening marker for span `idx` with hit count `count`.
pub fn start_marker(idx: usize, count: i64) -> (r: String)
    requires
        count >= 0,
    ensures
        r@ == start_marker_text(idx as nat, count as nat),
{
    let mut r = "{{ start_segment ".to_owned();
    let idx_dec = crate::text::u64_to_dec(idx as u64);
    r.append(idx_dec.as_str());
    r.append(" ");
    let count_dec = crate::text::u64_to_dec(count as u64);
    r.append(count_dec.as_str());
    r.append(" }}");
    r
}

/// A span the annotator can apply to a file of `nlines` lines: line numbers
/// are 1-based and within the file, and columns, like the count, are
/// nonnegative and within the machine's index range.
pub open spec fn span_in_bounds(span: CoverageSpan, nlines: int) -> bool {
    &&& 1 <= span.start_line <= span.end_line <= nlines
    &&& 0 <= span.start_col <= usize::MAX
    &&& 0 <= span.end_col <= usize::MAX
    &&& 0 <= span.count
}

/// What one line becomes when span `idx` is marked. A single-line span gets
/// its end marker first (at the higher offset), then its begin marker, so
/// the begin insertion cannot shift the end position. A multi-line span
/// closes every covered line at its end and reopens at column 0 of each
/// following covered line.
pub open spec fn annotate_span_line(
    orig: Seq<char>,
    span: CoverageSpan,
    idx: nat,
    line_no: int,
) -> Seq<char> {
    let sm = start_marker_text(idx, span.count as nat);
    let em = end_marker_text();
    if span.start_line == span.end_line {
        if line_no == span.start_line {
            insert_at_spec(
                insert_at_spec(orig, span.end_col as int, em),
                span.start_col as int,
                sm,
            )
        } else {
            orig
        }
    } else {
        if line_no == span.start_line {
            insert_at_spec(orig + em, span.start_col as int, sm)
        } else if line_no == span.end_line {
            sm + insert_at_spec(orig, span.end_col as int, em)
        } else if span.start_line < line_no && line_no < span.end_line {
            sm + orig + em
        } else {
            orig
        }
    }
}

/// All lines after span `idx` is marked; lines the span does not touch are
/// unchanged.
pub open spec fn annotate_span_spec(lines: Seq<Seq<char>>, span: CoverageSpan, idx: nat) -> Seq<
    Seq<char>,
> {
    Seq::new(lines.len(), |i: int| annotate_span_line(lines[i], span, idx, i + 1))
}

/// Marks one span in the file's lines.
pub fn annotate_span(lines: &mut Vec<String>, span: CoverageSpan, idx: usize)
    requires
        span_in_bounds(span, old(lines)@.len() as int),
    ensures
        final(lines)@.len() == old(lines)@.len(),
        final(lines).deep_view() == annotate_span_spec(old(lines).deep_view(), span, idx as nat),
{
    let ghost origd = lines.deep_view();
    let ghost target = annotate_span_spec(origd, span, idx as nat);
    let nlines = lines.len();
    let sm = start_marker(idx, span.count);
    proof {
        assert(span.end_line <= nlines as int);
    }
    let em = end_marker();
    if span.start_line == span.end_line {
        let li = (span.start_line as usize) - 1;
        let t1 = insert_at_char(lines[li].as_str(), span.end_col as usize, em.as_str());
        let t2 = insert_at_char(t1.as_str(), span.start_col as usize, sm.as_str());
        lines.set(li, t2);
        proof {
            assert(lines.deep_view()[li as int] =~= target[li as int]);
            assert(lines.deep_view() =~= target);
        }
    } else {
        let sl = (span.start_line as usize) - 1;
        let el = (span.end_line as usize) - 1;
        let mut t = lines[sl].clone();
        t.append(em.as_str());
        let t2 = insert_at_char(t.as_str(), span.start_col as usize, sm.as_str());
        lines.set(sl, t2);
        let u1 = insert_at_char(lines[el].as_str(), span.end_col as usize, em.as_str());
        let mut u = sm.clone();
        u.append(u1.as_str());
        lines.set(el, u);
        proof {
            assert(lines.deep_view()[sl as int] =~= target[sl as int]);
            assert(lines.deep_view()[el as int] =~= target[el as int]);
        }
        let mut m = sl + 1;
        while m < el
            invariant
                sl + 1 <= m <= el,
                el < lines@.len(),
                lines@.len() == origd.len(),
                span_in_bounds(span, origd.len() as int),
                sl as int == span.start_line - 1,
                el as int == span.end_line - 1,
                sm@ == start_marker_text(idx as nat, span.count as nat),
                em@ == end_marker_text(),
                target == annotate_span_spec(origd, span, idx as nat),
                lines.deep_view()[sl as int] == target[sl as int],
                lines.deep_view()[el as int] == target[el as int],
                forall|j: int| sl < j < m ==> lines.deep_view()[j] == target[j],
                forall|j: int|
                    0 <= j < origd.len() && !(sl <= j < m) && j != el ==> lines.deep_view()[j]
                        == origd[j],
            decreases el - m,
        {
            let mut w = sm.clone();
            w.append(lines[m].as_str());
            w.append(em.as_str());
            lines.set(m, w);
            proof {
                assert(lines.deep_view()[m as int] =~= target[m as int]);
            }
            m = m + 1;
        }
        proof {
            assert(lines.deep_view() =~= target);
        }
    }
}

/// The sequence with the `n` characters starting at `index` removed.
pub open spec fn remove_at(s: Seq<char>, index: int, n: int) -> Seq<char> {
    s.subrange(0, index) + s.subrange(index + n, s.len() as int)
}

/// Removing an inserted block at the index where it was placed restores
/// the line exactly.
pub proof fn lemma_insert_then_remove(line: Seq<char>, index: int, ins: Seq<char>)
    requires
        0 <= index,
    ensures
        remove_at(
            insert_at_spec(line, index, ins),
            clamp_index(line.len(), index),
            ins.len() as int,
        ) == line,
{
    let i = clamp_index(line.len(), index);
    let t = insert_at_spec(line, index, ins);
    assert(remove_at(t, i, ins.len() as int) =~= line);
}

/// Multi-byte safety: an insertion at any requested character index splits
/// no code point. The result is exactly the original's character sequence
/// with the inserted block standing whole between two of its characters —
/// same prefix, same suffix, and not a character lost, duplicated or
/// reordered (the multisets of characters add up).
pub proof fn lemma_insert_splits_no_char(line: Seq<char>, index: int, ins: Seq<char>)
    requires
        0 <= index,
    ensures
        insert_at_spec(line, index, ins).len() == line.len() + ins.len(),
        insert_at_spec(line, index, ins).subrange(0, clamp_index(line.len(), index))
            == line.subrange(0, clamp_index(line.len(), index)),
        insert_at_spec(line, index, ins).subrange(
            clamp_index(line.len(), index),
            clamp_index(line.len(), index) + ins.len(),
        ) == ins,
        insert_at_spec(line, index, ins).subrange(
            clamp_index(line.len(), index) + ins.len(),
            line.len() + ins.len() as int,
        ) == line.subrange(clamp_index(line.len(), index), line.len() as int),
        insert_at_spec(line, index, ins).to_multiset() == line.to_multiset().add(
            ins.to_multiset(),
        ),
{
    let i = clamp_index(line.len(), index);
    let pre = line.subrange(0, i);
    let suf = line.subrange(i, line.len() as int);
    let t = insert_at_spec(line, index, ins);
    assert(t.subrange(0, i) =~= pre);
    assert(t.subrange(i, i + ins.len()) =~= ins);
    assert(t.subrange(i + ins.len(), line.len() + ins.len() as int) =~= suf);
    vstd::seq_lib::lemma_multiset_commutative(pre + ins, suf);
    vstd::seq_lib::lemma_multiset_commutative(pre, ins);
    assert(line =~= pre + suf);
    vstd::seq_lib::lemma_multiset_commutative(pre, suf);
    assert(t.to_multiset() =~= line.to_multiset().add(ins.to_multiset()));
}

/// The inverse of `annotate_span_line`: removes, at the offsets where the
/// annotator put them, the markers span `idx` contributed to this line.
pub open spec fn unannotate_span_line(
    t: Seq<char>,
    span: CoverageSpan,
    idx: nat,
    line_no: int,
) -> Seq<char> {
    let sm = start_marker_text(idx, span.count as nat);
    let em = end_marker_text();
    let olen = t.len() - sm.len() - em.len();
    if span.start_line == span.end_line {
        if line_no == span.start_line {
            let after_sm = remove_at(
                t,
                clamp_index((olen + em.len()) as nat, span.start_col as int),
                sm.len() as int,
            );
            remove_at(after_sm, clamp_index(olen as nat, span.end_col as int), em.len() as int)
        } else {
            t
        }
    } else {
        if line_no == span.start_line {
            let after_sm = remove_at(
                t,
                clamp_index((olen + em.len()) as nat, span.start_col as int),
                sm.len() as int,
            );
            after_sm.subrange(0, olen)
        } else if line_no == span.end_line {
            let after_sm = t.skip(sm.len() as int);
            remove_at(after_sm, clamp_index(olen as nat, span.end_col as int), em.len() as int)
        } else if span.start_line < line_no && line_no < span.end_line {
            t.subrange(sm.len() as int, t.len() - em.len())
        } else {
            t
        }
    }
}

/// The inverse of `annotate_span_spec`, line by line.
pub open spec fn unannotate_span_spec(t: Seq<Seq<char>>, span: CoverageSpan, idx: nat) -> Seq<
    Seq<char>,
> {
    Seq::new(t.len(), |i: int| unannotate_span_line(t[i], span, idx, i + 1))
}

/// Removing one span's markers undoes marking that span.
pub proof fn lemma_unannotate_span(lines: Seq<Seq<char>>, span: CoverageSpan, idx: nat)
    requires
        span_in_bounds(span, lines.len() as int),
    ensures
        unannotate_span_spec(annotate_span_spec(lines, span, idx), span, idx) == lines,
{
    let sm = start_marker_text(idx, span.count as nat);
    let em = end_marker_text();
    let a = annotate_span_spec(lines, span, idx);
    let u = unannotate_span_spec(a, span, idx);
    assert forall|j: int| 0 <= j < lines.len() implies u[j] == lines[j] by {
        let orig = lines[j];
        let line_no = j + 1;
        if span.start_line == span.end_line {
            if line_no == span.start_line {
                let x = insert_at_spec(orig, span.end_col as int, em);
                lemma_insert_then_remove(x, span.start_col as int, sm);
                lemma_insert_then_remove(orig, span.end_col as int, em);
            }
        } else {
            if line_no == span.start_line {
                lemma_insert_then_remove(orig + em, span.start_col as int, sm);
                assert((orig + em).subrange(0, orig.len() as int) =~= orig);
            } else if line_no == span.end_line {
                let x = insert_at_spec(orig, span.end_col as int, em);
                assert((sm + x).skip(sm.len() as int) =~= x);
                lemma_insert_then_remove(orig, span.end_col as int, em);
            } else if span.start_line < line_no && line_no < span.end_line {
                assert((sm + orig + em).subrange(
                    sm.len() as int,
                    (sm + orig + em).len() - em.len(),
                ) =~= orig);
            }
        }
    }
    assert(u =~= lines);
}

proof fn lemma_annotate_upto_len(lines: Seq<Seq<char>>, spans: Seq<CoverageSpan>, n: int)
    ensures
        annotate_upto(lines, spans, n).len() == lines.len(),
    decreases n,
{
    if n > 0 {
        lemma_annotate_upto_len(lines, spans, n - 1);
    }
}

/// The inverse of `annotate_upto`: undoes the spans in reverse order of
/// application, removing each span's markers at the offsets where they
/// were placed.
pub open spec fn unannotate_from(t: Seq<Seq<char>>, spans: Seq<CoverageSpan>, n: int) -> Seq<
    Seq<char>,
>
    decreases n,
{
    if n <= 0 {
        t
    } else {
        unannotate_from(unannotate_span_spec(t, spans[n - 1], (n - 1) as nat), spans, n - 1)
    }
}

/// Round trip: removing all the markers the annotator inserted — undoing
/// the spans in reverse order of application, each marker removed at the
/// offset where it was placed — reproduces the original lines exactly,
/// character for character.
pub proof fn lemma_annotate_round_trip(lines: Seq<Seq<char>>, spans: Seq<CoverageSpan>, n: int)
    requires
        spans_in_bounds(spans, lines.len() as int),
        0 <= n <= spans.len(),
    ensures
        unannotate_from(annotate_upto(lines, spans, n), spans, n) == lines,
    decreases n,
{
    if n > 0 {
        let prev = annotate_upto(lines, spans, n - 1);
        lemma_annotate_upto_len(lines, spans, n - 1);
        lemma_unannotate_span(prev, spans[n - 1], (n - 1) as nat);
        lemma_annotate_round_trip(lines, spans, n - 1);
    }
}

/// A whole span list the annotator can apply to a file of `nlines` lines.
pub open spec fn spans_in_bounds(spans: Seq<CoverageSpan>, nlines: int) -> bool {
    forall|k: int| 0 <= k < spans.len() ==> span_in_bounds(#[trigger] spans[k], nlines)
}

/// The lines after the first `n` spans are marked, in the order given.
pub open spec fn annotate_upto(lines: Seq<Seq<char>>, spans: Seq<CoverageSpan>, n: int) -> Seq<
    Seq<char>,
>
    decreases n,
{
    if n <= 0 {
        lines
    } else {
        annotate_span_spec(annotate_upto(lines, spans, n - 1), spans[n - 1], (n - 1) as nat)
    }
}

/// Marks every span in the file's lines, numbering the spans in the order
/// given. The caller hands the spans in reverse file order, as the
/// collapser produces them.
pub fn annotate_lines(lines: &mut Vec<String>, spans: &Vec<CoverageSpan>)
    requires
        spans_in_bounds(spans@, old(lines)@.len() as int),
    ensures
        final(lines)@.len() == old(lines)@.len(),
        final(lines).deep_view() == annotate_upto(old(lines).deep_view(), spans@, spans@.len() as int),
{
    let ghost origd = lines.deep_view();
    let mut k: usize = 0;
    while k < spans.len()
        invariant
            k <= spans@.len(),
            lines@.len() == origd.len(),
            origd == old(lines).deep_view(),
            origd.len() == old(lines)@.len(),
            spans_in_bounds(spans@, lines@.len() as int),
            lines.deep_view() == annotate_upto(origd, spans@, k as int),
        decreases spans@.len() - k,
    {
        annotate_span(lines, spans[k], k);
        proof {
            assert(annotate_upto(origd, spans@, k + 1) == annotate_span_spec(
                annotate_upto(origd, spans@, k as int),
                spans@[k as int],
                k as nat,
            ));
        }
        k = k + 1;
    }
}

/// Why a file's segments could not be annotated. Nothing is written to the
/// lines when one of these is reported.
#[derive(Clone, Copy, Debug, PartialEq, Eq, Structural)]
pub enum AnnotateError {
    /// The list opens with a non-entry segment.
    LeadingNonEntry,
    /// A segment carries a negative count.
    NegativeCount,
    /// The counts do not fit the machine's count range when summed.
    CountOverflow,
    /// A collapsed span lies outside the file's lines or index range.
    SpanOutOfRange,
}

/// The segments' counts are all nonnegative and sum within range.
pub open spec fn counts_ok(segs: Seq<crate::model::CoverageSegment>) -> bool {
    &&& forall|k: int| 0 <= k < segs.len() ==> (#[trigger] segs[k]).count >= 0
    &&& crate::collapse::sum_counts(segs, 0, segs.len() as int) <= i64::MAX
}

fn check_counts(segments: &Vec<crate::model::CoverageSegment>) -> (r: Result<(), AnnotateError>)
    ensures
        r is Ok <==> counts_ok(segments@),
        r matches Err(e) ==> (e == AnnotateError::NegativeCount || e
            == AnnotateError::CountOverflow),
{
    let ghost segs = segments@;
    let mut acc: i64 = 0;
    let mut k: usize = 0;
    proof {
        assert(crate::collapse::sum_counts(segs, 0, 0) == 0);
    }
    while k < segments.len()
        invariant
            segs == segments@,
            k <= segs.len(),
            0 <= acc,
            acc as int == crate::collapse::sum_counts(segs, 0, k as int),
            forall|t: int| 0 <= t < k ==> (#[trigger] segs[t]).count >= 0,
        decreases segs.len() - k,
    {
        let c = segments[k].count;
        if c < 0 {
            proof {
                assert(!counts_ok(segs));
            }
            return Err(AnnotateError::NegativeCount);
        }
        if c > i64::MAX - acc {
            proof {
                crate::collapse::lemma_sum_extend(segs, 0, k as int);
                if counts_ok(segs) {
                    crate::collapse::lemma_sum_within(segs, 0, k as int + 1);
                    assert(false);
                }
            }
            return Err(AnnotateError::CountOverflow);
        }
        proof {
            crate::collapse::lemma_sum_extend(segs, 0, k as int);
        }
        acc = acc + c;
        k = k + 1;
    }
    Ok(())
}

/// Collapses a file's segments and marks every resulting span in the
/// file's lines. The input is validated first — a leading non-entry
/// segment, a negative count, counts that overflow when summed, or a span
/// outside the file are reported and leave the lines untouched.
pub fn annotate_source(lines: &mut Vec<String>, segments: &Vec<crate::model::CoverageSegment>)
    -> (r: Result<(), AnnotateError>)
    ensures
        r is Ok ==> counts_ok(segments@) && (segments@.len() == 0
            || segments@[0].is_region_entry) && spans_in_bounds(
            crate::collapse::collapse_spec(segments@).reverse(),
            old(lines)@.len() as int,
        ) && final(lines).deep_view() == annotate_upto(
            old(lines).deep_view(),
            crate::collapse::collapse_spec(segments@).reverse(),
            crate::collapse::collapse_spec(segments@).reverse().len() as int,
        ),
        r is Err ==> final(lines)@ == old(lines)@,
        (counts_ok(segments@) && (segments@.len() == 0 || segments@[0].is_region_entry)
            && spans_in_bounds(
            crate::collapse::collapse_spec(segments@).reverse(),
            old(lines)@.len() as int,
        )) ==> r is Ok,
{
    if let Err(e) = check_counts(segments) {
        return Err(e);
    }
    let spans = match crate::collapse::collapse_segments(segments) {
        Ok(spans) => spans,
        Err(_) => {
            return Err(AnnotateError::LeadingNonEntry);
        },
    };
    let nl = lines.len();
    let mut k: usize = 0;
    while k < spans.len()
        invariant
            nl == lines@.len(),
            nl == old(lines)@.len(),
            spans@ == crate::collapse::collapse_spec(segments@).reverse(),
            k <= spans@.len(),
            forall|t: int| 0 <= t < k ==> span_in_bounds(#[trigger] spans@[t], nl as int),
        decreases spans@.len() - k,
    {
        let sp = spans[k];
        proof {
            if spans_in_bounds(
                crate::collapse::collapse_spec(segments@).reverse(),
                old(lines)@.len() as int,
            ) {
                assert(crate::collapse::collapse_spec(segments@).reverse()[k as int]
                    == spans@[k as int]);
                assert(span_in_bounds(spans@[k as int], old(lines)@.len() as int));
            }
        }
        if !(1 <= sp.start_line && sp.start_line <= sp.end_line && 0 <= sp.start_col && 0
            <= sp.end_col && 0 <= sp.count) {
            return Err(AnnotateError::SpanOutOfRange);
        }
        if sp.end_line as u64 > nl as u64 {
            return Err(AnnotateError::SpanOutOfRange);
        }
        if sp.start_col as u64 > usize::MAX as u64 {
            return Err(AnnotateError::SpanOutOfRange);
        }
        if sp.end_col as u64 > usize::MAX as u64 {
            return Err(AnnotateError::SpanOutOfRange);
        }
        k = k + 1;
    }
    annotate_lines(lines, &spans);
    Ok(())
}

} // verus!
