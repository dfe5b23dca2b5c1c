use cosmoline::annotate::{annotate_lines, annotate_source, end_marker, insert_at_char, start_marker, AnnotateError};
use cosmoline::collapse::{collapse_segments, CollapseError};
use cosmoline::model::{CoverageSegment, CoverageSpan};
use cosmoline::render::render_markup;

fn seg(line: i64, col: i64, count: i64, entry: bool) -> CoverageSegment {
    CoverageSegment {
        line,
        col,
        count,
        has_count: true,
        is_region_entry: entry,
        is_gap_region: false,
    }
}

#[test]
fn collapse_counts_spans_per_entry() {
    // Three entries, each extended by some non-entry segments: exactly three
    // spans, each summing its group's counts.
    let segments = vec![
        seg(1, 1, 2, true),
        seg(1, 8, 3, false),
        seg(2, 4, 0, false),
        seg(3, 1, 7, true),
        seg(4, 2, 1, true),
        seg(4, 9, 4, false),
    ];
    let spans = collapse_segments(&segments).unwrap();
    assert_eq!(spans.len(), 3);
    // Reverse emission order: the last-opened span comes first.
    assert_eq!(spans[0].count, 5);
    assert_eq!(spans[1].count, 7);
    assert_eq!(spans[2].count, 5);
    let total: i64 = spans.iter().map(|s| s.count).sum();
    assert_eq!(total, 2 + 3 + 0 + 7 + 1 + 4);
}

#[test]
fn collapse_empty_yields_no_spans() {
    let segments: Vec<CoverageSegment> = vec![];
    let spans = collapse_segments(&segments).unwrap();
    assert_eq!(spans.len(), 0);
}

#[test]
fn collapse_rejects_leading_non_entry() {
    let segments = vec![seg(1, 1, 2, false), seg(2, 1, 1, true)];
    let r = collapse_segments(&segments);
    assert_eq!(r, Err(CollapseError::LeadingNonEntry));
}

#[test]
fn collapse_scenario_two_spans() {
    // The basic scenario: two region entries, the first extended once.
    let segments = vec![seg(1, 1, 5, true), seg(1, 10, 0, false), seg(2, 1, 3, true)];
    let spans = collapse_segments(&segments).unwrap();
    assert_eq!(spans.len(), 2);
    assert_eq!(
        spans[0],
        CoverageSpan { start_line: 2, start_col: 1, end_line: 2, end_col: 1, count: 3 }
    );
    assert_eq!(
        spans[1],
        CoverageSpan { start_line: 1, start_col: 1, end_line: 1, end_col: 10, count: 5 }
    );
}

#[test]
fn annotate_single_line_span() {
    let mut lines = vec![String::from("abcdefghij")];
    let spans = vec![CoverageSpan {
        start_line: 1,
        start_col: 5,
        end_line: 1,
        end_col: 7,
        count: 4,
    }];
    annotate_lines(&mut lines, &spans);
    assert_eq!(lines[0], "abcde{{ start_segment 0 4 }}fg{{ end_segment }}hij");
}

#[test]
fn annotate_two_disjoint_spans_never_cross() {
    // Two spans on one line, handed in reverse file order as the collapser
    // produces them: their marker pairs stay disjoint.
    let mut lines = vec![String::from("abcdefghij")];
    let spans = vec![
        CoverageSpan { start_line: 1, start_col: 7, end_line: 1, end_col: 7, count: 4 },
        CoverageSpan { start_line: 1, start_col: 1, end_line: 1, end_col: 5, count: 3 },
    ];
    annotate_lines(&mut lines, &spans);
    assert_eq!(
        lines[0],
        "a{{ start_segment 1 3 }}bcde{{ end_segment }}fg{{ start_segment 0 4 }}{{ end_segment }}hij"
    );
}

#[test]
fn annotate_multi_line_span() {
    let mut lines = vec![
        String::from("first"),
        String::from("middle"),
        String::from("last"),
    ];
    let spans = vec![CoverageSpan {
        start_line: 1,
        start_col: 3,
        end_line: 3,
        end_col: 2,
        count: 9,
    }];
    annotate_lines(&mut lines, &spans);
    assert_eq!(lines[0], "fir{{ start_segment 0 9 }}st{{ end_segment }}");
    assert_eq!(lines[1], "{{ start_segment 0 9 }}middle{{ end_segment }}");
    assert_eq!(lines[2], "{{ start_segment 0 9 }}la{{ end_segment }}st");
}

#[test]
fn round_trip_marker_removal_restores_lines() {
    // Removing every inserted marker reproduces the original text exactly.
    let original = vec![
        String::from("fn main() {"),
        String::from("    let total = add(2, 40);"),
        String::from("}"),
    ];
    let mut lines = original.clone();
    let spans = vec![
        CoverageSpan { start_line: 2, start_col: 5, end_line: 2, end_col: 20, count: 3 },
        CoverageSpan { start_line: 1, start_col: 1, end_line: 3, end_col: 1, count: 1 },
    ];
    annotate_lines(&mut lines, &spans);
    for (stripped, orig) in lines.iter().zip(original.iter()) {
        let s = stripped
            .replace("{{ start_segment 0 3 }}", "")
            .replace("{{ start_segment 1 1 }}", "")
            .replace("{{ end_segment }}", "");
        assert_eq!(&s, orig);
    }
}

#[test]
fn multibyte_insertion_splits_no_character() {
    // Cyrillic characters occupy two bytes each; the insertion index is in
    // characters and the result must stay valid text with every original
    // character intact.
    let line = "пример кода";
    let r = insert_at_char(line, 3, "<X>");
    assert_eq!(r, "при<X>мер кода");
    let r2 = insert_at_char(line, 0, "<X>");
    assert_eq!(r2, "<X>пример кода");
    // An index at or past the character count appends.
    let r3 = insert_at_char(line, 11, "<X>");
    assert_eq!(r3, "пример кода<X>");
    let r4 = insert_at_char(line, 1000, "<X>");
    assert_eq!(r4, "пример кода<X>");
    // No character lost or duplicated.
    assert_eq!(r.chars().count(), line.chars().count() + 3);
}

#[test]
fn multibyte_annotation_round_trip() {
    let original = vec![String::from("число = значение;")];
    let mut lines = original.clone();
    let spans = vec![CoverageSpan {
        start_line: 1,
        start_col: 3,
        end_line: 1,
        end_col: 8,
        count: 2,
    }];
    annotate_lines(&mut lines, &spans);
    let s = lines[0]
        .replace("{{ start_segment 0 2 }}", "")
        .replace("{{ end_segment }}", "");
    assert_eq!(s, original[0]);
}

#[test]
fn marker_builders_exact_text() {
    assert_eq!(end_marker(), "{{ end_segment }}");
    assert_eq!(start_marker(12, 345), "{{ start_segment 12 345 }}");
    assert_eq!(start_marker(0, 0), "{{ start_segment 0 0 }}");
}

#[test]
fn render_replaces_markers_with_markup() {
    let annotated = "a{{ start_segment 1 3 }}bcde{{ end_segment }}f";
    let rendered = render_markup(annotated);
    assert_eq!(
        rendered,
        "a<span class='hit' title=\"3 hits\" data-count=3 data-segment-index=1>bcde</span>f"
    );
}

#[test]
fn render_keeps_plain_text_and_braces() {
    let text = "fn a() {} // {{ not a marker }}";
    assert_eq!(render_markup(text), text);
}

#[test]
fn end_to_end_scenario() {
    // A three-line file with two collapsed spans: span A covers line 1 cols
    // 1..10 with count 5, span B line 2 col 1 with count 3; the rendered
    // output holds two non-overlapping highlighted regions with those hit
    // counts.
    let segments = vec![seg(1, 1, 5, true), seg(1, 10, 0, false), seg(2, 1, 3, true)];
    let mut lines = vec![
        String::from("fn a() {}"),
        String::from("let b;"),
        String::from("}"),
    ];
    annotate_source(&mut lines, &segments).unwrap();
    assert_eq!(lines[0], "f{{ start_segment 1 5 }}n a() {}{{ end_segment }}");
    assert_eq!(lines[1], "l{{ start_segment 0 3 }}{{ end_segment }}et b;");
    assert_eq!(lines[2], "}");
    let page = render_markup(&lines.join("\n"));
    assert_eq!(
        page,
        "f<span class='hit' title=\"5 hits\" data-count=5 data-segment-index=1>n a() {}</span>\n\
         l<span class='hit' title=\"3 hits\" data-count=3 data-segment-index=0></span>et b;\n\
         }"
    );
    assert_eq!(page.matches("</span>").count(), 2);
}

#[test]
fn annotate_source_rejects_bad_input() {
    let mut lines = vec![String::from("x")];
    let r = annotate_source(&mut lines, &vec![seg(1, 1, 2, false)]);
    assert_eq!(r, Err(AnnotateError::LeadingNonEntry));
    assert_eq!(lines[0], "x");

    let r = annotate_source(&mut lines, &vec![seg(1, 1, -4, true)]);
    assert_eq!(r, Err(AnnotateError::NegativeCount));
    assert_eq!(lines[0], "x");

    let r = annotate_source(
        &mut lines,
        &vec![seg(1, 1, i64::MAX, true), seg(1, 2, 1, false)],
    );
    assert_eq!(r, Err(AnnotateError::CountOverflow));
    assert_eq!(lines[0], "x");

    // A span on line 5 of a one-line file.
    let r = annotate_source(&mut lines, &vec![seg(5, 1, 2, true)]);
    assert_eq!(r, Err(AnnotateError::SpanOutOfRange));
    assert_eq!(lines[0], "x");
}
