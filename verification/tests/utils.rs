use cosmoline::listing::{prepare_function_entries, sort_functions, str_le, FunctionListEntry};
use cosmoline::model::{
    decode_branch, decode_region, decode_segment, segment_from_values, validate_report_version,
    DecodeError, FunctionCoverage, ReportError, ScalarValue,
};
use cosmoline::text::{
    color_for_percent, line_count_width, max_line_len, percent_display, sanitize_filename,
    starts_with, u64_to_dec, HitColor, PercentError,
};

#[test]
fn percent_thresholds() {
    // 74.999% is low, 75.0% and 89.999% are medium, 90.0% is high.
    assert_eq!(color_for_percent(74_999), Ok(HitColor::Red));
    assert_eq!(color_for_percent(75_000), Ok(HitColor::Yellow));
    assert_eq!(color_for_percent(89_999), Ok(HitColor::Yellow));
    assert_eq!(color_for_percent(90_000), Ok(HitColor::Green));
    assert_eq!(color_for_percent(0), Ok(HitColor::Red));
    assert_eq!(color_for_percent(100_000), Ok(HitColor::Green));
}

#[test]
fn percent_rejects_negative() {
    assert_eq!(color_for_percent(-1), Err(PercentError::Negative));
    assert_eq!(color_for_percent(i64::MIN), Err(PercentError::Negative));
}

#[test]
fn color_class_names() {
    assert_eq!(HitColor::Red.as_str(), "red");
    assert_eq!(HitColor::Yellow.as_str(), "yellow");
    assert_eq!(HitColor::Green.as_str(), "green");
}

#[test]
fn sanitize_flattens_path() {
    assert_eq!(sanitize_filename("src/lib/mod.rs"), "src_lib_mod.rs.html");
    // Stable and deterministic.
    assert_eq!(
        sanitize_filename("src/lib/mod.rs"),
        sanitize_filename("src/lib/mod.rs")
    );
    assert_eq!(sanitize_filename("main.rs"), "main.rs.html");
    assert_eq!(sanitize_filename(""), ".html");
}

#[test]
fn decimal_formatting() {
    assert_eq!(u64_to_dec(0), "0");
    assert_eq!(u64_to_dec(7), "7");
    assert_eq!(u64_to_dec(1024), "1024");
    assert_eq!(u64_to_dec(u64::MAX), "18446744073709551615");
}

#[test]
fn line_metrics() {
    let lines = vec![
        String::from("ab"),
        String::from("пример"),
        String::from("x"),
    ];
    // Byte length, not character count: six Cyrillic characters are twelve
    // bytes.
    assert_eq!(max_line_len(&lines), 12);
    assert_eq!(line_count_width(1), 1);
    assert_eq!(line_count_width(9), 1);
    assert_eq!(line_count_width(10), 2);
    assert_eq!(line_count_width(999), 3);
    assert_eq!(line_count_width(1000), 4);
}

#[test]
fn starts_with_prefix() {
    assert!(starts_with("src/main.rs", "src/"));
    assert!(!starts_with("tests/main.rs", "src/"));
    assert!(starts_with("src/", "src/"));
    assert!(!starts_with("sr", "src/"));
}

#[test]
fn percent_one_decimal() {
    assert_eq!(percent_display(74_999), (String::from("75"), String::from("0")));
    assert_eq!(percent_display(12_340), (String::from("12"), String::from("3")));
    assert_eq!(percent_display(12_350), (String::from("12"), String::from("4")));
    assert_eq!(percent_display(0), (String::from("0"), String::from("0")));
    assert_eq!(percent_display(100_000), (String::from("100"), String::from("0")));
}

#[test]
fn decode_segment_record() {
    let fields = vec![
        ScalarValue::Int(3),
        ScalarValue::Int(14),
        ScalarValue::Int(7),
        ScalarValue::Bool(true),
        ScalarValue::Bool(true),
        ScalarValue::Bool(false),
    ];
    let s = decode_segment(&fields).unwrap();
    assert_eq!(s.line, 3);
    assert_eq!(s.col, 14);
    assert_eq!(s.count, 7);
    assert!(s.has_count);
    assert!(s.is_region_entry);
    assert!(!s.is_gap_region);

    let short = vec![ScalarValue::Int(1)];
    assert_eq!(decode_segment(&short), Err(DecodeError::WrongArity));

    let wrong = vec![
        ScalarValue::Int(3),
        ScalarValue::Bool(true),
        ScalarValue::Int(7),
        ScalarValue::Bool(true),
        ScalarValue::Bool(true),
        ScalarValue::Bool(false),
    ];
    assert_eq!(decode_segment(&wrong), Err(DecodeError::WrongFieldType));
}

#[test]
fn decode_region_record() {
    let fields: Vec<ScalarValue> = (1..=8).map(ScalarValue::Int).collect();
    let r = decode_region(&fields).unwrap();
    assert_eq!(r.line_start, 1);
    assert_eq!(r.column_start, 2);
    assert_eq!(r.line_end, 3);
    assert_eq!(r.column_end, 4);
    assert_eq!(r.execution_count, 5);
    assert_eq!(r.file_id, 6);
    assert_eq!(r.expanded_file_id, 7);
    assert_eq!(r.region_kind, 8);
    assert_eq!(decode_region(&fields[..7].to_vec()), Err(DecodeError::WrongArity));
    let mut wrong = fields.clone();
    wrong[4] = ScalarValue::Other;
    assert_eq!(decode_region(&wrong), Err(DecodeError::WrongFieldType));
}

#[test]
fn decode_branch_record() {
    let fields: Vec<ScalarValue> = (1..=9).map(ScalarValue::Int).collect();
    let b = decode_branch(&fields).unwrap();
    assert_eq!(b.line_start, 1);
    assert_eq!(b.false_execution_count, 6);
    assert_eq!(b.region_kind, 9);
    assert_eq!(decode_branch(&fields[..8].to_vec()), Err(DecodeError::WrongArity));
}

#[test]
fn decode_segment_from_report_values() {
    let fields = vec![
        serde_json::Value::from(2i64),
        serde_json::Value::from(5i64),
        serde_json::Value::from(11i64),
        serde_json::Value::Bool(true),
        serde_json::Value::Bool(false),
        serde_json::Value::Bool(false),
    ];
    let s = segment_from_values(&fields).unwrap();
    assert_eq!(s.line, 2);
    assert_eq!(s.col, 5);
    assert_eq!(s.count, 11);
    assert!(s.has_count);
    assert!(!s.is_region_entry);

    let bad = vec![serde_json::Value::from(2i64)];
    assert_eq!(segment_from_values(&bad), Err(DecodeError::WrongArity));

    let wrong_type = vec![
        serde_json::Value::from("text"),
        serde_json::Value::from(5i64),
        serde_json::Value::from(11i64),
        serde_json::Value::Bool(true),
        serde_json::Value::Bool(false),
        serde_json::Value::Bool(false),
    ];
    assert_eq!(segment_from_values(&wrong_type), Err(DecodeError::WrongFieldType));
}

#[test]
fn report_version_parses() {
    assert_eq!(validate_report_version("2.0.1"), Ok((2, 0, 1)));
    assert_eq!(validate_report_version("10.20.30"), Ok((10, 20, 30)));
    assert_eq!(validate_report_version("not-a-version"), Err(ReportError::BadVersion));
    assert_eq!(validate_report_version(""), Err(ReportError::BadVersion));
}

#[test]
fn demangles_function_names() {
    let f = FunctionCoverage {
        name: String::from("_ZN3foo3bar17h0123456789abcdefE"),
        count: 4,
        regions: vec![],
        filenames: vec![String::from("src/foo.rs")],
    };
    assert_eq!(f.demangle(), "foo::bar");
    // A name that is not mangled passes through.
    let g = FunctionCoverage {
        name: String::from("plain_name"),
        count: 0,
        regions: vec![],
        filenames: vec![],
    };
    assert_eq!(g.demangle(), "plain_name");
}

#[test]
fn listing_sorts_by_name() {
    let funcs = vec![
        FunctionCoverage {
            name: String::from("_ZN5gamma4late17h0000000000000000E"),
            count: 2,
            regions: vec![],
            filenames: vec![],
        },
        FunctionCoverage {
            name: String::from("_ZN5alpha5early17h0000000000000000E"),
            count: 9,
            regions: vec![],
            filenames: vec![],
        },
    ];
    let entries = prepare_function_entries(&funcs);
    assert_eq!(entries.len(), 2);
    assert_eq!(entries[0].name, "gamma::late");
    assert_eq!(entries[1].name, "alpha::early");
    let sorted = sort_functions(entries);
    assert_eq!(sorted[0].name, "alpha::early");
    assert_eq!(sorted[0].count, 9);
    assert_eq!(sorted[1].name, "gamma::late");
    assert_eq!(sorted[1].count, 2);
}

#[test]
fn string_order_is_lexicographic() {
    assert!(str_le("", "a"));
    assert!(str_le("abc", "abd"));
    assert!(!str_le("abd", "abc"));
    assert!(str_le("ab", "abc"));
    assert!(!str_le("abc", "ab"));
    assert!(str_le("same", "same"));
}

#[test]
fn sort_keeps_all_rows() {
    let rows = vec![
        FunctionListEntry { name: String::from("b"), count: 1 },
        FunctionListEntry { name: String::from("a"), count: 2 },
        FunctionListEntry { name: String::from("b"), count: 3 },
    ];
    let sorted = sort_functions(rows);
    assert_eq!(sorted.len(), 3);
    assert_eq!(sorted[0].name, "a");
    assert_eq!(sorted[1].name, "b");
    assert_eq!(sorted[2].name, "b");
    let counts: i64 = sorted.iter().map(|e| e.count).sum();
    assert_eq!(counts, 6);
}
