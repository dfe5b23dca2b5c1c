//! The coverage data model: typed records for the report's files, segments,
//! regions and branches, and the positional decoders that turn the report's
//! fixed-arity arrays into them, rejecting wrong arity or field types.

use vstd::prelude::*;

verus! {

/// One scalar field of a positional record, as the report carries it:
/// an integer, a boolean, or anything else (which no record accepts).
#[derive(Clone, Copy, Debug, PartialEq, Eq, Structural)]
pub enum ScalarValue {
    Int(i64),
    Bool(bool),
    Other,
}

/// A point in source space emitted by the instrumentation tool. Segments
/// for a file arrive ordered by `(line, col)`; a segment with
/// `is_region_entry` opens a new span and the following non-entry segments
/// extend and accumulate into it.
#[derive(Clone, Copy, Debug, PartialEq, Eq, Structural)]
pub struct CoverageSegment {
    pub line: i64,
    pub col: i64,
    pub count: i64,
    pub has_count: bool,
    pub is_region_entry: bool,
    pub is_gap_region: bool,
}

/// A closed source interval with an aggregated hit count, derived by
/// collapsing one region-entry segment with the non-entry segments that
/// follow it.
#[derive(Clone, Copy, Debug, PartialEq, Eq, Structural)]
pub struct CoverageSpan {
    pub start_line: i64,
    pub start_col: i64,
    pub end_line: i64,
    pub end_col: i64,
    pub count: i64,
}

/// An 8-field function region record.
#[derive(Clone, Copy, Debug, PartialEq, Eq, Structural)]
pub struct Region {
    pub line_start: i64,
    pub column_start: i64,
    pub line_end: i64,
    pub column_end: i64,
    pub execution_count: i64,
    pub file_id: i64,
    pub expanded_file_id: i64,
    pub region_kind: i64,
}

/// A 9-field branch region record.
#[derive(Clone, Copy, Debug, PartialEq, Eq, Structural)]
pub struct FileBranch {
    pub line_start: i64,
    pub column_start: i64,
    pub line_end: i64,
    pub column_end: i64,
    pub execution_count: i64,
    pub false_execution_count: i64,
    pub file_id: i64,
    pub expanded_file_id: i64,
    pub region_kind: i64,
}

/// Aggregate counters for one kind of coverage. The percentage is held in
/// thousandths of a percent so that it stays an exact integer.
#[derive(Clone, Copy, Debug, PartialEq, Eq, Structural)]
pub struct Summary {
    pub count: u64,
    pub covered: u64,
    pub not_covered: Option<u64>,
    pub percent_milli: i64,
}

/// The per-file (or global) summary block: one `Summary` per counted kind.
#[derive(Clone, Copy, Debug, PartialEq, Eq, Structural)]
pub struct FileCoverageSummary {
    pub branches: Summary,
    pub functions: Summary,
    pub instantiations: Summary,
    pub lines: Summary,
    pub regions: Summary,
}

/// Coverage of one function: its (possibly mangled) name, its hit count,
/// its regions, and the files it appears in.
#[derive(Debug)]
pub struct FunctionCoverage {
    pub name: String,
    pub count: i64,
    pub regions: Vec<Region>,
    pub filenames: Vec<String>,
}

/// Why a positional record was rejected.
#[derive(Clone, Copy, Debug, PartialEq, Eq, Structural)]
pub enum DecodeError {
    /// The array does not have the record's fixed number of fields.
    WrongArity,
    /// A field is not of the type the record asks for at that position.
    WrongFieldType,
}

/// Why a report as a whole is unusable.
#[derive(Clone, Copy, Debug, PartialEq, Eq, Structural)]
pub enum ReportError {
    /// The report's version field is not a semantic version.
    BadVersion,
}

pub open spec fn segment_fields_ok(fields: Seq<ScalarValue>) -> bool {
    &&& fields[0] is Int
    &&& fields[1] is Int
    &&& fields[2] is Int
    &&& fields[3] is Bool
    &&& fields[4] is Bool
    &&& fields[5] is Bool
}

/// What decoding a 6-field segment record returns, field for field.
pub open spec fn spec_decode_segment(fields: Seq<ScalarValue>) -> Result<
    CoverageSegment,
    DecodeError,
> {
    if fields.len() != 6 {
        Err(DecodeError::WrongArity)
    } else if !segment_fields_ok(fields) {
        Err(DecodeError::WrongFieldType)
    } else {
        Ok(
            CoverageSegment {
                line: fields[0]->Int_0,
                col: fields[1]->Int_0,
                count: fields[2]->Int_0,
                has_count: fields[3]->Bool_0,
                is_region_entry: fields[4]->Bool_0,
                is_gap_region: fields[5]->Bool_0,
            },
        )
    }
}

/// Decodes one segment record: 6 fields, `[line, col, count, has_count,
/// is_region_entry, is_gap_region]`, the first three integers and the rest
/// booleans. Anything else is a structured error, never a crash.
pub fn decode_segment(fields: &Vec<ScalarValue>) -> (r: Result<CoverageSegment, DecodeError>)
    ensures
        r == spec_decode_segment(fields@),
{
    if fields.len() != 6 {
        return Err(DecodeError::WrongArity);
    }
    match (fields[0], fields[1], fields[2], fields[3], fields[4], fields[5]) {
        (
            ScalarValue::Int(line),
            ScalarValue::Int(col),
            ScalarValue::Int(count),
            ScalarValue::Bool(has_count),
            ScalarValue::Bool(is_region_entry),
            ScalarValue::Bool(is_gap_region),
        ) => Ok(
            CoverageSegment { line, col, count, has_count, is_region_entry, is_gap_region },
        ),
        _ => Err(DecodeError::WrongFieldType),
    }
}

pub open spec fn all_int_fields(fields: Seq<ScalarValue>) -> bool {
    forall|i: int| 0 <= i < fields.len() ==> fields[i] is Int
}

/// What decoding an 8-field function region record returns.
pub open spec fn spec_decode_region(fields: Seq<ScalarValue>) -> Result<Region, DecodeError> {
    if fields.len() != 8 {
        Err(DecodeError::WrongArity)
    } else if !all_int_fields(fields) {
        Err(DecodeError::WrongFieldType)
    } else {
        Ok(
            Region {
                line_start: fields[0]->Int_0,
                column_start: fields[1]->Int_0,
                line_end: fields[2]->Int_0,
                column_end: fields[3]->Int_0,
                execution_count: fields[4]->Int_0,
                file_id: fields[5]->Int_0,
                expanded_file_id: fields[6]->Int_0,
                region_kind: fields[7]->Int_0,
            },
        )
    }
}

/// Decodes one function region record: 8 integer fields.
pub fn decode_region(fields: &Vec<ScalarValue>) -> (r: Result<Region, DecodeError>)
    ensures
        r == spec_decode_region(fields@),
{
    if fields.len() != 8 {
        return Err(DecodeError::WrongArity);
    }
    match (
        fields[0],
        fields[1],
        fields[2],
        fields[3],
        fields[4],
        fields[5],
        fields[6],
        fields[7],
    ) {
        (
            ScalarValue::Int(line_start),
            ScalarValue::Int(column_start),
            ScalarValue::Int(line_end),
            ScalarValue::Int(column_end),
            ScalarValue::Int(execution_count),
            ScalarValue::Int(file_id),
            ScalarValue::Int(expanded_file_id),
            ScalarValue::Int(region_kind),
        ) => Ok(
            Region {
                line_start,
                column_start,
                line_end,
                column_end,
                execution_count,
                file_id,
                expanded_file_id,
                region_kind,
            },
        ),
        _ => Err(DecodeError::WrongFieldType),
    }
}

/// What decoding a 9-field branch record returns.
pub open spec fn spec_decode_branch(fields: Seq<ScalarValue>) -> Result<FileBranch, DecodeError> {
    if fields.len() != 9 {
        Err(DecodeError::WrongArity)
    } else if !all_int_fields(fields) {
        Err(DecodeError::WrongFieldType)
    } else {
        Ok(
            FileBranch {
                line_start: fields[0]->Int_0,
                column_start: fields[1]->Int_0,
                line_end: fields[2]->Int_0,
                column_end: fields[3]->Int_0,
                execution_count: fields[4]->Int_0,
                false_execution_count: fields[5]->Int_0,
                file_id: fields[6]->Int_0,
                expanded_file_id: fields[7]->Int_0,
                region_kind: fields[8]->Int_0,
            },
        )
    }
}

/// Decodes one branch record: 9 integer fields.
pub fn decode_branch(fields: &Vec<ScalarValue>) -> (r: Result<FileBranch, DecodeError>)
    ensures
        r == spec_decode_branch(fields@),
{
    if fields.len() != 9 {
        return Err(DecodeError::WrongArity);
    }
    match (
        fields[0],
        fields[1],
        fields[2],
        fields[3],
        fields[4],
        fields[5],
        fields[6],
        fields[7],
        fields[8],
    ) {
        (
            ScalarValue::Int(line_start),
            ScalarValue::Int(column_start),
            ScalarValue::Int(line_end),
            ScalarValue::Int(column_end),
            ScalarValue::Int(execution_count),
            ScalarValue::Int(false_execution_count),
            ScalarValue::Int(file_id),
            ScalarValue::Int(expanded_file_id),
            ScalarValue::Int(region_kind),
        ) => Ok(
            FileBranch {
                line_start,
                column_start,
                line_end,
                column_end,
                execution_count,
                false_execution_count,
                file_id,
                expanded_file_id,
                region_kind,
            },
        ),
        _ => Err(DecodeError::WrongFieldType),
    }
}

/// Declares serde_json::Value so that report fields can pass through
/// signatures; the value itself stays opaque here.
#[verifier::external_type_specification]
#[verifier::external_body]
pub struct ExJsonValue(serde_json::Value);

/// What the report value holds as a signed integer: `Some` exactly for an
/// integer number within `i64` range. A pure function of the value alone.
pub uninterp spec fn json_i64_of(v: serde_json::Value) -> Option<i64>;

/// What the report value holds as a boolean: `Some(b)` exactly for a
/// boolean value. A pure function of the value alone.
pub uninterp spec fn json_bool_of(v: serde_json::Value) -> Option<bool>;

/// Relies on serde_json::Value::as_i64: a pure reader of the value, `Some`
/// exactly for an integer number within `i64` range.
pub assume_specification[ serde_json::Value::as_i64 ](v: &serde_json::Value) -> (r: Option<i64>)
    ensures
        r == json_i64_of(*v),
;

/// Relies on serde_json::Value::as_bool: a pure reader of the value,
/// `Some(b)` exactly for a boolean value.
pub assume_specification[ serde_json::Value::as_bool ](v: &serde_json::Value) -> (r: Option<bool>)
    ensures
        r == json_bool_of(*v),
;

/// The scalar one report field reads as: an integer number becomes `Int`,
/// a boolean becomes `Bool`, and every other shape `Other`.
pub open spec fn scalar_spec(v: serde_json::Value) -> ScalarValue {
    if json_i64_of(v) is Some {
        ScalarValue::Int(json_i64_of(v)->Some_0)
    } else if json_bool_of(v) is Some {
        ScalarValue::Bool(json_bool_of(v)->Some_0)
    } else {
        ScalarValue::Other
    }
}

/// Reads one report field, as `scalar_spec` states it.
fn scalar_of_value(v: &serde_json::Value) -> (r: ScalarValue)
    ensures
        r == scalar_spec(*v),
{
    match v.as_i64() {
        Some(x) => ScalarValue::Int(x),
        None => match v.as_bool() {
            Some(b) => ScalarValue::Bool(b),
            None => ScalarValue::Other,
        },
    }
}

fn scalars_of_values(fields: &Vec<serde_json::Value>) -> (r: Vec<ScalarValue>)
    ensures
        r@ == fields@.map_values(|v: serde_json::Value| scalar_spec(v)),
{
    let mut out: Vec<ScalarValue> = Vec::new();
    let mut i: usize = 0;
    while i < fields.len()
        invariant
            i <= fields@.len(),
            out@.len() == i,
            forall|j: int| 0 <= j < i ==> out@[j] == scalar_spec(fields@[j]),
        decreases fields@.len() - i,
    {
        out.push(scalar_of_value(&fields[i]));
        i = i + 1;
    }
    proof {
        assert(out@ =~= fields@.map_values(|v: serde_json::Value| scalar_spec(v)));
    }
    out
}

/// Decodes a segment record straight from report values: each field is read
/// as `scalar_spec` states and the record decoded exactly as
/// `spec_decode_segment` says, wrong arity and wrong field types rejected.
pub fn segment_from_values(fields: &Vec<serde_json::Value>) -> (r: Result<
    CoverageSegment,
    DecodeError,
>)
    ensures
        r == spec_decode_segment(fields@.map_values(|v: serde_json::Value| scalar_spec(v))),
{
    let scalars = scalars_of_values(fields);
    decode_segment(&scalars)
}

/// Decodes a function region record straight from report values, exactly as
/// `spec_decode_region` says over the fields' `scalar_spec` readings.
pub fn region_from_values(fields: &Vec<serde_json::Value>) -> (r: Result<Region, DecodeError>)
    ensures
        r == spec_decode_region(fields@.map_values(|v: serde_json::Value| scalar_spec(v))),
{
    let scalars = scalars_of_values(fields);
    decode_region(&scalars)
}

/// Decodes a branch record straight from report values, exactly as
/// `spec_decode_branch` says over the fields' `scalar_spec` readings.
pub fn branch_from_values(fields: &Vec<serde_json::Value>) -> (r: Result<FileBranch, DecodeError>)
    ensures
        r == spec_decode_branch(fields@.map_values(|v: serde_json::Value| scalar_spec(v))),
{
    let scalars = scalars_of_values(fields);
    decode_branch(&scalars)
}

/// The `(major, minor, patch)` triple a version string parses to, when it
/// is a well-formed semantic version; parsing depends on the text alone.
pub uninterp spec fn parsed_version(s: Seq<char>) -> Option<(u64, u64, u64)>;

/// Relies on semver::Version::parse: `Ok` exactly for a well-formed
/// semantic version, whose numeric components are returned.
#[verifier::external_body]
fn parse_version(text: &str) -> (r: Option<(u64, u64, u64)>)
    ensures
        r == parsed_version(text@),
{
    match semver::Version::parse(text) {
        Ok(v) => Some((v.major, v.minor, v.patch)),
        Err(_) => None,
    }
}

/// Checks the report's version field: a report whose version is not a
/// semantic version is a reportable error, and processing must stop before
/// any file is rendered.
pub fn validate_report_version(version: &str) -> (r: Result<(u64, u64, u64), ReportError>)
    ensures
        r is Ok <==> parsed_version(version@) is Some,
        r matches Ok(v) ==> parsed_version(version@) == Some(v),
        r is Err ==> r == Err::<(u64, u64, u64), ReportError>(ReportError::BadVersion),
{
    match parse_version(version) {
        Some(v) => Ok(v),
        None => Err(ReportError::BadVersion),
    }
}

/// The demangled, suffix-free form of a symbol name; demangling depends on
/// the name alone.
pub uninterp spec fn demangled_of(s: Seq<char>) -> Seq<char>;

/// Relies on rustc_demangle::demangle, printed in its alternate (hash-free)
/// form: a pure function of the symbol name.
#[verifier::external_body]
fn demangle_name(name: &str) -> (r: String)
    ensures
        r@ == demangled_of(name@),
{
    format!("{:#}", rustc_demangle::demangle(name))
}

impl FunctionCoverage {
    /// The function's display name: its mangled name demangled.
    pub fn demangle(&self) -> (r: String)
        ensures
            r@ == demangled_of(self.name@),
    {
        demangle_name(self.name.as_str())
    }
}

} // verus!
