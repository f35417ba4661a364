//! The cold store: what an export holds, what it is called, which keys have
//! expired and which of them may be purged.
//!
//! # Export schema
//!
//! | Column | Arrow type | Source |
//! |--------|-----------|--------|
//! | `ts` | `Timestamp(Microsecond)` | composite key (authoritative) |
//! | `name` | `Utf8` | composite key |
//! | `value` | `Float64` | value JSON `value` |
//! | `metric_type` | `Utf8` | value JSON `metric_type` |
//! | `labels` | `Utf8` (JSON object) | value JSON `labels` |
//!
//! Files are stamped `metrics_cold_<UTC %Y%m%dT%H%M%S>.parquet`, written to a
//! temporary file and renamed. Exported keys are purged after the rename, so
//! a crash in between exports them again: delivery is at least once. Memory
//! is bounded by one chunk of rows, however many keys have expired.

use crate::bytes::bytes_less;
use crate::config::TimeSpan;
use crate::error::Error;
use crate::json::{as_number, as_text, is_object, member, number, parse, print};
use vstd::prelude::*;
use vstd::utf8::*;

verus! {

/// File name prefix of cold exports (`<prefix><UTC stamp>.parquet`).
pub const PARQUET_FILE_PREFIX: &'static str = "metrics_cold_";

/// File name suffix of cold exports.
pub const PARQUET_FILE_SUFFIX: &'static str = ".parquet";

/// Rows buffered per record batch.
pub const ROWS_PER_BATCH: usize = 5_000;

/// The form of the time stamp in file names.
pub const STAMP_FORMAT: &'static str = "%Y%m%dT%H%M%S";

// ---------------------------------------------------------------------------
// Schema
// ---------------------------------------------------------------------------

/// The type of a column.
#[derive(Debug, Clone, Copy, PartialEq, Eq, Structural)]
pub enum ColumnType {
    /// Microseconds since the epoch, without a time zone.
    TimestampMicros,
    /// Text.
    Utf8,
    /// A double.
    Float64,
}

/// A schema of `arrow`.
#[verifier::external_type_specification]
#[verifier::external_body]
pub struct ExSchema(arrow::datatypes::Schema);

/// A schema of `arrow` under construction.
#[verifier::external_type_specification]
#[verifier::external_body]
pub struct ExSchemaBuilder(arrow::datatypes::SchemaBuilder);

/// The columns of a schema: name, type and whether a value may be missing.
pub uninterp spec fn schema_columns(s: arrow::datatypes::Schema) -> Seq<
    (Seq<char>, ColumnType, bool),
>;

/// The columns of a schema under construction.
pub uninterp spec fn builder_columns(b: arrow::datatypes::SchemaBuilder) -> Seq<
    (Seq<char>, ColumnType, bool),
>;

/// `arrow::datatypes::SchemaBuilder::new`: a schema without columns.
#[verifier::external_body]
fn new_schema() -> (r: arrow::datatypes::SchemaBuilder)
    ensures
        builder_columns(r).len() == 0,
{
    arrow::datatypes::SchemaBuilder::new()
}

/// `arrow::datatypes::SchemaBuilder::push`: appends a field with the given
/// name, type and nullability.
#[verifier::external_body]
fn add_column(
    b: &mut arrow::datatypes::SchemaBuilder,
    name: &str,
    column_type: ColumnType,
    nullable: bool,
)
    ensures
        builder_columns(*final(b)) == builder_columns(*old(b)).push((name@, column_type, nullable)),
{
    let data_type = match column_type {
        ColumnType::TimestampMicros => arrow::datatypes::DataType::Timestamp(
            arrow::datatypes::TimeUnit::Microsecond,
            None,
        ),
        ColumnType::Utf8 => arrow::datatypes::DataType::Utf8,
        ColumnType::Float64 => arrow::datatypes::DataType::Float64,
    };
    b.push(arrow::datatypes::Field::new(name, data_type, nullable));
}

/// `arrow::datatypes::SchemaBuilder::finish`: the schema with the columns
/// appended so far, in order.
#[verifier::external_body]
fn finish_schema(b: arrow::datatypes::SchemaBuilder) -> (r: arrow::datatypes::Schema)
    ensures
        schema_columns(r) == builder_columns(b),
{
    b.finish()
}

/// The columns of every cold export; none of them may miss a value.
pub open spec fn export_columns() -> Seq<(Seq<char>, ColumnType, bool)> {
    seq![
        ("ts"@, ColumnType::TimestampMicros, false),
        ("name"@, ColumnType::Utf8, false),
        ("value"@, ColumnType::Float64, false),
        ("metric_type"@, ColumnType::Utf8, false),
        ("labels"@, ColumnType::Utf8, false),
    ]
}

/// Arrow schema of every cold export.
#[must_use]
pub fn arrow_schema() -> (r: std::sync::Arc<arrow::datatypes::Schema>)
    ensures
        schema_columns(*r) == export_columns(),
{
    let mut b = new_schema();
    add_column(&mut b, "ts", ColumnType::TimestampMicros, false);
    add_column(&mut b, "name", ColumnType::Utf8, false);
    add_column(&mut b, "value", ColumnType::Float64, false);
    add_column(&mut b, "metric_type", ColumnType::Utf8, false);
    add_column(&mut b, "labels", ColumnType::Utf8, false);
    assert(builder_columns(b) =~= export_columns());
    std::sync::Arc::new(finish_schema(b))
}

// ---------------------------------------------------------------------------
// Payloads
// ---------------------------------------------------------------------------

/// The member of a document under a key, where it is an object that has one.
pub open spec fn document_member(doc: crate::json::Json, key: Seq<char>) -> Option<
    crate::json::Json,
> {
    match doc {
        crate::json::Json::Object(m) => if m.contains_key(key) {
            Some(m[key])
        } else {
            None
        },
        _ => None,
    }
}

/// The sample that a payload holds, or zero where it holds no number.
pub open spec fn payload_sample(doc: crate::json::Json) -> serde_json::Number {
    match document_member(doc, "value"@) {
        Some(crate::json::Json::Number(n)) => n,
        _ => crate::json::whole_number(0),
    }
}

/// The metric flavour that a payload names, or `unknown`.
pub open spec fn payload_kind(doc: crate::json::Json) -> Seq<char> {
    match document_member(doc, "metric_type"@) {
        Some(crate::json::Json::Text(s)) => s,
        _ => "unknown"@,
    }
}

/// The text of the labels that a payload holds, or of the empty object.
pub open spec fn payload_labels(doc: crate::json::Json) -> Seq<char> {
    match document_member(doc, "labels"@) {
        Some(crate::json::Json::Object(m)) => crate::json::json_text(
            crate::json::Json::Object(m),
        ),
        _ => "{}"@,
    }
}

/// The sample, flavour and labels columns of a payload.
#[must_use]
pub fn payload_columns(doc: &serde_json::Value) -> (r: (serde_json::Number, String, String))
    ensures
        r.0 == payload_sample(crate::json::json(*doc)),
        r.1@ == payload_kind(crate::json::json(*doc)),
        r.2@ == payload_labels(crate::json::json(*doc)),
{
    let sample = match member(doc, "value") {
        Some(v) => match as_number(v) {
            Some(n) => n,
            None => number(0),
        },
        None => number(0),
    };
    let kind = match member(doc, "metric_type") {
        Some(v) => match as_text(v) {
            Some(s) => s.to_owned(),
            None => "unknown".to_owned(),
        },
        None => "unknown".to_owned(),
    };
    let labels = match member(doc, "labels") {
        Some(v) => if is_object(v) {
            print(v)
        } else {
            "{}".to_owned()
        },
        None => "{}".to_owned(),
    };
    (sample, kind, labels)
}

/// The sample, flavour and labels columns of raw bytes; bytes that hold no
/// document have the sample zero, the flavour `unknown` and no labels.
pub open spec fn raw_columns(raw: Seq<u8>) -> (serde_json::Number, Seq<char>, Seq<char>) {
    match crate::json::json_parse(raw) {
        Some(doc) => (payload_sample(doc), payload_kind(doc), payload_labels(doc)),
        None => (crate::json::whole_number(0), "unknown"@, "{}"@),
    }
}

/// Decodes sample, flavour and labels text from a value payload.
#[must_use]
pub fn decode_value(raw: &[u8]) -> (r: (serde_json::Number, String, String))
    ensures
        (r.0, r.1@, r.2@) == raw_columns(raw@),
{
    match parse(raw) {
        Some(doc) => payload_columns(&doc),
        None => (number(0), "unknown".to_owned(), "{}".to_owned()),
    }
}

/// The columns of a payload are the flavour and the labels it was made of,
/// and its sample where that is a number.
pub proof fn law_payload_columns(
    value: crate::json::Json,
    kind: Seq<char>,
    labels: Seq<(Seq<char>, Seq<char>)>,
)
    ensures
        payload_sample(crate::storage::fjall_engine::payload(value, kind, labels)) == (match value {
            crate::json::Json::Number(n) => n,
            _ => crate::json::whole_number(0),
        }),
        payload_kind(crate::storage::fjall_engine::payload(value, kind, labels)) == kind,
        payload_labels(crate::storage::fjall_engine::payload(value, kind, labels))
            == crate::json::json_text(
            crate::json::Json::Object(crate::storage::fjall_engine::label_object(labels)),
        ),
{
    crate::storage::fjall_engine::lemma_payload_keys();
}

// ---------------------------------------------------------------------------
// Expiry
// ---------------------------------------------------------------------------

/// The first second of the calendar in which exports are dated.
pub const CALENDAR_FIRST_SEC: i64 = -8_334_601_228_800;

/// The last second of the calendar in which exports are dated.
pub const CALENDAR_LAST_SEC: i64 = 8_210_266_876_799;

/// The text of the error for a span that is too long for the calendar.
pub const SPAN_RANGE_ERROR: &'static str =
    "Source duration value is out of range for the target type";

/// The longest span that `chrono` can subtract, in nanoseconds.
pub open spec fn longest_span_nanos() -> int {
    i64::MAX as int * 1_000_000
}

/// `chrono::TimeDelta::from_std`: the span as seconds and nanoseconds where
/// it is at most as many milliseconds as a signed 64-bit number holds, else
/// the text of its range error.
#[verifier::external_body]
fn calendar_span(secs: u64, nanos: u32) -> (r: Result<(i64, i32), String>)
    requires
        nanos < 1_000_000_000,
    ensures
        match r {
            Ok(d) => {
                &&& secs as int * 1_000_000_000 + nanos as int <= longest_span_nanos()
                &&& d.0 == secs
                &&& d.1 == nanos
            },
            Err(text) => {
                &&& secs as int * 1_000_000_000 + nanos as int > longest_span_nanos()
                &&& text@ == SPAN_RANGE_ERROR@
            },
        },
{
    match chrono::TimeDelta::from_std(std::time::Duration::new(secs, nanos)) {
        Ok(d) => Ok((d.num_seconds(), d.subsec_nanos())),
        Err(e) => Err(e.to_string()),
    }
}

/// A moment in nanoseconds since the epoch.
pub open spec fn moment_nanos(secs: i64, nanos: u32) -> int {
    secs as int * 1_000_000_000 + nanos as int
}

/// The oldest microsecond that is kept: `retention` before the given moment,
/// rounded down, and not before the epoch.
pub open spec fn expiry_micros(now_nanos: int, retention_nanos: int) -> int {
    let n = (now_nanos - retention_nanos) / 1000;
    if n < 0 {
        0
    } else {
        n
    }
}

/// Whether the calendar holds a moment and, where the retention can be
/// subtracted at all, the moment that it reaches back to.
pub open spec fn in_calendar(now_secs: i64, now_nanos: u32, retention: TimeSpan) -> bool {
    &&& CALENDAR_FIRST_SEC <= now_secs <= CALENDAR_LAST_SEC
    &&& now_nanos < 1_000_000_000
    &&& retention.total_nanos() <= longest_span_nanos() ==> moment_nanos(now_secs, now_nanos)
        - retention.total_nanos() >= CALENDAR_FIRST_SEC * 1_000_000_000
}

/// Whether [`cutoff_micros`] can be asked at the given moment.
#[must_use]
pub fn within_calendar(now_secs: i64, now_nanos: u32, retention: TimeSpan) -> (r: bool)
    ensures
        r == in_calendar(now_secs, now_nanos, retention),
{
    let now: i128 = now_secs as i128 * 1_000_000_000 + now_nanos as i128;
    let kept: i128 = retention.as_secs() as i128 * 1_000_000_000 + retention.subsec_nanos()
        as i128;
    let longest: i128 = i64::MAX as i128 * 1_000_000;
    let first: i128 = CALENDAR_FIRST_SEC as i128 * 1_000_000_000;
    CALENDAR_FIRST_SEC <= now_secs && now_secs <= CALENDAR_LAST_SEC && now_nanos < 1_000_000_000 && (
    kept > longest || now - kept >= first)
}

/// The oldest microsecond that is kept at the given moment: older keys have
/// expired.
pub fn cutoff_micros(now_secs: i64, now_nanos: u32, retention: TimeSpan) -> (r: Result<u64, Error>)
    requires
        in_calendar(now_secs, now_nanos, retention),
    ensures
        match r {
            Ok(cutoff) => {
                &&& retention.total_nanos() <= longest_span_nanos()
                &&& cutoff == expiry_micros(
                    moment_nanos(now_secs, now_nanos),
                    retention.total_nanos(),
                )
            },
            Err(e) => {
                &&& retention.total_nanos() > longest_span_nanos()
                &&& e matches Error::Storage(m) && m@ == "invalid retention: "@ + SPAN_RANGE_ERROR@
            },
        },
{
    match calendar_span(retention.as_secs(), retention.subsec_nanos()) {
        Ok(d) => {
            let now: i128 = now_secs as i128 * 1_000_000_000 + now_nanos as i128;
            let kept: i128 = d.0 as i128 * 1_000_000_000 + d.1 as i128;
            let age: i128 = now - kept;
            if age < 0 {
                Ok(0)
            } else {
                Ok((age / 1000) as u64)
            }
        },
        Err(text) => {
            let mut m = "invalid retention: ".to_owned();
            m.append(text.as_str());
            Err(Error::Storage(m))
        },
    }
}

// ---------------------------------------------------------------------------
// File names
// ---------------------------------------------------------------------------

/// The name of the temporary file of an export.
pub open spec fn temp_name(stamp: Seq<char>) -> Seq<char> {
    "."@ + PARQUET_FILE_PREFIX@ + stamp + ".parquet.tmp"@
}

/// The name of a published export.
pub open spec fn cold_name(stamp: Seq<char>) -> Seq<char> {
    PARQUET_FILE_PREFIX@ + stamp + PARQUET_FILE_SUFFIX@
}

/// The name of the temporary file of an export.
#[must_use]
pub fn temp_file_name(stamp: &str) -> (r: String)
    ensures
        r@ == temp_name(stamp@),
{
    let mut out = ".".to_owned();
    out.append(PARQUET_FILE_PREFIX);
    out.append(stamp);
    out.append(".parquet.tmp");
    out
}

/// The name of a published export.
#[must_use]
pub fn cold_file_name(stamp: &str) -> (r: String)
    ensures
        r@ == cold_name(stamp@),
{
    let mut out = PARQUET_FILE_PREFIX.to_owned();
    out.append(stamp);
    out.append(PARQUET_FILE_SUFFIX);
    out
}

/// What `chrono` prints for a second of the calendar in a given form; nothing
/// outside the calendar.
pub uninterp spec fn utc_text(secs: i64, format: Seq<char>) -> Option<Seq<char>>;

/// One text comes before another of the same length: they agree up to a
/// character that is smaller.
pub open spec fn stamp_less(a: Seq<char>, b: Seq<char>) -> bool {
    exists|i: int| #[trigger] stamp_less_at(a, b, i)
}

/// The texts agree before `i` and the first is smaller there.
pub open spec fn stamp_less_at(a: Seq<char>, b: Seq<char>, i: int) -> bool {
    &&& 0 <= i < a.len()
    &&& a.len() == b.len()
    &&& forall|j: int| 0 <= j < i ==> a[j] == b[j]
    &&& a[i] < b[i]
}

/// The seconds of the years 1970 to 9999, in which a year has four digits.
pub open spec fn four_digit_year(secs: i64) -> bool {
    0 <= secs < 253_402_300_800
}

/// A text of ASCII characters after which no stamp of an earlier second
/// sorts.
pub open spec fn sorts_by_time(secs: i64, format: Seq<char>, text: Seq<char>) -> bool {
    &&& is_ascii_chars(text)
    &&& forall|before: i64|
        four_digit_year(before) && before < secs ==> match #[trigger] utc_text(before, format) {
            Some(earlier) => is_ascii_chars(earlier) && stamp_less(earlier, text),
            None => false,
        }
}

/// Whether the export published at the given second with that stamp has a
/// larger name than every export published at an earlier second.
pub open spec fn newest_name(secs: i64, stamp: Seq<char>) -> bool {
    forall|before: i64|
        four_digit_year(before) && before < secs ==> match #[trigger] utc_text(
            before,
            STAMP_FORMAT@,
        ) {
            Some(earlier) => crate::bytes::lex_less(
                encode_utf8(cold_name(earlier)),
                encode_utf8(cold_name(stamp)),
            ),
            None => false,
        }
}

/// `chrono::DateTime::from_timestamp` and `DateTime::format`: the text of a
/// second of the calendar in UTC. The fields of the stamp are zero-padded and
/// go from the year down to the second, so through the years of four digits
/// it is there, made of ASCII characters, and a later second has a later
/// stamp.
#[verifier::external_body]
fn format_utc(secs: i64, format: &str) -> (r: Option<String>)
    requires
        format@ == STAMP_FORMAT@,
    ensures
        match r {
            Some(text) => utc_text(secs, format@) == Some(text@),
            None => utc_text(secs, format@) is None,
        },
        four_digit_year(secs) ==> r is Some && sorts_by_time(secs, format@, r.unwrap()@),
{
    chrono::DateTime::from_timestamp(secs, 0).map(|t| t.format(format).to_string())
}

/// The stamp of an export made at the given second, where the calendar has
/// it. Names of exports sort by time: whatever was published at an earlier
/// second, through the years of four digits, has a smaller name.
#[must_use]
pub fn utc_stamp(secs: i64) -> (r: Option<String>)
    ensures
        match r {
            Some(text) => utc_text(secs, STAMP_FORMAT@) == Some(text@),
            None => utc_text(secs, STAMP_FORMAT@) is None,
        },
        four_digit_year(secs) ==> (r matches Some(text) && newest_name(secs, text@)),
{
    let r = format_utc(secs, STAMP_FORMAT);
    proof {
        if four_digit_year(secs) {
            let text = r.unwrap()@;
            assert forall|before: i64|
                four_digit_year(before) && before < secs implies match #[trigger] utc_text(
                before,
                STAMP_FORMAT@,
            ) {
                Some(earlier) => crate::bytes::lex_less(
                    encode_utf8(cold_name(earlier)),
                    encode_utf8(cold_name(text)),
                ),
                None => false,
            } by {
                let earlier = utc_text(before, STAMP_FORMAT@).unwrap();
                lemma_names_sort_by_stamp(earlier, text);
            }
        }
    }
    r
}

proof fn lemma_encode_concat(a: Seq<char>, b: Seq<char>)
    ensures
        encode_utf8(a + b) == encode_utf8(a) + encode_utf8(b),
    decreases a.len(),
{
    if a.len() == 0 {
        assert(a + b =~= b);
        assert(encode_utf8(a) + encode_utf8(b) =~= encode_utf8(b));
    } else {
        assert((a + b).drop_first() =~= a.drop_first() + b);
        lemma_encode_concat(a.drop_first(), b);
        assert(encode_utf8(a + b) =~= encode_utf8(a) + encode_utf8(b));
    }
}

proof fn lemma_names_sort_by_stamp(a: Seq<char>, b: Seq<char>)
    requires
        is_ascii_chars(a),
        is_ascii_chars(b),
        stamp_less(a, b),
    ensures
        crate::bytes::lex_less(encode_utf8(cold_name(a)), encode_utf8(cold_name(b))),
{
    let p = encode_utf8(PARQUET_FILE_PREFIX@);
    let t = encode_utf8(PARQUET_FILE_SUFFIX@);
    let x = encode_utf8(a);
    let y = encode_utf8(b);
    is_ascii_chars_encode_utf8(a);
    is_ascii_chars_encode_utf8(b);
    lemma_cold_name_bytes(a);
    lemma_cold_name_bytes(b);
    let i = choose|i: int| #[trigger] stamp_less_at(a, b, i);
    assert(x[i] == a[i] as u8 && y[i] == b[i] as u8);
    assert(a[i] <= '\u{7f}' && b[i] <= '\u{7f}');
    assert forall|j: int| 0 <= j < i implies (x + t)[j] == (y + t)[j] by {
        assert(x[j] == a[j] as u8 && y[j] == b[j] as u8);
    }
    assert(crate::bytes::lex_less_at(x + t, y + t, i));
    crate::bytes::lemma_lex_less_prefix(p, x + t, y + t);
}

proof fn lemma_cold_name_bytes(stamp: Seq<char>)
    ensures
        encode_utf8(cold_name(stamp)) == encode_utf8(PARQUET_FILE_PREFIX@) + (encode_utf8(stamp)
            + encode_utf8(PARQUET_FILE_SUFFIX@)),
{
    lemma_encode_concat(PARQUET_FILE_PREFIX@ + stamp, PARQUET_FILE_SUFFIX@);
    lemma_encode_concat(PARQUET_FILE_PREFIX@, stamp);
    assert(encode_utf8(cold_name(stamp)) =~= encode_utf8(PARQUET_FILE_PREFIX@) + (encode_utf8(stamp)
        + encode_utf8(PARQUET_FILE_SUFFIX@)));
}

/// Whether a file name, as bytes, is that of a published export.
pub open spec fn is_export(name: Seq<u8>) -> bool {
    &&& encode_utf8(PARQUET_FILE_PREFIX@).is_prefix_of(name)
    &&& encode_utf8(PARQUET_FILE_SUFFIX@).is_suffix_of(name)
}

fn starts_with(name: &[u8], prefix: &[u8]) -> (r: bool)
    ensures
        r == prefix@.is_prefix_of(name@),
{
    if prefix.len() > name.len() {
        return false;
    }
    let mut i: usize = 0;
    while i < prefix.len()
        invariant
            i <= prefix@.len() <= name@.len(),
            forall|j: int| 0 <= j < i ==> prefix@[j] == name@[j],
        decreases prefix@.len() - i,
    {
        if prefix[i] != name[i] {
            assert(name@.subrange(0, prefix@.len() as int)[i as int] == name@[i as int]);
            return false;
        }
        i = i + 1;
    }
    assert(prefix@ =~= name@.subrange(0, prefix@.len() as int));
    true
}

fn ends_with(name: &[u8], suffix: &[u8]) -> (r: bool)
    ensures
        r == suffix@.is_suffix_of(name@),
{
    if suffix.len() > name.len() {
        return false;
    }
    let n: usize = name.len();
    let start: usize = n - suffix.len();
    let ghost tail = name@.subrange(start as int, name@.len() as int);
    let mut i: usize = 0;
    while i < suffix.len()
        invariant
            start + suffix@.len() == n == name@.len(),
            i <= suffix@.len(),
            tail == name@.subrange(start as int, name@.len() as int),
            forall|j: int| 0 <= j < i ==> suffix@[j] == tail[j],
        decreases suffix@.len() - i,
    {
        if suffix[i] != name[start + i] {
            assert(tail[i as int] != suffix@[i as int]);
            return false;
        }
        i = i + 1;
    }
    assert(suffix@ =~= tail);
    true
}

/// The newest export among the file names of a directory, if any: the one
/// whose name sorts last.
#[must_use]
pub fn latest_cold_file(names: &Vec<Vec<u8>>) -> (r: Option<Vec<u8>>)
    ensures
        match r {
            Some(name) => {
                &&& is_export(name@)
                &&& exists|i: int| 0 <= i < names@.len() && (#[trigger] names@[i])@ == name@
                &&& forall|i: int|
                    0 <= i < names@.len() && is_export((#[trigger] names@[i])@) ==> names@[i]@
                        == name@ || crate::bytes::lex_less(names@[i]@, name@)
            },
            None => forall|i: int| 0 <= i < names@.len() ==> !is_export((#[trigger] names@[i])@),
        },
{
    let mut best: Option<usize> = None;
    let mut i: usize = 0;
    while i < names.len()
        invariant
            i <= names@.len(),
            match best {
                Some(b) => {
                    &&& b < i
                    &&& is_export(names@[b as int]@)
                    &&& forall|j: int|
                        0 <= j < i && is_export((#[trigger] names@[j])@) ==> names@[j]@
                            == names@[b as int]@ || crate::bytes::lex_less(
                            names@[j]@,
                            names@[b as int]@,
                        )
                },
                None => forall|j: int| 0 <= j < i ==> !is_export((#[trigger] names@[j])@),
            },
        decreases names@.len() - i,
    {
        let name = names[i].as_slice();
        if starts_with(name, PARQUET_FILE_PREFIX.as_bytes()) && ends_with(
            name,
            PARQUET_FILE_SUFFIX.as_bytes(),
        ) {
            match best {
                None => {
                    best = Some(i);
                },
                Some(b) => {
                    let ghost old_best = names@[b as int]@;
                    if bytes_less(names[b].as_slice(), name) {
                        best = Some(i);
                        proof {
                            assert forall|j: int|
                                0 <= j < i + 1 && is_export((#[trigger] names@[j])@) implies names@[j]@
                                == names@[i as int]@ || crate::bytes::lex_less(
                                names@[j]@,
                                names@[i as int]@,
                            ) by {
                                if j < i && names@[j]@ != old_best {
                                    crate::bytes::lemma_lex_less_transitive(
                                        names@[j]@,
                                        old_best,
                                        names@[i as int]@,
                                    );
                                }
                            }
                        }
                    } else {
                        proof {
                            if name@ != old_best {
                                crate::bytes::lemma_lex_less_total(old_best, name@);
                            }
                        }
                    }
                },
            }
        }
        i = i + 1;
    }
    match best {
        Some(b) => Some(names[b].clone()),
        None => None,
    }
}

/// A published export is found under its name, and a temporary file never is
/// taken for one.
pub proof fn law_only_published_exports_are_found(stamp: Seq<char>)
    ensures
        is_export(encode_utf8(cold_name(stamp))),
        !is_export(encode_utf8(temp_name(stamp))),
{
    lemma_cold_name_bytes(stamp);
    let name = encode_utf8(cold_name(stamp));
    let p = encode_utf8(PARQUET_FILE_PREFIX@);
    let t = encode_utf8(PARQUET_FILE_SUFFIX@);
    assert(name.subrange(0, p.len() as int) =~= p);
    assert(name.subrange(name.len() - t.len(), name.len() as int) =~= t);
    reveal_strlit(".");
    reveal_strlit("metrics_cold_");
    let temp = encode_utf8(temp_name(stamp));
    assert(is_ascii_chars("."@));
    is_ascii_chars_encode_utf8("."@);
    assert(is_ascii_chars(PARQUET_FILE_PREFIX@));
    is_ascii_chars_encode_utf8(PARQUET_FILE_PREFIX@);
    assert(temp_name(stamp) =~= "."@ + (PARQUET_FILE_PREFIX@ + stamp + ".parquet.tmp"@));
    lemma_encode_concat("."@, PARQUET_FILE_PREFIX@ + stamp + ".parquet.tmp"@);
    assert(temp[0] == 46);
    assert(PARQUET_FILE_PREFIX@[0] == 'm');
    assert(p[0] == 109);
    if p.is_prefix_of(temp) {
        assert(temp.subrange(0, p.len() as int)[0] == temp[0]);
    }
}

/// The cutoff lies the whole retention before now, rounded down to the
/// microsecond, and at the epoch where that would be before it.
pub proof fn law_cutoff_is_retention_ago(now_nanos: int, retention_nanos: int)
    ensures
        now_nanos >= retention_nanos ==> 1000 * expiry_micros(now_nanos, retention_nanos)
            <= now_nanos - retention_nanos < 1000 * (expiry_micros(now_nanos, retention_nanos) + 1),
        now_nanos < retention_nanos ==> expiry_micros(now_nanos, retention_nanos) == 0,
{
}

/// A sample has expired exactly when the microsecond of its capture was over
/// the whole retention ago or earlier.
pub proof fn law_expired_samples_outlived_the_retention(
    now_nanos: int,
    retention_nanos: int,
    sample_micros: int,
)
    requires
        now_nanos >= retention_nanos,
    ensures
        sample_micros < expiry_micros(now_nanos, retention_nanos) <==> now_nanos - 1000 * (
        sample_micros + 1) >= retention_nanos,
{
    law_cutoff_is_retention_ago(now_nanos, retention_nanos);
}

/// A longer retention keeps as much more: by whole microseconds it lowers the
/// cutoff by as many, and so does an earlier moment.
pub proof fn law_longer_retention_keeps_more(now_nanos: int, retention_nanos: int, micros: int)
    requires
        micros >= 0,
        now_nanos >= retention_nanos + 1000 * micros,
    ensures
        expiry_micros(now_nanos, retention_nanos + 1000 * micros) == expiry_micros(
            now_nanos,
            retention_nanos,
        ) - micros,
        expiry_micros(now_nanos - 1000 * micros, retention_nanos) == expiry_micros(
            now_nanos,
            retention_nanos,
        ) - micros,
{
}

/// The cutoff of a pass, over its arguments: now in seconds and nanoseconds,
/// less the retention in seconds and nanoseconds.
pub proof fn law_cutoff_counts_in_seconds(
    now_secs: i64,
    now_nanos: u32,
    retention: TimeSpan,
)
    requires
        in_calendar(now_secs, now_nanos, retention),
        retention.total_nanos() <= longest_span_nanos(),
    ensures
        ({
            let left = (now_secs as int * 1_000_000_000 + now_nanos as int) - (
            retention.seconds() as int * 1_000_000_000 + retention.subsec() as int);
            let cutoff = expiry_micros(
                moment_nanos(now_secs, now_nanos),
                retention.total_nanos(),
            );
            &&& left >= 0 ==> 1000 * cutoff <= left < 1000 * (cutoff + 1)
            &&& left < 0 ==> cutoff == 0
        }),
{
}

/// Whatever a payload is, its columns are the number, the text and the object
/// that it has under their keys, and else zero, `unknown` and no labels.
pub proof fn law_missing_columns_have_defaults(
    raw: Seq<u8>,
    m: Map<Seq<char>, crate::json::Json>,
)
    ensures
        crate::json::json_parse(raw) is None ==> raw_columns(raw) == (
            crate::json::whole_number(0),
            "unknown"@,
            "{}"@,
        ),
        crate::json::json_parse(raw) == Some(crate::json::Json::Object(m)) ==> {
            &&& raw_columns(raw).0 == (if m.contains_key("value"@) && m["value"@] is Number {
                m["value"@]->Number_0
            } else {
                crate::json::whole_number(0)
            })
            &&& raw_columns(raw).1 == (if m.contains_key("metric_type"@) && m["metric_type"@] is Text {
                m["metric_type"@]->Text_0
            } else {
                "unknown"@
            })
            &&& raw_columns(raw).2 == (if m.contains_key("labels"@) && m["labels"@] is Object {
                crate::json::json_text(m["labels"@])
            } else {
                "{}"@
            })
        },
        crate::json::json_parse(raw) is Some && !(crate::json::json_parse(raw).unwrap() is Object)
            ==> raw_columns(raw) == (crate::json::whole_number(0), "unknown"@, "{}"@),
{
}

/// The name of a published export is `metrics_cold_`, the stamp and
/// `.parquet`; that of a temporary file is hidden and goes on with `.tmp`.
pub proof fn law_export_names(stamp: Seq<char>)
    ensures
        cold_name(stamp) == "metrics_cold_"@ + stamp + ".parquet"@,
        temp_name(stamp) == "."@ + cold_name(stamp) + ".tmp"@,
{
    reveal_strlit(".parquet");
    reveal_strlit(".tmp");
    reveal_strlit(".parquet.tmp");
    assert(".parquet.tmp"@ =~= ".parquet"@ + ".tmp"@);
    assert(temp_name(stamp) =~= "."@ + cold_name(stamp) + ".tmp"@);
}

/// Every moment that the calendar has can be asked for a cutoff with every
/// retention that does not reach before the calendar or is too long for it.
pub proof fn law_calendar_admits(now_secs: i64, now_nanos: u32, retention: TimeSpan)
    ensures
        in_calendar(now_secs, now_nanos, retention) <==> {
            let span = retention.seconds() as int * 1_000_000_000 + retention.subsec() as int;
            &&& -8_334_601_228_800 <= now_secs <= 8_210_266_876_799
            &&& now_nanos < 1_000_000_000
            &&& span > 9_223_372_036_854_775_807_000_000 || now_secs as int * 1_000_000_000
                + now_nanos as int - span >= -8_334_601_228_800_000_000_000
        },
{
}

/// A file is an export exactly when its name begins with `metrics_cold_` and
/// ends with `.parquet`.
pub proof fn law_exports_are_told_by_name(name: Seq<u8>)
    ensures
        is_export(name) <==> {
            &&& encode_utf8("metrics_cold_"@).is_prefix_of(name)
            &&& encode_utf8(".parquet"@).is_suffix_of(name)
        },
{
}

/// The columns of an export, in their order, none of which may miss a value.
pub proof fn law_export_columns(i: int)
    requires
        0 <= i < 5,
    ensures
        export_columns().len() == 5,
        export_columns()[i].0 == seq!["ts"@, "name"@, "value"@, "metric_type"@, "labels"@][i],
        export_columns()[i].1 == (if i == 0 {
            ColumnType::TimestampMicros
        } else if i == 2 {
            ColumnType::Float64
        } else {
            ColumnType::Utf8
        }),
        !export_columns()[i].2,
{
}

} // verus!
