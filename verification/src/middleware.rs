//! What the web middleware records and what its endpoints answer.
//!
//! * `http_requests_total{method,path,status}` (counter)
//! * `http_request_duration_ms{method,path}` (histogram, milliseconds)

use crate::engine::{prometheus_text, EngineHandle};
use crate::error::Error;
use crate::prometheus::PromRegistry;
use crate::text::truncated;
use vstd::prelude::*;

verus! {

/// Counter series of requests.
pub const HTTP_REQUESTS_TOTAL: &'static str = "http_requests_total";

/// Histogram series of request durations, in milliseconds.
pub const HTTP_REQUEST_DURATION_MS: &'static str = "http_request_duration_ms";

/// Most characters that a raw path keeps.
pub const MAX_PATH: usize = 128;

/// The content type of the text exposition format.
pub const EXPOSITION_CONTENT_TYPE: &'static str = "text/plain; version=0.0.4; charset=utf-8";

/// The answer when there is no cold export.
pub const NO_EXPORT: &'static str =
    "no parquet export available yet (compaction has not exported any keys)";

/// The first characters of a raw path, which bounds the size of a label.
#[must_use]
pub fn truncate_path(p: &str) -> (r: String)
    ensures
        r@ == crate::text::first_chars(p@, MAX_PATH as nat),
{
    truncated(p, MAX_PATH)
}

/// The path that a request is recorded under: the route template where one
/// matched, which bounds the number of series, else the raw path, truncated.
#[must_use]
pub fn recorded_path(template: Option<&str>, raw: &str) -> (r: String)
    ensures
        r@ == match template {
            Some(t) => t@,
            None => crate::text::first_chars(raw@, MAX_PATH as nat),
        },
{
    match template {
        Some(t) => t.to_owned(),
        None => truncate_path(raw),
    }
}

/// The decimal digits of a number.
pub open spec fn decimal(n: nat) -> Seq<char>
    decreases n,
{
    if n < 10 {
        seq![(48 + n) as char]
    } else {
        decimal(n / 10).push((48 + n % 10) as char)
    }
}

fn decimal_of(n: u16) -> (r: String)
    ensures
        r@ == decimal(n as nat),
    decreases n,
{
    let digit: u8 = 48 + (n % 10) as u8;
    let mut out = if n < 10 {
        String::new()
    } else {
        decimal_of(n / 10)
    };
    let ghost before = out@;
    out.push(digit as char);
    proof {
        if n < 10 {
            assert(before =~= Seq::<char>::empty());
            assert(out@ =~= decimal(n as nat));
        }
    }
    out
}

/// The label pairs of a request: method, path and status code.
#[must_use]
pub fn request_labels(method: &str, path: &str, status: u16) -> (r: Vec<(String, String)>)
    ensures
        crate::types::label_views(r@) == seq![
            ("method"@, method@),
            ("path"@, path@),
            ("status"@, decimal(status as nat)),
        ],
{
    let mut labels = duration_labels(method, path);
    labels.push(("status".to_owned(), decimal_of(status)));
    assert(crate::types::label_views(labels@) =~= seq![
        ("method"@, method@),
        ("path"@, path@),
        ("status"@, decimal(status as nat)),
    ]);
    labels
}

/// The label pairs of a request's duration: method and path.
#[must_use]
pub fn duration_labels(method: &str, path: &str) -> (r: Vec<(String, String)>)
    ensures
        r@.len() == 2,
        crate::types::label_views(r@) == seq![("method"@, method@), ("path"@, path@)],
{
    let mut labels: Vec<(String, String)> = Vec::new();
    labels.push(("method".to_owned(), method.to_owned()));
    labels.push(("path".to_owned(), path.to_owned()));
    assert(crate::types::label_views(labels@) =~= seq![("method"@, method@), ("path"@, path@)]);
    labels
}

/// The answer of an endpoint.
#[derive(Debug)]
pub struct Reply {
    /// Status code.
    pub status: u16,
    /// Content type, where it is not that of plain text.
    pub content_type: Option<&'static str>,
    /// Body.
    pub body: String,
}

/// Whether a reply is the answer of the scrape endpoint to a result: the
/// exposition text, or that it is not available and why.
pub open spec fn answers_scrape(text: Result<String, Error>, r: Reply) -> bool {
    match text {
        Ok(body) => {
            &&& r.status == 200
            &&& r.content_type matches Some(t) && t@ == EXPOSITION_CONTENT_TYPE@
            &&& r.body == body
        },
        Err(e) => {
            &&& r.status == 503
            &&& r.content_type is None
            &&& r.body@ == "metrics unavailable: "@ + e.text()
        },
    }
}

/// The answer of the scrape endpoint: the exposition text, or that it is not
/// available and why.
#[must_use]
pub fn scrape_reply(text: Result<String, Error>) -> (r: Reply)
    ensures
        answers_scrape(text, r),
{
    match text {
        Ok(body) => Reply { status: 200, content_type: Some(EXPOSITION_CONTENT_TYPE), body },
        Err(e) => {
            let mut body = "metrics unavailable: ".to_owned();
            body.append(e.message().as_str());
            Reply { status: 503, content_type: None, body }
        },
    }
}

/// Answers the scrape endpoint. Without an engine it is unavailable; an
/// engine without a registry answers with an empty text, one with a registry
/// with what rendering it gave.
#[must_use]
pub fn answer_scrape(engine: Option<&EngineHandle>, registry: Option<&PromRegistry>) -> (r: Reply)
    ensures
        engine is None ==> {
            &&& r.status == 503
            &&& r.content_type is None
            &&& r.body@ == "metrics unavailable: "@ + Error::NotInitialized.text()
        },
        engine is Some && registry is None ==> {
            &&& r.status == 200
            &&& r.content_type matches Some(t) && t@ == EXPOSITION_CONTENT_TYPE@
            &&& r.body@ == Seq::<char>::empty()
        },
        engine is Some ==> (registry matches Some(reg) ==> exists|text: Result<String, Error>|
         #[trigger] reg.renders(text) && answers_scrape(text, r)),
        r.status == 200 || r.status == 503,
{
    let text = prometheus_text(engine, registry);
    scrape_reply(text)
}

/// The answer of the export endpoint before the first export.
#[must_use]
pub fn no_export_reply() -> (r: Reply)
    ensures
        r.status == 404,
        r.content_type is None,
        r.body@ == NO_EXPORT@,
{
    Reply { status: 404, content_type: None, body: NO_EXPORT.to_owned() }
}

/// A status code is written with its decimal digits: no leading zero, one
/// digit for what is below ten, and a further digit for each further power.
pub proof fn law_decimal_digits(n: nat)
    ensures
        n < 10 ==> decimal(n).len() == 1 && decimal(n)[0] as u32 == 48 + n,
        n >= 10 ==> {
            &&& decimal(n).drop_last() == decimal(n / 10)
            &&& decimal(n).len() == decimal(n / 10).len() + 1
            &&& decimal(n).last() as u32 == 48 + n % 10
        },
        n > 0 ==> decimal(n)[0] != '0',
    decreases n,
{
    if n >= 10 {
        law_decimal_digits(n / 10);
        assert(decimal(n).drop_last() =~= decimal(n / 10));
    }
}

proof fn lemma_decimal_digits(n: nat)
    ensures
        decimal(n).len() > 0,
        forall|i: int| 0 <= i < decimal(n).len() ==> 48 <= (#[trigger] decimal(n)[i]) as u32 <= 57,
    decreases n,
{
    if n >= 10 {
        lemma_decimal_digits(n / 10);
        let before = decimal(n / 10);
        assert forall|i: int| 0 <= i < decimal(n).len() implies 48 <= (#[trigger] decimal(
            n,
        )[i]) as u32 <= 57 by {
            if i < before.len() {
                assert(decimal(n)[i] == before[i]);
            }
        }
    }
}

proof fn lemma_decimal_value(
    n: nat,
    value: spec_fn(char) -> int,
    shift: spec_fn(int, int) -> int,
)
    requires
        forall|c: char| #[trigger] value(c) == c as int - 48,
        forall|a: int, d: int| #[trigger] shift(a, d) == 10 * a + d,
    ensures
        decimal(n).map_values(value).fold_left(0int, shift) == n,
    decreases n,
{
    let s = decimal(n).map_values(value);
    if n < 10 {
        assert(s.drop_last() =~= Seq::<int>::empty());
        assert(s.drop_last().fold_left(0int, shift) == 0);
        assert(s.last() == n);
    } else {
        lemma_decimal_value(n / 10, value, shift);
        assert(s.drop_last() =~= decimal(n / 10).map_values(value));
        assert(s.last() == n % 10);
    }
}

/// The digits of a status code read as the code: two codes never share a
/// label.
pub proof fn law_decimal_reads_back(n: nat)
    ensures
        decimal(n).map_values(|c: char| c as int - 48).fold_left(
            0int,
            |a: int, d: int| 10 * a + d,
        ) == n,
        forall|i: int| 0 <= i < decimal(n).len() ==> 48 <= (#[trigger] decimal(n)[i]) as u32 <= 57,
{
    lemma_decimal_value(n, |c: char| c as int - 48, |a: int, d: int| 10 * a + d);
    lemma_decimal_digits(n);
}

/// A text is answered as it is, with status 200 and the content type of the
/// exposition format; a failure with status 503, as plain text that says why.
pub proof fn law_scrape_answers(text: Result<String, Error>, r: Reply)
    requires
        answers_scrape(text, r),
    ensures
        text matches Ok(body) ==> r.status == 200 && r.body@ == body@ && (r.content_type matches Some(
            t,
        ) && t@ == "text/plain; version=0.0.4; charset=utf-8"@),
        text matches Err(e) ==> r.status == 503 && r.content_type is None && r.body@
            == "metrics unavailable: "@ + e.text(),
{
}

} // verus!
