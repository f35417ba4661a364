//! Core metric primitives shared by every backend.
//!
//! [`MetricEntry`] is the single unit that flows through the pipeline. The
//! library never reads a sample's value, so the entry is generic over it.

use crate::error::Error;
use crate::text::{chars_of, same_text, trim_bounds, truncated};
use vstd::prelude::*;

verus! {

/// Most label pairs that one observation keeps.
pub const MAX_PAIRS: usize = 16;

/// Most characters that a label key keeps.
pub const MAX_KEY: usize = 128;

/// Most characters that a label value keeps.
pub const MAX_VAL: usize = 256;

/// Metric flavour: it names the sample in storage and picks the matching
/// Prometheus collector.
#[derive(Debug, Clone, Copy, PartialEq, Eq, Hash, Structural)]
pub enum MetricType {
    /// Monotonically increasing value.
    Counter,
    /// Arbitrarily settable value.
    Gauge,
    /// Sampled observation.
    Histogram,
}

impl MetricType {
    /// The canonical lowercase identifier.
    pub open spec fn name(self) -> Seq<char> {
        match self {
            MetricType::Counter => "counter"@,
            MetricType::Gauge => "gauge"@,
            MetricType::Histogram => "histogram"@,
        }
    }

    /// Canonical lowercase identifier (`counter|gauge|histogram`).
    #[must_use]
    pub fn as_str(self) -> (r: &'static str)
        ensures
            r@ == self.name(),
    {
        match self {
            MetricType::Counter => "counter",
            MetricType::Gauge => "gauge",
            MetricType::Histogram => "histogram",
        }
    }

    /// The flavour with the given identifier.
    pub fn from_name(s: &str) -> (r: Result<MetricType, Error>)
        ensures
            match r {
                Ok(t) => s@ == t.name(),
                Err(e) => {
                    &&& forall|t: MetricType| s@ != #[trigger] t.name()
                    &&& e matches Error::InvalidConfig(m) && m@ == "unknown metric type `"@ + s@
                        + "`, expected counter|gauge|histogram"@
                },
            },
    {
        if same_text(s, "counter") {
            Ok(MetricType::Counter)
        } else if same_text(s, "gauge") {
            Ok(MetricType::Gauge)
        } else if same_text(s, "histogram") {
            Ok(MetricType::Histogram)
        } else {
            let mut m = "unknown metric type `".to_owned();
            m.append(s);
            m.append("`, expected counter|gauge|histogram");
            Err(Error::InvalidConfig(m))
        }
    }
}

impl std::str::FromStr for MetricType {
    type Err = Error;

    fn from_str(s: &str) -> (r: Result<MetricType, Error>)
        ensures
            match r {
                Ok(t) => s@ == t.name(),
                Err(e) => {
                    &&& forall|t: MetricType| s@ != #[trigger] t.name()
                    &&& e matches Error::InvalidConfig(m) && m@ == "unknown metric type `"@ + s@
                        + "`, expected counter|gauge|histogram"@
                },
            },
    {
        MetricType::from_name(s)
    }
}

/// No two flavours share an identifier, so the identifier of a flavour leads
/// back to it and to no other.
pub proof fn law_type_name_round_trip(a: MetricType, b: MetricType)
    ensures
        a.name() == b.name() ==> a == b,
{
    reveal_strlit("counter");
    reveal_strlit("gauge");
    reveal_strlit("histogram");
    assert("counter"@.len() == 7);
    assert("gauge"@.len() == 5);
    assert("histogram"@.len() == 9);
}

/// A point in time, as its distance from the Unix epoch.
#[derive(Debug, Clone, Copy)]
pub struct Timestamp {
    /// Whether the point lies before the epoch.
    pub before_epoch: bool,
    /// Whole seconds between the epoch and the point.
    pub secs: u64,
    /// Nanoseconds on top of the whole seconds.
    pub nanos: u32,
}

/// Reads the system clock with `std::time::SystemTime::now`, as the distance
/// from the Unix epoch. Of the moment itself nothing is said; the part below
/// one second is documented to stay below a thousand million nanoseconds.
#[verifier::external_body]
pub(crate) fn system_now() -> (r: Timestamp)
    ensures
        r.nanos < 1_000_000_000,
{
    match std::time::SystemTime::now().duration_since(std::time::UNIX_EPOCH) {
        Ok(d) => Timestamp { before_epoch: false, secs: d.as_secs(), nanos: d.subsec_nanos() },
        Err(e) => Timestamp {
            before_epoch: true,
            secs: e.duration().as_secs(),
            nanos: e.duration().subsec_nanos(),
        },
    }
}

/// Whether a point in time is one that the system clock can have shown.
pub closed spec fn clock_read(t: Timestamp) -> bool {
    call_ensures(system_now, (), t)
}

/// A single metric observation with a sample of type `V`.
#[derive(Debug, Clone)]
pub struct MetricEntry<V> {
    /// Capture time.
    pub timestamp: Timestamp,
    /// Sanitized Prometheus-compatible metric name.
    pub name: String,
    /// Sample value.
    pub value: V,
    /// Flavour selecting the Prometheus collector.
    pub metric_type: MetricType,
    /// Ordered `(key, value)` label pairs, sanitized and truncated.
    pub labels: Vec<(String, String)>,
}

impl<V> MetricEntry<V> {
    /// Builds an entry stamped with the current time.
    #[must_use]
    pub fn new(name: &str, value: V, metric_type: MetricType, labels: Vec<(String, String)>) -> (r:
        Self)
        ensures
            clock_read(r.timestamp),
            r.timestamp.nanos < 1_000_000_000,
            r.name@ == sanitized(name@),
            r.value == value,
            r.metric_type == metric_type,
            label_views(r.labels@) == sanitized_labels(label_views(labels@)),
    {
        let now = system_now();
        MetricEntry::at(now, name, value, metric_type, labels)
    }

    /// Builds an entry stamped with the given time, sanitizing name and
    /// labels.
    #[must_use]
    pub fn at(
        timestamp: Timestamp,
        name: &str,
        value: V,
        metric_type: MetricType,
        labels: Vec<(String, String)>,
    ) -> (r: Self)
        ensures
            r.timestamp == timestamp,
            r.name@ == sanitized(name@),
            r.value == value,
            r.metric_type == metric_type,
            label_views(r.labels@) == sanitized_labels(label_views(labels@)),
    {
        MetricEntry {
            timestamp,
            name: sanitize_metric_name(name),
            value,
            metric_type,
            labels: sanitize_labels(labels),
        }
    }
}

/// Pipeline message: an observation, or the request to flush and stop.
#[derive(Debug)]
pub enum PipelineMsg<V> {
    /// One observation.
    Metric(MetricEntry<V>),
    /// Flush and stop.
    Shutdown,
}

/// A character allowed in a metric name, at its start or later on.
pub open spec fn name_char(c: char, first: bool) -> bool {
    ||| crate::text::is_alpha(c)
    ||| c == '_'
    ||| c == ':'
    ||| !first && crate::text::is_digit(c)
}

/// A metric name of the form `[a-zA-Z_:][a-zA-Z0-9_:]*`.
pub open spec fn valid_name(s: Seq<char>) -> bool {
    &&& s.len() > 0
    &&& forall|i: int| 0 <= i < s.len() ==> name_char(#[trigger] s[i], i == 0)
}

/// A metric name with each character that is not allowed replaced by an
/// underscore; the empty name becomes `_unnamed`.
pub open spec fn sanitized(s: Seq<char>) -> Seq<char> {
    if s.len() == 0 {
        "_unnamed"@
    } else {
        Seq::new(
            s.len(),
            |i: int|
                if name_char(s[i], i == 0) {
                    s[i]
                } else {
                    '_'
                },
        )
    }
}

/// Label pairs as texts.
pub open spec fn label_views(labels: Seq<(String, String)>) -> Seq<(Seq<char>, Seq<char>)> {
    labels.map_values(|pair: (String, String)| (pair.0@, pair.1@))
}

/// Whether a label pair has a key at all.
pub open spec fn has_key(pair: (Seq<char>, Seq<char>)) -> bool {
    crate::text::trim(pair.0).len() > 0
}

/// A label pair with its key trimmed, sanitized and truncated and its value
/// truncated.
pub open spec fn clean_pair(pair: (Seq<char>, Seq<char>)) -> (Seq<char>, Seq<char>) {
    (
        crate::text::first_chars(sanitized(crate::text::trim(pair.0)), MAX_KEY as nat),
        crate::text::first_chars(pair.1, MAX_VAL as nat),
    )
}

/// The label pairs that have a key, cleaned, in order.
pub open spec fn clean_pairs(labels: Seq<(Seq<char>, Seq<char>)>) -> Seq<(Seq<char>, Seq<char>)>
    decreases labels.len(),
{
    if labels.len() == 0 {
        Seq::empty()
    } else {
        let before = clean_pairs(labels.drop_last());
        if has_key(labels.last()) {
            before.push(clean_pair(labels.last()))
        } else {
            before
        }
    }
}

/// The first of the clean label pairs, as many as one observation keeps.
pub open spec fn sanitized_labels(labels: Seq<(Seq<char>, Seq<char>)>) -> Seq<
    (Seq<char>, Seq<char>),
> {
    let all = clean_pairs(labels);
    if all.len() > MAX_PAIRS {
        all.take(MAX_PAIRS as int)
    } else {
        all
    }
}

/// Label pairs within every limit: few pairs, keys that are valid names of
/// bounded length, values of bounded length.
pub open spec fn labels_bounded(labels: Seq<(Seq<char>, Seq<char>)>) -> bool {
    &&& labels.len() <= MAX_PAIRS
    &&& forall|i: int|
        0 <= i < labels.len() ==> {
            &&& valid_name((#[trigger] labels[i]).0)
            &&& labels[i].0.len() <= MAX_KEY
            &&& labels[i].1.len() <= MAX_VAL
        }
}

/// A sanitized name has the form that Prometheus asks for, and a name that
/// has it already is left alone.
pub proof fn law_sanitized_name_is_valid(s: Seq<char>)
    ensures
        valid_name(sanitized(s)),
        valid_name(s) ==> sanitized(s) == s,
        sanitized(sanitized(s)) == sanitized(s),
{
    reveal_strlit("_unnamed");
    assert(valid_name(sanitized(s)));
    assert(valid_name(s) ==> sanitized(s) =~= s);
    assert(sanitized(sanitized(s)) =~= sanitized(s));
}

proof fn lemma_clean_pair(pair: (Seq<char>, Seq<char>))
    requires
        has_key(pair),
    ensures
        valid_name(clean_pair(pair).0),
        clean_pair(pair).0.len() <= MAX_KEY,
        clean_pair(pair).1.len() <= MAX_VAL,
{
    law_sanitized_name_is_valid(crate::text::trim(pair.0));
}

proof fn lemma_clean_pair_fixed(pair: (Seq<char>, Seq<char>))
    requires
        valid_name(pair.0),
        pair.0.len() <= MAX_KEY,
        pair.1.len() <= MAX_VAL,
    ensures
        has_key(pair),
        clean_pair(pair) == pair,
{
    assert(!crate::text::is_white(pair.0[0]));
    assert(!crate::text::is_white(pair.0[pair.0.len() - 1]));
    crate::text::lemma_trim_fixed(pair.0);
    law_sanitized_name_is_valid(pair.0);
}

proof fn lemma_clean_pairs_bounded(labels: Seq<(Seq<char>, Seq<char>)>)
    ensures
        forall|i: int|
            0 <= i < clean_pairs(labels).len() ==> {
                &&& valid_name((#[trigger] clean_pairs(labels)[i]).0)
                &&& clean_pairs(labels)[i].0.len() <= MAX_KEY
                &&& clean_pairs(labels)[i].1.len() <= MAX_VAL
            },
    decreases labels.len(),
{
    if labels.len() > 0 {
        let before = clean_pairs(labels.drop_last());
        lemma_clean_pairs_bounded(labels.drop_last());
        if has_key(labels.last()) {
            lemma_clean_pair(labels.last());
            assert forall|i: int| 0 <= i < before.len() + 1 implies {
                &&& valid_name((#[trigger] clean_pairs(labels)[i]).0)
                &&& clean_pairs(labels)[i].0.len() <= MAX_KEY
                &&& clean_pairs(labels)[i].1.len() <= MAX_VAL
            } by {
                if i < before.len() {
                    assert(clean_pairs(labels)[i] == before[i]);
                }
            }
        }
    }
}

proof fn lemma_clean_pairs_fixed(labels: Seq<(Seq<char>, Seq<char>)>)
    requires
        forall|i: int|
            0 <= i < labels.len() ==> {
                &&& valid_name((#[trigger] labels[i]).0)
                &&& labels[i].0.len() <= MAX_KEY
                &&& labels[i].1.len() <= MAX_VAL
            },
    ensures
        clean_pairs(labels) == labels,
    decreases labels.len(),
{
    if labels.len() > 0 {
        assert forall|i: int| 0 <= i < labels.len() - 1 implies {
            &&& valid_name((#[trigger] labels.drop_last()[i]).0)
            &&& labels.drop_last()[i].0.len() <= MAX_KEY
            &&& labels.drop_last()[i].1.len() <= MAX_VAL
        } by {
            assert(labels.drop_last()[i] == labels[i]);
        }
        lemma_clean_pairs_fixed(labels.drop_last());
        lemma_clean_pair_fixed(labels.last());
        assert(clean_pairs(labels) =~= labels);
    }
}

/// Sanitized labels keep within every limit, and labels that keep within
/// them already are left alone; sanitizing twice is sanitizing once.
pub proof fn law_sanitized_labels_are_bounded(labels: Seq<(Seq<char>, Seq<char>)>)
    ensures
        labels_bounded(sanitized_labels(labels)),
        labels_bounded(labels) ==> sanitized_labels(labels) == labels,
        sanitized_labels(sanitized_labels(labels)) == sanitized_labels(labels),
{
    lemma_clean_pairs_bounded(labels);
    if labels_bounded(labels) {
        lemma_clean_pairs_fixed(labels);
    }
    lemma_clean_pairs_fixed(sanitized_labels(labels));
}

fn ok_in_name(c: char, first: bool) -> (r: bool)
    ensures
        r == name_char(c, first),
{
    ('a' <= c && c <= 'z') || ('A' <= c && c <= 'Z') || c == '_' || c == ':' || (!first && '0' <= c
        && c <= '9')
}

fn sanitize_range(chars: &Vec<char>, from: usize, to: usize) -> (r: String)
    requires
        from <= to <= chars@.len(),
    ensures
        r@ == sanitized(chars@.subrange(from as int, to as int)),
{
    if from == to {
        return "_unnamed".to_owned();
    }
    let ghost part = chars@.subrange(from as int, to as int);
    let mut out = String::new();
    let mut i: usize = from;
    while i < to
        invariant
            from <= i <= to <= chars@.len(),
            part == chars@.subrange(from as int, to as int),
            from < to,
            out@ == sanitized(part).take(i - from),
        decreases to - i,
    {
        let c = chars[i];
        if ok_in_name(c, i == from) {
            out.push(c);
        } else {
            out.push('_');
        }
        i = i + 1;
        assert(part[i - from - 1] == c);
        assert(out@ =~= sanitized(part).take(i - from));
    }
    assert(sanitized(part).take(to - from) =~= sanitized(part));
    out
}

/// Replaces each character that a Prometheus metric name may not hold by an
/// underscore; the empty name becomes `_unnamed`.
#[must_use]
pub fn sanitize_metric_name(name: &str) -> (r: String)
    ensures
        r@ == sanitized(name@),
{
    let chars = chars_of(name);
    assert(chars@.subrange(0, chars@.len() as int) == chars@);
    sanitize_range(&chars, 0, chars.len())
}

fn sanitize_pair(pair: &(String, String)) -> (r: Option<(String, String)>)
    ensures
        match r {
            Some(p) => has_key((pair.0@, pair.1@)) && (p.0@, p.1@) == clean_pair(
                (pair.0@, pair.1@),
            ),
            None => !has_key((pair.0@, pair.1@)),
        },
{
    let chars = chars_of(pair.0.as_str());
    let (from, to) = trim_bounds(&chars);
    if from == to {
        return None;
    }
    let key = sanitize_range(&chars, from, to);
    Some((truncated(key.as_str(), MAX_KEY), truncated(pair.1.as_str(), MAX_VAL)))
}

/// Sanitizes label keys like metric names, truncates keys and values, drops
/// pairs without a key and keeps the first sixteen, which bounds the memory
/// of one observation.
#[must_use]
pub fn sanitize_labels(labels: Vec<(String, String)>) -> (r: Vec<(String, String)>)
    ensures
        label_views(r@) == sanitized_labels(label_views(labels@)),
{
    let ghost views = label_views(labels@);
    let mut out: Vec<(String, String)> = Vec::new();
    let mut i: usize = 0;
    while i < labels.len() && out.len() < MAX_PAIRS
        invariant
            i <= labels@.len(),
            out@.len() <= MAX_PAIRS,
            views == label_views(labels@),
            label_views(out@) == clean_pairs(views.take(i as int)),
        decreases labels@.len() - i,
    {
        let ghost before = out@;
        match sanitize_pair(&labels[i]) {
            Some(p) => {
                out.push(p);
                assert(label_views(out@) =~= label_views(before).push((p.0@, p.1@)));
            },
            None => {},
        }
        assert(views.take(i + 1).drop_last() =~= views.take(i as int));
        assert(views.take(i + 1).last() == views[i as int]);
        i = i + 1;
    }
    proof {
        lemma_clean_pairs_grow(views, i as int);
        assert(views.take(views.len() as int) =~= views);
        assert(label_views(out@).len() == out@.len());
        if i < views.len() {
            assert(sanitized_labels(views) =~= clean_pairs(views.take(i as int)));
        }
    }
    out
}

proof fn lemma_clean_pairs_grow(labels: Seq<(Seq<char>, Seq<char>)>, n: int)
    requires
        0 <= n <= labels.len(),
    ensures
        clean_pairs(labels.take(n)).len() <= clean_pairs(labels).len(),
        clean_pairs(labels.take(n)) == clean_pairs(labels).take(
            clean_pairs(labels.take(n)).len() as int,
        ),
    decreases labels.len() - n,
{
    if n < labels.len() {
        lemma_clean_pairs_grow(labels, n + 1);
        assert(labels.take(n + 1).drop_last() =~= labels.take(n));
        let a = clean_pairs(labels.take(n));
        let b = clean_pairs(labels.take(n + 1));
        assert(b.take(a.len() as int) =~= a);
        assert(clean_pairs(labels).take(a.len() as int) =~= clean_pairs(labels).take(
            b.len() as int,
        ).take(a.len() as int));
    } else {
        assert(labels.take(n) =~= labels);
        assert(clean_pairs(labels).take(clean_pairs(labels).len() as int) =~= clean_pairs(labels));
    }
}

/// Splits label pairs into keys and values, preserving their order.
#[must_use]
pub fn label_names_and_values(labels: &[(String, String)]) -> (r: (Vec<String>, Vec<String>))
    ensures
        r.0@.len() == labels@.len(),
        r.1@.len() == labels@.len(),
        forall|i: int| 0 <= i < labels@.len() ==> (#[trigger] r.0@[i])@ == labels@[i].0@,
        forall|i: int| 0 <= i < labels@.len() ==> (#[trigger] r.1@[i])@ == labels@[i].1@,
{
    let mut names: Vec<String> = Vec::new();
    let mut values: Vec<String> = Vec::new();
    let mut i: usize = 0;
    while i < labels.len()
        invariant
            i <= labels@.len(),
            names@.len() == i,
            values@.len() == i,
            forall|j: int| 0 <= j < i ==> (#[trigger] names@[j])@ == labels@[j].0@,
            forall|j: int| 0 <= j < i ==> (#[trigger] values@[j])@ == labels@[j].1@,
        decreases labels@.len() - i,
    {
        names.push(labels[i].0.clone());
        values.push(labels[i].1.clone());
        i = i + 1;
    }
    (names, values)
}

/// A sanitized name keeps every character that a name may hold, in its place,
/// and has an underscore in the place of every other; only the empty name is
/// replaced as a whole.
pub proof fn law_sanitizing_goes_by_character(s: Seq<char>, i: int)
    ensures
        s.len() == 0 ==> sanitized(s) == "_unnamed"@,
        s.len() > 0 ==> sanitized(s).len() == s.len(),
        0 <= i < s.len() ==> {
            let c = s[i];
            let allowed = ('a' <= c <= 'z') || ('A' <= c <= 'Z') || c == '_' || c == ':' || (i > 0
                && '0' <= c <= '9');
            sanitized(s)[i] == if allowed {
                s[i]
            } else {
                '_'
            }
        },
{
}

/// Labels are sanitized one by one and in order: a further pair is added where
/// it has a key and there were less than sixteen, its key trimmed, sanitized
/// and cut to 128 characters, its value cut to 256; otherwise it changes
/// nothing.
pub proof fn law_labels_are_sanitized_one_by_one(
    labels: Seq<(Seq<char>, Seq<char>)>,
    pair: (Seq<char>, Seq<char>),
)
    ensures
        sanitized_labels(Seq::empty()) == Seq::<(Seq<char>, Seq<char>)>::empty(),
        sanitized_labels(labels.push(pair)) == (if crate::text::trim(pair.0).len() > 0
            && sanitized_labels(labels).len() < 16 {
            sanitized_labels(labels).push(
                (
                    crate::text::first_chars(sanitized(crate::text::trim(pair.0)), 128),
                    crate::text::first_chars(pair.1, 256),
                ),
            )
        } else {
            sanitized_labels(labels)
        }),
{
    assert(labels.push(pair).drop_last() =~= labels);
    assert(clean_pairs(Seq::empty()) =~= Seq::<(Seq<char>, Seq<char>)>::empty());
    let all = clean_pairs(labels);
    let next = clean_pairs(labels.push(pair));
    if all.len() >= 16 {
        assert(next.take(16) =~= all.take(16));
        assert(all.take(16) =~= sanitized_labels(labels));
    }
}

/// The identifiers of the flavours.
pub proof fn law_type_names(t: MetricType)
    ensures
        t is Counter ==> t.name() == "counter"@,
        t is Gauge ==> t.name() == "gauge"@,
        t is Histogram ==> t.name() == "histogram"@,
{
}

/// Labels are viewed pair by pair.
pub proof fn law_label_views_go_by_pair(labels: Seq<(String, String)>, i: int)
    requires
        0 <= i < labels.len(),
    ensures
        label_views(labels).len() == labels.len(),
        label_views(labels)[i] == (labels[i].0@, labels[i].1@),
{
}

} // verus!
