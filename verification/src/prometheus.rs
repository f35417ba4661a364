//! In-memory Prometheus registry: which collector an observation goes to.
//!
//! * One private registry per [`PromRegistry`], never the global default.
//! * A collector is created with the label keys of the first observation.
//!   Later observations under the same name must have the same keys, in any
//!   order; others are rejected, since Prometheus requires consistent label
//!   names per metric.

use crate::error::Error;
use crate::text::same_text;
use crate::types::{label_names_and_values, MetricEntry, MetricType};
use vstd::prelude::*;
use vstd::utf8::*;

verus! {

/// The name of the counter of dropped samples.
pub const DROPPED_TOTAL: &'static str = "tonggeret_dropped_total";

/// The help text of the counter of dropped samples.
pub const DROPPED_HELP: &'static str =
    "Total metric samples dropped because the Fjall channel was full";

/// A registry of `prometheus`. What is registered in it is shared with every
/// clone of it; only what was registered through this handle is spoken of.
#[verifier::external_type_specification]
#[verifier::external_body]
pub struct ExRegistry(prometheus::Registry);

/// A metric family of `prometheus`, as gathered from a registry.
#[verifier::external_type_specification]
#[verifier::external_body]
pub struct ExMetricFamily(prometheus::proto::MetricFamily);

/// Histogram options of `prometheus`, which carry the bucket bounds.
#[verifier::external_type_specification]
#[verifier::external_body]
pub struct ExHistogramOpts(prometheus::HistogramOpts);

/// What a collector is made with: name, help text and label keys.
pub ghost struct Description {
    pub name: Seq<char>,
    pub help: Seq<char>,
    pub keys: Seq<Seq<char>>,
}

/// Counters of one name, by label values: a `prometheus::CounterVec`.
#[verifier::external_body]
#[derive(Debug)]
pub struct CounterFamily {
    /// The counters.
    pub vec: prometheus::CounterVec,
}

/// Gauges of one name, by label values: a `prometheus::GaugeVec`.
#[verifier::external_body]
#[derive(Debug)]
pub struct GaugeFamily {
    /// The gauges.
    pub vec: prometheus::GaugeVec,
}

/// Histograms of one name, by label values: a `prometheus::HistogramVec`.
#[verifier::external_body]
#[derive(Debug)]
pub struct HistogramFamily {
    /// The histograms.
    pub vec: prometheus::HistogramVec,
}

/// What a counter family was made with.
pub uninterp spec fn counter_description(f: CounterFamily) -> Description;

/// What a gauge family was made with.
pub uninterp spec fn gauge_description(f: GaugeFamily) -> Description;

/// What a histogram family was made with, beside its bucket bounds.
pub uninterp spec fn histogram_description(f: HistogramFamily) -> Description;

/// The bucket bounds of a histogram family, as bit patterns.
pub uninterp spec fn histogram_bounds(f: HistogramFamily) -> Seq<u64>;

/// The bucket bounds that histogram options carry, as bit patterns.
pub uninterp spec fn option_bounds(opts: prometheus::HistogramOpts) -> Seq<u64>;

/// A collector of any flavour.
pub ghost enum Collector {
    Counter(CounterFamily),
    Gauge(GaugeFamily),
    Histogram(HistogramFamily),
}

/// One collector that was to be registered, and the outcome.
pub ghost struct Registration {
    pub collector: Collector,
    pub outcome: Result<(), String>,
}

/// What was registered through a handle to a registry so far, in order.
pub uninterp spec fn registrations(registry: prometheus::Registry) -> Seq<Registration>;

/// The type of a gathered family.
#[derive(Debug, Clone, Copy, PartialEq, Eq, Structural)]
pub enum FamilyType {
    /// Counters.
    Counter,
    /// Gauges.
    Gauge,
    /// Summaries.
    Summary,
    /// No type at all.
    Untyped,
    /// Histograms.
    Histogram,
}

/// The type of a family.
pub uninterp spec fn family_type(f: prometheus::proto::MetricFamily) -> FamilyType;

/// Families in the text exposition format, or the text of the error.
pub uninterp spec fn exposition(families: Seq<prometheus::proto::MetricFamily>) -> Result<
    Seq<u8>,
    Seq<char>,
>;

/// Whether each family has a type.
pub open spec fn all_typed(families: Seq<prometheus::proto::MetricFamily>) -> bool {
    forall|i: int| 0 <= i < families.len() ==> family_type(#[trigger] families[i])
        != FamilyType::Untyped
}

/// A label name of the form `[a-zA-Z_][a-zA-Z0-9_]*`.
pub open spec fn valid_label(s: Seq<char>) -> bool {
    &&& crate::types::valid_name(s)
    &&& forall|i: int| 0 <= i < s.len() ==> #[trigger] s[i] != ':'
}

/// Whether Prometheus accepts a description: a help text, a valid name, and
/// label keys that are valid and pairwise different.
pub open spec fn acceptable(d: Description) -> bool {
    &&& d.help.len() > 0
    &&& crate::types::valid_name(d.name)
    &&& forall|i: int| 0 <= i < d.keys.len() ==> valid_label(#[trigger] d.keys[i])
    &&& d.keys.no_duplicates()
}

/// Texts of a list.
pub open spec fn texts(v: Seq<String>) -> Seq<Seq<char>> {
    v.map_values(|s: String| s@)
}

/// `prometheus::CounterVec::new`: a family with the given name, help text and
/// label keys, exactly when they are acceptable; else the text of the error.
#[verifier::external_body]
fn new_counters(name: &str, help: &str, keys: &Vec<String>) -> (r: Result<CounterFamily, String>)
    ensures
        (r is Ok) == acceptable(Description { name: name@, help: help@, keys: texts(keys@) }),
        r matches Ok(f) ==> counter_description(f) == (Description {
            name: name@,
            help: help@,
            keys: texts(keys@),
        }),
{
    let refs: Vec<&str> = keys.iter().map(String::as_str).collect();
    match prometheus::CounterVec::new(prometheus::Opts::new(name, help), &refs) {
        Ok(vec) => Ok(CounterFamily { vec }),
        Err(e) => Err(e.to_string()),
    }
}

/// `prometheus::GaugeVec::new`: a family with the given name, help text and
/// label keys, exactly when they are acceptable; else the text of the error.
#[verifier::external_body]
fn new_gauges(name: &str, help: &str, keys: &Vec<String>) -> (r: Result<GaugeFamily, String>)
    ensures
        (r is Ok) == acceptable(Description { name: name@, help: help@, keys: texts(keys@) }),
        r matches Ok(f) ==> gauge_description(f) == (Description {
            name: name@,
            help: help@,
            keys: texts(keys@),
        }),
{
    let refs: Vec<&str> = keys.iter().map(String::as_str).collect();
    match prometheus::GaugeVec::new(prometheus::Opts::new(name, help), &refs) {
        Ok(vec) => Ok(GaugeFamily { vec }),
        Err(e) => Err(e.to_string()),
    }
}

/// `prometheus::HistogramVec::new`: a family with the given name, help text
/// and label keys and with the bucket bounds of the options, exactly when
/// name, help text and keys are acceptable; else the text of the error.
#[verifier::external_body]
fn new_histograms(
    bounds: &prometheus::HistogramOpts,
    name: &str,
    help: &str,
    keys: &Vec<String>,
) -> (r: Result<HistogramFamily, String>)
    ensures
        (r is Ok) == acceptable(Description { name: name@, help: help@, keys: texts(keys@) }),
        r matches Ok(f) ==> histogram_description(f) == (Description {
            name: name@,
            help: help@,
            keys: texts(keys@),
        }) && histogram_bounds(f) == option_bounds(*bounds),
{
    let refs: Vec<&str> = keys.iter().map(String::as_str).collect();
    let opts = prometheus::HistogramOpts::new(name, help).buckets(bounds.buckets.clone());
    match prometheus::HistogramVec::new(opts, &refs) {
        Ok(vec) => Ok(HistogramFamily { vec }),
        Err(e) => Err(e.to_string()),
    }
}

/// Cloning a `prometheus::CounterVec` gives a handle to the same family.
#[verifier::external_body]
fn share_counters(f: &CounterFamily) -> (r: CounterFamily)
    ensures
        r == *f,
{
    CounterFamily { vec: f.vec.clone() }
}

/// Cloning a `prometheus::GaugeVec` gives a handle to the same family.
#[verifier::external_body]
fn share_gauges(f: &GaugeFamily) -> (r: GaugeFamily)
    ensures
        r == *f,
{
    GaugeFamily { vec: f.vec.clone() }
}

/// Cloning a `prometheus::HistogramVec` gives a handle to the same family.
#[verifier::external_body]
fn share_histograms(f: &HistogramFamily) -> (r: HistogramFamily)
    ensures
        r == *f,
{
    HistogramFamily { vec: f.vec.clone() }
}

/// `prometheus::Registry::new` and `prometheus::Registry::register`: a registry
/// of its own in which one counter family is registered. A registry refuses
/// only what agrees with something registered before, so a new one accepts the
/// family.
#[verifier::external_body]
fn registry_with(f: &CounterFamily) -> (r: Result<prometheus::Registry, String>)
    ensures
        r is Ok,
        registrations(r.unwrap()) == seq![
            Registration { collector: Collector::Counter(*f), outcome: Ok(()) },
        ],
{
    let registry = prometheus::Registry::new();
    match registry.register(Box::new(f.vec.clone())) {
        Ok(()) => Ok(registry),
        Err(e) => Err(e.to_string()),
    }
}

/// `prometheus::Registry::register` for a counter family. Whether it is
/// accepted depends on what every holder of the registry registered; whatever
/// the outcome, it is the next registration through this handle.
#[verifier::external_body]
fn register_counters(registry: &mut prometheus::Registry, f: &CounterFamily) -> (r: Result<
    (),
    String,
>)
    ensures
        registrations(*final(registry)) == registrations(*old(registry)).push(
            Registration { collector: Collector::Counter(*f), outcome: r },
        ),
{
    registry.register(Box::new(f.vec.clone())).map_err(|e| e.to_string())
}

/// `prometheus::Registry::register` for a gauge family. Whether it is
/// accepted depends on what every holder of the registry registered; whatever
/// the outcome, it is the next registration through this handle.
#[verifier::external_body]
fn register_gauges(registry: &mut prometheus::Registry, f: &GaugeFamily) -> (r: Result<(), String>)
    ensures
        registrations(*final(registry)) == registrations(*old(registry)).push(
            Registration { collector: Collector::Gauge(*f), outcome: r },
        ),
{
    registry.register(Box::new(f.vec.clone())).map_err(|e| e.to_string())
}

/// `prometheus::Registry::register` for a histogram family. Whether it is
/// accepted depends on what every holder of the registry registered; whatever
/// the outcome, it is the next registration through this handle.
#[verifier::external_body]
fn register_histograms(registry: &mut prometheus::Registry, f: &HistogramFamily) -> (r: Result<
    (),
    String,
>)
    ensures
        registrations(*final(registry)) == registrations(*old(registry)).push(
            Registration { collector: Collector::Histogram(*f), outcome: r },
        ),
{
    registry.register(Box::new(f.vec.clone())).map_err(|e| e.to_string())
}

/// `prometheus::CounterVec::with_label_values` without values: makes the one
/// counter of a family without label keys, so that it is rendered from the
/// start. The call panics on a family with label keys.
#[verifier::external_body]
fn seed_counter(f: &CounterFamily)
    requires
        counter_description(*f).keys.len() == 0,
{
    let _ = f.vec.with_label_values::<&str>(&[]);
}

/// `prometheus::Counter::inc` on the one counter of a family without label
/// keys.
#[verifier::external_body]
fn increment_counter(f: &CounterFamily)
    requires
        counter_description(*f).keys.len() == 0,
{
    f.vec.with_label_values::<&str>(&[]).inc();
}

/// `prometheus::Registry::gather`: the families of the registered collectors.
/// They depend on what was recorded and on what every holder of the registry
/// registered and unregistered by then, so nothing is said of them. Collectors
/// of the user's own run within the call.
#[verifier::external_body]
fn gather(registry: &prometheus::Registry) -> Vec<prometheus::proto::MetricFamily> {
    registry.gather()
}

/// `prometheus::proto::MetricFamily::get_field_type`: the type of a family.
#[verifier::external_body]
fn type_of(f: &prometheus::proto::MetricFamily) -> (r: FamilyType)
    ensures
        r == family_type(*f),
{
    match f.get_field_type() {
        prometheus::proto::MetricType::COUNTER => FamilyType::Counter,
        prometheus::proto::MetricType::GAUGE => FamilyType::Gauge,
        prometheus::proto::MetricType::SUMMARY => FamilyType::Summary,
        prometheus::proto::MetricType::UNTYPED => FamilyType::Untyped,
        prometheus::proto::MetricType::HISTOGRAM => FamilyType::Histogram,
    }
}

/// `prometheus::TextEncoder::encode`: families in the text exposition format,
/// or the text of the error, which depends on the families alone. The call
/// panics on an untyped family.
#[verifier::external_body]
fn encode_families(families: &[prometheus::proto::MetricFamily]) -> (r: Result<Vec<u8>, String>)
    requires
        all_typed(families@),
    ensures
        match r {
            Ok(bytes) => exposition(families@) == Ok::<Seq<u8>, Seq<char>>(bytes@),
            Err(text) => exposition(families@) == Err::<Seq<u8>, Seq<char>>(text@),
        },
{
    let mut buf = Vec::new();
    match prometheus::Encoder::encode(&prometheus::TextEncoder::new(), families, &mut buf) {
        Ok(()) => Ok(buf),
        Err(e) => Err(e.to_string()),
    }
}

/// `String::from_utf8`: the text, exactly when the bytes are valid UTF-8;
/// else the text of the error, of which nothing is said.
#[verifier::external_body]
fn utf8_string(bytes: Vec<u8>) -> (r: Result<String, String>)
    ensures
        (r is Ok) == valid_utf8(bytes@),
        r matches Ok(s) ==> s@ == decode_utf8(bytes@),
{
    String::from_utf8(bytes).map_err(|e| e.to_string())
}

// ---------------------------------------------------------------------------
// Tables
// ---------------------------------------------------------------------------

struct FamilyEntry<F> {
    name: String,
    keys: Vec<String>,
    family: F,
}

struct FamilyTable<F> {
    entries: Vec<FamilyEntry<F>>,
}

/// What a table says of a name and label keys.
enum Slot {
    /// The name is not in the table.
    Absent,
    /// The name is there with other label keys.
    Mismatch,
    /// The entry with that name and these label keys.
    Match(usize),
}

spec fn known_keys<F>(entries: Seq<FamilyEntry<F>>) -> Map<Seq<char>, Seq<Seq<char>>>
    decreases entries.len(),
{
    if entries.len() == 0 {
        Map::empty()
    } else {
        known_keys(entries.drop_last()).insert(
            entries.last().name@,
            texts(entries.last().keys@),
        )
    }
}

spec fn known_families<F>(entries: Seq<FamilyEntry<F>>) -> Map<Seq<char>, F>
    decreases entries.len(),
{
    if entries.len() == 0 {
        Map::empty()
    } else {
        known_families(entries.drop_last()).insert(entries.last().name@, entries.last().family)
    }
}

/// Whether two lists hold the same label keys, in whatever order. Neither
/// repeats a key where one of them does not.
pub open spec fn same_keys(a: Seq<Seq<char>>, b: Seq<Seq<char>>) -> bool {
    a.len() == b.len() && a.to_set() == b.to_set()
}

proof fn lemma_same_keys_distinct(a: Seq<Seq<char>>, b: Seq<Seq<char>>)
    requires
        same_keys(a, b),
        a.no_duplicates(),
    ensures
        b.no_duplicates(),
{
    a.unique_seq_to_set();
    b.lemma_no_dup_set_cardinality();
}

fn position(v: &Vec<String>, text: &str) -> (r: Option<usize>)
    ensures
        match r {
            Some(i) => i < v@.len() && v@[i as int]@ == text@,
            None => !texts(v@).contains(text@),
        },
{
    let mut i: usize = 0;
    while i < v.len()
        invariant
            i <= v@.len(),
            forall|j: int| 0 <= j < i ==> texts(v@)[j] != text@,
        decreases v@.len() - i,
    {
        if same_text(v[i].as_str(), text) {
            return Some(i);
        }
        i = i + 1;
    }
    None
}

fn all_within(a: &Vec<String>, b: &Vec<String>) -> (r: bool)
    ensures
        r == (forall|t: Seq<char>| #[trigger] texts(a@).contains(t) ==> texts(b@).contains(t)),
{
    let mut i: usize = 0;
    while i < a.len()
        invariant
            i <= a@.len(),
            forall|j: int| 0 <= j < i ==> texts(b@).contains(#[trigger] texts(a@)[j]),
        decreases a@.len() - i,
    {
        if position(b, a[i].as_str()).is_none() {
            assert(texts(a@)[i as int] == a@[i as int]@);
            assert(texts(a@).contains(a@[i as int]@));
            return false;
        }
        assert(texts(a@)[i as int] == a@[i as int]@);
        proof {
            let j = choose|j: int| 0 <= j < b@.len() && b@[j]@ == a@[i as int]@;
            assert(texts(b@)[j] == b@[j]@);
        }
        i = i + 1;
    }
    true
}

fn have_same_keys(a: &Vec<String>, b: &Vec<String>) -> (r: bool)
    ensures
        r == same_keys(texts(a@), texts(b@)),
{
    let ghost s = texts(a@);
    let ghost t = texts(b@);
    if a.len() != b.len() {
        return false;
    }
    let r = all_within(a, b) && all_within(b, a);
    proof {
        if r {
            assert(s.to_set() =~= t.to_set());
        } else if s.to_set() == t.to_set() {
            assert forall|x: Seq<char>| #[trigger] s.contains(x) implies t.contains(x) by {
                assert(s.to_set().contains(x));
                assert(t.to_set().contains(x));
            }
            assert forall|x: Seq<char>| #[trigger] t.contains(x) implies s.contains(x) by {
                assert(t.to_set().contains(x));
                assert(s.to_set().contains(x));
            }
        }
    }
    r
}

/// The values in the order of the known keys: each under the key that it came
/// with.
fn arrange(known: &Vec<String>, names: &Vec<String>, values: &Vec<String>) -> (r: Vec<String>)
    requires
        names@.len() == values@.len(),
        same_keys(texts(known@), texts(names@)),
        texts(known@).no_duplicates(),
    ensures
        r@.len() == known@.len(),
        forall|i: int, j: int|
            0 <= i < known@.len() && 0 <= j < names@.len() && known@[i]@ == names@[j]@ ==> (
            #[trigger] r@[i])@ == (#[trigger] values@[j])@,
{
    proof {
        lemma_same_keys_distinct(texts(known@), texts(names@));
    }
    let mut out: Vec<String> = Vec::new();
    let mut i: usize = 0;
    while i < known.len()
        invariant
            i <= known@.len(),
            out@.len() == i,
            names@.len() == values@.len(),
            same_keys(texts(known@), texts(names@)),
            texts(names@).no_duplicates(),
            forall|k: int, j: int|
                0 <= k < i && 0 <= j < names@.len() && known@[k]@ == names@[j]@ ==> (
                #[trigger] out@[k])@ == (#[trigger] values@[j])@,
        decreases known@.len() - i,
    {
        let key = known[i].as_str();
        match position(names, key) {
            Some(j) => {
                proof {
                    assert forall|l: int| 0 <= l < names@.len() && names@[l]@ == key@ implies l
                        == j by {
                        assert(texts(names@)[l] == texts(names@)[j as int]);
                    }
                }
                out.push(values[j].clone());
            },
            None => {
                proof {
                    assert(texts(known@)[i as int] == key@);
                    assert(texts(known@).to_set().contains(key@));
                    assert(texts(names@).to_set().contains(key@));
                    assert(false);
                }
            },
        }
        i = i + 1;
    }
    out
}

fn copy_texts(v: &Vec<String>) -> (r: Vec<String>)
    ensures
        texts(r@) == texts(v@),
{
    let mut out: Vec<String> = Vec::new();
    let mut i: usize = 0;
    while i < v.len()
        invariant
            i <= v@.len(),
            out@.len() == i,
            forall|j: int| 0 <= j < i ==> (#[trigger] out@[j])@ == v@[j]@,
        decreases v@.len() - i,
    {
        out.push(v[i].clone());
        i = i + 1;
    }
    assert(texts(out@) =~= texts(v@));
    out
}

impl<F> FamilyTable<F> {
    spec fn map(self) -> Map<Seq<char>, Seq<Seq<char>>> {
        known_keys(self.entries@)
    }

    spec fn families(self) -> Map<Seq<char>, F> {
        known_families(self.entries@)
    }

    fn new() -> (r: Self)
        ensures
            r.entries@.len() == 0,
            r.map() == Map::<Seq<char>, Seq<Seq<char>>>::empty(),
    {
        FamilyTable { entries: Vec::new() }
    }

    fn slot(&self, name: &str, keys: &Vec<String>) -> (r: Slot)
        ensures
            match r {
                Slot::Absent => !self.map().contains_key(name@),
                Slot::Mismatch => self.map().contains_key(name@) && !same_keys(
                    self.map()[name@],
                    texts(keys@),
                ),
                Slot::Match(i) => {
                    &&& self.map().contains_key(name@)
                    &&& same_keys(self.map()[name@], texts(keys@))
                    &&& i < self.entries@.len()
                    &&& texts(self.entries@[i as int].keys@) == self.map()[name@]
                    &&& self.entries@[i as int].family == self.families()[name@]
                },
            },
    {
        let mut i: usize = self.entries.len();
        assert(self.entries@.take(i as int) =~= self.entries@);
        while i > 0
            invariant
                i <= self.entries@.len(),
                self.map().contains_key(name@) == known_keys(
                    self.entries@.take(i as int),
                ).contains_key(name@),
                self.map().contains_key(name@) ==> self.map()[name@] == known_keys(
                    self.entries@.take(i as int),
                )[name@],
                self.map().contains_key(name@) ==> self.families()[name@] == known_families(
                    self.entries@.take(i as int),
                )[name@],
            decreases i,
        {
            assert(self.entries@.take(i as int).drop_last() =~= self.entries@.take(i - 1));
            let e = &self.entries[i - 1];
            if same_text(e.name.as_str(), name) {
                if have_same_keys(&e.keys, keys) {
                    return Slot::Match(i - 1);
                }
                return Slot::Mismatch;
            }
            i = i - 1;
        }
        Slot::Absent
    }

    /// The values of an observation in the order of the keys that a name is
    /// known with.
    fn arranged(&self, name: &str, names: &Vec<String>, values: &Vec<String>) -> (r: Vec<String>)
        requires
            names@.len() == values@.len(),
            self.map().contains_key(name@),
            self.map()[name@].no_duplicates(),
            same_keys(self.map()[name@], texts(names@)),
        ensures
            r@.len() == self.map()[name@].len(),
            forall|i: int, j: int|
                0 <= i < r@.len() && 0 <= j < names@.len() && self.map()[name@][i] == names@[j]@
                    ==> (#[trigger] r@[i])@ == (#[trigger] values@[j])@,
    {
        match self.slot(name, names) {
            Slot::Match(i) => {
                let known = &self.entries[i].keys;
                assert(forall|k: int|
                    0 <= k < known@.len() ==> #[trigger] texts(known@)[k] == known@[k]@);
                arrange(known, names, values)
            },
            _ => Vec::new(),
        }
    }

    fn enter(
        &mut self,
        name: &str,
        keys: &Vec<String>,
        family: F,
        registration: Result<(), String>,
    ) -> (r: bool)
        ensures
            r == (registration is Ok),
            !r ==> *final(self) == *old(self),
            r ==> {
                &&& final(self).map() == old(self).map().insert(name@, texts(keys@))
                &&& final(self).families() == old(self).families().insert(name@, family)
            },
    {
        match registration {
            Ok(_) => {
                let ghost before = self.entries@;
                self.entries.push(
                    FamilyEntry { name: name.to_owned(), keys: copy_texts(keys), family },
                );
                assert(self.entries@.drop_last() =~= before);
                true
            },
            Err(_) => false,
        }
    }
}

// ---------------------------------------------------------------------------
// Registry
// ---------------------------------------------------------------------------

/// What a registry knows: for each metric name of each flavour the label keys
/// of its collector.
pub ghost struct RegistryModel {
    pub counters: Map<Seq<char>, Seq<Seq<char>>>,
    pub gauges: Map<Seq<char>, Seq<Seq<char>>>,
    pub histograms: Map<Seq<char>, Seq<Seq<char>>>,
}

impl RegistryModel {
    /// The names of one flavour with their label keys.
    pub open spec fn of(self, kind: MetricType) -> Map<Seq<char>, Seq<Seq<char>>> {
        match kind {
            MetricType::Counter => self.counters,
            MetricType::Gauge => self.gauges,
            MetricType::Histogram => self.histograms,
        }
    }

    /// The registry with one more name of the given flavour.
    pub open spec fn with(self, kind: MetricType, name: Seq<char>, keys: Seq<Seq<char>>) -> Self {
        match kind {
            MetricType::Counter => RegistryModel {
                counters: self.counters.insert(name, keys),
                ..self
            },
            MetricType::Gauge => RegistryModel { gauges: self.gauges.insert(name, keys), ..self },
            MetricType::Histogram => RegistryModel {
                histograms: self.histograms.insert(name, keys),
                ..self
            },
        }
    }
}

/// What a collector of the given flavour, name and label keys is made with.
pub open spec fn description(
    kind: MetricType,
    name: Seq<char>,
    keys: Seq<Seq<char>>,
) -> Description {
    Description { name, help: "duckmetrics "@ + kind.name() + " "@ + name, keys }
}

impl Collector {
    /// The flavour of the collector.
    pub open spec fn kind(self) -> MetricType {
        match self {
            Collector::Counter(_) => MetricType::Counter,
            Collector::Gauge(_) => MetricType::Gauge,
            Collector::Histogram(_) => MetricType::Histogram,
        }
    }

    /// What the collector was made with.
    pub open spec fn made_with(self) -> Description {
        match self {
            Collector::Counter(f) => counter_description(f),
            Collector::Gauge(f) => gauge_description(f),
            Collector::Histogram(f) => histogram_description(f),
        }
    }

    /// Whether the collector was made for a name of its flavour and label
    /// keys, with the given bucket bounds where it is a histogram.
    pub open spec fn made_for(
        self,
        kind: MetricType,
        name: Seq<char>,
        keys: Seq<Seq<char>>,
        bounds: Seq<u64>,
    ) -> bool {
        &&& self.kind() == kind
        &&& self.made_with() == description(kind, name, keys)
        &&& self matches Collector::Histogram(f) ==> histogram_bounds(f) == bounds
    }
}

/// A counter family as a collector.
pub open spec fn counter_collector(f: Option<CounterFamily>) -> Option<Collector> {
    match f {
        Some(f) => Some(Collector::Counter(f)),
        None => None,
    }
}

/// A gauge family as a collector.
pub open spec fn gauge_collector(f: Option<GaugeFamily>) -> Option<Collector> {
    match f {
        Some(f) => Some(Collector::Gauge(f)),
        None => None,
    }
}

/// A histogram family as a collector.
pub open spec fn histogram_collector(f: Option<HistogramFamily>) -> Option<Collector> {
    match f {
        Some(f) => Some(Collector::Histogram(f)),
        None => None,
    }
}

/// Whether what happened to a registry in between is that a collector was
/// registered, with the given outcome.
pub open spec fn registers(
    before: prometheus::Registry,
    c: Collector,
    outcome: Result<(), String>,
    after: prometheus::Registry,
) -> bool {
    registrations(after) == registrations(before).push(Registration { collector: c, outcome })
}

/// Whether a collector was registered through a handle to a registry and
/// accepted.
pub open spec fn registered(registry: prometheus::Registry, c: Collector) -> bool {
    registrations(registry).contains(Registration { collector: c, outcome: Ok(()) })
}

/// Whether making the one counter of a family can return.
pub closed spec fn seeds(f: CounterFamily) -> bool {
    call_ensures(seed_counter, (&f,), ())
}

/// Whether incrementing the one counter of a family can return.
pub closed spec fn increments(f: CounterFamily) -> bool {
    call_ensures(increment_counter, (&f,), ())
}

/// Whether gathering from a registry can give these families.
pub closed spec fn gathers(
    registry: prometheus::Registry,
    families: Vec<prometheus::proto::MetricFamily>,
) -> bool {
    call_ensures(gather, (&registry,), families)
}

/// What the counter of dropped samples is made with.
pub open spec fn drop_description() -> Description {
    Description { name: DROPPED_TOTAL@, help: DROPPED_HELP@, keys: Seq::empty() }
}

/// What looking for a collector does: `found` says whether there is one
/// afterwards, `t` is the registry then. A known name is matched by its label
/// keys alone; an unknown one is added where the description is acceptable
/// and the registration is not refused.
pub open spec fn ensured(
    s: RegistryModel,
    kind: MetricType,
    name: Seq<char>,
    keys: Seq<Seq<char>>,
    t: RegistryModel,
    found: bool,
) -> bool {
    if s.of(kind).contains_key(name) {
        t == s && found == same_keys(s.of(kind)[name], keys)
    } else if found {
        acceptable(description(kind, name, keys)) && t == s.with(kind, name, keys)
    } else {
        t == s
    }
}

/// A collector and the label values to observe with. The number of values is
/// the number of label keys of the collector.
#[derive(Debug)]
pub enum Observation {
    /// Add the sample to the counter with these label values.
    Counter(CounterFamily, Vec<String>),
    /// Set the gauge with these label values to the sample.
    Gauge(GaugeFamily, Vec<String>),
    /// Observe the sample in the histogram with these label values.
    Histogram(HistogramFamily, Vec<String>),
}

/// The keys of label pairs.
pub open spec fn label_keys(labels: Seq<(String, String)>) -> Seq<Seq<char>> {
    labels.map_values(|pair: (String, String)| pair.0@)
}

impl Observation {
    /// The collector.
    pub open spec fn collector(self) -> Collector {
        match self {
            Observation::Counter(f, _) => Collector::Counter(f),
            Observation::Gauge(f, _) => Collector::Gauge(f),
            Observation::Histogram(f, _) => Collector::Histogram(f),
        }
    }

    /// The label values to observe with.
    pub open spec fn values(self) -> Seq<Seq<char>> {
        match self {
            Observation::Counter(_, values) => texts(values@),
            Observation::Gauge(_, values) => texts(values@),
            Observation::Histogram(_, values) => texts(values@),
        }
    }

    /// Whether this is where an entry is observed: a collector of its flavour
    /// with its name and its label keys, in whatever order, and each of its
    /// label values under the key that it came with.
    pub open spec fn is_for<V>(self, entry: MetricEntry<V>, bounds: Seq<u64>) -> bool {
        let keys = self.collector().made_with().keys;
        let labels = entry.labels@;
        &&& self.collector().made_for(entry.metric_type, entry.name@, keys, bounds)
        &&& same_keys(keys, label_keys(labels))
        &&& self.values().len() == keys.len()
        &&& forall|i: int, j: int|
            0 <= i < keys.len() && 0 <= j < labels.len() && keys[i] == labels[j].0@ ==> (
            #[trigger] self.values()[i]) == (#[trigger] labels[j]).1@
    }
}

/// An observation by its collector.
pub open spec fn observed(o: Option<Observation>) -> Option<Collector> {
    match o {
        Some(o) => Some(o.collector()),
        None => None,
    }
}

/// Prometheus registry wrapper.
pub struct PromRegistry {
    registry: prometheus::Registry,
    counters: FamilyTable<CounterFamily>,
    gauges: FamilyTable<GaugeFamily>,
    histograms: FamilyTable<HistogramFamily>,
    dropped_total: CounterFamily,
    default_buckets: prometheus::HistogramOpts,
}

impl View for PromRegistry {
    type V = RegistryModel;

    closed spec fn view(&self) -> RegistryModel {
        RegistryModel {
            counters: self.counters.map(),
            gauges: self.gauges.map(),
            histograms: self.histograms.map(),
        }
    }
}

fn help_text(kind: MetricType, name: &str) -> (r: String)
    ensures
        r@ == "duckmetrics "@ + kind.name() + " "@ + name@,
{
    let mut out = "duckmetrics ".to_owned();
    out.append(kind.as_str());
    out.append(" ");
    out.append(name);
    out
}

impl PromRegistry {
    /// What every registry keeps: the drop counter was made with its name,
    /// seeded and registered; and each collector was made with the name and
    /// the label keys that it is found under, from an acceptable description,
    /// and registered.
    pub open spec fn wf(&self) -> bool {
        &&& counter_description(self.drop_counter()) == drop_description()
        &&& seeds(self.drop_counter())
        &&& registered(self.inner(), Collector::Counter(self.drop_counter()))
        &&& forall|kind: MetricType, name: Seq<char>| #[trigger]
            self@.of(kind).contains_key(name) ==> self.keeps(kind, name)
    }

    /// What is kept of the collector of a known name.
    pub open spec fn keeps(&self, kind: MetricType, name: Seq<char>) -> bool {
        let keys = self@.of(kind)[name];
        &&& acceptable(description(kind, name, keys))
        &&& self.collector(kind, name).made_for(kind, name, keys, self.bounds())
        &&& registered(self.inner(), self.collector(kind, name))
    }

    /// The bucket bounds of every histogram of this registry.
    pub closed spec fn bounds(&self) -> Seq<u64> {
        option_bounds(self.default_buckets)
    }

    /// The underlying registry.
    pub closed spec fn inner(&self) -> prometheus::Registry {
        self.registry
    }

    /// The counter of dropped samples.
    pub closed spec fn drop_counter(&self) -> CounterFamily {
        self.dropped_total
    }

    /// The collector of a known name.
    pub closed spec fn collector(&self, kind: MetricType, name: Seq<char>) -> Collector {
        match kind {
            MetricType::Counter => Collector::Counter(self.counters.families()[name]),
            MetricType::Gauge => Collector::Gauge(self.gauges.families()[name]),
            MetricType::Histogram => Collector::Histogram(self.histograms.families()[name]),
        }
    }

    /// Whether `t` knows what this registry knows, with the same collectors.
    pub open spec fn unchanged(&self, t: &PromRegistry) -> bool {
        &&& t.bounds() == self.bounds()
        &&& t.drop_counter() == self.drop_counter()
        &&& t@ == self@
        &&& forall|k: MetricType, n: Seq<char>| #[trigger]
            t.collector(k, n) == self.collector(k, n)
    }

    /// Whether `t` knows one more collector than this registry, under the
    /// given name and label keys, and otherwise the same.
    pub open spec fn extended(
        &self,
        kind: MetricType,
        name: Seq<char>,
        keys: Seq<Seq<char>>,
        c: Collector,
        t: &PromRegistry,
    ) -> bool {
        &&& t.bounds() == self.bounds()
        &&& t.drop_counter() == self.drop_counter()
        &&& t@ == self@.with(kind, name, keys)
        &&& t.collector(kind, name) == c
        &&& forall|k: MetricType, n: Seq<char>|
            k != kind || n != name ==> #[trigger] t.collector(k, n) == self.collector(k, n)
    }

    /// What looking for a collector gives and leaves: a known name has its own
    /// collector for its label keys in any order and none for others; for an
    /// unknown one with an acceptable description one collector, made for it,
    /// is registered, once, and handed out where that succeeds.
    pub open spec fn looked_up(
        &self,
        kind: MetricType,
        name: Seq<char>,
        keys: Seq<Seq<char>>,
        t: &PromRegistry,
        r: Option<Collector>,
    ) -> bool {
        if self@.of(kind).contains_key(name) {
            &&& t == self
            &&& r == (if same_keys(self@.of(kind)[name], keys) {
                Some(self.collector(kind, name))
            } else {
                None
            })
        } else if acceptable(description(kind, name, keys)) {
            exists|c: Collector, outcome: Result<(), String>|
                {
                    &&& #[trigger] registers(self.inner(), c, outcome, t.inner())
                    &&& c.made_for(kind, name, keys, self.bounds())
                    &&& if outcome is Ok {
                        r == Some(c) && self.extended(kind, name, keys, c, t)
                    } else {
                        r is None && self.unchanged(t)
                    }
                }
        } else {
            t == self && r is None
        }
    }

    /// Creates a registry of its own that knows the drop counter alone, with
    /// the bucket bounds of the given options as default. The drop counter is
    /// seeded and registered.
    pub fn new(default_buckets: prometheus::HistogramOpts) -> (r: Result<Self, Error>)
        ensures
            r matches Ok(reg) && {
                &&& reg.wf()
                &&& registrations(reg.inner()) == seq![
                    Registration {
                        collector: Collector::Counter(reg.drop_counter()),
                        outcome: Ok(()),
                    },
                ]
                &&& reg.bounds() == option_bounds(default_buckets)
                &&& reg@ == (RegistryModel {
                    counters: Map::empty(),
                    gauges: Map::empty(),
                    histograms: Map::empty(),
                })
            },
    {
        let keys: Vec<String> = Vec::new();
        proof {
            assert(texts(keys@) =~= Seq::empty());
            lemma_drop_description_is_acceptable();
        }
        let dropped_total = match new_counters(DROPPED_TOTAL, DROPPED_HELP, &keys) {
            Ok(f) => f,
            Err(text) => {
                return Err(Error::Prometheus(text));
            },
        };
        seed_counter(&dropped_total);
        let registration = registry_with(&dropped_total);
        assert(registrations(registration->Ok_0)[0].collector == Collector::Counter(
            dropped_total,
        ));
        PromRegistry::assembled(registration, dropped_total, default_buckets)
    }

    /// The registry around a drop counter that was to be registered: refused,
    /// the text of the refusal is the error.
    pub fn assembled(
        registration: Result<prometheus::Registry, String>,
        dropped_total: CounterFamily,
        default_buckets: prometheus::HistogramOpts,
    ) -> (r: Result<Self, Error>)
        ensures
            match registration {
                Ok(registry) => r matches Ok(reg) && {
                    &&& reg.inner() == registry
                    &&& reg.drop_counter() == dropped_total
                    &&& reg.bounds() == option_bounds(default_buckets)
                    &&& reg@ == (RegistryModel {
                        counters: Map::empty(),
                        gauges: Map::empty(),
                        histograms: Map::empty(),
                    })
                },
                Err(text) => r matches Err(Error::Prometheus(m)) && m == text,
            },
    {
        match registration {
            Ok(registry) => Ok(
                PromRegistry {
                    registry,
                    counters: FamilyTable::new(),
                    gauges: FamilyTable::new(),
                    histograms: FamilyTable::new(),
                    dropped_total,
                    default_buckets,
                },
            ),
            Err(text) => Err(Error::Prometheus(text)),
        }
    }

    fn find_counter(&self, name: &str, keys: &Vec<String>) -> (r: Option<Option<CounterFamily>>)
        ensures
            (r is Some) == self@.of(MetricType::Counter).contains_key(name@),
            r matches Some(found) ==> counter_collector(found) == (if same_keys(
                self@.of(MetricType::Counter)[name@],
                texts(keys@),
            ) {
                Some(self.collector(MetricType::Counter, name@))
            } else {
                None
            }),
    {
        match self.counters.slot(name, keys) {
            Slot::Match(i) => Some(Some(share_counters(&self.counters.entries[i].family))),
            Slot::Mismatch => Some(None),
            Slot::Absent => None,
        }
    }

    fn ensure_counter(&mut self, name: &str, keys: &Vec<String>) -> (r: Option<CounterFamily>)
        requires
            old(self).wf(),
        ensures
            final(self).wf(),
            old(self).looked_up(
                MetricType::Counter,
                name@,
                texts(keys@),
                final(self),
                counter_collector(r),
            ),
            ensured(
                old(self)@,
                MetricType::Counter,
                name@,
                texts(keys@),
                final(self)@,
                r is Some,
            ),
    {
        if let Some(found) = self.find_counter(name, keys) {
            return found;
        }
        let help = help_text(MetricType::Counter, name);
        match new_counters(name, help.as_str(), keys) {
            Ok(family) => {
                let registration = register_counters(&mut self.registry, &family);
                let ghost c = Collector::Counter(family);
                let ghost outcome = registration;
                assert(c.made_for(MetricType::Counter, name@, texts(keys@), self.bounds()));
                let r = self.settle_counter(name, keys, family, registration);
                proof {
                    lemma_registrations_grow(old(self).inner(), c, outcome, self.inner());
                    if outcome is Ok {
                        lemma_extended_keeps(
                            old(self),
                            MetricType::Counter,
                            name@,
                            texts(keys@),
                            c,
                            self,
                        );
                    } else {
                        lemma_unchanged_keeps(old(self), self);
                    }
                    assert(registers(old(self).inner(), c, outcome, self.inner()));
                }
                r
            },
            Err(_) => None,
        }
    }

    /// Settles the registration of a new counter family: accepted, the family
    /// is known from now on under its name and label keys and is handed out;
    /// refused, nothing changes.
    pub fn settle_counter(
        &mut self,
        name: &str,
        keys: &Vec<String>,
        family: CounterFamily,
        registration: Result<(), String>,
    ) -> (r: Option<CounterFamily>)
        ensures
            match registration {
                Ok(_) => {
                    &&& r == Some(family)
                    &&& final(self).inner() == old(self).inner()
                    &&& old(self).extended(
                        MetricType::Counter,
                        name@,
                        texts(keys@),
                        Collector::Counter(family),
                        final(self),
                    )
                },
                Err(_) => r is None && *final(self) == *old(self),
            },
    {
        let shared = share_counters(&family);
        if self.counters.enter(name, keys, family, registration) {
            Some(shared)
        } else {
            None
        }
    }

    fn find_gauge(&self, name: &str, keys: &Vec<String>) -> (r: Option<Option<GaugeFamily>>)
        ensures
            (r is Some) == self@.of(MetricType::Gauge).contains_key(name@),
            r matches Some(found) ==> gauge_collector(found) == (if same_keys(
                self@.of(MetricType::Gauge)[name@],
                texts(keys@),
            ) {
                Some(self.collector(MetricType::Gauge, name@))
            } else {
                None
            }),
    {
        match self.gauges.slot(name, keys) {
            Slot::Match(i) => Some(Some(share_gauges(&self.gauges.entries[i].family))),
            Slot::Mismatch => Some(None),
            Slot::Absent => None,
        }
    }

    fn ensure_gauge(&mut self, name: &str, keys: &Vec<String>) -> (r: Option<GaugeFamily>)
        requires
            old(self).wf(),
        ensures
            final(self).wf(),
            old(self).looked_up(
                MetricType::Gauge,
                name@,
                texts(keys@),
                final(self),
                gauge_collector(r),
            ),
            ensured(
                old(self)@,
                MetricType::Gauge,
                name@,
                texts(keys@),
                final(self)@,
                r is Some,
            ),
    {
        if let Some(found) = self.find_gauge(name, keys) {
            return found;
        }
        let help = help_text(MetricType::Gauge, name);
        match new_gauges(name, help.as_str(), keys) {
            Ok(family) => {
                let registration = register_gauges(&mut self.registry, &family);
                let ghost c = Collector::Gauge(family);
                let ghost outcome = registration;
                assert(c.made_for(MetricType::Gauge, name@, texts(keys@), self.bounds()));
                let r = self.settle_gauge(name, keys, family, registration);
                proof {
                    lemma_registrations_grow(old(self).inner(), c, outcome, self.inner());
                    if outcome is Ok {
                        lemma_extended_keeps(
                            old(self),
                            MetricType::Gauge,
                            name@,
                            texts(keys@),
                            c,
                            self,
                        );
                    } else {
                        lemma_unchanged_keeps(old(self), self);
                    }
                    assert(registers(old(self).inner(), c, outcome, self.inner()));
                }
                r
            },
            Err(_) => None,
        }
    }

    /// Settles the registration of a new gauge family: accepted, the family
    /// is known from now on under its name and label keys and is handed out;
    /// refused, nothing changes.
    pub fn settle_gauge(
        &mut self,
        name: &str,
        keys: &Vec<String>,
        family: GaugeFamily,
        registration: Result<(), String>,
    ) -> (r: Option<GaugeFamily>)
        ensures
            match registration {
                Ok(_) => {
                    &&& r == Some(family)
                    &&& final(self).inner() == old(self).inner()
                    &&& old(self).extended(
                        MetricType::Gauge,
                        name@,
                        texts(keys@),
                        Collector::Gauge(family),
                        final(self),
                    )
                },
                Err(_) => r is None && *final(self) == *old(self),
            },
    {
        let shared = share_gauges(&family);
        if self.gauges.enter(name, keys, family, registration) {
            Some(shared)
        } else {
            None
        }
    }

    fn find_histogram(&self, name: &str, keys: &Vec<String>) -> (r: Option<Option<HistogramFamily>>)
        ensures
            (r is Some) == self@.of(MetricType::Histogram).contains_key(name@),
            r matches Some(found) ==> histogram_collector(found) == (if same_keys(
                self@.of(MetricType::Histogram)[name@],
                texts(keys@),
            ) {
                Some(self.collector(MetricType::Histogram, name@))
            } else {
                None
            }),
    {
        match self.histograms.slot(name, keys) {
            Slot::Match(i) => Some(Some(share_histograms(&self.histograms.entries[i].family))),
            Slot::Mismatch => Some(None),
            Slot::Absent => None,
        }
    }

    fn ensure_histogram(&mut self, name: &str, keys: &Vec<String>) -> (r: Option<HistogramFamily>)
        requires
            old(self).wf(),
        ensures
            final(self).wf(),
            old(self).looked_up(
                MetricType::Histogram,
                name@,
                texts(keys@),
                final(self),
                histogram_collector(r),
            ),
            ensured(
                old(self)@,
                MetricType::Histogram,
                name@,
                texts(keys@),
                final(self)@,
                r is Some,
            ),
    {
        if let Some(found) = self.find_histogram(name, keys) {
            return found;
        }
        let help = help_text(MetricType::Histogram, name);
        match new_histograms(&self.default_buckets, name, help.as_str(), keys) {
            Ok(family) => {
                let registration = register_histograms(&mut self.registry, &family);
                let ghost c = Collector::Histogram(family);
                let ghost outcome = registration;
                assert(c.made_for(MetricType::Histogram, name@, texts(keys@), self.bounds()));
                let r = self.settle_histogram(name, keys, family, registration);
                proof {
                    lemma_registrations_grow(old(self).inner(), c, outcome, self.inner());
                    if outcome is Ok {
                        lemma_extended_keeps(
                            old(self),
                            MetricType::Histogram,
                            name@,
                            texts(keys@),
                            c,
                            self,
                        );
                    } else {
                        lemma_unchanged_keeps(old(self), self);
                    }
                    assert(registers(old(self).inner(), c, outcome, self.inner()));
                }
                r
            },
            Err(_) => None,
        }
    }

    /// Settles the registration of a new histogram family: accepted, the family
    /// is known from now on under its name and label keys and is handed out;
    /// refused, nothing changes.
    pub fn settle_histogram(
        &mut self,
        name: &str,
        keys: &Vec<String>,
        family: HistogramFamily,
        registration: Result<(), String>,
    ) -> (r: Option<HistogramFamily>)
        ensures
            match registration {
                Ok(_) => {
                    &&& r == Some(family)
                    &&& final(self).inner() == old(self).inner()
                    &&& old(self).extended(
                        MetricType::Histogram,
                        name@,
                        texts(keys@),
                        Collector::Histogram(family),
                        final(self),
                    )
                },
                Err(_) => r is None && *final(self) == *old(self),
            },
    {
        let shared = share_histograms(&family);
        if self.histograms.enter(name, keys, family, registration) {
            Some(shared)
        } else {
            None
        }
    }

    /// Looks for the collector of an entry without creating one. Nothing is
    /// returned for a name that is not known yet, and no observation for one
    /// that is known with other label keys.
    pub fn find<V>(&self, entry: &MetricEntry<V>) -> (r: Option<Option<Observation>>)
        requires
            self.wf(),
        ensures
            (r is Some) == self@.of(entry.metric_type).contains_key(entry.name@),
            r matches Some(found) ==> observed(found) == (if same_keys(
                self@.of(entry.metric_type)[entry.name@],
                label_keys(entry.labels@),
            ) {
                Some(self.collector(entry.metric_type, entry.name@))
            } else {
                None
            }),
            r matches Some(Some(o)) ==> o.is_for(*entry, self.bounds()),
    {
        let (names, values) = label_names_and_values(entry.labels.as_slice());
        assert(texts(names@) =~= label_keys(entry.labels@));
        let name = entry.name.as_str();
        match entry.metric_type {
            MetricType::Counter => match self.find_counter(name, &names) {
                Some(Some(f)) => {
                    let ordered = self.counters.arranged(name, &names, &values);
                    let o = Observation::Counter(f, ordered);
                    proof {
                        lemma_observation(o, *entry, names@, values@, ordered@, self.bounds());
                    }
                    Some(Some(o))
                },
                Some(None) => Some(None),
                None => None,
            },
            MetricType::Gauge => match self.find_gauge(name, &names) {
                Some(Some(f)) => {
                    let ordered = self.gauges.arranged(name, &names, &values);
                    let o = Observation::Gauge(f, ordered);
                    proof {
                        lemma_observation(o, *entry, names@, values@, ordered@, self.bounds());
                    }
                    Some(Some(o))
                },
                Some(None) => Some(None),
                None => None,
            },
            MetricType::Histogram => match self.find_histogram(name, &names) {
                Some(Some(f)) => {
                    let ordered = self.histograms.arranged(name, &names, &values);
                    let o = Observation::Histogram(f, ordered);
                    proof {
                        lemma_observation(o, *entry, names@, values@, ordered@, self.bounds());
                    }
                    Some(Some(o))
                },
                Some(None) => Some(None),
                None => None,
            },
        }
    }

    /// Finds the collector of an entry, creating it where the name is not
    /// known yet. No observation is returned, and the sample is dropped, for
    /// a name that is known with other label keys, a description that
    /// Prometheus does not accept, and a registration that is refused.
    pub fn update<V>(&mut self, entry: &MetricEntry<V>) -> (r: Option<Observation>)
        requires
            old(self).wf(),
        ensures
            final(self).wf(),
            old(self).looked_up(
                entry.metric_type,
                entry.name@,
                label_keys(entry.labels@),
                final(self),
                observed(r),
            ),
            ensured(
                old(self)@,
                entry.metric_type,
                entry.name@,
                label_keys(entry.labels@),
                final(self)@,
                r is Some,
            ),
            r matches Some(o) ==> {
                &&& o.is_for(*entry, old(self).bounds())
                &&& o.collector() == final(self).collector(entry.metric_type, entry.name@)
                &&& registered(final(self).inner(), o.collector())
            },
    {
        let (names, values) = label_names_and_values(entry.labels.as_slice());
        assert(texts(names@) =~= label_keys(entry.labels@));
        let name = entry.name.as_str();
        match entry.metric_type {
            MetricType::Counter => match self.ensure_counter(name, &names) {
                Some(f) => {
                    assert(self@.of(MetricType::Counter).contains_key(name@));
                    let ordered = self.counters.arranged(name, &names, &values);
                    let o = Observation::Counter(f, ordered);
                    proof {
                        lemma_observation(o, *entry, names@, values@, ordered@, self.bounds());
                    }
                    Some(o)
                },
                None => None,
            },
            MetricType::Gauge => match self.ensure_gauge(name, &names) {
                Some(f) => {
                    assert(self@.of(MetricType::Gauge).contains_key(name@));
                    let ordered = self.gauges.arranged(name, &names, &values);
                    let o = Observation::Gauge(f, ordered);
                    proof {
                        lemma_observation(o, *entry, names@, values@, ordered@, self.bounds());
                    }
                    Some(o)
                },
                None => None,
            },
            MetricType::Histogram => match self.ensure_histogram(name, &names) {
                Some(f) => {
                    assert(self@.of(MetricType::Histogram).contains_key(name@));
                    let ordered = self.histograms.arranged(name, &names, &values);
                    let o = Observation::Histogram(f, ordered);
                    proof {
                        lemma_observation(o, *entry, names@, values@, ordered@, self.bounds());
                    }
                    Some(o)
                },
                None => None,
            },
        }
    }

    /// Increments the drop counter. The count is kept by the counter itself.
    pub fn inc_dropped(&self)
        requires
            self.wf(),
        ensures
            increments(self.drop_counter()),
    {
        increment_counter(&self.dropped_total);
    }

    /// Whether a result is the text of families gathered from this registry,
    /// or what went wrong.
    pub open spec fn renders(&self, r: Result<String, Error>) -> bool {
        exists|families: Vec<prometheus::proto::MetricFamily>| #[trigger]
            gathers(self.inner(), families) && exposes(families@, r)
    }

    /// Renders the registry in the Prometheus text exposition format: what
    /// was gathered from it, as text. What that holds is decided by what was
    /// recorded.
    pub fn gather_text(&self) -> (r: Result<String, Error>)
        ensures
            self.renders(r),
            r matches Err(e) ==> e is Prometheus,
    {
        let families = gather(&self.registry);
        assert(gathers(self.inner(), families));
        families_text(&families)
    }

    /// The underlying registry, for collectors of the user's own.
    #[must_use]
    pub fn registry(&self) -> (r: &prometheus::Registry)
        ensures
            *r == self.inner(),
    {
        &self.registry
    }
}

/// What a family without a type is refused with.
pub const UNTYPED: &'static str = "untyped metric families cannot be rendered";

/// How many of the first families have a type.
pub open spec fn typed_len(families: Seq<prometheus::proto::MetricFamily>) -> nat
    decreases families.len(),
{
    if families.len() == 0 || family_type(families[0]) == FamilyType::Untyped {
        0
    } else {
        1 + typed_len(families.skip(1))
    }
}

/// Whether a result is an encoded text, or what went wrong: the text of the
/// error where encoding failed, else that families without a type were left
/// out where some were, else the bytes as text where they are UTF-8.
pub open spec fn decodes(
    encoded: Result<Seq<u8>, Seq<char>>,
    complete: bool,
    r: Result<String, Error>,
) -> bool {
    match encoded {
        Err(text) => r matches Err(Error::Prometheus(m)) && m@ == text,
        Ok(bytes) => if !complete {
            r matches Err(Error::Prometheus(m)) && m@ == UNTYPED@
        } else if valid_utf8(bytes) {
            r matches Ok(text) && text@ == decode_utf8(bytes)
        } else {
            r matches Err(e) && e is Prometheus
        },
    }
}

/// Whether a result is the exposition text of families, or what went wrong
/// with the first of them that cannot be rendered.
pub open spec fn exposes(
    families: Seq<prometheus::proto::MetricFamily>,
    r: Result<String, Error>,
) -> bool {
    let typed = typed_len(families);
    decodes(exposition(families.take(typed as int)), typed == families.len(), r)
}

proof fn lemma_typed_len(families: Seq<prometheus::proto::MetricFamily>, n: int)
    requires
        0 <= n <= families.len(),
        all_typed(families.take(n)),
        n < families.len() ==> family_type(families[n]) == FamilyType::Untyped,
    ensures
        typed_len(families) == n,
    decreases n,
{
    if n > 0 {
        assert(families.take(n)[0] == families[0]);
        let rest = families.skip(1);
        assert forall|i: int| 0 <= i < n - 1 implies family_type(#[trigger] rest.take(n - 1)[i])
            != FamilyType::Untyped by {
            assert(rest.take(n - 1)[i] == families.take(n)[i + 1]);
        }
        lemma_typed_len(rest, n - 1);
    }
}

/// The text of encoded families, or what went wrong; the families are complete
/// where none without a type was left out.
pub fn exposition_text(encoded: Result<Vec<u8>, String>, complete: bool) -> (r: Result<
    String,
    Error,
>)
    ensures
        match encoded {
            Ok(bytes) => decodes(Ok(bytes@), complete, r),
            Err(text) => decodes(Err(text@), complete, r),
        },
{
    match encoded {
        Err(text) => Err(Error::Prometheus(text)),
        Ok(bytes) => {
            if !complete {
                return Err(Error::Prometheus(UNTYPED.to_owned()));
            }
            match utf8_string(bytes) {
                Ok(text) => Ok(text),
                Err(text) => Err(Error::Prometheus(text)),
            }
        },
    }
}

/// The exposition text of gathered families, or what went wrong. A family
/// without a type cannot be encoded, so only those before it are.
pub fn families_text(families: &Vec<prometheus::proto::MetricFamily>) -> (r: Result<String, Error>)
    ensures
        exposes(families@, r),
{
    let mut n: usize = 0;
    while n < families.len() && type_of(&families[n]) != FamilyType::Untyped
        invariant
            n <= families@.len(),
            all_typed(families@.take(n as int)),
        decreases families@.len() - n,
    {
        assert(families@.take(n + 1) =~= families@.take(n as int).push(families@[n as int]));
        n = n + 1;
    }
    proof {
        lemma_typed_len(families@, n as int);
        assert(families@.subrange(0, n as int) =~= families@.take(n as int));
    }
    let encoded = encode_families(vstd::slice::slice_subrange(families.as_slice(), 0, n));
    exposition_text(encoded, n == families.len())
}

/// Label keys are stable: whatever is looked for, a name that is known keeps
/// the label keys of its first observation, in its own flavour and in every
/// other, and an observation with other keys finds nothing.
pub proof fn law_label_keys_are_stable(
    s: RegistryModel,
    kind: MetricType,
    name: Seq<char>,
    keys: Seq<Seq<char>>,
    t: RegistryModel,
    found: bool,
    other_kind: MetricType,
    other: Seq<char>,
)
    requires
        ensured(s, kind, name, keys, t, found),
        s.of(other_kind).contains_key(other),
    ensures
        t.of(other_kind).contains_key(other),
        t.of(other_kind)[other] == s.of(other_kind)[other],
        other_kind == kind && other == name && !same_keys(s.of(kind)[name], keys) ==> !found,
{
}

/// An observation has one label value for each label key of its collector.
pub proof fn law_values_match_keys<V>(o: Observation, entry: MetricEntry<V>, bounds: Seq<u64>)
    requires
        o.is_for(entry, bounds),
    ensures
        o.values().len() == o.collector().made_with().keys.len(),
        o.values().len() == entry.labels@.len(),
{
}

/// The order of the label keys does not matter: two observations with the same
/// keys are given the same collector of a known name.
pub proof fn law_key_order_is_irrelevant(
    s: PromRegistry,
    kind: MetricType,
    name: Seq<char>,
    keys: Seq<Seq<char>>,
    other_keys: Seq<Seq<char>>,
    t: PromRegistry,
    u: PromRegistry,
    r: Option<Collector>,
    q: Option<Collector>,
)
    requires
        s@.of(kind).contains_key(name),
        same_keys(keys, other_keys),
        s.looked_up(kind, name, keys, &t, r),
        s.looked_up(kind, name, other_keys, &u, q),
    ensures
        r == q,
        t == u,
{
}

/// Whatever is looked for, the collector of a known name stays the one that it
/// was and stays registered, and so does the drop counter. What was registered
/// before is kept, and at most one registration is added.
pub proof fn law_collectors_stay_registered(
    s: PromRegistry,
    kind: MetricType,
    name: Seq<char>,
    keys: Seq<Seq<char>>,
    t: PromRegistry,
    r: Option<Collector>,
    other_kind: MetricType,
    other: Seq<char>,
)
    requires
        s.wf(),
        s.looked_up(kind, name, keys, &t, r),
        s@.of(other_kind).contains_key(other),
    ensures
        t@.of(other_kind).contains_key(other),
        t.collector(other_kind, other) == s.collector(other_kind, other),
        registered(t.inner(), t.collector(other_kind, other)),
        t.drop_counter() == s.drop_counter(),
        registered(t.inner(), Collector::Counter(t.drop_counter())),
        registrations(s.inner()).is_prefix_of(registrations(t.inner())),
        registrations(t.inner()).len() <= registrations(s.inner()).len() + 1,
{
    assert(s.keeps(other_kind, other));
    let before = registrations(s.inner());
    let after = registrations(t.inner());
    if s@.of(kind).contains_key(name) || !acceptable(description(kind, name, keys)) {
        assert(before.subrange(0, before.len() as int) =~= before);
    } else {
        let (c, outcome) = choose|c: Collector, outcome: Result<(), String>| #[trigger]
            registers(s.inner(), c, outcome, t.inner());
        lemma_registrations_grow(s.inner(), c, outcome, t.inner());
        assert(after.subrange(0, before.len() as int) =~= before);
    }
}

proof fn lemma_registrations_grow(
    before: prometheus::Registry,
    c: Collector,
    outcome: Result<(), String>,
    after: prometheus::Registry,
)
    requires
        registers(before, c, outcome, after),
    ensures
        forall|d: Collector| registered(before, d) ==> #[trigger] registered(after, d),
        outcome is Ok ==> registered(after, c),
{
    let b = registrations(before);
    let a = registrations(after);
    assert forall|d: Collector| registered(before, d) implies #[trigger] registered(after, d) by {
        let wanted = Registration { collector: d, outcome: Ok(()) };
        let i = choose|i: int| 0 <= i < b.len() && b[i] == wanted;
        assert(a[i] == wanted);
    }
    if let Ok(done) = outcome {
        assert(done == ());
        assert(a[b.len() as int] == Registration { collector: c, outcome: Ok(()) });
    }
}

proof fn lemma_unchanged_keeps(s: &PromRegistry, t: &PromRegistry)
    requires
        s.wf(),
        s.unchanged(t),
        forall|c: Collector| registered(s.inner(), c) ==> #[trigger] registered(t.inner(), c),
    ensures
        t.wf(),
{
    assert forall|k: MetricType, n: Seq<char>| #[trigger]
        t@.of(k).contains_key(n) implies t.keeps(k, n) by {
        assert(s@.of(k).contains_key(n));
        assert(s.keeps(k, n));
        assert(t.collector(k, n) == s.collector(k, n));
    }
}

proof fn lemma_observation<V>(
    o: Observation,
    entry: MetricEntry<V>,
    names: Seq<String>,
    values: Seq<String>,
    ordered: Seq<String>,
    bounds: Seq<u64>,
)
    requires
        ({
            let keys = o.collector().made_with().keys;
            &&& o.collector().made_for(entry.metric_type, entry.name@, keys, bounds)
            &&& same_keys(keys, label_keys(entry.labels@))
            &&& o.values() == texts(ordered)
            &&& ordered.len() == keys.len()
            &&& names.len() == entry.labels@.len()
            &&& values.len() == entry.labels@.len()
            &&& forall|j: int|
                0 <= j < names.len() ==> (#[trigger] names[j])@ == entry.labels@[j].0@
            &&& forall|j: int|
                0 <= j < names.len() ==> (#[trigger] values[j])@ == entry.labels@[j].1@
            &&& forall|i: int, j: int|
                0 <= i < ordered.len() && 0 <= j < names.len() && keys[i] == names[j]@ ==> (
                #[trigger] ordered[i])@ == (#[trigger] values[j])@
        }),
    ensures
        o.is_for(entry, bounds),
{
    let keys = o.collector().made_with().keys;
    let labels = entry.labels@;
    assert forall|i: int, j: int|
        0 <= i < keys.len() && 0 <= j < labels.len() && keys[i] == labels[j].0@ implies (
    #[trigger] o.values()[i]) == (#[trigger] labels[j]).1@ by {
        assert(names[j]@ == labels[j].0@);
        assert(ordered[i]@ == values[j]@);
    }
}

proof fn lemma_extended_keeps(
    s: &PromRegistry,
    kind: MetricType,
    name: Seq<char>,
    keys: Seq<Seq<char>>,
    c: Collector,
    t: &PromRegistry,
)
    requires
        s.wf(),
        s.extended(kind, name, keys, c, t),
        acceptable(description(kind, name, keys)),
        c.made_for(kind, name, keys, s.bounds()),
        registered(t.inner(), c),
        forall|c: Collector| registered(s.inner(), c) ==> #[trigger] registered(t.inner(), c),
    ensures
        t.wf(),
{
    assert forall|k: MetricType, n: Seq<char>| #[trigger]
        t@.of(k).contains_key(n) implies t.keeps(k, n) by {
        if k != kind || n != name {
            assert(s@.of(k).contains_key(n));
            assert(s.keeps(k, n));
            assert(t.collector(k, n) == s.collector(k, n));
        }
    }
}

proof fn lemma_drop_description_is_acceptable()
    ensures
        acceptable(drop_description()),
{
    reveal_strlit("tonggeret_dropped_total");
    reveal_strlit("Total metric samples dropped because the Fjall channel was full");
    assert(DROPPED_HELP@.len() == 63);
    assert(crate::types::valid_name(DROPPED_TOTAL@));
}

/// A sanitized name is one that Prometheus accepts, whatever it was made of:
/// what is left to fail are label keys that hold a colon or occur twice.
pub proof fn law_sanitized_names_are_acceptable(
    kind: MetricType,
    name: Seq<char>,
    keys: Seq<Seq<char>>,
)
    ensures
        acceptable(description(kind, crate::types::sanitized(name), keys)) == (
        keys.no_duplicates() && forall|i: int| 0 <= i < keys.len() ==> valid_label(
            #[trigger] keys[i],
        )),
{
    crate::types::law_sanitized_name_is_valid(name);
    reveal_strlit("duckmetrics ");
    assert("duckmetrics "@.len() == 12);
}

/// What was found once is found again, without a change of the registry.
pub proof fn law_found_once_is_found_again(
    s: RegistryModel,
    kind: MetricType,
    name: Seq<char>,
    keys: Seq<Seq<char>>,
    t: RegistryModel,
    u: RegistryModel,
    found: bool,
)
    requires
        ensured(s, kind, name, keys, t, true),
        ensured(t, kind, name, keys, u, found),
    ensures
        found,
        u == t,
{
}

/// A collector is described by the name and the label keys of its metric, in
/// their order, and by a help text that names the flavour and the metric.
pub proof fn law_descriptions_name_their_metric(
    kind: MetricType,
    name: Seq<char>,
    keys: Seq<Seq<char>>,
)
    ensures
        description(kind, name, keys).name == name,
        description(kind, name, keys).keys == keys,
        description(kind, name, keys).help == (match kind {
            MetricType::Counter => "duckmetrics counter "@ + name,
            MetricType::Gauge => "duckmetrics gauge "@ + name,
            MetricType::Histogram => "duckmetrics histogram "@ + name,
        }),
        drop_description().name == "tonggeret_dropped_total"@,
        drop_description().keys.len() == 0,
{
    reveal_strlit("duckmetrics ");
    reveal_strlit(" ");
    reveal_strlit("counter");
    reveal_strlit("gauge");
    reveal_strlit("histogram");
    reveal_strlit("duckmetrics counter ");
    reveal_strlit("duckmetrics gauge ");
    reveal_strlit("duckmetrics histogram ");
    assert("duckmetrics counter "@ =~= "duckmetrics "@ + "counter"@ + " "@);
    assert("duckmetrics gauge "@ =~= "duckmetrics "@ + "gauge"@ + " "@);
    assert("duckmetrics histogram "@ =~= "duckmetrics "@ + "histogram"@ + " "@);
}

/// A name that was found for the first time is known from then on, in its own
/// flavour and with the label keys that it was found with, and nothing else
/// has changed; a name that was not found leaves everything as it is.
pub proof fn law_new_names_become_known(
    s: RegistryModel,
    kind: MetricType,
    name: Seq<char>,
    keys: Seq<Seq<char>>,
    t: RegistryModel,
    found: bool,
    other_kind: MetricType,
    other: Seq<char>,
)
    requires
        ensured(s, kind, name, keys, t, found),
        !s.of(kind).contains_key(name),
    ensures
        found ==> t.of(kind).contains_key(name) && t.of(kind)[name] == keys,
        found && (other_kind != kind || other != name) ==> {
            &&& t.of(other_kind).contains_key(other) == s.of(other_kind).contains_key(other)
            &&& s.of(other_kind).contains_key(other) ==> t.of(other_kind)[other] == s.of(
                other_kind,
            )[other]
        },
        !found ==> t == s,
        s.of(MetricType::Counter) == s.counters,
        s.of(MetricType::Gauge) == s.gauges,
        s.of(MetricType::Histogram) == s.histograms,
{
}

/// A known name is found with its own label keys in any order, and with no
/// other keys: none too few, none too many, none other.
pub proof fn law_known_names_are_found_by_their_keys(
    s: RegistryModel,
    kind: MetricType,
    name: Seq<char>,
    keys: Seq<Seq<char>>,
    t: RegistryModel,
    found: bool,
)
    requires
        ensured(s, kind, name, keys, t, found),
        s.of(kind).contains_key(name),
    ensures
        t == s,
        found <==> {
            let known = s.of(kind)[name];
            &&& keys.len() == known.len()
            &&& forall|i: int| 0 <= i < keys.len() ==> known.contains(#[trigger] keys[i])
            &&& forall|i: int| 0 <= i < known.len() ==> keys.contains(#[trigger] known[i])
        },
{
    let known = s.of(kind)[name];
    if found {
        assert forall|i: int| 0 <= i < keys.len() implies known.contains(#[trigger] keys[i]) by {
            assert(keys.to_set().contains(keys[i]));
            assert(known.to_set().contains(keys[i]));
        }
        assert forall|i: int| 0 <= i < known.len() implies keys.contains(#[trigger] known[i]) by {
            assert(known.to_set().contains(known[i]));
            assert(keys.to_set().contains(known[i]));
        }
    } else if keys.len() == known.len() && (forall|i: int|
        0 <= i < keys.len() ==> known.contains(#[trigger] keys[i])) && (forall|i: int|
        0 <= i < known.len() ==> keys.contains(#[trigger] known[i])) {
        assert forall|k: Seq<char>| known.to_set().contains(k) == keys.to_set().contains(k) by {
            if known.contains(k) {
                let i = choose|i: int| 0 <= i < known.len() && known[i] == k;
                assert(keys.contains(known[i]));
            }
            if keys.contains(k) {
                let i = choose|i: int| 0 <= i < keys.len() && keys[i] == k;
                assert(known.contains(keys[i]));
            }
        }
        assert(known.to_set() =~= keys.to_set());
    }
}

/// Whatever is found was acceptable: Prometheus is never asked to make a
/// collector without a valid name or with label keys that it would refuse, and
/// an acceptable one is always tried.
pub proof fn law_acceptable_names_are_tried(
    s: PromRegistry,
    kind: MetricType,
    name: Seq<char>,
    keys: Seq<Seq<char>>,
    t: PromRegistry,
    r: Option<Collector>,
)
    requires
        s.looked_up(kind, name, keys, &t, r),
        !s@.of(kind).contains_key(name),
    ensures
        r is Some ==> acceptable(description(kind, name, keys)),
        acceptable(description(kind, name, keys)) ==> registrations(t.inner()).len()
            == registrations(s.inner()).len() + 1 && (r is Some) == (registrations(
            t.inner(),
        ).last().outcome is Ok),
        r matches Some(c) ==> {
            &&& registrations(t.inner()).last().collector == c
            &&& c.made_with().name == name
            &&& c.made_with().keys == keys
            &&& c.kind() == kind
        },
{
    if acceptable(description(kind, name, keys)) {
        let (c, outcome) = choose|c: Collector, outcome: Result<(), String>|
            {
                &&& #[trigger] registers(s.inner(), c, outcome, t.inner())
                &&& c.made_for(kind, name, keys, s.bounds())
                &&& if outcome is Ok {
                    r == Some(c) && s.extended(kind, name, keys, c, &t)
                } else {
                    r is None && s.unchanged(&t)
                }
            };
        assert(registrations(t.inner()).last() == Registration { collector: c, outcome });
    }
}

/// The exposition is complete exactly when every family has a type: then the
/// text is that of all families, and otherwise there is no text.
pub proof fn law_all_families_are_rendered(
    families: Seq<prometheus::proto::MetricFamily>,
    r: Result<String, Error>,
)
    requires
        exposes(families, r),
    ensures
        (forall|i: int|
            0 <= i < families.len() ==> !(family_type(#[trigger] families[i]) is Untyped)) ==> {
            &&& r matches Ok(text) ==> (exposition(families) matches Ok(bytes) && valid_utf8(bytes)
                && text@ == decode_utf8(bytes))
            &&& exposition(families) matches Ok(bytes) ==> (r is Ok) == valid_utf8(bytes)
            &&& exposition(families) matches Err(text) ==> (r matches Err(Error::Prometheus(m))
                && m@ == text)
        },
        (exists|i: int|
            0 <= i < families.len() && family_type(#[trigger] families[i]) is Untyped) ==> r is Err,
{
    if forall|i: int|
        0 <= i < families.len() ==> !(family_type(#[trigger] families[i]) is Untyped) {
        assert(families.take(families.len() as int) =~= families);
        lemma_typed_len(families, families.len() as int);
    } else {
        let i = choose|i: int|
            0 <= i < families.len() && family_type(#[trigger] families[i]) is Untyped;
        lemma_typed_len_below(families, i);
    }
}

proof fn lemma_typed_len_below(families: Seq<prometheus::proto::MetricFamily>, i: int)
    requires
        0 <= i < families.len(),
        family_type(families[i]) == FamilyType::Untyped,
    ensures
        typed_len(families) <= i,
    decreases i,
{
    if family_type(families[0]) != FamilyType::Untyped {
        lemma_typed_len_below(families.skip(1), i - 1);
    }
}

/// An observation goes to a collector of the entry's own flavour and name, and
/// takes each label value with the key that it came with.
pub proof fn law_values_go_with_their_keys<V>(
    o: Observation,
    entry: MetricEntry<V>,
    bounds: Seq<u64>,
    i: int,
    j: int,
)
    requires
        o.is_for(entry, bounds),
        0 <= i < o.collector().made_with().keys.len(),
        0 <= j < entry.labels@.len(),
        o.collector().made_with().keys[i] == entry.labels@[j].0@,
    ensures
        o.values()[i] == entry.labels@[j].1@,
        o.collector().kind() == entry.metric_type,
        o.collector().made_with().name == entry.name@,
        o matches Observation::Counter(f, values) ==> counter_description(f).name == entry.name@
            && values@[i]@ == entry.labels@[j].1@,
        o matches Observation::Gauge(f, values) ==> gauge_description(f).name == entry.name@
            && values@[i]@ == entry.labels@[j].1@,
        o matches Observation::Histogram(f, values) ==> histogram_description(f).name == entry.name@
            && histogram_bounds(f) == bounds && values@[i]@ == entry.labels@[j].1@,
{
    assert(o.values()[i] == entry.labels@[j].1@);
}

/// Every label key of an entry is a key of the collector that it is observed
/// with, and the other way round.
pub proof fn law_collectors_have_the_entrys_keys<V>(
    o: Observation,
    entry: MetricEntry<V>,
    bounds: Seq<u64>,
    j: int,
)
    requires
        o.is_for(entry, bounds),
        0 <= j < entry.labels@.len(),
    ensures
        o.collector().made_with().keys.len() == entry.labels@.len(),
        o.collector().made_with().keys.contains(entry.labels@[j].0@),
        exists|k: int|
            0 <= k < entry.labels@.len() && (#[trigger] entry.labels@[k]).0@
                == o.collector().made_with().keys[j],
{
    let keys = o.collector().made_with().keys;
    let own = label_keys(entry.labels@);
    assert(own[j] == entry.labels@[j].0@);
    assert(own.to_set().contains(own[j]));
    assert(keys.to_set().contains(own[j]));
    assert(keys.to_set().contains(keys[j]));
    assert(own.to_set().contains(keys[j]));
    let k = choose|k: int| 0 <= k < own.len() && own[k] == keys[j];
    assert(entry.labels@[k].0@ == keys[j]);
}

/// A known name has one collector: whoever asks with its label keys, in any
/// order, is given that one, whoever asks with others is given none, and
/// neither changes anything.
pub proof fn law_known_names_keep_their_collector(
    s: PromRegistry,
    kind: MetricType,
    name: Seq<char>,
    keys: Seq<Seq<char>>,
    t: PromRegistry,
    r: Option<Collector>,
)
    requires
        s.looked_up(kind, name, keys, &t, r),
        s@.of(kind).contains_key(name),
    ensures
        t == s,
        r matches Some(c) ==> c == s.collector(kind, name),
        (r is Some) == (keys.len() == s@.of(kind)[name].len() && keys.to_set() == s@.of(
            kind,
        )[name].to_set()),
{
}

} // verus!
