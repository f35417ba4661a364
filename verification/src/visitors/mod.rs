//! Visitor counting with unique visitors by region.
//!
//! * `visitors_total{region}` (counter): every observed visit.
//! * `unique_visitors_estimate{region}` (gauge): an estimate, refreshed by
//!   [`VisitorsTracker::snapshot`].
//!
//! A label per visitor would create one series per visitor. Instead each
//! region keeps a sketch of 4 KiB that is fed by a hash of the visitor key;
//! raw identifiers are never stored. Regions come from country headers of a
//! trusted proxy ([`parse_region`]), and distinct regions are capped.

pub mod hll;
pub mod ln;

use crate::text::{chars_of, same_text, string_of, trim_bounds, trimmed_upper};
use vstd::prelude::*;

pub use hll::Hll;

verus! {

/// Counter series for total visits, labelled by `region`.
pub const VISITORS_TOTAL: &'static str = "visitors_total";

/// Gauge series for the per-region unique-visitor estimate.
pub const UNIQUE_VISITORS_ESTIMATE: &'static str = "unique_visitors_estimate";

/// Region label used when no trusted country header is present or valid.
pub const REGION_UNKNOWN: &'static str = "unknown";

/// Region bucket for excess distinct regions beyond the tracker's cap.
pub const REGION_OTHER: &'static str = "other";

/// Default cap on distinct regions held by the global tracker.
pub const DEFAULT_MAX_REGIONS: usize = 512;

/// Largest cap on distinct regions.
pub const LARGEST_MAX_REGIONS: usize = 4096;

/// Default snapshot interval, in seconds.
pub const DEFAULT_SNAPSHOT_SECS: u64 = 15;

// ---------------------------------------------------------------------------
// Region
// ---------------------------------------------------------------------------

/// A country code: exactly two ASCII letters.
pub open spec fn is_code(s: Seq<char>) -> bool {
    s.len() == 2 && crate::text::is_alpha(s[0]) && crate::text::is_alpha(s[1])
}

/// The code that a header may hold: trimmed, in upper case.
pub open spec fn code_of(raw: Seq<char>) -> Seq<char> {
    crate::text::upper_all(crate::text::trim(raw))
}

/// Whether a header is there and holds a country code.
pub open spec fn holds_code(header: Option<&str>) -> bool {
    match header {
        Some(raw) => is_code(code_of(raw@)),
        None => false,
    }
}

/// The region of the first header that holds a country code, or `unknown`.
pub open spec fn region_of(
    cf_ip_country: Option<&str>,
    vercel_ip_country: Option<&str>,
    cloudfront_viewer_country: Option<&str>,
) -> Seq<char> {
    if holds_code(cf_ip_country) {
        code_of(cf_ip_country.unwrap()@)
    } else if holds_code(vercel_ip_country) {
        code_of(vercel_ip_country.unwrap()@)
    } else if holds_code(cloudfront_viewer_country) {
        code_of(cloudfront_viewer_country.unwrap()@)
    } else {
        REGION_UNKNOWN@
    }
}

fn country_code(raw: &str) -> (r: Option<String>)
    ensures
        match r {
            Some(code) => is_code(code_of(raw@)) && code@ == code_of(raw@),
            None => !is_code(code_of(raw@)),
        },
{
    let code = trimmed_upper(raw);
    let chars = chars_of(code.as_str());
    if chars.len() == 2 && is_letter(chars[0]) && is_letter(chars[1]) {
        Some(code)
    } else {
        None
    }
}

fn is_letter(c: char) -> (r: bool)
    ensures
        r == crate::text::is_alpha(c),
{
    ('a' <= c && c <= 'z') || ('A' <= c && c <= 'Z')
}

fn header_code(header: Option<&str>) -> (r: Option<String>)
    ensures
        match r {
            Some(code) => holds_code(header) && code@ == code_of(header.unwrap()@),
            None => !holds_code(header),
        },
{
    match header {
        Some(raw) => country_code(raw),
        None => None,
    }
}

/// Picks a region from country headers (first valid wins).
///
/// Checks `CF-IPCountry`, then `X-Vercel-IP-Country`, then
/// `CloudFront-Viewer-Country`. Values are trimmed, uppercased, and must be
/// exactly two ASCII letters; anything else falls through, ending at
/// [`REGION_UNKNOWN`].
#[must_use]
pub fn parse_region(
    cf_ip_country: Option<&str>,
    vercel_ip_country: Option<&str>,
    cloudfront_viewer_country: Option<&str>,
) -> (r: String)
    ensures
        r@ == region_of(cf_ip_country, vercel_ip_country, cloudfront_viewer_country),
{
    if let Some(code) = header_code(cf_ip_country) {
        return code;
    }
    if let Some(code) = header_code(vercel_ip_country) {
        return code;
    }
    if let Some(code) = header_code(cloudfront_viewer_country) {
        return code;
    }
    REGION_UNKNOWN.to_owned()
}

/// The normal form of a region: a country code in upper case, the bucket for
/// excess regions, or `unknown`.
pub open spec fn normalized(region: Seq<char>) -> Seq<char> {
    let code = code_of(region);
    if is_code(code) {
        code
    } else if code == crate::text::upper_all(REGION_OTHER@) {
        REGION_OTHER@
    } else {
        REGION_UNKNOWN@
    }
}

/// Normalizes a region label.
#[must_use]
pub fn normalize_region(region: &str) -> (r: String)
    ensures
        r@ == normalized(region@),
{
    let code = trimmed_upper(region);
    let chars = chars_of(code.as_str());
    if chars.len() == 2 && is_letter(chars[0]) && is_letter(chars[1]) {
        return code;
    }
    if same_text(code.as_str(), trimmed_upper(REGION_OTHER).as_str()) {
        proof {
            lemma_other_is_trimmed();
        }
        return REGION_OTHER.to_owned();
    }
    proof {
        lemma_other_is_trimmed();
    }
    REGION_UNKNOWN.to_owned()
}

proof fn lemma_other_is_trimmed()
    ensures
        crate::text::trim(REGION_OTHER@) == REGION_OTHER@,
{
    reveal_strlit("other");
    crate::text::lemma_trim_fixed(REGION_OTHER@);
}

proof fn lemma_code_is_normal(raw: Seq<char>)
    requires
        is_code(code_of(raw)),
    ensures
        normalized(code_of(raw)) == code_of(raw),
{
    let code = code_of(raw);
    let inner = crate::text::trim(raw);
    assert(code[0] == crate::text::upper(inner[0]));
    assert(code[1] == crate::text::upper(inner[1]));
    assert(!crate::text::is_white(code[0]) && !crate::text::is_white(code[1]));
    crate::text::lemma_trim_fixed(code);
    assert(crate::text::upper_all(code) =~= code);
}

proof fn lemma_buckets_are_normal()
    ensures
        normalized(REGION_OTHER@) == REGION_OTHER@,
        normalized(REGION_UNKNOWN@) == REGION_UNKNOWN@,
        REGION_OTHER@ != REGION_UNKNOWN@,
{
    reveal_strlit("other");
    reveal_strlit("unknown");
    assert(REGION_OTHER@.len() == 5);
    assert(REGION_UNKNOWN@.len() == 7);
    crate::text::lemma_trim_fixed(REGION_OTHER@);
    crate::text::lemma_trim_fixed(REGION_UNKNOWN@);
    assert(crate::text::upper_all(REGION_UNKNOWN@).len() == 7);
    assert(crate::text::upper_all(REGION_OTHER@).len() == 5);
}

/// Normalizing twice is normalizing once.
pub proof fn law_normal_regions_stay(region: Seq<char>)
    ensures
        normalized(normalized(region)) == normalized(region),
{
    if is_code(code_of(region)) {
        lemma_code_is_normal(region);
    }
    lemma_buckets_are_normal();
}

/// A region picked from headers is in normal form already, so what is parsed
/// is what is counted.
pub proof fn law_parsed_regions_are_normal(
    cf_ip_country: Option<&str>,
    vercel_ip_country: Option<&str>,
    cloudfront_viewer_country: Option<&str>,
)
    ensures
        normalized(region_of(cf_ip_country, vercel_ip_country, cloudfront_viewer_country))
            == region_of(cf_ip_country, vercel_ip_country, cloudfront_viewer_country),
{
    lemma_buckets_are_normal();
    if holds_code(cf_ip_country) {
        lemma_code_is_normal(cf_ip_country.unwrap()@);
    } else if holds_code(vercel_ip_country) {
        lemma_code_is_normal(vercel_ip_country.unwrap()@);
    } else if holds_code(cloudfront_viewer_country) {
        lemma_code_is_normal(cloudfront_viewer_country.unwrap()@);
    }
}

// ---------------------------------------------------------------------------
// Visitor identity
// ---------------------------------------------------------------------------

/// A text up to its first comma, or all of it.
pub open spec fn before_comma(s: Seq<char>) -> Seq<char>
    decreases s.len(),
{
    if s.len() == 0 || s[0] == ',' {
        Seq::empty()
    } else {
        seq![s[0]] + before_comma(s.drop_first())
    }
}

/// The address that identifies a visitor: the first forwarded entry, where it
/// is not blank, else the peer.
pub open spec fn visitor_address(forwarded_for: Option<&str>, peer: Seq<char>) -> Seq<char> {
    match forwarded_for {
        Some(header) => {
            let first = crate::text::trim(before_comma(header@));
            if first.len() > 0 {
                first
            } else {
                peer
            }
        },
        None => peer,
    }
}

fn first_entry(header: &str) -> (r: String)
    ensures
        r@ == crate::text::trim(before_comma(header@)),
{
    let chars = chars_of(header);
    let mut head: Vec<char> = Vec::new();
    let mut i: usize = 0;
    assert(chars@.skip(0) =~= chars@);
    while i < chars.len() && chars[i] != ','
        invariant
            i <= chars@.len(),
            chars@ == header@,
            head@ + before_comma(chars@.skip(i as int)) == before_comma(header@),
        decreases chars@.len() - i,
    {
        assert(chars@.skip(i as int).drop_first() =~= chars@.skip(i + 1));
        head.push(chars[i]);
        assert(head@ + before_comma(chars@.skip(i + 1)) =~= head@.drop_last() + (seq![
            chars@[i as int],
        ] + before_comma(chars@.skip(i + 1))));
        i = i + 1;
    }
    assert(head@ + Seq::<char>::empty() =~= head@);
    let (from, to) = trim_bounds(&head);
    string_of(&head, from, to)
}

/// Builds the visitor identity key: the first `X-Forwarded-For` entry, or the
/// peer where there is none, then a zero character and the user agent, so
/// that visitors behind one address still separate. The key is only ever
/// hashed.
#[must_use]
pub fn visitor_key(forwarded_for: Option<&str>, peer: &str, user_agent: &str) -> (r: String)
    ensures
        r@ == visitor_address(forwarded_for, peer@).push('\0') + user_agent@,
{
    let mut key = match forwarded_for {
        Some(header) => {
            let first = first_entry(header);
            if first.as_str().unicode_len() > 0 {
                first
            } else {
                peer.to_owned()
            }
        },
        None => peer.to_owned(),
    };
    key.push('\0');
    key.append(user_agent);
    key
}

/// Visitors behind one address stay apart when their user agents differ.
pub proof fn law_user_agents_separate(address: Seq<char>, agent: Seq<char>, other: Seq<char>)
    ensures
        address.push('\0') + agent == address.push('\0') + other ==> agent == other,
{
    let n = address.len() + 1;
    let a = address.push('\0') + agent;
    let b = address.push('\0') + other;
    if a == b {
        assert(a.skip(n as int) =~= agent);
        assert(b.skip(n as int) =~= other);
    }
}

// ---------------------------------------------------------------------------
// Tracker
// ---------------------------------------------------------------------------

/// A tracker as a mathematical value.
pub ghost struct TrackerModel {
    /// The sketch of each region that is held.
    pub sketches: Map<Seq<char>, Seq<u8>>,
    /// The cap on distinct regions, beside the bucket for the excess.
    pub max_regions: nat,
}

impl TrackerModel {
    /// The bucket that a visit of a region in normal form falls into: its
    /// own, unless it is not held and the cap is reached.
    pub open spec fn bucket(self, region: Seq<char>) -> Seq<char> {
        if !self.sketches.contains_key(region) && self.sketches.dom().len() >= self.max_regions {
            REGION_OTHER@
        } else {
            region
        }
    }

    /// The sketch of a bucket; an empty one where it is not held.
    pub open spec fn sketch(self, bucket: Seq<char>) -> Seq<u8> {
        if self.sketches.contains_key(bucket) {
            self.sketches[bucket]
        } else {
            hll::empty_registers()
        }
    }

    /// The tracker after a visit.
    pub open spec fn visited(self, visitor_key: Seq<char>, region: Seq<char>) -> TrackerModel {
        let bucket = self.bucket(normalized(region));
        TrackerModel {
            sketches: self.sketches.insert(
                bucket,
                hll::folded(self.sketch(bucket), hll::key_hash(visitor_key)),
            ),
            ..self
        }
    }

    /// The estimate for a region; 0 where it is not held.
    pub open spec fn estimate_of(self, region: Seq<char>) -> u64 {
        if self.sketches.contains_key(normalized(region)) {
            hll::estimated(self.sketches[normalized(region)])
        } else {
            0
        }
    }

    /// What every tracker keeps: a cap in range, at most one region more than
    /// the cap and that only as the bucket for the excess, regions in normal
    /// form and valid sketches.
    pub open spec fn valid(self) -> bool {
        &&& 1 <= self.max_regions <= LARGEST_MAX_REGIONS
        &&& self.sketches.dom().finite()
        &&& self.sketches.dom().len() <= self.max_regions + 1
        &&& self.sketches.dom().len() > self.max_regions ==> self.sketches.contains_key(
            REGION_OTHER@,
        )
        &&& forall|region: Seq<char>| #[trigger]
            self.sketches.contains_key(region) ==> {
                &&& normalized(region) == region
                &&& hll::valid_registers(self.sketches[region])
            }
    }
}

/// Per-region visitor tracker.
#[derive(Debug)]
pub struct VisitorsTracker {
    regions: Vec<(String, Hll)>,
    max_regions: usize,
}

spec fn sketch_map(regions: Seq<(String, Hll)>) -> Map<Seq<char>, Seq<u8>>
    decreases regions.len(),
{
    if regions.len() == 0 {
        Map::empty()
    } else {
        sketch_map(regions.drop_last()).insert(regions.last().0@, regions.last().1@)
    }
}

spec fn distinct_names(regions: Seq<(String, Hll)>) -> bool {
    forall|i: int, j: int|
        0 <= i < j < regions.len() ==> (#[trigger] regions[i]).0@ != (#[trigger] regions[j]).0@
}

impl View for VisitorsTracker {
    type V = TrackerModel;

    closed spec fn view(&self) -> TrackerModel {
        TrackerModel {
            sketches: sketch_map(self.regions@),
            max_regions: self.max_regions as nat,
        }
    }
}

proof fn lemma_sketch_map(regions: Seq<(String, Hll)>)
    requires
        distinct_names(regions),
    ensures
        sketch_map(regions).dom().finite(),
        sketch_map(regions).dom().len() == regions.len(),
        forall|i: int|
            0 <= i < regions.len() ==> {
                &&& sketch_map(regions).contains_key((#[trigger] regions[i]).0@)
                &&& sketch_map(regions)[regions[i].0@] == regions[i].1@
            },
        forall|name: Seq<char>| #[trigger]
            sketch_map(regions).contains_key(name) ==> exists|i: int|
                0 <= i < regions.len() && (#[trigger] regions[i]).0@ == name,
    decreases regions.len(),
{
    if regions.len() > 0 {
        let before = regions.drop_last();
        assert forall|i: int, j: int| 0 <= i < j < before.len() implies (#[trigger] before[i]).0@
            != (#[trigger] before[j]).0@ by {
            assert(regions[i].0@ != regions[j].0@);
        }
        lemma_sketch_map(before);
        let last = regions.last();
        assert(!sketch_map(before).contains_key(last.0@)) by {
            if sketch_map(before).contains_key(last.0@) {
                let i = choose|i: int|
                    0 <= i < before.len() && (#[trigger] before[i]).0@ == last.0@;
                assert(regions[i].0@ != regions[regions.len() - 1].0@);
            }
        }
        assert forall|i: int| 0 <= i < regions.len() implies {
            &&& sketch_map(regions).contains_key((#[trigger] regions[i]).0@)
            &&& sketch_map(regions)[regions[i].0@] == regions[i].1@
        } by {
            if i < before.len() {
                assert(before[i] == regions[i]);
                assert(regions[i].0@ != last.0@);
            }
        }
        assert forall|name: Seq<char>| #[trigger]
            sketch_map(regions).contains_key(name) implies exists|i: int|
            0 <= i < regions.len() && (#[trigger] regions[i]).0@ == name by {
            if name == last.0@ {
                assert(regions[regions.len() - 1].0@ == name);
            } else {
                let i = choose|i: int| 0 <= i < before.len() && (#[trigger] before[i]).0@ == name;
                assert(regions[i].0@ == name);
            }
        }
    }
}

proof fn lemma_sketch_map_update(regions: Seq<(String, Hll)>, i: int, entry: (String, Hll))
    requires
        distinct_names(regions),
        0 <= i < regions.len(),
        entry.0@ == regions[i].0@,
    ensures
        distinct_names(regions.update(i, entry)),
        sketch_map(regions.update(i, entry)) == sketch_map(regions).insert(entry.0@, entry.1@),
    decreases regions.len(),
{
    let updated = regions.update(i, entry);
    assert forall|a: int, b: int| 0 <= a < b < updated.len() implies (#[trigger] updated[a]).0@ != (
    #[trigger] updated[b]).0@ by {
        assert(regions[a].0@ != regions[b].0@);
    }
    let before = regions.drop_last();
    let last = regions.last();
    assert forall|a: int, b: int| 0 <= a < b < before.len() implies (#[trigger] before[a]).0@ != (
    #[trigger] before[b]).0@ by {
        assert(regions[a].0@ != regions[b].0@);
    }
    if i == regions.len() - 1 {
        assert(updated.drop_last() =~= before);
        assert(sketch_map(updated) =~= sketch_map(regions).insert(entry.0@, entry.1@));
    } else {
        assert(updated.drop_last() =~= before.update(i, entry));
        assert(updated.last() == last);
        lemma_sketch_map_update(before, i, entry);
        assert(regions[i].0@ != regions[regions.len() - 1].0@);
        assert(sketch_map(updated) =~= sketch_map(regions).insert(entry.0@, entry.1@));
    }
}

/// A visit keeps a tracker valid: however many regions are seen, it holds at
/// most one more than its cap, namely the bucket for the excess, and each
/// under its normal form.
pub proof fn law_trackers_stay_bounded(
    s: TrackerModel,
    visitor_key: Seq<char>,
    region: Seq<char>,
)
    requires
        s.valid(),
    ensures
        s.visited(visitor_key, region).valid(),
{
    let t = s.visited(visitor_key, region);
    let bucket = s.bucket(normalized(region));
    law_normal_regions_stay(region);
    lemma_buckets_are_normal();
    assert(hll::valid_registers(s.sketch(bucket)));
    hll::law_registers_only_grow(s.sketch(bucket), hll::key_hash(visitor_key));
    assert(t.sketches.dom() =~= s.sketches.dom().insert(bucket));
}

impl VisitorsTracker {
    /// What every tracker keeps.
    pub closed spec fn wf(&self) -> bool {
        &&& self@.valid()
        &&& distinct_names(self.regions@)
    }

    /// New tracker holding at most `max_regions` distinct regions (clamped to
    /// 1..=4096); excess regions fold into [`REGION_OTHER`].
    #[must_use]
    pub fn new(max_regions: usize) -> (r: Self)
        ensures
            r.wf(),
            r@.valid(),
            r@.sketches == Map::<Seq<char>, Seq<u8>>::empty(),
            r@.max_regions == (if max_regions < 1 {
                1
            } else if max_regions > LARGEST_MAX_REGIONS {
                LARGEST_MAX_REGIONS as int
            } else {
                max_regions as int
            }),
    {
        let max_regions: usize = if max_regions < 1 {
            1
        } else if max_regions > LARGEST_MAX_REGIONS {
            LARGEST_MAX_REGIONS
        } else {
            max_regions
        };
        VisitorsTracker { regions: Vec::new(), max_regions }
    }

    fn find(&self, region: &str) -> (r: Option<usize>)
        requires
            distinct_names(self.regions@),
        ensures
            match r {
                Some(i) => {
                    &&& i < self.regions@.len()
                    &&& self.regions@[i as int].0@ == region@
                    &&& self@.sketches.contains_key(region@)
                    &&& self@.sketches[region@] == self.regions@[i as int].1@
                },
                None => {
                    &&& !self@.sketches.contains_key(region@)
                    &&& forall|i: int|
                        0 <= i < self.regions@.len() ==> (#[trigger] self.regions@[i]).0@
                            != region@
                },
            },
    {
        proof {
            lemma_sketch_map(self.regions@);
        }
        let mut i: usize = 0;
        while i < self.regions.len()
            invariant
                i <= self.regions@.len(),
                forall|j: int| 0 <= j < i ==> (#[trigger] self.regions@[j]).0@ != region@,
                forall|j: int|
                    0 <= j < self.regions@.len() ==> {
                        &&& sketch_map(self.regions@).contains_key((#[trigger] self.regions@[j]).0@)
                        &&& sketch_map(self.regions@)[self.regions@[j].0@] == self.regions@[j].1@
                    },
            decreases self.regions@.len() - i,
        {
            if same_text(self.regions[i].0.as_str(), region) {
                return Some(i);
            }
            i = i + 1;
        }
        None
    }

    /// Records one visit in the sketch of its region.
    pub fn observe(&mut self, visitor_key: &str, region: &str) -> (r: bool)
        requires
            old(self).wf(),
        ensures
            final(self).wf(),
            final(self)@.valid(),
            final(self)@ == old(self)@.visited(visitor_key@, region@),
            r,
    {
        proof {
            lemma_sketch_map(self.regions@);
            law_normal_regions_stay(region@);
            lemma_buckets_are_normal();
        }
        let normal = normalize_region(region);
        let bucket = if self.find(normal.as_str()).is_none() && self.regions.len()
            >= self.max_regions {
            REGION_OTHER.to_owned()
        } else {
            normal
        };
        let ghost before = self@;
        assert(bucket@ == before.bucket(normalized(region@)));
        match self.find(bucket.as_str()) {
            Some(i) => {
                let ghost regions = self.regions@;
                self.regions[i].1.add(visitor_key);
                proof {
                    lemma_sketch_map_update(regions, i as int, self.regions@[i as int]);
                    assert(self.regions@ =~= regions.update(i as int, self.regions@[i as int]));
                }
            },
            None => {
                let mut sketch = Hll::new();
                sketch.add(visitor_key);
                let ghost regions = self.regions@;
                self.regions.push((bucket, sketch));
                assert(self.regions@.drop_last() =~= regions);
            },
        }
        proof {
            law_trackers_stay_bounded(before, visitor_key@, region@);
        }
        true
    }

    /// Current estimate for one region (0 when unseen).
    #[must_use]
    pub fn estimate(&self, region: &str) -> (r: u64)
        requires
            self.wf(),
        ensures
            r == self@.estimate_of(region@),
    {
        let normal = normalize_region(region);
        match self.find(normal.as_str()) {
            Some(i) => {
                assert(hll::valid_registers(self@.sketches[normal@]));
                self.regions[i].1.estimate()
            },
            None => 0,
        }
    }

    /// Appends every region with its estimate, each once, and returns how
    /// many there are.
    pub fn snapshot(&self, out: &mut Vec<(String, u64)>) -> (r: usize)
        requires
            self.wf(),
        ensures
            r == self@.sketches.dom().len(),
            exported(self@, final(out)@.skip(old(out)@.len() as int)),
            final(out)@.take(old(out)@.len() as int) == old(out)@,
            final(out)@.len() == old(out)@.len() + r,
    {
        proof {
            lemma_sketch_map(self.regions@);
        }
        let ghost start = out@.len() as int;
        let mut i: usize = 0;
        while i < self.regions.len()
            invariant
                i <= self.regions@.len(),
                start == old(out)@.len(),
                out@.len() == start + i,
                out@.take(start) =~= old(out)@,
                self.wf(),
                forall|j: int|
                    0 <= j < self.regions@.len() ==> {
                        &&& sketch_map(self.regions@).contains_key((#[trigger] self.regions@[j]).0@)
                        &&& sketch_map(self.regions@)[self.regions@[j].0@] == self.regions@[j].1@
                    },
                forall|j: int|
                    0 <= j < i ==> {
                        &&& (#[trigger] out@[start + j]).0@ == self.regions@[j].0@
                        &&& out@[start + j].1 == hll::estimated(self.regions@[j].1@)
                    },
            decreases self.regions@.len() - i,
        {
            assert(self@.sketches.contains_key(self.regions@[i as int].0@));
            let entry = (self.regions[i].0.clone(), self.regions[i].1.estimate());
            out.push(entry);
            i = i + 1;
        }
        proof {
            let added = out@.skip(start);
            assert forall|j: int| 0 <= j < added.len() implies {
                &&& self@.sketches.contains_key((#[trigger] added[j]).0@)
                &&& added[j].1 == hll::estimated(self@.sketches[added[j].0@])
            } by {
                assert(added[j] == out@[start + j]);
                assert(self.regions@[j].0@ == added[j].0@);
            }
            assert forall|j: int, k: int| 0 <= j < k < added.len() implies (#[trigger] added[j]).0@
                != (#[trigger] added[k]).0@ by {
                assert(added[j] == out@[start + j] && added[k] == out@[start + k]);
                assert(self.regions@[j].0@ != self.regions@[k].0@);
            }
        }
        i
    }

    /// Distinct regions currently held.
    #[must_use]
    pub fn region_count(&self) -> (r: usize)
        requires
            self.wf(),
        ensures
            r == self@.sketches.dom().len(),
    {
        proof {
            lemma_sketch_map(self.regions@);
        }
        self.regions.len()
    }
}

/// Whether a list holds each region of a tracker once, with its estimate: as
/// many entries as there are regions, all of them held, none of them twice.
pub open spec fn exported(s: TrackerModel, list: Seq<(String, u64)>) -> bool {
    &&& list.len() == s.sketches.dom().len()
    &&& forall|j: int|
        0 <= j < list.len() ==> {
            &&& s.sketches.contains_key((#[trigger] list[j]).0@)
            &&& list[j].1 == hll::estimated(s.sketches[list[j].0@])
        }
    &&& forall|j: int, k: int|
        0 <= j < k < list.len() ==> (#[trigger] list[j]).0@ != (#[trigger] list[k]).0@
}

/// The label pairs of a visit: its region, in normal form.
#[must_use]
pub fn visit_labels(region: &str) -> (r: Vec<(String, String)>)
    ensures
        crate::types::label_views(r@) == seq![("region"@, normalized(region@))],
{
    let mut labels: Vec<(String, String)> = Vec::new();
    labels.push(("region".to_owned(), normalize_region(region)));
    assert(crate::types::label_views(labels@) =~= seq![("region"@, normalized(region@))]);
    labels
}

/// The tracker to share in a process: with the default cap.
#[must_use]
pub fn global_tracker() -> (r: VisitorsTracker)
    ensures
        r.wf(),
        r@.sketches == Map::<Seq<char>, Seq<u8>>::empty(),
        r@.max_regions == DEFAULT_MAX_REGIONS,
{
    VisitorsTracker::new(DEFAULT_MAX_REGIONS)
}

/// Records one visit on a shared tracker. Nothing is passed when the tracker
/// is contended: then the visit is not folded in, and `false` says so.
pub fn observe_visitor(tracker: Option<&mut VisitorsTracker>, visitor_key: &str, region: &str) -> (r:
    bool)
    requires
        tracker matches Some(t) ==> t.wf(),
    ensures
        r == (tracker is Some),
        tracker matches Some(t) ==> final(t).wf() && final(t)@ == t@.visited(
            visitor_key@,
            region@,
        ),
{
    match tracker {
        Some(t) => t.observe(visitor_key, region),
        None => false,
    }
}

/// Appends the estimates of a shared tracker. Nothing is passed when the
/// tracker is contended: then nothing is appended and no region counted.
pub fn snapshot_visitors(tracker: Option<&VisitorsTracker>, out: &mut Vec<(String, u64)>) -> (r:
    usize)
    requires
        tracker matches Some(t) ==> t.wf(),
    ensures
        match tracker {
            Some(t) => {
                &&& r == t@.sketches.dom().len()
                &&& exported(t@, final(out)@.skip(old(out)@.len() as int))
                &&& final(out)@.take(old(out)@.len() as int) == old(out)@
            },
            None => r == 0 && final(out)@ == old(out)@,
        },
{
    match tracker {
        Some(t) => t.snapshot(out),
        None => 0,
    }
}

/// Duplicate visits change nothing: a visitor who comes back to the same
/// region leaves the tracker as it is.
pub proof fn law_repeated_visit_changes_nothing(
    s: TrackerModel,
    visitor_key: Seq<char>,
    region: Seq<char>,
)
    requires
        s.valid(),
    ensures
        s.visited(visitor_key, region).visited(visitor_key, region) == s.visited(
            visitor_key,
            region,
        ),
{
    let t = s.visited(visitor_key, region);
    let bucket = s.bucket(normalized(region));
    assert(t.sketches.dom() =~= s.sketches.dom().insert(bucket));
    assert(t.bucket(normalized(region)) == bucket);
    assert(hll::valid_registers(s.sketch(bucket)));
    hll::law_duplicates_are_ignored(s.sketch(bucket), hll::key_hash(visitor_key));
    assert(t.visited(visitor_key, region).sketches =~= t.sketches);
}

/// Regions beyond the cap share one bucket: a visit of a region that is not
/// held when the cap is reached leaves every region but that bucket alone,
/// and the region itself stays unseen.
pub proof fn law_excess_regions_share_a_bucket(
    s: TrackerModel,
    visitor_key: Seq<char>,
    region: Seq<char>,
    other: Seq<char>,
)
    requires
        s.valid(),
        !s.sketches.contains_key(normalized(region)),
        s.sketches.dom().len() >= s.max_regions,
    ensures
        s.visited(visitor_key, region).sketches.contains_key(REGION_OTHER@),
        other != REGION_OTHER@ ==> s.visited(visitor_key, region).sketches.contains_key(other)
            == s.sketches.contains_key(other),
        other != REGION_OTHER@ && s.sketches.contains_key(other) ==> s.visited(
            visitor_key,
            region,
        ).sketches[other] == s.sketches[other],
        normalized(region) != REGION_OTHER@ ==> s.visited(visitor_key, region).estimate_of(region)
            == 0,
{
}

/// Regions do not affect each other: a visit leaves the estimate of every
/// region alone that falls into another bucket.
pub proof fn law_regions_are_independent(
    s: TrackerModel,
    visitor_key: Seq<char>,
    region: Seq<char>,
    other: Seq<char>,
)
    requires
        s.valid(),
        normalized(other) != s.bucket(normalized(region)),
    ensures
        s.visited(visitor_key, region).estimate_of(other) == s.estimate_of(other),
{
}

proof fn lemma_before_comma(s: Seq<char>, n: int)
    requires
        0 <= n <= s.len(),
        forall|i: int| 0 <= i < n ==> #[trigger] s[i] != ',',
        n < s.len() ==> s[n] == ',',
    ensures
        before_comma(s) == s.take(n),
    decreases n,
{
    if n > 0 {
        assert(s[0] != ',');
        let rest = s.drop_first();
        assert forall|i: int| 0 <= i < n - 1 implies #[trigger] rest[i] != ',' by {
            assert(rest[i] == s[i + 1]);
        }
        lemma_before_comma(rest, n - 1);
        assert(seq![s[0]] + rest.take(n - 1) =~= s.take(n));
    } else {
        assert(s.take(0) =~= Seq::<char>::empty());
    }
}

/// A visitor is identified by what stands before the first comma of the
/// header, all of it but for white space at its ends, or by the peer where
/// nothing is left; a header without a comma counts as a whole.
pub proof fn law_first_forwarded_entry_identifies(header: &str, n: int, peer: Seq<char>)
    requires
        0 <= n <= header@.len(),
        forall|i: int| 0 <= i < n ==> #[trigger] header@[i] != ',',
        n < header@.len() ==> header@[n] == ',',
    ensures
        visitor_address(Some(header), peer) == (if crate::text::trim(header@.take(n)).len() > 0 {
            crate::text::trim(header@.take(n))
        } else {
            peer
        }),
        visitor_address(None, peer) == peer,
{
    lemma_before_comma(header@, n);
}

/// An address that neither begins nor ends with white space and holds no
/// comma identifies its visitor as it is, whatever follows it after a comma.
pub proof fn law_addresses_are_kept_whole(header: &str, address: Seq<char>, peer: Seq<char>)
    requires
        address.len() > 0,
        forall|i: int| 0 <= i < address.len() ==> #[trigger] address[i] != ',',
        33 <= address[0] as u32 <= 126,
        33 <= address.last() as u32 <= 126,
        address.is_prefix_of(header@),
        address.len() < header@.len() ==> header@[address.len() as int] == ',',
    ensures
        visitor_address(Some(header), peer) == address,
{
    let n = address.len() as int;
    assert(header@.take(n) =~= address);
    assert forall|i: int| 0 <= i < n implies #[trigger] header@[i] != ',' by {
        assert(header@.take(n)[i] == address[i]);
    }
    lemma_before_comma(header@, n);
    crate::text::lemma_trim_fixed(address);
}

/// The region of a header: its trimmed text in upper case where that is two
/// ASCII letters. A header that holds anything else, or is missing, counts as
/// if it were not asked for, and without any the region is `unknown`.
pub proof fn law_first_valid_header_wins(
    first: Option<&str>,
    second: Option<&str>,
    third: Option<&str>,
)
    ensures
        region_of(None, None, None) == "unknown"@,
        match first {
            Some(raw) => {
                let t = crate::text::trim(raw@);
                let letter = |c: char| (97 <= c as u32 <= 122) || (65 <= c as u32 <= 90);
                let large = |c: char|
                    if 97 <= c as u32 <= 122 {
                        (c as u32 - 32) as char
                    } else {
                        c
                    };
                if t.len() == 2 && letter(t[0]) && letter(t[1]) {
                    region_of(first, second, third) == seq![large(t[0]), large(t[1])]
                } else {
                    region_of(first, second, third) == region_of(second, third, None)
                }
            },
            None => region_of(first, second, third) == region_of(second, third, None),
        },
{
    if let Some(raw) = first {
        let t = crate::text::trim(raw@);
        let code = code_of(raw@);
        assert(code.len() == t.len());
        if t.len() == 2 {
            assert(code[0] == crate::text::upper(t[0]) && code[1] == crate::text::upper(t[1]));
            assert(code =~= seq![crate::text::upper(t[0]), crate::text::upper(t[1])]);
        }
    }
}

/// The normal form of a region: two ASCII letters in upper case, the bucket
/// for excess regions however it is written, and `unknown` for all else.
pub proof fn law_regions_are_codes_or_buckets(region: Seq<char>)
    ensures
        ({
            let t = crate::text::trim(region);
            let letter = |c: char| (97 <= c as u32 <= 122) || (65 <= c as u32 <= 90);
            let large = |c: char|
                if 97 <= c as u32 <= 122 {
                    (c as u32 - 32) as char
                } else {
                    c
                };
            normalized(region) == if t.len() == 2 && letter(t[0]) && letter(t[1]) {
                seq![large(t[0]), large(t[1])]
            } else if t.len() == 5 && large(t[0]) == 'O' && large(t[1]) == 'T' && large(t[2]) == 'H'
                && large(t[3]) == 'E' && large(t[4]) == 'R' {
                "other"@
            } else {
                "unknown"@
            }
        }),
{
    let t = crate::text::trim(region);
    let code = code_of(region);
    let other = crate::text::upper_all(REGION_OTHER@);
    reveal_strlit("other");
    assert(code.len() == t.len());
    assert forall|i: int| 0 <= i < t.len() implies #[trigger] code[i] == crate::text::upper(t[i]) by {}
    assert(other =~= seq!['O', 'T', 'H', 'E', 'R']);
    if t.len() == 2 {
        assert(code =~= seq![crate::text::upper(t[0]), crate::text::upper(t[1])]);
    }
    if t.len() == 5 && code[0] == 'O' && code[1] == 'T' && code[2] == 'H' && code[3] == 'E'
        && code[4] == 'R' {
        assert(code =~= other);
    }
    if code == other {
        assert(code[0] == other[0] && code[1] == other[1] && code[2] == other[2] && code[3]
            == other[3] && code[4] == other[4]);
    }
}

/// A visit is counted in its region: a region that is held, or for which there
/// is room, has the visitor's hash folded into its own sketch, and a region
/// beyond the cap into that of the bucket for the excess.
pub proof fn law_visits_are_counted_in_their_region(
    s: TrackerModel,
    visitor_key: Seq<char>,
    region: Seq<char>,
)
    requires
        s.valid(),
    ensures
        ({
            let t = s.visited(visitor_key, region);
            let own = s.sketches.contains_key(normalized(region)) || s.sketches.dom().len()
                < s.max_regions;
            let bucket = if own {
                normalized(region)
            } else {
                "other"@
            };
            &&& t.max_regions == s.max_regions
            &&& t.sketches.dom() == s.sketches.dom().insert(bucket)
            &&& s.sketches.contains_key(bucket) ==> t.sketches[bucket] == hll::folded(
                s.sketches[bucket],
                hll::key_hash(visitor_key),
            )
            &&& !s.sketches.contains_key(bucket) ==> t.sketches[bucket] == hll::folded(
                Seq::new(4096, |i: int| 0u8),
                hll::key_hash(visitor_key),
            )
            &&& !s.sketches.contains_key(bucket) ==> t.estimate_of(bucket) == 1
            &&& own ==> t.estimate_of(region) == hll::estimated(t.sketches[normalized(region)])
            &&& s.sketches.contains_key(normalized(region)) ==> s.estimate_of(region)
                == hll::estimated(s.sketches[normalized(region)])
            &&& !s.sketches.contains_key(normalized(region)) ==> s.estimate_of(region) == 0
        }),
{
    let t = s.visited(visitor_key, region);
    let bucket = s.bucket(normalized(region));
    assert(t.sketches.dom() =~= s.sketches.dom().insert(bucket));
    assert(hll::empty_registers() =~= Seq::new(4096, |i: int| 0u8));
    hll::law_one_visitor_estimates_one(hll::key_hash(visitor_key));
    law_normal_regions_stay(region);
    lemma_buckets_are_normal();
}

/// A snapshot agrees with the estimates: the number beside a region is what
/// asking for that region gives.
pub proof fn law_snapshots_agree_with_estimates(s: TrackerModel, list: Seq<(String, u64)>, j: int)
    requires
        s.valid(),
        exported(s, list),
        0 <= j < list.len(),
    ensures
        list.len() == s.sketches.dom().len(),
        list[j].1 == s.estimate_of(list[j].0@),
        s.sketches.contains_key(list[j].0@),
{
    assert(s.sketches.contains_key(list[j].0@));
}

} // verus!
