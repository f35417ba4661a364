//! The hot store: composite keys, value payloads and the writer's rules.
//!
//! # Key format
//!
//! ```text
//! {:016x}:{:08x}:<metric_name>   (micros since epoch : seq : name)
//! ```
//!
//! Byte order is chronological order, so expiry is a scan below a prefix. The
//! 32-bit wrapping sequence tells apart entries that share microsecond and
//! name.
//!
//! # Value format
//!
//! A JSON payload: `{"value": f64, "metric_type": "counter|gauge|histogram",
//! "labels": {k: v}}`.

use crate::bytes::{push_all, utf8_text};
use crate::json::{copy_value, new_object, object_value, print, put, text_value};
use crate::types::{MetricEntry, Timestamp};
use vstd::prelude::*;
use vstd::utf8::*;

verus! {

/// Partition holding all metric samples.
pub const PARTITION_METRICS: &'static str = "metrics";

/// The lower-case hexadecimal digit of `n`.
pub open spec fn hex_digit(n: nat) -> u8 {
    if n < 10 {
        (48 + n) as u8
    } else {
        (87 + n) as u8
    }
}

/// The last `width` hexadecimal digits of `v`, zero-padded.
pub open spec fn hex_bytes(v: nat, width: nat) -> Seq<u8>
    decreases width,
{
    if width == 0 {
        Seq::empty()
    } else {
        hex_bytes(v / 16, (width - 1) as nat).push(hex_digit(v % 16))
    }
}

/// The composite key of one sample.
pub open spec fn key_bytes(ts_micros: u64, seq: u32, name: Seq<u8>) -> Seq<u8> {
    hex_bytes(ts_micros as nat, 16) + seq![58u8] + hex_bytes(seq as nat, 8) + seq![58u8] + name
}

/// The value of one hexadecimal digit, of either case.
pub open spec fn digit_value(b: u8) -> Option<nat> {
    if 48 <= b <= 57 {
        Some((b - 48) as nat)
    } else if 97 <= b <= 102 {
        Some((b - 87) as nat)
    } else if 65 <= b <= 70 {
        Some((b - 55) as nat)
    } else {
        None
    }
}

/// The number that a string of hexadecimal digits stands for.
pub open spec fn hex_number(s: Seq<u8>) -> nat
    decreases s.len(),
{
    if s.len() == 0 {
        0
    } else {
        hex_number(s.drop_last()) * 16 + digit_value(s.last()).unwrap_or(0)
    }
}

/// Whether every byte is a hexadecimal digit.
pub open spec fn all_hex(s: Seq<u8>) -> bool {
    forall|i: int| 0 <= i < s.len() ==> (#[trigger] digit_value(s[i])) is Some
}

/// A hexadecimal number that fits in 64 bits: at least one digit, of either
/// case, after an optional plus sign.
pub open spec fn hex_u64(s: Seq<u8>) -> Option<u64> {
    let digits = if s.len() > 0 && s[0] == 43 {
        s.drop_first()
    } else {
        s
    };
    if digits.len() > 0 && all_hex(digits) && hex_number(digits) <= u64::MAX {
        Some(hex_number(digits) as u64)
    } else {
        None
    }
}

/// The number of bytes before the first colon, or all of them.
pub open spec fn before_colon(s: Seq<u8>) -> nat
    decreases s.len(),
{
    if s.len() == 0 || s[0] == 58 {
        0
    } else {
        1 + before_colon(s.drop_first())
    }
}

/// What a composite key holds: the timestamp before the first colon and the
/// name after the second.
pub open spec fn key_parts(key: Seq<u8>) -> Option<(u64, Seq<char>)> {
    let a = before_colon(key);
    let rest = key.skip(a as int + 1);
    let b = before_colon(rest);
    let name = rest.skip(b as int + 1);
    if a < key.len() && b < rest.len() && hex_u64(key.take(a as int)) is Some && valid_utf8(name) {
        Some((hex_u64(key.take(a as int)).unwrap(), decode_utf8(name)))
    } else {
        None
    }
}

proof fn lemma_hex_bytes_len(v: nat, width: nat)
    ensures
        hex_bytes(v, width).len() == width,
        all_hex(hex_bytes(v, width)),
        forall|i: int| 0 <= i < width ==> #[trigger] hex_bytes(v, width)[i] != 58,
        forall|i: int| 0 <= i < width ==> #[trigger] hex_bytes(v, width)[i] != 43,
    decreases width,
{
    if width > 0 {
        lemma_hex_bytes_len(v / 16, (width - 1) as nat);
        let d = hex_bytes(v / 16, (width - 1) as nat);
        let s = hex_bytes(v, width);
        assert forall|i: int| 0 <= i < s.len() implies (#[trigger] digit_value(s[i])) is Some by {
            if i < width - 1 {
                assert(s[i] == d[i]);
                assert(digit_value(d[i]) is Some);
            }
        }
        assert forall|i: int| 0 <= i < width implies #[trigger] s[i] != 58 && s[i] != 43 by {
            if i < width - 1 {
                assert(s[i] == d[i]);
            }
        }
    }
}

/// Sixteen to the power of `n`.
pub open spec fn pow16(n: nat) -> nat
    decreases n,
{
    if n == 0 {
        1
    } else {
        16 * pow16((n - 1) as nat)
    }
}

proof fn lemma_hex_number_of_bytes(v: nat, width: nat)
    requires
        v < pow16(width),
    ensures
        hex_number(hex_bytes(v, width)) == v,
    decreases width,
{
    if width > 0 {
        let s = hex_bytes(v, width);
        assert(s.drop_last() =~= hex_bytes(v / 16, (width - 1) as nat));
        assert(v / 16 < pow16((width - 1) as nat));
        lemma_hex_number_of_bytes(v / 16, (width - 1) as nat);
        assert(digit_value(s.last()) == Some(v % 16));
    }
}

proof fn lemma_pow16_values()
    ensures
        pow16(8) == 0x1_0000_0000,
        pow16(16) == 0x1_0000_0000_0000_0000,
{
    reveal_with_fuel(pow16, 17);
}

proof fn lemma_hex_bytes_order(v: nat, w: nat, width: nat) -> (i: int)
    requires
        v < w < pow16(width),
    ensures
        0 <= i < width,
        forall|j: int| 0 <= j < i ==> hex_bytes(v, width)[j] == hex_bytes(w, width)[j],
        hex_bytes(v, width)[i] < hex_bytes(w, width)[i],
    decreases width,
{
    lemma_hex_bytes_len(v, width);
    lemma_hex_bytes_len(w, width);
    lemma_hex_bytes_len(v / 16, (width - 1) as nat);
    lemma_hex_bytes_len(w / 16, (width - 1) as nat);
    if v / 16 == w / 16 {
        assert(v % 16 < w % 16);
        width - 1
    } else {
        lemma_hex_bytes_order(v / 16, w / 16, (width - 1) as nat)
    }
}

proof fn lemma_before_colon(s: Seq<u8>, n: nat)
    requires
        n <= s.len(),
        forall|i: int| 0 <= i < n ==> s[i] != 58,
        n < s.len() ==> s[n as int] == 58,
    ensures
        before_colon(s) == n,
    decreases n,
{
    if n > 0 {
        assert forall|i: int| 0 <= i < n - 1 implies s.drop_first()[i] != 58 by {
            assert(s[i + 1] != 58);
        }
        lemma_before_colon(s.drop_first(), (n - 1) as nat);
    }
}

/// Keys sort by time first: of two samples the earlier one has the smaller
/// key, whatever their sequence numbers and names are.
pub proof fn law_keys_sort_chronologically(
    ts1: u64,
    seq1: u32,
    name1: Seq<u8>,
    ts2: u64,
    seq2: u32,
    name2: Seq<u8>,
)
    requires
        ts1 < ts2,
    ensures
        crate::bytes::lex_less(key_bytes(ts1, seq1, name1), key_bytes(ts2, seq2, name2)),
{
    lemma_pow16_values();
    lemma_hex_bytes_len(ts1 as nat, 16);
    lemma_hex_bytes_len(ts2 as nat, 16);
    let i = lemma_hex_bytes_order(ts1 as nat, ts2 as nat, 16);
    let a = key_bytes(ts1, seq1, name1);
    let b = key_bytes(ts2, seq2, name2);
    assert forall|j: int| 0 <= j < 16 implies #[trigger] a[j] == hex_bytes(ts1 as nat, 16)[j]
        && b[j] == hex_bytes(ts2 as nat, 16)[j] by {}
    assert forall|j: int| 0 <= j < i implies a[j] == b[j] by {
        assert(a[j] == hex_bytes(ts1 as nat, 16)[j]);
    }
    assert(a[i] == hex_bytes(ts1 as nat, 16)[i]);
    assert(crate::bytes::lex_less_at(a, b, i));
}

/// Within one microsecond keys sort by sequence number, whatever the names
/// are, so entries that share time and name still have different keys.
pub proof fn law_sequence_breaks_ties(ts: u64, seq1: u32, name1: Seq<u8>, seq2: u32, name2: Seq<u8>)
    requires
        seq1 < seq2,
    ensures
        crate::bytes::lex_less(key_bytes(ts, seq1, name1), key_bytes(ts, seq2, name2)),
        key_bytes(ts, seq1, name1) != key_bytes(ts, seq2, name2),
{
    lemma_pow16_values();
    lemma_hex_bytes_len(ts as nat, 16);
    lemma_hex_bytes_len(seq1 as nat, 8);
    lemma_hex_bytes_len(seq2 as nat, 8);
    let i = lemma_hex_bytes_order(seq1 as nat, seq2 as nat, 8);
    let a = key_bytes(ts, seq1, name1);
    let b = key_bytes(ts, seq2, name2);
    assert forall|j: int| 17 <= j < 25 implies #[trigger] a[j] == hex_bytes(seq1 as nat, 8)[j - 17]
        && b[j] == hex_bytes(seq2 as nat, 8)[j - 17] by {}
    assert forall|j: int| 0 <= j < 17 + i implies a[j] == b[j] by {
        if j >= 17 {
            assert(a[j] == hex_bytes(seq1 as nat, 8)[j - 17]);
        } else if j == 16 {
            assert(a[16] == 58 && b[16] == 58);
        } else {
            assert(a[j] == hex_bytes(ts as nat, 16)[j] && b[j] == hex_bytes(ts as nat, 16)[j]);
        }
    }
    assert(a[17 + i] == hex_bytes(seq1 as nat, 8)[i]);
    assert(crate::bytes::lex_less_at(a, b, 17 + i));
    crate::bytes::lemma_lex_less_asymmetric(a, b);
}

/// The scan below a cutoff visits exactly the keys of the samples that are
/// older than the cutoff.
pub proof fn law_cutoff_selects_older(cutoff: u64, ts: u64, seq: u32, name: Seq<u8>)
    ensures
        crate::bytes::lex_less(key_bytes(ts, seq, name), hex_bytes(cutoff as nat, 16)) <==> ts < cutoff,
{
    lemma_pow16_values();
    lemma_hex_bytes_len(ts as nat, 16);
    lemma_hex_bytes_len(cutoff as nat, 16);
    let a = key_bytes(ts, seq, name);
    let b = hex_bytes(cutoff as nat, 16);
    assert forall|j: int| 0 <= j < 16 implies #[trigger] a[j] == hex_bytes(ts as nat, 16)[j] by {}
    if ts < cutoff {
        let i = lemma_hex_bytes_order(ts as nat, cutoff as nat, 16);
        assert forall|j: int| 0 <= j < i implies a[j] == b[j] by {
            assert(a[j] == hex_bytes(ts as nat, 16)[j]);
        }
        assert(a[i] == hex_bytes(ts as nat, 16)[i]);
        assert(crate::bytes::lex_less_at(a, b, i));
    } else {
        if ts > cutoff {
            let i = lemma_hex_bytes_order(cutoff as nat, ts as nat, 16);
            assert forall|j: int| 0 <= j < i implies b[j] == a[j] by {
                assert(a[j] == hex_bytes(ts as nat, 16)[j]);
            }
            assert(a[i] == hex_bytes(ts as nat, 16)[i]);
            assert(crate::bytes::lex_less_at(b, a, i));
        } else {
            assert forall|j: int| 0 <= j < 16 implies b[j] == a[j] by {
                assert(a[j] == hex_bytes(ts as nat, 16)[j]);
            }
            assert(crate::bytes::lex_less_at(b, a, 16));
        }
        crate::bytes::lemma_lex_less_asymmetric(b, a);
    }
}

/// Decoding a key gives back the timestamp and the name it was made of.
pub proof fn law_key_round_trip(ts: u64, seq: u32, name: Seq<char>)
    ensures
        key_parts(key_bytes(ts, seq, encode_utf8(name))) == Some((ts, name)),
{
    broadcast use vstd::utf8::encode_utf8_valid_utf8, vstd::utf8::encode_utf8_decode_utf8;

    lemma_pow16_values();
    lemma_hex_bytes_len(ts as nat, 16);
    lemma_hex_bytes_len(seq as nat, 8);
    let h = hex_bytes(ts as nat, 16);
    let q = hex_bytes(seq as nat, 8);
    let n = encode_utf8(name);
    let key = key_bytes(ts, seq, n);
    assert forall|i: int| 0 <= i < 16 implies key[i] != 58 by {
        assert(key[i] == h[i]);
    }
    lemma_before_colon(key, 16);
    let rest = key.skip(17);
    assert(rest =~= q + seq![58u8] + n);
    assert forall|i: int| 0 <= i < 8 implies rest[i] != 58 by {
        assert(rest[i] == q[i]);
    }
    lemma_before_colon(rest, 8);
    assert(rest.skip(9) =~= n);
    assert(key.take(16) =~= h);
    assert(h[0] != 43);
    lemma_hex_number_of_bytes(ts as nat, 16);
}

fn hex_digit_of(n: u8) -> (r: u8)
    requires
        n < 16,
    ensures
        r == hex_digit(n as nat),
{
    if n < 10 {
        48 + n
    } else {
        87 + n
    }
}

fn push_hex(out: &mut Vec<u8>, v: u64, width: usize)
    requires
        width <= 16,
    ensures
        final(out)@ == old(out)@ + hex_bytes(v as nat, width as nat),
    decreases width,
{
    if width > 0 {
        push_hex(out, v / 16, width - 1);
        out.push(hex_digit_of((v % 16) as u8));
        assert(out@ == old(out)@ + hex_bytes(v as nat, width as nat));
    }
}

/// Encodes a composite sort key: `{micros:016x}:{seq:08x}:{name}`.
#[must_use]
pub fn encode_key(ts_micros: u64, seq: u32, name: &str) -> (r: Vec<u8>)
    ensures
        r@ == key_bytes(ts_micros, seq, encode_utf8(name@)),
{
    let mut out: Vec<u8> = Vec::new();
    push_hex(&mut out, ts_micros, 16);
    out.push(58);
    push_hex(&mut out, seq as u64, 8);
    out.push(58);
    push_all(&mut out, name.as_bytes());
    assert(out@ == key_bytes(ts_micros, seq, encode_utf8(name@)));
    out
}

fn digit_of(b: u8) -> (r: Option<u8>)
    ensures
        match r {
            Some(d) => digit_value(b) == Some(d as nat) && d < 16,
            None => digit_value(b) is None,
        },
{
    if 48 <= b && b <= 57 {
        Some(b - 48)
    } else if 97 <= b && b <= 102 {
        Some(b - 87)
    } else if 65 <= b && b <= 70 {
        Some(b - 55)
    } else {
        None
    }
}

proof fn lemma_hex_number_grows(s: Seq<u8>, n: int)
    requires
        0 <= n <= s.len(),
    ensures
        hex_number(s.take(n)) <= hex_number(s),
    decreases s.len() - n,
{
    if n < s.len() {
        lemma_hex_number_grows(s, n + 1);
        assert(s.take(n + 1).drop_last() == s.take(n));
    } else {
        assert(s.take(n) == s);
    }
}

fn parse_hex(s: &[u8], from: usize, to: usize) -> (r: Option<u64>)
    requires
        from <= to <= s@.len(),
    ensures
        r == hex_u64(s@.subrange(from as int, to as int)),
{
    let ghost part = s@.subrange(from as int, to as int);
    let start: usize = if from < to && s[from] == 43 {
        from + 1
    } else {
        from
    };
    let ghost digits = s@.subrange(start as int, to as int);
    assert(part.len() > 0 && part[0] == 43 ==> digits == part.drop_first());
    if start == to {
        return None;
    }
    let mut v: u64 = 0;
    let mut i: usize = start;
    while i < to
        invariant
            start <= i <= to <= s@.len(),
            start < to,
            digits == s@.subrange(start as int, to as int),
            part == s@.subrange(from as int, to as int),
            digits == (if part.len() > 0 && part[0] == 43 {
                part.drop_first()
            } else {
                part
            }),
            v == hex_number(digits.take(i - start)),
            forall|j: int| 0 <= j < i - start ==> (#[trigger] digit_value(digits[j])) is Some,
        decreases to - i,
    {
        let ghost k = i - start;
        assert(digits[k] == s@[i as int]);
        assert(digits.take(k + 1).drop_last() == digits.take(k));
        match digit_of(s[i]) {
            Some(d) => {
                if v > (u64::MAX - d as u64) / 16 {
                    proof {
                        lemma_hex_number_grows(digits, k + 1);
                    }
                    return None;
                }
                v = v * 16 + d as u64;
            },
            None => {
                assert(digit_value(digits[k]) is None);
                return None;
            },
        }
        i = i + 1;
    }
    assert(digits.take(to - start) == digits);
    Some(v)
}

fn find_colon(s: &[u8], from: usize) -> (r: usize)
    requires
        from <= s@.len(),
    ensures
        r == from + before_colon(s@.skip(from as int)),
        r <= s@.len(),
{
    let mut i: usize = from;
    while i < s.len() && s[i] != 58
        invariant
            from <= i <= s@.len(),
            from + before_colon(s@.skip(from as int)) == i + before_colon(s@.skip(i as int)),
        decreases s@.len() - i,
    {
        assert(s@.skip(i as int).drop_first() == s@.skip(i + 1));
        i = i + 1;
    }
    i
}

/// Decodes `(timestamp_micros, metric_name)` from a composite key.
#[must_use]
pub fn decode_key(key: &[u8]) -> (r: Option<(u64, String)>)
    ensures
        match r {
            Some((ts, name)) => key_parts(key@) == Some((ts, name@)),
            None => key_parts(key@) is None,
        },
{
    assert(key@.skip(0) == key@);
    let a = find_colon(key, 0);
    if a == key.len() {
        return None;
    }
    let b = find_colon(key, a + 1);
    if b == key.len() {
        return None;
    }
    let ghost rest = key@.skip(a + 1);
    assert(rest.skip(b - a) == key@.skip(b + 1));
    assert(key@.subrange(0, a as int) == key@.take(a as int));
    assert(key@.skip(b + 1) == key@.subrange(b + 1, key@.len() as int));
    match (parse_hex(key, 0, a), utf8_text(vstd::slice::slice_subrange(key, b + 1, key.len()))) {
        (Some(ts), Some(name)) => Some((ts, name)),
        _ => None,
    }
}

/// The upper bound of the keys that are older than `cutoff_micros`.
#[must_use]
pub fn cutoff_prefix(cutoff_micros: u64) -> (r: String)
    ensures
        encode_utf8(r@) == hex_bytes(cutoff_micros as nat, 16),
{
    let mut out: Vec<u8> = Vec::new();
    push_hex(&mut out, cutoff_micros, 16);
    assert(out@ == hex_bytes(cutoff_micros as nat, 16));
    assert(valid_utf8(out@)) by {
        lemma_hex_bytes_len(cutoff_micros as nat, 16);
        assert forall|i: int| 0 <= i < 16 implies #[trigger] is_leading_byte_width_1(out@[i]) by {
            assert(digit_value(out@[i]) is Some);
        }
        assert(partial_valid_utf8(out@, 0));
        partial_valid_utf8_extend_ascii_block(out@, 0, 16);
        assert(out@.subrange(0, 16) == out@);
    }
    match utf8_text(out.as_slice()) {
        Some(s) => s,
        None => String::new(),
    }
}

/// Micros since the Unix epoch: 0 before it, and at most the largest 64-bit
/// number.
pub open spec fn micros(t: Timestamp) -> u64 {
    let n = t.secs as int * 1_000_000 + t.nanos as int / 1000;
    if t.before_epoch {
        0
    } else if n > u64::MAX {
        u64::MAX
    } else {
        n as u64
    }
}

/// Micros since the Unix epoch for an entry (saturates at 0 on clock skew).
#[must_use]
pub fn entry_micros<V>(entry: &MetricEntry<V>) -> (r: u64)
    ensures
        r == micros(entry.timestamp),
{
    if entry.timestamp.before_epoch {
        return 0;
    }
    let n: u128 = entry.timestamp.secs as u128 * 1_000_000 + entry.timestamp.nanos as u128 / 1000;
    if n > u64::MAX as u128 {
        u64::MAX
    } else {
        n as u64
    }
}

/// A point in time in nanoseconds since the epoch, negative before it.
pub open spec fn nanos_of(t: Timestamp) -> int {
    let n = t.secs as int * 1_000_000_000 + t.nanos as int;
    if t.before_epoch {
        -n
    } else {
        n
    }
}

/// The store keeps the order of time: an entry captured earlier never has a
/// later timestamp in its key, and where the timestamps differ its key sorts
/// first.
pub proof fn law_entries_sort_chronologically(
    t1: Timestamp,
    seq1: u32,
    name1: Seq<u8>,
    t2: Timestamp,
    seq2: u32,
    name2: Seq<u8>,
)
    requires
        nanos_of(t1) <= nanos_of(t2),
    ensures
        micros(t1) <= micros(t2),
        micros(t1) < micros(t2) ==> crate::bytes::lex_less(
            key_bytes(micros(t1), seq1, name1),
            key_bytes(micros(t2), seq2, name2),
        ),
{
    if micros(t1) < micros(t2) {
        law_keys_sort_chronologically(micros(t1), seq1, name1, micros(t2), seq2, name2);
    }
}

/// The JSON object of label pairs, in which a later pair with the same key
/// replaces an earlier one.
pub open spec fn label_object(labels: Seq<(Seq<char>, Seq<char>)>) -> Map<
    Seq<char>,
    crate::json::Json,
>
    decreases labels.len(),
{
    if labels.len() == 0 {
        Map::empty()
    } else {
        label_object(labels.drop_last()).insert(
            labels.last().0,
            crate::json::Json::Text(labels.last().1),
        )
    }
}

/// The payload document of one observation.
pub open spec fn payload(
    value: crate::json::Json,
    kind: Seq<char>,
    labels: Seq<(Seq<char>, Seq<char>)>,
) -> crate::json::Json {
    crate::json::Json::Object(
        Map::empty().insert("labels"@, crate::json::Json::Object(label_object(labels))).insert(
            "metric_type"@,
            crate::json::Json::Text(kind),
        ).insert("value"@, value),
    )
}

/// The payload document of an entry.
pub open spec fn entry_payload(entry: MetricEntry<serde_json::Value>) -> crate::json::Json {
    payload(
        crate::json::json(entry.value),
        entry.metric_type.name(),
        crate::types::label_views(entry.labels@),
    )
}

/// A sample as JSON: a number, or `null` for one that JSON cannot write.
pub open spec fn is_sample(doc: crate::json::Json) -> bool {
    doc is Number || doc is Null
}

/// Whether labels can be stored as a JSON object: none of their keys is
/// reserved by the reader.
pub open spec fn storable(labels: Seq<(Seq<char>, Seq<char>)>) -> bool {
    forall|i: int| 0 <= i < labels.len() ==> !crate::json::reserved((#[trigger] labels[i]).0)
}

/// Sanitized labels can be stored, whatever they were made of, and so can the
/// labels of every entry that was built with `MetricEntry::new` or
/// `MetricEntry::at`.
pub proof fn law_sanitized_labels_are_storable(labels: Seq<(Seq<char>, Seq<char>)>)
    ensures
        storable(crate::types::sanitized_labels(labels)),
{
    let clean = crate::types::sanitized_labels(labels);
    crate::types::law_sanitized_labels_are_bounded(labels);
    assert forall|i: int| 0 <= i < clean.len() implies !crate::json::reserved(
        (#[trigger] clean[i]).0,
    ) by {
        crate::json::lemma_reserved(clean[i].0);
        assert(crate::types::name_char(clean[i].0[0], true));
    }
}

proof fn lemma_label_object_texts(labels: Seq<(Seq<char>, Seq<char>)>)
    requires
        storable(labels),
    ensures
        crate::json::all_texts(label_object(labels)),
    decreases labels.len(),
{
    if labels.len() > 0 {
        assert forall|i: int| 0 <= i < labels.len() - 1 implies !crate::json::reserved(
            (#[trigger] labels.drop_last()[i]).0,
        ) by {
            assert(labels.drop_last()[i] == labels[i]);
        }
        lemma_label_object_texts(labels.drop_last());
    }
}

pub(crate) proof fn lemma_payload_keys()
    ensures
        "value"@ != "metric_type"@,
        "value"@ != "labels"@,
        "metric_type"@ != "labels"@,
        !crate::json::reserved("value"@),
        !crate::json::reserved("metric_type"@),
        !crate::json::reserved("labels"@),
{
    crate::json::lemma_reserved("value"@);
    crate::json::lemma_reserved("metric_type"@);
    crate::json::lemma_reserved("labels"@);
    reveal_strlit("value");
    reveal_strlit("metric_type");
    reveal_strlit("labels");
    assert("value"@.len() == 5);
    assert("metric_type"@.len() == 11);
    assert("labels"@.len() == 6);
}

fn label_members(labels: &Vec<(String, String)>) -> (r: serde_json::Map<String, serde_json::Value>)
    ensures
        crate::json::members(r) == label_object(crate::types::label_views(labels@)),
{
    let ghost views = crate::types::label_views(labels@);
    let mut m = new_object();
    let mut i: usize = 0;
    while i < labels.len()
        invariant
            i <= labels@.len(),
            views == crate::types::label_views(labels@),
            crate::json::members(m) == label_object(views.take(i as int)),
        decreases labels@.len() - i,
    {
        put(&mut m, labels[i].0.clone(), text_value(labels[i].1.clone()));
        assert(views.take(i + 1).drop_last() =~= views.take(i as int));
        i = i + 1;
    }
    assert(views.take(i as int) =~= views);
    m
}

/// Encodes the JSON value payload for one observation. Where the sample reads
/// back from its own text and the labels can be stored, the whole payload
/// reads back with the same flavour and the same labels.
#[must_use]
pub fn encode_value(entry: &MetricEntry<serde_json::Value>) -> (r: Vec<u8>)
    ensures
        r@ == encode_utf8(crate::json::json_text(entry_payload(*entry))),
        is_sample(crate::json::json(entry.value)) && storable(
            crate::types::label_views(entry.labels@),
        ) ==> match crate::json::reread(crate::json::json(entry.value)) {
            Some(back) => crate::json::json_parse(r@) == Some(
                payload(
                    back,
                    entry.metric_type.name(),
                    crate::types::label_views(entry.labels@),
                ),
            ),
            None => true,
        },
{
    let mut m = new_object();
    put(&mut m, "labels".to_owned(), object_value(label_members(&entry.labels)));
    put(&mut m, "metric_type".to_owned(), text_value(entry.metric_type.as_str().to_owned()));
    put(&mut m, "value".to_owned(), copy_value(&entry.value));
    let doc = object_value(m);
    let text = print(&doc);
    let mut out: Vec<u8> = Vec::new();
    push_all(&mut out, text.as_str().as_bytes());
    proof {
        let value = crate::json::json(entry.value);
        let kind = entry.metric_type.name();
        let views = crate::types::label_views(entry.labels@);
        if is_sample(value) && storable(views) && crate::json::reread(value) is Some {
            let back = crate::json::reread(value).unwrap();
            lemma_payload_keys();
            lemma_label_object_texts(views);
            let mm = crate::json::members(m);
            assert(crate::json::shallow(mm));
            assert(crate::json::all_reread(mm));
            let reread_all = mm.map_values(|d: crate::json::Json| crate::json::reread(d).unwrap());
            assert(payload(back, kind, views)->Object_0 =~= reread_all);
        }
    }
    out
}

/// A stored row: key and value.
pub open spec fn row(entry: MetricEntry<serde_json::Value>, seq: u32) -> (Seq<u8>, Seq<u8>) {
    (
        key_bytes(micros(entry.timestamp), seq, encode_utf8(entry.name@)),
        encode_utf8(crate::json::json_text(entry_payload(entry))),
    )
}

/// The sequence number `n` steps after `seq`, wrapping at 32 bits.
pub open spec fn seq_after(seq: u32, n: int) -> u32 {
    ((seq as int + n) % 0x1_0000_0000) as u32
}

/// The rows of a batch whose first entry has sequence number `seq`.
pub open spec fn rows(entries: Seq<MetricEntry<serde_json::Value>>, seq: u32) -> Seq<
    (Seq<u8>, Seq<u8>),
> {
    Seq::new(entries.len(), |i: int| row(entries[i], seq_after(seq, i)))
}

/// Executable rows as byte strings.
pub open spec fn row_views(v: Seq<(Vec<u8>, Vec<u8>)>) -> Seq<(Seq<u8>, Seq<u8>)> {
    v.map_values(|r: (Vec<u8>, Vec<u8>)| (r.0@, r.1@))
}

/// A key determines the timestamp, the sequence number and the name it was
/// made of.
pub proof fn law_keys_are_injective(
    ts1: u64,
    seq1: u32,
    name1: Seq<u8>,
    ts2: u64,
    seq2: u32,
    name2: Seq<u8>,
)
    requires
        key_bytes(ts1, seq1, name1) == key_bytes(ts2, seq2, name2),
    ensures
        ts1 == ts2,
        seq1 == seq2,
        name1 == name2,
{
    let a = key_bytes(ts1, seq1, name1);
    let b = key_bytes(ts2, seq2, name2);
    if ts1 < ts2 {
        law_keys_sort_chronologically(ts1, seq1, name1, ts2, seq2, name2);
        crate::bytes::lemma_lex_less_asymmetric(a, b);
    } else if ts2 < ts1 {
        law_keys_sort_chronologically(ts2, seq2, name2, ts1, seq1, name1);
        crate::bytes::lemma_lex_less_asymmetric(b, a);
    }
    if seq1 < seq2 {
        law_sequence_breaks_ties(ts1, seq1, name1, seq2, name2);
    } else if seq2 < seq1 {
        law_sequence_breaks_ties(ts1, seq2, name2, seq1, name1);
    }
    lemma_hex_bytes_len(ts1 as nat, 16);
    lemma_hex_bytes_len(seq1 as nat, 8);
    assert(a.skip(26) =~= name1);
    assert(b.skip(26) =~= name2);
}

/// The rows of one run of the writer have pairwise different keys, as long as
/// the sequence has not come round: none of them overwrites another.
pub proof fn law_row_keys_are_distinct(
    entries: Seq<MetricEntry<serde_json::Value>>,
    seq: u32,
    i: int,
    j: int,
)
    requires
        0 <= i < j < entries.len(),
        j - i < 0x1_0000_0000,
    ensures
        rows(entries, seq)[i].0 != rows(entries, seq)[j].0,
{
    if rows(entries, seq)[i].0 == rows(entries, seq)[j].0 {
        law_keys_are_injective(
            micros(entries[i].timestamp),
            seq_after(seq, i),
            encode_utf8(entries[i].name@),
            micros(entries[j].timestamp),
            seq_after(seq, j),
            encode_utf8(entries[j].name@),
        );
        assert((seq as int + i) % 0x1_0000_0000 == (seq as int + j) % 0x1_0000_0000);
    }
}

pub(crate) proof fn lemma_seq_after(seq: u32, m: int, n: int)
    requires
        0 <= m,
        0 <= n,
    ensures
        seq_after(seq_after(seq, m), n) == seq_after(seq, m + n),
        seq_after(seq, 0) == seq,
{
    vstd::arithmetic::div_mod::lemma_add_mod_noop(seq as int + m, n, 0x1_0000_0000);
    vstd::arithmetic::div_mod::lemma_add_mod_noop(
        (seq as int + m) % 0x1_0000_0000,
        n,
        0x1_0000_0000,
    );
}

pub(crate) proof fn lemma_rows_concat(
    a: Seq<MetricEntry<serde_json::Value>>,
    b: Seq<MetricEntry<serde_json::Value>>,
    seq: u32,
)
    ensures
        rows(a + b, seq) == rows(a, seq) + rows(b, seq_after(seq, a.len() as int)),
{
    let whole = rows(a + b, seq);
    let parts = rows(a, seq) + rows(b, seq_after(seq, a.len() as int));
    assert forall|i: int| 0 <= i < whole.len() implies whole[i] == parts[i] by {
        if i >= a.len() {
            lemma_seq_after(seq, a.len() as int, i - a.len());
            assert((a + b)[i] == b[i - a.len()]);
        } else {
            assert((a + b)[i] == a[i]);
        }
    }
    assert(whole =~= parts);
}

/// What is stored reads back, where the labels can be stored: compaction finds
/// in the row the entry's timestamp, name, flavour and labels, and its sample
/// as the sample's own text reads.
pub open spec fn reads_back(
    entry: MetricEntry<serde_json::Value>,
    stored: (Seq<u8>, Seq<u8>),
) -> bool {
    let sample = crate::json::json(entry.value);
    is_sample(sample) && storable(crate::types::label_views(entry.labels@)) ==> match
        crate::json::reread(sample) {
        Some(back) => crate::storage::compaction::cold_row(stored) == Some(
            crate::storage::compaction::RowModel {
                ts: crate::storage::compaction::signed_micros(micros(entry.timestamp)),
                name: entry.name@,
                value: match back {
                    crate::json::Json::Number(n) => n,
                    _ => crate::json::whole_number(0),
                },
                kind: entry.metric_type.name(),
                labels: crate::json::json_text(
                    crate::json::Json::Object(
                        label_object(crate::types::label_views(entry.labels@)),
                    ),
                ),
            },
        ),
        None => true,
    }
}

proof fn lemma_reads_back(
    entry: MetricEntry<serde_json::Value>,
    seq: u32,
    value: Seq<u8>,
)
    requires
        is_sample(crate::json::json(entry.value)) && storable(
            crate::types::label_views(entry.labels@),
        ) ==> match crate::json::reread(crate::json::json(entry.value)) {
            Some(back) => crate::json::json_parse(value) == Some(
                payload(
                    back,
                    entry.metric_type.name(),
                    crate::types::label_views(entry.labels@),
                ),
            ),
            None => true,
        },
    ensures
        reads_back(
            entry,
            (key_bytes(micros(entry.timestamp), seq, encode_utf8(entry.name@)), value),
        ),
{
    let sample = crate::json::json(entry.value);
    if is_sample(sample) && storable(crate::types::label_views(entry.labels@))
        && crate::json::reread(sample) is Some {
        law_key_round_trip(micros(entry.timestamp), seq, entry.name@);
        crate::storage::parquet_exporter::law_payload_columns(
            crate::json::reread(sample).unwrap(),
            entry.metric_type.name(),
            crate::types::label_views(entry.labels@),
        );
    }
}

/// Turns a batch into the rows to insert, advancing the wrapping sequence by
/// one per row. Every row whose labels can be stored reads back.
pub fn flush_batch(batch: &Vec<MetricEntry<serde_json::Value>>, seq: &mut u32) -> (r: Vec<
    (Vec<u8>, Vec<u8>),
>)
    ensures
        row_views(r@) == rows(batch@, *old(seq)),
        forall|i: int|
            0 <= i < batch@.len() ==> reads_back(batch@[i], #[trigger] rows(batch@, *old(seq))[i]),
        *final(seq) == seq_after(*old(seq), batch@.len() as int),
{
    let mut out: Vec<(Vec<u8>, Vec<u8>)> = Vec::new();
    let mut i: usize = 0;
    proof {
        lemma_seq_after(*seq, 0, 0);
    }
    while i < batch.len()
        invariant
            i <= batch@.len(),
            row_views(out@) == rows(batch@, *old(seq)).take(i as int),
            forall|j: int|
                0 <= j < i ==> reads_back(batch@[j], #[trigger] rows(batch@, *old(seq))[j]),
            *seq == seq_after(*old(seq), i as int),
        decreases batch@.len() - i,
    {
        let key = encode_key(entry_micros(&batch[i]), *seq, batch[i].name.as_str());
        let value = encode_value(&batch[i]);
        let ghost before = out@;
        out.push((key, value));
        assert(row_views(out@) =~= row_views(before).push((key@, value@)));
        assert(rows(batch@, *old(seq)).take(i + 1) =~= rows(batch@, *old(seq)).take(i as int).push(
            rows(batch@, *old(seq))[i as int],
        ));
        proof {
            lemma_seq_after(*old(seq), i as int, 1);
            lemma_reads_back(batch@[i as int], *seq, value@);
            assert(rows(batch@, *old(seq))[i as int] == row(batch@[i as int], *seq));
        }
        *seq = seq.wrapping_add(1);
        i = i + 1;
    }
    assert(rows(batch@, *old(seq)).take(i as int) =~= rows(batch@, *old(seq)));
    out
}

/// Every label pair is stored: the object has the key of each pair, with the
/// value of the last pair that has this key, as a text, and no other key.
pub proof fn law_every_label_is_stored(labels: Seq<(Seq<char>, Seq<char>)>)
    ensures
        forall|i: int|
            0 <= i < labels.len() && (forall|j: int|
                i < j < labels.len() ==> (#[trigger] labels[j]).0 != labels[i].0) ==> {
                &&& label_object(labels).contains_key((#[trigger] labels[i]).0)
                &&& label_object(labels)[labels[i].0] == crate::json::Json::Text(labels[i].1)
            },
        forall|i: int|
            0 <= i < labels.len() ==> label_object(labels).contains_key((#[trigger] labels[i]).0),
        forall|key: Seq<char>| #[trigger]
            label_object(labels).contains_key(key) ==> exists|i: int|
                0 <= i < labels.len() && (#[trigger] labels[i]).0 == key,
{
    assert forall|i: int|
        0 <= i < labels.len() && (forall|j: int|
            i < j < labels.len() ==> (#[trigger] labels[j]).0 != labels[i].0) implies {
        &&& label_object(labels).contains_key((#[trigger] labels[i]).0)
        &&& label_object(labels)[labels[i].0] == crate::json::Json::Text(labels[i].1)
    } by {
        lemma_label_is_stored(labels, i);
    }
    assert forall|i: int| 0 <= i < labels.len() implies label_object(labels).contains_key(
        (#[trigger] labels[i]).0,
    ) by {
        lemma_label_key_is_stored(labels, i);
    }
    assert forall|key: Seq<char>| #[trigger]
        label_object(labels).contains_key(key) implies exists|i: int|
        0 <= i < labels.len() && (#[trigger] labels[i]).0 == key by {
        let i = lemma_label_has_a_source(labels, key);
        assert(labels[i].0 == key);
    }
}

proof fn lemma_label_is_stored(labels: Seq<(Seq<char>, Seq<char>)>, i: int)
    requires
        0 <= i < labels.len(),
        forall|j: int| i < j < labels.len() ==> (#[trigger] labels[j]).0 != labels[i].0,
    ensures
        label_object(labels).contains_key(labels[i].0),
        label_object(labels)[labels[i].0] == crate::json::Json::Text(labels[i].1),
    decreases labels.len(),
{
    if i < labels.len() - 1 {
        let before = labels.drop_last();
        assert(labels[labels.len() - 1].0 != labels[i].0);
        assert forall|j: int| i < j < before.len() implies (#[trigger] before[j]).0
            != before[i].0 by {
            assert(before[j] == labels[j]);
        }
        lemma_label_is_stored(before, i);
    }
}

proof fn lemma_label_key_is_stored(labels: Seq<(Seq<char>, Seq<char>)>, i: int)
    requires
        0 <= i < labels.len(),
    ensures
        label_object(labels).contains_key(labels[i].0),
    decreases labels.len(),
{
    if i < labels.len() - 1 {
        lemma_label_key_is_stored(labels.drop_last(), i);
    }
}

proof fn lemma_label_has_a_source(labels: Seq<(Seq<char>, Seq<char>)>, key: Seq<char>) -> (i: int)
    requires
        label_object(labels).contains_key(key),
    ensures
        0 <= i < labels.len(),
        labels[i].0 == key,
    decreases labels.len(),
{
    if labels.last().0 == key {
        labels.len() - 1
    } else {
        lemma_label_has_a_source(labels.drop_last(), key)
    }
}

/// A payload has the sample, the flavour and the labels of its entry under
/// their keys, and nothing else.
pub proof fn law_payloads_hold_the_entry(entry: MetricEntry<serde_json::Value>)
    ensures
        entry_payload(entry) matches crate::json::Json::Object(m) && {
            &&& m.dom() == set!["value"@, "metric_type"@, "labels"@]
            &&& m["value"@] == crate::json::json(entry.value)
            &&& m["metric_type"@] == crate::json::Json::Text(
                match entry.metric_type {
                    crate::types::MetricType::Counter => "counter"@,
                    crate::types::MetricType::Gauge => "gauge"@,
                    crate::types::MetricType::Histogram => "histogram"@,
                },
            )
            &&& m["labels"@] is Object
            &&& forall|i: int|
                0 <= i < entry.labels@.len() && (forall|j: int|
                    i < j < entry.labels@.len() ==> (#[trigger] entry.labels@[j]).0@
                        != entry.labels@[i].0@) ==> {
                    &&& m["labels"@]->Object_0.contains_key((#[trigger] entry.labels@[i]).0@)
                    &&& m["labels"@]->Object_0[entry.labels@[i].0@] == crate::json::Json::Text(
                        entry.labels@[i].1@,
                    )
                }
        },
{
    lemma_payload_keys();
    let views = crate::types::label_views(entry.labels@);
    law_every_label_is_stored(views);
    let m = entry_payload(entry)->Object_0;
    assert(m.dom() =~= set!["value"@, "metric_type"@, "labels"@]);
    assert(m["labels"@] == crate::json::Json::Object(label_object(views)));
    assert forall|i: int|
        0 <= i < entry.labels@.len() && (forall|j: int|
            i < j < entry.labels@.len() ==> (#[trigger] entry.labels@[j]).0@
                != entry.labels@[i].0@) implies {
        &&& m["labels"@]->Object_0.contains_key((#[trigger] entry.labels@[i]).0@)
        &&& m["labels"@]->Object_0[entry.labels@[i].0@] == crate::json::Json::Text(
            entry.labels@[i].1@,
        )
    } by {
        assert(views[i] == (entry.labels@[i].0@, entry.labels@[i].1@));
        assert forall|j: int| i < j < views.len() implies (#[trigger] views[j]).0 != views[i].0 by {
            assert(views[j].0 == entry.labels@[j].0@);
        }
    }
}

/// The microseconds of a point in time: whole ones since the epoch, none
/// before it, and as many as 64 bits hold.
pub proof fn law_micros_since_the_epoch(t: Timestamp)
    ensures
        t.before_epoch ==> micros(t) == 0,
        !t.before_epoch && t.secs as int * 1_000_000 + t.nanos as int / 1000
            <= 0xffff_ffff_ffff_ffff ==> micros(t) as int == t.secs as int * 1_000_000
            + t.nanos as int / 1000,
        !t.before_epoch && t.secs as int * 1_000_000 + t.nanos as int / 1000 > 0xffff_ffff_ffff_ffff
            ==> micros(t) as int == 0xffff_ffff_ffff_ffff,
{
}

proof fn lemma_pow16_is_standard(n: nat)
    ensures
        pow16(n) == vstd::arithmetic::power::pow(16, n),
        pow16(n) > 0,
    decreases n,
{
    reveal(vstd::arithmetic::power::pow);
    if n > 0 {
        lemma_pow16_is_standard((n - 1) as nat);
    }
}

proof fn lemma_hex_digit_at(v: nat, width: nat, i: int)
    requires
        0 <= i < width,
    ensures
        hex_bytes(v, width).len() == width,
        hex_bytes(v, width)[i] == hex_digit(v / pow16((width - 1 - i) as nat) % 16),
    decreases width,
{
    lemma_hex_bytes_len(v, width);
    lemma_hex_bytes_len(v / 16, (width - 1) as nat);
    if i == width - 1 {
        assert((width - 1 - i) as nat == 0);
        assert(pow16(0) == 1);
        assert(v / 1 == v);
        assert(v / pow16((width - 1 - i) as nat) == v);
    } else {
        lemma_hex_digit_at(v / 16, (width - 1) as nat, i);
        let p = pow16((width - 2 - i) as nat);
        lemma_pow16_is_standard((width - 2 - i) as nat);
        assert(pow16((width - 1 - i) as nat) == 16 * p);
        vstd::arithmetic::div_mod::lemma_div_denominator(v as int, 16, p as int);
        assert(hex_bytes(v, width)[i] == hex_bytes(v / 16, (width - 1) as nat)[i]);
        assert(((width - 1) as nat - 1 - i) as nat == (width - 2 - i) as nat);
        assert(v as int / 16 / p as int == v as int / (16 * p as int));
    }
}

/// The layout of a key: sixteen lower-case hexadecimal digits of the
/// timestamp, a colon, eight of the sequence number, a colon, and the name.
pub proof fn law_key_layout(ts: u64, seq: u32, name: Seq<u8>, i: int)
    ensures
        ({
            let key = key_bytes(ts, seq, name);
            &&& key.len() == 26 + name.len()
            &&& key[16] == 58 && key[25] == 58
            &&& key.skip(26) == name
            &&& 0 <= i < 16 ==> {
                let d = ts as int / vstd::arithmetic::power::pow(16, (15 - i) as nat) % 16;
                key[i] as int == if d < 10 {
                    48 + d
                } else {
                    87 + d
                }
            }
            &&& 0 <= i < 8 ==> {
                let d = seq as int / vstd::arithmetic::power::pow(16, (7 - i) as nat) % 16;
                key[17 + i] as int == if d < 10 {
                    48 + d
                } else {
                    87 + d
                }
            }
        }),
{
    let key = key_bytes(ts, seq, name);
    lemma_hex_bytes_len(ts as nat, 16);
    lemma_hex_bytes_len(seq as nat, 8);
    assert(key.skip(26) =~= name);
    if 0 <= i < 16 {
        lemma_hex_digit_at(ts as nat, 16, i);
        lemma_pow16_is_standard((15 - i) as nat);
        assert(key[i] == hex_bytes(ts as nat, 16)[i]);
    }
    if 0 <= i < 8 {
        lemma_hex_digit_at(seq as nat, 8, i);
        lemma_pow16_is_standard((7 - i) as nat);
        assert(key[17 + i] == hex_bytes(seq as nat, 8)[i]);
    }
}

/// The bound of a cutoff is its sixteen lower-case hexadecimal digits.
pub proof fn law_cutoff_layout(cutoff: u64, i: int)
    requires
        0 <= i < 16,
    ensures
        hex_bytes(cutoff as nat, 16).len() == 16,
        ({
            let d = cutoff as int / vstd::arithmetic::power::pow(16, (15 - i) as nat) % 16;
            hex_bytes(cutoff as nat, 16)[i] as int == if d < 10 {
                48 + d
            } else {
                87 + d
            }
        }),
{
    lemma_hex_digit_at(cutoff as nat, 16, i);
    lemma_pow16_is_standard((15 - i) as nat);
}

proof fn lemma_hex_number_is_standard(
    s: Seq<u8>,
    value: spec_fn(u8) -> int,
    shift: spec_fn(int, int) -> int,
)
    requires
        forall|i: int|
            0 <= i < s.len() ==> digit_value(#[trigger] s[i]) is Some && value(s[i]) == digit_value(
                s[i],
            ).unwrap(),
        forall|a: int, d: int| #[trigger] shift(a, d) == a * 16 + d,
    ensures
        hex_number(s) == s.map_values(value).fold_left(0int, shift),
    decreases s.len(),
{
    if s.len() > 0 {
        let before = s.drop_last();
        assert forall|i: int| 0 <= i < before.len() implies digit_value(#[trigger] before[i]) is Some
            && value(before[i]) == digit_value(before[i]).unwrap() by {
            assert(before[i] == s[i]);
        }
        lemma_hex_number_is_standard(before, value, shift);
        assert(s.map_values(value).drop_last() =~= before.map_values(value));
        assert(s.last() == s[s.len() - 1]);
        assert(s.map_values(value).last() == value(s.last()));
    }
}

proof fn lemma_hex_number_below(s: Seq<u8>)
    ensures
        hex_number(s) < pow16(s.len()),
    decreases s.len(),
{
    if s.len() > 0 {
        lemma_hex_number_below(s.drop_last());
    }
}

/// What a key holds, whoever wrote it: the hexadecimal digits of either case
/// before the first colon are the timestamp, where it fits in 64 bits, as that
/// of sixteen digits does, and what follows the second colon is the name,
/// where that is UTF-8.
pub proof fn law_keys_are_read_by_their_colons(key: Seq<u8>, a: int, b: int)
    requires
        1 <= a < b < key.len(),
        forall|i: int|
            0 <= i < a ==> 48 <= #[trigger] key[i] <= 57 || 97 <= key[i] <= 102 || 65 <= key[i]
                <= 70,
        key[a] == 58,
        forall|i: int| a < i < b ==> #[trigger] key[i] != 58,
        key[b] == 58,
    ensures
        ({
            let ts = key.take(a).map_values(
                |c: u8|
                    if c <= 57 {
                        c as int - 48
                    } else if c >= 97 {
                        c as int - 87
                    } else {
                        c as int - 55
                    },
            ).fold_left(0int, |n: int, d: int| n * 16 + d);
            let name = key.skip(b + 1);
            &&& 0 <= ts
            &&& a <= 16 ==> ts <= 0xffff_ffff_ffff_ffff
            &&& ts <= 0xffff_ffff_ffff_ffff && valid_utf8(name) ==> key_parts(key) == Some(
                (ts as u64, decode_utf8(name)),
            )
            &&& ts > 0xffff_ffff_ffff_ffff || !valid_utf8(name) ==> key_parts(key) is None
        }),
{
    let value = |c: u8|
        if c <= 57 {
            c as int - 48
        } else if c >= 97 {
            c as int - 87
        } else {
            c as int - 55
        };
    let shift = |n: int, d: int| n * 16 + d;
    let digits = key.take(a);
    lemma_before_colon(key, a as nat);
    let rest = key.skip(a + 1);
    assert forall|i: int| 0 <= i < b - a - 1 implies rest[i] != 58 by {
        assert(rest[i] == key[a + 1 + i]);
    }
    assert(rest[b - a - 1] == key[b]);
    lemma_before_colon(rest, (b - a - 1) as nat);
    assert(rest.skip(b - a) =~= key.skip(b + 1));
    assert forall|i: int| 0 <= i < digits.len() implies digit_value(#[trigger] digits[i]) is Some
        && value(digits[i]) == digit_value(digits[i]).unwrap() by {
        assert(digits[i] == key[i]);
    }
    lemma_hex_number_is_standard(digits, value, shift);
    lemma_hex_number_below(digits);
    lemma_pow16_values();
    if a <= 16 {
        lemma_pow16_grows(a as nat, 16);
    }
    assert(digits[0] == key[0]);
    assert(all_hex(digits));
}

proof fn lemma_pow16_grows(a: nat, b: nat)
    requires
        a <= b,
    ensures
        pow16(a) <= pow16(b),
    decreases b,
{
    if a < b {
        lemma_pow16_grows(a, (b - 1) as nat);
    }
}

proof fn lemma_before_colon_is_first(s: Seq<u8>)
    ensures
        before_colon(s) <= s.len(),
        forall|i: int| 0 <= i < before_colon(s) ==> #[trigger] s[i] != 58,
        before_colon(s) < s.len() ==> s[before_colon(s) as int] == 58,
    decreases s.len(),
{
    if s.len() > 0 && s[0] != 58 {
        lemma_before_colon_is_first(s.drop_first());
        assert forall|i: int| 0 <= i < before_colon(s) implies #[trigger] s[i] != 58 by {
            if i > 0 {
                assert(s.drop_first()[i - 1] == s[i]);
            }
        }
    }
}

/// A key that is read at all has two colons, and before the first one nothing
/// but hexadecimal digits, after a plus sign at most.
pub proof fn law_other_keys_are_not_read(key: Seq<u8>)
    requires
        key_parts(key) is Some,
    ensures
        exists|a: int, b: int|
            0 < a < b < key.len() && #[trigger] key[a] == 58 && #[trigger] key[b] == 58 && (forall|
                i: int,
            |
                0 <= i < a ==> 48 <= #[trigger] key[i] <= 57 || 97 <= key[i] <= 102 || 65 <= key[i]
                    <= 70 || (i == 0 && key[i] == 43 && a > 1)),
{
    let a = before_colon(key) as int;
    let rest = key.skip(a + 1);
    let b = a + 1 + before_colon(rest) as int;
    lemma_before_colon_is_first(key);
    lemma_before_colon_is_first(rest);
    let part = key.take(a);
    assert(hex_u64(part) is Some);
    assert(key[a] == 58);
    assert(rest[before_colon(rest) as int] == key[b]);
    let plus = part.len() > 0 && part[0] == 43;
    let digits = if plus {
        part.drop_first()
    } else {
        part
    };
    assert forall|i: int| 0 <= i < a implies 48 <= #[trigger] key[i] <= 57 || 97 <= key[i] <= 102
        || 65 <= key[i] <= 70 || (i == 0 && key[i] == 43 && a > 1) by {
        assert(part[i] == key[i]);
        if plus {
            if i > 0 {
                assert(digits[i - 1] == key[i]);
                assert(digit_value(digits[i - 1]) is Some);
            }
        } else {
            assert(digits[i] == key[i]);
            assert(digit_value(digits[i]) is Some);
        }
    }
}

/// Each entry of a batch has one row, in its place, under the key of its time
/// and name and of the sequence number that is its place further on, and with
/// its payload.
pub proof fn law_each_entry_has_its_row(
    entries: Seq<MetricEntry<serde_json::Value>>,
    seq: u32,
    i: int,
)
    requires
        0 <= i < entries.len(),
    ensures
        rows(entries, seq).len() == entries.len(),
        ({
            let place = (seq as int + i) % 0x1_0000_0000;
            &&& rows(entries, seq)[i].0 == key_bytes(
                micros(entries[i].timestamp),
                place as u32,
                encode_utf8(entries[i].name@),
            )
            &&& rows(entries, seq)[i].1 == encode_utf8(
                crate::json::json_text(entry_payload(entries[i])),
            )
        }),
        seq_after(seq, entries.len() as int) as int == (seq as int + entries.len()) % 0x1_0000_0000,
{
}

/// What is read back of a stored entry, over the entry alone: the time in
/// whole microseconds since the epoch, the name, the flavour by its
/// identifier, the number that the sample's text reads as, and the text of an
/// object that holds every label.
pub proof fn law_what_is_stored_reads_back(
    entry: MetricEntry<serde_json::Value>,
    stored: (Seq<u8>, Seq<u8>),
    n: serde_json::Number,
)
    requires
        reads_back(entry, stored),
        forall|i: int|
            0 <= i < entry.labels@.len() ==> !"$serde_json::private::"@.is_prefix_of(
                (#[trigger] entry.labels@[i]).0@,
            ),
        crate::json::json(entry.value) is Number,
        crate::json::json_parse(
            encode_utf8(crate::json::json_text(crate::json::json(entry.value))),
        ) == Some(crate::json::Json::Number(n)),
    ensures
        crate::storage::compaction::cold_row(stored) matches Some(row) && {
            let time = entry.timestamp.secs as int * 1_000_000 + entry.timestamp.nanos as int
                / 1000;
            &&& !entry.timestamp.before_epoch && time <= 0x7fff_ffff_ffff_ffff ==> row.ts as int
                == time
            &&& entry.timestamp.before_epoch ==> row.ts == 0
            &&& row.name == entry.name@
            &&& row.value == n
            &&& row.kind == match entry.metric_type {
                crate::types::MetricType::Counter => "counter"@,
                crate::types::MetricType::Gauge => "gauge"@,
                crate::types::MetricType::Histogram => "histogram"@,
            }
            &&& exists|m: Map<Seq<char>, crate::json::Json>|
                {
                    &&& row.labels == #[trigger] crate::json::json_text(crate::json::Json::Object(m))
                    &&& forall|i: int|
                        0 <= i < entry.labels@.len() ==> m.contains_key(
                            (#[trigger] entry.labels@[i]).0@,
                        )
                    &&& forall|i: int|
                        0 <= i < entry.labels@.len() && (forall|j: int|
                            i < j < entry.labels@.len() ==> (#[trigger] entry.labels@[j]).0@
                                != entry.labels@[i].0@) ==> m[(#[trigger] entry.labels@[i]).0@]
                            == crate::json::Json::Text(entry.labels@[i].1@)
                    &&& forall|key: Seq<char>| #[trigger]
                        m.contains_key(key) ==> exists|i: int|
                            0 <= i < entry.labels@.len() && (#[trigger] entry.labels@[i]).0@ == key
                }
        },
{
    let views = crate::types::label_views(entry.labels@);
    assert forall|i: int| 0 <= i < views.len() implies !crate::json::reserved(
        (#[trigger] views[i]).0,
    ) by {
        assert(views[i].0 == entry.labels@[i].0@);
    }
    assert(storable(views));
    law_every_label_is_stored(views);
    let m = label_object(views);
    assert forall|i: int| 0 <= i < entry.labels@.len() implies m.contains_key(
        (#[trigger] entry.labels@[i]).0@,
    ) by {
        assert(views[i].0 == entry.labels@[i].0@);
    }
    assert forall|i: int|
        0 <= i < entry.labels@.len() && (forall|j: int|
            i < j < entry.labels@.len() ==> (#[trigger] entry.labels@[j]).0@
                != entry.labels@[i].0@) implies m[(#[trigger] entry.labels@[i]).0@]
        == crate::json::Json::Text(entry.labels@[i].1@) by {
        assert(views[i] == (entry.labels@[i].0@, entry.labels@[i].1@));
        assert forall|j: int| i < j < views.len() implies (#[trigger] views[j]).0 != views[i].0 by {
            assert(views[j].0 == entry.labels@[j].0@);
        }
    }
    assert forall|key: Seq<char>| #[trigger] m.contains_key(key) implies exists|i: int|
        0 <= i < entry.labels@.len() && (#[trigger] entry.labels@[i]).0@ == key by {
        let i = choose|i: int| 0 <= i < views.len() && (#[trigger] views[i]).0 == key;
        assert(entry.labels@[i].0@ == key);
    }
}

/// A plus sign before the digits of a key changes nothing.
pub proof fn law_plus_sign_is_ignored(key: Seq<u8>)
    requires
        key.len() > 0,
        key[0] != 43,
        key[0] != 58,
    ensures
        key_parts(seq![43u8] + key) == key_parts(key),
{
    let signed = seq![43u8] + key;
    let a = before_colon(key);
    assert(signed.drop_first() =~= key);
    assert(before_colon(signed) == 1 + a);
    lemma_before_colon_is_first(key);
    if a < key.len() {
        assert(signed.skip(a as int + 2) =~= key.skip(a as int + 1));
    }
    let digits = key.take(a as int);
    let part = signed.take(a as int + 1);
    assert(part.drop_first() =~= digits);
    assert(part[0] == 43);
    assert(a > 0);
    assert(digits[0] == key[0]);
}

/// A sample that JSON cannot write is read back as zero.
pub proof fn law_missing_samples_read_back_as_zero(
    entry: MetricEntry<serde_json::Value>,
    stored: (Seq<u8>, Seq<u8>),
)
    requires
        reads_back(entry, stored),
        storable(crate::types::label_views(entry.labels@)),
        crate::json::json(entry.value) is Null,
    ensures
        crate::storage::compaction::cold_row(stored) matches Some(row) && row.value
            == crate::json::whole_number(0) && row.name == entry.name@,
{
}

} // verus!
