//! One compaction pass: which rows an export gets, in chunks, and which keys
//! may be purged once it is published.
//!
//! A pass scans the expired keys in order and hands out the rows to write in
//! chunks. When the scan is over, the last chunk is written, the export is
//! published, and only then the keys are purged. A pass that fails on the way
//! is dropped and purges nothing.

use crate::storage::fjall_engine::decode_key;
use crate::storage::parquet_exporter::{decode_value, ROWS_PER_BATCH};
use vstd::prelude::*;

verus! {

/// One row of a cold export.
#[derive(Debug)]
pub struct ColdRow {
    /// Microseconds since the epoch.
    pub ts: i64,
    /// Metric name.
    pub name: String,
    /// The sample.
    pub value: serde_json::Number,
    /// Metric flavour.
    pub kind: String,
    /// Labels, as the text of a JSON object.
    pub labels: String,
}

/// A row of a cold export as a mathematical value.
pub ghost struct RowModel {
    pub ts: i64,
    pub name: Seq<char>,
    pub value: serde_json::Number,
    pub kind: Seq<char>,
    pub labels: Seq<char>,
}

impl View for ColdRow {
    type V = RowModel;

    open spec fn view(&self) -> RowModel {
        RowModel {
            ts: self.ts,
            name: self.name@,
            value: self.value,
            kind: self.kind@,
            labels: self.labels@,
        }
    }
}

/// Rows as mathematical values.
pub open spec fn cold_views(rows: Seq<ColdRow>) -> Seq<RowModel> {
    rows.map_values(|r: ColdRow| r@)
}

/// A timestamp as a signed number, at most the largest one.
pub open spec fn signed_micros(ts: u64) -> i64 {
    if ts > i64::MAX {
        i64::MAX
    } else {
        ts as i64
    }
}

/// The row of a stored key and value; a key that is none of this store's has
/// no row.
pub open spec fn cold_row(item: (Seq<u8>, Seq<u8>)) -> Option<RowModel> {
    match crate::storage::fjall_engine::key_parts(item.0) {
        Some((ts, name)) => {
            let columns = crate::storage::parquet_exporter::raw_columns(item.1);
            Some(
                RowModel {
                    ts: signed_micros(ts),
                    name,
                    value: columns.0,
                    kind: columns.1,
                    labels: columns.2,
                },
            )
        },
        None => None,
    }
}

/// The rows of stored items, in order.
pub open spec fn cold_rows(items: Seq<(Seq<u8>, Seq<u8>)>) -> Seq<RowModel>
    decreases items.len(),
{
    if items.len() == 0 {
        Seq::empty()
    } else {
        match cold_row(items.last()) {
            Some(r) => cold_rows(items.drop_last()).push(r),
            None => cold_rows(items.drop_last()),
        }
    }
}

/// A scan in progress as a mathematical value.
pub ghost struct ScanModel {
    /// What was scanned.
    pub items: Seq<(Seq<u8>, Seq<u8>)>,
    /// The rows handed out for writing.
    pub written: Seq<RowModel>,
    /// The rows held back for the next chunk.
    pub pending: Seq<RowModel>,
    /// How many of the first items the rows handed out account for.
    pub covered: nat,
}

impl ScanModel {
    /// What every scan keeps: the rows handed out and the rows held back are
    /// the rows scanned, the first items are accounted for exactly by the
    /// rows handed out, and less than a chunk is held back.
    pub open spec fn valid(self) -> bool {
        &&& self.written + self.pending == cold_rows(self.items)
        &&& self.covered <= self.items.len()
        &&& cold_rows(self.items.take(self.covered as int)) == self.written
        &&& self.pending.len() < ROWS_PER_BATCH
    }
}

/// What a scanned item asks for.
#[derive(Debug)]
pub enum ScanStep {
    /// Nothing: the key is none of this store's.
    Skip,
    /// Open the export: the first row of the pass was taken.
    Open,
    /// Nothing: the row was taken.
    Keep,
    /// Write this chunk of rows.
    Write(Vec<ColdRow>),
}

/// The scan of one compaction pass.
pub struct CompactionScan {
    rows: Vec<ColdRow>,
    scanned: u64,
    covered: u64,
    moved: u64,
    items: Ghost<Seq<(Seq<u8>, Seq<u8>)>>,
    written: Ghost<Seq<RowModel>>,
}

impl View for CompactionScan {
    type V = ScanModel;

    closed spec fn view(&self) -> ScanModel {
        ScanModel {
            items: self.items@,
            written: self.written@,
            pending: cold_views(self.rows@),
            covered: self.covered as nat,
        }
    }
}

/// The state after a chunk was handed out that ends with the last item.
pub open spec fn handed_out(s: ScanModel) -> ScanModel {
    ScanModel {
        written: s.written + s.pending,
        pending: Seq::empty(),
        covered: s.items.len(),
        ..s
    }
}

/// What the scan does with the next item: `t` is the state after it.
pub open spec fn on_item(
    s: ScanModel,
    item: (Seq<u8>, Seq<u8>),
    t: ScanModel,
    r: ScanStep,
) -> bool {
    let scanned = ScanModel { items: s.items.push(item), ..s };
    match cold_row(item) {
        None => r is Skip && t == scanned,
        Some(row) => {
            let grown = ScanModel { pending: s.pending.push(row), ..scanned };
            if grown.pending.len() >= ROWS_PER_BATCH {
                r matches ScanStep::Write(chunk) && cold_views(chunk@) == grown.pending && t
                    == handed_out(grown)
            } else {
                t == grown && if cold_rows(s.items).len() == 0 {
                    r is Open
                } else {
                    r is Keep
                }
            }
        },
    }
}

proof fn lemma_cold_rows_push(items: Seq<(Seq<u8>, Seq<u8>)>, item: (Seq<u8>, Seq<u8>))
    ensures
        cold_rows(items.push(item)) == match cold_row(item) {
            Some(r) => cold_rows(items).push(r),
            None => cold_rows(items),
        },
{
    assert(items.push(item).drop_last() =~= items);
}

proof fn lemma_on_item_valid(
    s: ScanModel,
    item: (Seq<u8>, Seq<u8>),
    t: ScanModel,
    r: ScanStep,
)
    requires
        s.valid(),
        on_item(s, item, t, r),
    ensures
        t.valid(),
{
    lemma_cold_rows_push(s.items, item);
    assert(s.items.push(item).take(s.covered as int) =~= s.items.take(s.covered as int));
    assert(t.items.take(t.items.len() as int) =~= t.items);
    match cold_row(item) {
        None => {},
        Some(row) => {
            assert((s.written + s.pending).push(row) =~= s.written + s.pending.push(row));
            assert(t.written + t.pending =~= cold_rows(t.items));
        },
    }
}

impl CompactionScan {
    /// What every scan keeps.
    pub closed spec fn wf(&self) -> bool {
        &&& self@.valid()
        &&& self.scanned == self.items@.len()
        &&& self.moved == self.written@.len()
    }

    /// A pass that has scanned nothing.
    #[must_use]
    pub fn new() -> (r: Self)
        ensures
            r.wf(),
            r@.valid(),
            r@.items.len() == 0,
            r@.written.len() == 0,
            r@.pending.len() == 0,
            r@.covered == 0,
    {
        let r = CompactionScan {
            rows: Vec::new(),
            scanned: 0,
            covered: 0,
            moved: 0,
            items: Ghost(Seq::empty()),
            written: Ghost(Seq::empty()),
        };
        assert(cold_rows(r.items@) =~= Seq::empty());
        assert(r@.written + r@.pending =~= Seq::empty());
        assert(cold_rows(r.items@.take(0)) =~= Seq::empty());
        r
    }

    fn take_chunk(&mut self) -> (r: Vec<ColdRow>)
        requires
            old(self)@.pending.len() <= ROWS_PER_BATCH,
            old(self).scanned == old(self).items@.len(),
            old(self).moved == old(self).written@.len(),
            old(self).moved + old(self)@.pending.len() <= u64::MAX,
        ensures
            cold_views(r@) == old(self)@.pending,
            final(self)@ == handed_out(old(self)@),
            final(self).scanned == final(self).items@.len(),
            final(self).moved == final(self).written@.len(),
    {
        let mut chunk: Vec<ColdRow> = Vec::new();
        std::mem::swap(&mut chunk, &mut self.rows);
        self.covered = self.scanned;
        self.moved = self.moved + chunk.len() as u64;
        self.written = Ghost(self.written@ + cold_views(chunk@));
        assert(cold_views(self.rows@) =~= Seq::empty());
        chunk
    }

    /// Takes the next expired item and says what it asks for.
    pub fn scan(&mut self, key: &[u8], value: &[u8]) -> (r: ScanStep)
        requires
            old(self).wf(),
            old(self)@.items.len() < u64::MAX,
        ensures
            final(self).wf(),
            final(self)@.valid(),
            on_item(old(self)@, (key@, value@), final(self)@, r),
    {
        let ghost s = self@;
        let ghost item = (key@, value@);
        proof {
            lemma_rows_bound(s.items);
        }
        self.scanned = self.scanned + 1;
        self.items = Ghost(self.items@.push(item));
        match decode_key(key) {
            None => {
                proof {
                    lemma_on_item_valid(s, item, self@, ScanStep::Skip);
                }
                ScanStep::Skip
            },
            Some((ts, name)) => {
                let (sample, kind, labels) = decode_value(value);
                let first = self.moved == 0 && self.rows.len() == 0;
                let row = ColdRow {
                    ts: if ts > i64::MAX as u64 {
                        i64::MAX
                    } else {
                        ts as i64
                    },
                    name,
                    value: sample,
                    kind,
                    labels,
                };
                let ghost before = self.rows@;
                self.rows.push(row);
                assert(cold_views(self.rows@) =~= cold_views(before).push(row@));
                assert(cold_row(item) == Some(row@));
                if self.rows.len() >= ROWS_PER_BATCH {
                    let chunk = self.take_chunk();
                    let r = ScanStep::Write(chunk);
                    proof {
                        lemma_on_item_valid(s, item, self@, r);
                    }
                    r
                } else {
                    let r = if first {
                        ScanStep::Open
                    } else {
                        ScanStep::Keep
                    };
                    proof {
                        assert(first == (cold_rows(s.items).len() == 0));
                        lemma_on_item_valid(s, item, self@, r);
                    }
                    r
                }
            },
        }
    }

    /// Ends the scan.
    #[must_use]
    pub fn finish(self) -> (r: CompactionEnd)
        requires
            self.wf(),
        ensures
            r.wf(),
            r@.scan.valid(),
            r@.scan == self@,
            r@.stage is Writing,
    {
        CompactionEnd { scan: self, stage: Stage::Writing }
    }
}

proof fn lemma_rows_bound(items: Seq<(Seq<u8>, Seq<u8>)>)
    ensures
        cold_rows(items).len() <= items.len(),
    decreases items.len(),
{
    if items.len() > 0 {
        lemma_rows_bound(items.drop_last());
    }
}

/// How far the end of a pass has come.
#[derive(Debug, Clone, Copy, PartialEq, Eq, Structural)]
pub enum Stage {
    /// The last chunk may still have to be written.
    Writing,
    /// The export was to be published.
    Publishing,
    /// The keys were to be purged.
    Purging,
    /// The store was to be persisted.
    Persisting,
    /// Nothing is left to do.
    Finished,
}

/// What the end of a pass asks for next.
#[derive(Debug)]
pub enum EndStep {
    /// Write this last chunk of rows.
    Write(Vec<ColdRow>),
    /// Close the export and rename it to its final name.
    Publish,
    /// Remove the keys of that many of the first items of the scan.
    Purge(u64),
    /// Persist the store.
    Persist,
    /// Nothing: that many rows were moved.
    Done(u64),
}

/// The end of a pass as a mathematical value.
pub ghost struct EndModel {
    pub scan: ScanModel,
    pub stage: Stage,
}

/// The end of one compaction pass.
pub struct CompactionEnd {
    scan: CompactionScan,
    stage: Stage,
}

impl View for CompactionEnd {
    type V = EndModel;

    closed spec fn view(&self) -> EndModel {
        EndModel { scan: self.scan@, stage: self.stage }
    }
}

/// What the end of a pass does next: `t` is the state after it.
pub open spec fn on_end(s: EndModel, t: EndModel, r: EndStep) -> bool {
    match s.stage {
        Stage::Writing => if s.scan.pending.len() > 0 {
            &&& r matches EndStep::Write(chunk) && cold_views(chunk@) == s.scan.pending
            &&& t == EndModel { scan: handed_out(s.scan), stage: Stage::Writing }
        } else if s.scan.written.len() > 0 {
            r is Publish && t == EndModel { stage: Stage::Publishing, ..s }
        } else {
            r == EndStep::Done(0) && t == EndModel { stage: Stage::Finished, ..s }
        },
        Stage::Publishing => {
            &&& r matches EndStep::Purge(n) && n == s.scan.covered
            &&& t == EndModel { stage: Stage::Purging, ..s }
        },
        Stage::Purging => r is Persist && t == EndModel { stage: Stage::Persisting, ..s },
        _ => {
            &&& r matches EndStep::Done(n) && n == s.scan.written.len()
            &&& t == EndModel { stage: Stage::Finished, ..s }
        },
    }
}

impl CompactionEnd {
    /// What the end of every pass keeps.
    pub closed spec fn wf(&self) -> bool {
        self.scan.wf()
    }

    /// The next thing to do, once the one before is done.
    pub fn next(&mut self) -> (r: EndStep)
        requires
            old(self).wf(),
        ensures
            final(self).wf(),
            on_end(old(self)@, final(self)@, r),
    {
        match self.stage {
            Stage::Writing => {
                if self.scan.rows.len() > 0 {
                    let ghost s = self.scan@;
                    proof {
                        lemma_rows_bound(s.items);
                    }
                    let chunk = self.scan.take_chunk();
                    proof {
                        assert(s.items.take(s.items.len() as int) =~= s.items);
                        assert(self.scan@.written + self.scan@.pending =~= s.written + s.pending);
                    }
                    EndStep::Write(chunk)
                } else if self.scan.moved > 0 {
                    self.stage = Stage::Publishing;
                    EndStep::Publish
                } else {
                    self.stage = Stage::Finished;
                    EndStep::Done(0)
                }
            },
            Stage::Publishing => {
                self.stage = Stage::Purging;
                EndStep::Purge(self.scan.covered)
            },
            Stage::Purging => {
                self.stage = Stage::Persisting;
                EndStep::Persist
            },
            Stage::Persisting => {
                self.stage = Stage::Finished;
                EndStep::Done(self.scan.moved)
            },
            Stage::Finished => EndStep::Done(self.scan.moved),
        }
    }
}

/// One thing done at the end of a pass, and the state after it.
pub ghost struct EndTurn {
    pub step: EndStep,
    pub state: EndModel,
}

/// The state before turn `i` of an end from `start`.
pub open spec fn end_before(start: EndModel, turns: Seq<EndTurn>, i: int) -> EndModel {
    if i == 0 {
        start
    } else {
        turns[i - 1].state
    }
}

/// Whether turn `i` follows from the state before it.
pub open spec fn end_follows(start: EndModel, turns: Seq<EndTurn>, i: int) -> bool {
    on_end(end_before(start, turns, i), turns[i].state, turns[i].step)
}

/// Whether turns form an end of a pass from `start`.
pub open spec fn is_end(start: EndModel, turns: Seq<EndTurn>) -> bool {
    forall|i: int| 0 <= i < turns.len() ==> #[trigger] end_follows(start, turns, i)
}

/// A state of the end of a pass that began with the given scan.
pub open spec fn end_state_of(start: EndModel, s: EndModel) -> bool {
    &&& s.scan.valid()
    &&& s.scan.items == start.scan.items
    &&& s.stage is Writing || (s.scan.pending.len() == 0 && s.scan.written == cold_rows(
        start.scan.items,
    ))
}

proof fn lemma_end_states(start: EndModel, turns: Seq<EndTurn>, i: int)
    requires
        start.scan.valid(),
        start.stage is Writing,
        is_end(start, turns),
        0 <= i <= turns.len(),
    ensures
        end_state_of(start, end_before(start, turns, i)),
    decreases i,
{
    if i > 0 {
        lemma_end_states(start, turns, i - 1);
        assert(end_follows(start, turns, i - 1));
        let s = end_before(start, turns, i - 1);
        assert(s.scan.items.take(s.scan.items.len() as int) =~= s.scan.items);
        let t = turns[i - 1].state;
        assert(t.scan.written + t.scan.pending =~= s.scan.written + s.scan.pending);
        if t.scan.pending.len() == 0 {
            assert(t.scan.written + t.scan.pending =~= t.scan.written);
        }
    }
}

/// Rename, then purge: keys are purged right after the export was published
/// and never else. What is purged are the first keys of the scan, their rows
/// are exactly the rows handed out for writing, and these are all rows of the
/// scan: no row leaves the hot store that is not in the published export.
pub proof fn law_purge_follows_publish(start: EndModel, turns: Seq<EndTurn>, i: int)
    requires
        start.scan.valid(),
        start.stage is Writing,
        is_end(start, turns),
        0 <= i < turns.len(),
        turns[i].step is Purge,
    ensures
        i > 0,
        turns[i - 1].step is Publish,
        ({
            let n = turns[i].step->Purge_0;
            let written = turns[i].state.scan.written;
            &&& n <= start.scan.items.len()
            &&& cold_rows(start.scan.items.take(n as int)) == written
            &&& written == cold_rows(start.scan.items)
        }),
{
    lemma_end_states(start, turns, i);
    assert(end_follows(start, turns, i));
    assert(end_before(start, turns, i).stage is Publishing);
    assert(i > 0);
    assert(end_follows(start, turns, i - 1));
}

/// When a pass is done it has handed out every row of the scan, and reports
/// how many there were.
pub proof fn law_done_counts_every_row(start: EndModel, turns: Seq<EndTurn>, i: int)
    requires
        start.scan.valid(),
        start.stage is Writing,
        is_end(start, turns),
        0 <= i < turns.len(),
        turns[i].step is Done,
    ensures
        turns[i].step->Done_0 == cold_rows(start.scan.items).len(),
        turns[i].state.scan.written == cold_rows(start.scan.items),
{
    lemma_end_states(start, turns, i);
    lemma_end_states(start, turns, i + 1);
    assert(end_follows(start, turns, i));
}

/// A chunk that a scan hands out holds no more rows than one record batch,
/// and less than a chunk is held back: memory does not grow with the number
/// of expired keys.
pub proof fn law_chunks_are_bounded(
    s: ScanModel,
    item: (Seq<u8>, Seq<u8>),
    t: ScanModel,
    r: ScanStep,
)
    requires
        s.valid(),
        on_item(s, item, t, r),
    ensures
        t.valid(),
        t.pending.len() < ROWS_PER_BATCH,
        r matches ScanStep::Write(chunk) ==> chunk@.len() == ROWS_PER_BATCH,
{
    lemma_on_item_valid(s, item, t, r);
    if let ScanStep::Write(chunk) = r {
        assert(cold_views(chunk@).len() == chunk@.len());
    }
}

/// The row of a stored item has the timestamp of its key as a number, at most
/// the largest one that a column holds, and the name of its key.
pub proof fn law_rows_keep_time_and_name(
    item: (Seq<u8>, Seq<u8>),
    ts: u64,
    name: Seq<char>,
)
    requires
        crate::storage::fjall_engine::key_parts(item.0) == Some((ts, name)),
    ensures
        cold_row(item) matches Some(row) && {
            &&& ts <= 0x7fff_ffff_ffff_ffff ==> row.ts as int == ts as int
            &&& ts > 0x7fff_ffff_ffff_ffff ==> row.ts as int == 0x7fff_ffff_ffff_ffff
            &&& row.name == name
        },
{
}

/// The row of a stored item has the sample, flavour and labels of its payload,
/// where the payload is an object that holds them.
pub proof fn law_rows_keep_the_payload(
    item: (Seq<u8>, Seq<u8>),
    m: Map<Seq<char>, crate::json::Json>,
    n: serde_json::Number,
    kind: Seq<char>,
    labels: Map<Seq<char>, crate::json::Json>,
)
    requires
        crate::storage::fjall_engine::key_parts(item.0) is Some,
        crate::json::json_parse(item.1) == Some(crate::json::Json::Object(m)),
    ensures
        cold_row(item) matches Some(row) && {
            &&& m.contains_key("value"@) && m["value"@] == crate::json::Json::Number(n) ==> row.value
                == n
            &&& m.contains_key("metric_type"@) && m["metric_type"@] == crate::json::Json::Text(
                kind,
            ) ==> row.kind == kind
            &&& m.contains_key("labels"@) && m["labels"@] == crate::json::Json::Object(labels)
                ==> row.labels == crate::json::json_text(crate::json::Json::Object(labels))
        },
{
}

/// A scan loses nothing and invents nothing: of an item with a key of this
/// store it takes one row, after those that it had, with the timestamp of the
/// key as a number; of any other item none. Rows that were handed out stay
/// handed out.
pub proof fn law_scans_take_each_row_once(
    s: ScanModel,
    item: (Seq<u8>, Seq<u8>),
    t: ScanModel,
    r: ScanStep,
)
    requires
        on_item(s, item, t, r),
    ensures
        t.items == s.items.push(item),
        match crate::storage::fjall_engine::key_parts(item.0) {
            None => r is Skip && t.written == s.written && t.pending == s.pending,
            Some((ts, name)) => {
                let all = t.written + t.pending;
                &&& all.len() == s.written.len() + s.pending.len() + 1
                &&& all.drop_last() == s.written + s.pending
                &&& ts <= 0x7fff_ffff_ffff_ffff ==> all.last().ts as int == ts as int
                &&& all.last().name == name
                &&& r matches ScanStep::Write(chunk) ==> {
                    &&& chunk@.len() == s.pending.len() + 1
                    &&& t.written == s.written + cold_views(chunk@)
                    &&& t.pending.len() == 0
                }
                &&& !(r is Write) ==> t.written == s.written
                &&& (r is Write) == (s.pending.len() + 1 >= 5_000)
            },
        },
{
    if let Some(row) = cold_row(item) {
        let all = t.written + t.pending;
        assert(all =~= (s.written + s.pending).push(row));
        assert(all.drop_last() =~= s.written + s.pending);
        if let ScanStep::Write(chunk) = r {
            assert(cold_views(chunk@).len() == chunk@.len());
        }
    }
}

/// The rows of items that were scanned one after the other are the rows of
/// the first ones and of the later ones; one item has one row or none.
pub proof fn law_rows_follow_items(
    first: Seq<(Seq<u8>, Seq<u8>)>,
    more: Seq<(Seq<u8>, Seq<u8>)>,
    item: (Seq<u8>, Seq<u8>),
)
    ensures
        cold_rows(first + more) == cold_rows(first) + cold_rows(more),
        cold_rows(seq![item]) == (match crate::storage::fjall_engine::key_parts(item.0) {
            Some(_) => seq![cold_row(item).unwrap()],
            None => Seq::empty(),
        }),
    decreases more.len(),
{
    let one = seq![item];
    assert(one.drop_last() =~= Seq::empty());
    assert(cold_rows(one.drop_last()) =~= Seq::empty());
    assert(cold_rows(one) =~= match crate::storage::fjall_engine::key_parts(item.0) {
        Some(_) => seq![cold_row(item).unwrap()],
        None => Seq::empty(),
    });
    if more.len() == 0 {
        assert(first + more =~= first);
        assert(cold_rows(first) + cold_rows(more) =~= cold_rows(first));
    } else {
        law_rows_follow_items(first, more.drop_last(), item);
        assert((first + more).drop_last() =~= first + more.drop_last());
        assert((first + more).last() == more.last());
        assert(cold_rows(first + more) =~= cold_rows(first) + cold_rows(more));
    }
}

/// The end of a pass writes what is held back, publishes what was written and
/// reports nothing where nothing was.
pub proof fn law_ends_write_before_publishing(s: EndModel, t: EndModel, r: EndStep)
    requires
        s.scan.valid(),
        s.stage is Writing,
        on_end(s, t, r),
    ensures
        t.scan.items == s.scan.items,
        s.scan.pending.len() > 0 ==> {
            &&& r matches EndStep::Write(chunk) && cold_views(chunk@) == s.scan.pending
            &&& t.scan.written == s.scan.written + s.scan.pending
            &&& t.scan.pending.len() == 0
        },
        s.scan.pending.len() == 0 ==> (r is Publish) == (cold_rows(s.scan.items).len() > 0),
        r is Done ==> cold_rows(s.scan.items).len() == 0 && r->Done_0 == 0,
{
    assert(s.scan.pending.len() == 0 ==> s.scan.written + s.scan.pending =~= s.scan.written);
}

/// The export is opened with the first row of a pass and never again.
pub proof fn law_exports_are_opened_once(
    s: ScanModel,
    item: (Seq<u8>, Seq<u8>),
    t: ScanModel,
    r: ScanStep,
)
    requires
        s.valid(),
        on_item(s, item, t, r),
    ensures
        (r is Open) == (crate::storage::fjall_engine::key_parts(item.0) is Some && s.written.len()
            == 0 && s.pending.len() == 0),
{
    assert((s.written + s.pending).len() == s.written.len() + s.pending.len());
    if s.written.len() == 0 && s.pending.len() == 0 {
        assert(cold_rows(s.items).len() == 0);
    }
}

/// After the export was published the keys are purged, then the store is
/// persisted, then the pass is done, and stays done.
pub proof fn law_ends_go_on_in_order(s: EndModel, t: EndModel, r: EndStep)
    requires
        on_end(s, t, r),
    ensures
        s.stage is Writing && r is Publish ==> t.stage is Publishing,
        s.stage is Writing && r is Write ==> t.stage is Writing,
        s.stage is Publishing ==> r is Purge && t.stage is Purging && t.scan == s.scan,
        s.stage is Purging ==> r is Persist && t.stage is Persisting && t.scan == s.scan,
        s.stage is Persisting ==> r is Done && t.stage is Finished && t.scan == s.scan,
        s.stage is Finished ==> r is Done && t == s,
        r matches EndStep::Purge(n) ==> s.stage is Publishing && n as int == s.scan.covered,
{
}

} // verus!
