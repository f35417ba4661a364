//! The writer's decisions: how messages from the pipeline become batches of
//! rows, and when the writer stops.
//!
//! The writer waits for one message, then drains more without waiting until
//! the batch is full or nothing is left, and inserts the batch. A shutdown
//! request ends it: right away while it waits, after the batch while it
//! drains.

use crate::storage::fjall_engine::flush_batch;
use crate::types::{MetricEntry, PipelineMsg};
use vstd::prelude::*;

verus! {

/// The entry type of the hot store.
pub type StoredEntry = MetricEntry<serde_json::Value>;

/// What the writer does next.
#[derive(Debug)]
pub enum WriterStep {
    /// Look for another message without waiting.
    Drain,
    /// Insert these rows, then wait for a message.
    Flush(Vec<(Vec<u8>, Vec<u8>)>),
    /// Insert these rows, persist and exit.
    FlushAndStop(Vec<(Vec<u8>, Vec<u8>)>),
    /// Persist and exit.
    Stop,
}

impl WriterStep {
    /// The rows that the step inserts.
    pub open spec fn rows(self) -> Seq<(Seq<u8>, Seq<u8>)> {
        match self {
            WriterStep::Flush(v) => crate::storage::fjall_engine::row_views(v@),
            WriterStep::FlushAndStop(v) => crate::storage::fjall_engine::row_views(v@),
            _ => Seq::empty(),
        }
    }

    /// Whether the writer exits with this step.
    pub open spec fn stops(self) -> bool {
        self is FlushAndStop || self is Stop
    }
}

/// The writer's state as a mathematical value.
pub ghost struct WriterModel {
    /// The largest batch.
    pub batch_rows: nat,
    /// Entries taken from the pipeline and not yet inserted.
    pub batch: Seq<StoredEntry>,
    /// The sequence number of the next row.
    pub seq: u32,
}

/// The writer's state.
#[derive(Debug)]
pub struct Writer {
    batch_rows: usize,
    batch: Vec<StoredEntry>,
    seq: u32,
}

impl View for Writer {
    type V = WriterModel;

    closed spec fn view(&self) -> WriterModel {
        WriterModel { batch_rows: self.batch_rows as nat, batch: self.batch@, seq: self.seq }
    }
}

/// The state after the whole batch was inserted.
pub open spec fn flushed(s: WriterModel) -> WriterModel {
    WriterModel {
        batch: Seq::empty(),
        seq: crate::storage::fjall_engine::seq_after(s.seq, s.batch.len() as int),
        ..s
    }
}

/// `r` is the step that goes on after `s` took another entry, and `t` the
/// state after it: drain while there is room, else insert.
pub open spec fn grown(s: WriterModel, t: WriterModel, r: WriterStep) -> bool {
    if s.batch.len() < s.batch_rows {
        r is Drain && t == s
    } else {
        r is Flush && t == flushed(s) && r.rows() == crate::storage::fjall_engine::rows(
            s.batch,
            s.seq,
        )
    }
}

/// What the writer does with the answer to waiting for a message; no message
/// means that the pipeline is closed.
pub open spec fn on_received(
    s: WriterModel,
    msg: Option<PipelineMsg<serde_json::Value>>,
    t: WriterModel,
    r: WriterStep,
) -> bool {
    match msg {
        Some(PipelineMsg::Metric(e)) => grown(WriterModel { batch: seq![e], ..s }, t, r),
        _ => r is Stop && t == WriterModel { batch: Seq::empty(), ..s },
    }
}

/// What the writer does with the answer to looking for another message; no
/// message means that none is there.
pub open spec fn on_polled(
    s: WriterModel,
    msg: Option<PipelineMsg<serde_json::Value>>,
    t: WriterModel,
    r: WriterStep,
) -> bool {
    match msg {
        Some(PipelineMsg::Metric(e)) => grown(WriterModel { batch: s.batch.push(e), ..s }, t, r),
        Some(PipelineMsg::Shutdown) => {
            &&& r is FlushAndStop
            &&& r.rows() == crate::storage::fjall_engine::rows(s.batch, s.seq)
            &&& t == flushed(s)
        },
        None => {
            &&& r is Flush
            &&& r.rows() == crate::storage::fjall_engine::rows(s.batch, s.seq)
            &&& t == flushed(s)
        },
    }
}

/// Whether each row that is inserted, if any, reads back as the entry it was
/// made of.
pub open spec fn all_read_back(entries: Seq<StoredEntry>, rows: Seq<(Seq<u8>, Seq<u8>)>) -> bool {
    rows.len() > 0 ==> {
        &&& rows.len() == entries.len()
        &&& forall|i: int|
            0 <= i < rows.len() ==> crate::storage::fjall_engine::reads_back(
                entries[i],
                #[trigger] rows[i],
            )
    }
}

/// The entries that a batch holds once a message was taken.
pub open spec fn batch_with(
    batch: Seq<StoredEntry>,
    msg: Option<PipelineMsg<serde_json::Value>>,
) -> Seq<StoredEntry> {
    match msg {
        Some(PipelineMsg::Metric(e)) => batch.push(e),
        _ => batch,
    }
}

impl Writer {
    /// A writer that inserts at most `batch_rows` rows per burst.
    #[must_use]
    pub fn new(batch_rows: usize) -> (r: Self)
        ensures
            r@ == (WriterModel { batch_rows: batch_rows as nat, batch: Seq::empty(), seq: 0 }),
    {
        Writer { batch_rows, batch: Vec::new(), seq: 0 }
    }

    fn take_rows(&mut self) -> (r: Vec<(Vec<u8>, Vec<u8>)>)
        ensures
            final(self)@ == flushed(old(self)@),
            crate::storage::fjall_engine::row_views(r@) == crate::storage::fjall_engine::rows(
                old(self)@.batch,
                old(self)@.seq,
            ),
            all_read_back(
                old(self)@.batch,
                crate::storage::fjall_engine::row_views(r@),
            ),
    {
        let rows = flush_batch(&self.batch, &mut self.seq);
        self.batch = Vec::new();
        rows
    }

    fn grow(&mut self, entry: StoredEntry) -> (r: WriterStep)
        ensures
            grown(
                WriterModel { batch: old(self)@.batch.push(entry), ..old(self)@ },
                final(self)@,
                r,
            ),
            all_read_back(old(self)@.batch.push(entry), r.rows()),
    {
        self.batch.push(entry);
        if self.batch.len() < self.batch_rows {
            WriterStep::Drain
        } else {
            WriterStep::Flush(self.take_rows())
        }
    }

    /// Decides after waiting for a message: `None` when the pipeline is
    /// closed.
    pub fn received(&mut self, msg: Option<PipelineMsg<serde_json::Value>>) -> (r: WriterStep)
        ensures
            on_received(old(self)@, msg, final(self)@, r),
            all_read_back(batch_with(Seq::empty(), msg), r.rows()),
    {
        self.batch = Vec::new();
        match msg {
            Some(PipelineMsg::Metric(entry)) => {
                assert(self@.batch.push(entry) =~= seq![entry]);
                self.grow(entry)
            },
            Some(PipelineMsg::Shutdown) => WriterStep::Stop,
            None => WriterStep::Stop,
        }
    }

    /// Decides after looking for another message without waiting: `None` when
    /// there is none.
    pub fn polled(&mut self, msg: Option<PipelineMsg<serde_json::Value>>) -> (r: WriterStep)
        ensures
            on_polled(old(self)@, msg, final(self)@, r),
            all_read_back(batch_with(old(self)@.batch, msg), r.rows()),
    {
        match msg {
            Some(PipelineMsg::Metric(entry)) => self.grow(entry),
            Some(PipelineMsg::Shutdown) => WriterStep::FlushAndStop(self.take_rows()),
            None => WriterStep::Flush(self.take_rows()),
        }
    }
}

/// What `try_recv` answered on a receiver so far, in order.
pub uninterp spec fn polls(
    rx: tokio::sync::mpsc::Receiver<PipelineMsg<serde_json::Value>>,
) -> Seq<Option<PipelineMsg<serde_json::Value>>>;

/// `tokio::sync::mpsc::Receiver::try_recv`: the next message, where one is
/// there. What is there depends on the senders; whatever it is, it is the next
/// answer of this receiver.
#[verifier::external_body]
fn try_recv(rx: &mut tokio::sync::mpsc::Receiver<PipelineMsg<serde_json::Value>>) -> (r: Option<
    PipelineMsg<serde_json::Value>,
>)
    ensures
        polls(*final(rx)) == polls(*old(rx)).push(r),
{
    rx.try_recv().ok()
}

/// Whether an answer of the pipeline is an entry.
pub open spec fn is_entry(answer: Option<PipelineMsg<serde_json::Value>>) -> bool {
    answer matches Some(PipelineMsg::Metric(_))
}

/// The entries among the answers of the pipeline, in order.
pub open spec fn entries_of(answers: Seq<Option<PipelineMsg<serde_json::Value>>>) -> Seq<
    StoredEntry,
>
    decreases answers.len(),
{
    if answers.len() == 0 {
        Seq::empty()
    } else {
        batch_with(entries_of(answers.drop_last()), answers.last())
    }
}

/// What draining the pipeline leads to, given its answers: it was asked while
/// the batch had room and nothing but entries came, the batch was inserted
/// together with these entries, and the writer stops exactly when the last
/// answer is a request to stop.
pub open spec fn drained(
    s: WriterModel,
    answers: Seq<Option<PipelineMsg<serde_json::Value>>>,
    t: WriterModel,
    r: WriterStep,
) -> bool {
    let n = answers.len() as int;
    let full = WriterModel { batch: s.batch + entries_of(answers), ..s };
    &&& forall|i: int| 0 <= i < n - 1 ==> is_entry(#[trigger] answers[i])
    &&& n > 0 ==> s.batch.len() + (n - 1) < s.batch_rows
    &&& n == 0 || is_entry(answers.last()) ==> full.batch.len() >= s.batch_rows
    &&& r is Flush || r is FlushAndStop
    &&& (r is FlushAndStop) == (n > 0 && answers.last() == Some(
        PipelineMsg::<serde_json::Value>::Shutdown,
    ))
    &&& r.rows() == crate::storage::fjall_engine::rows(full.batch, full.seq)
    &&& t == flushed(full)
}

impl Writer {
    /// Takes further messages from the pipeline without waiting, until the
    /// batch is full, a request to stop is met or nothing is left, and then
    /// inserts the batch.
    pub fn drain(
        &mut self,
        rx: &mut tokio::sync::mpsc::Receiver<PipelineMsg<serde_json::Value>>,
    ) -> (r: WriterStep)
        ensures
            exists|answers: Seq<Option<PipelineMsg<serde_json::Value>>>|
                {
                    &&& polls(*final(rx)) == polls(*old(rx)) + answers
                    &&& #[trigger] drained(old(self)@, answers, final(self)@, r)
                    &&& all_read_back(old(self)@.batch + entries_of(answers), r.rows())
                },
    {
        let ghost start = self@;
        let ghost mut answers: Seq<Option<PipelineMsg<serde_json::Value>>> = Seq::empty();
        assert(start.batch + entries_of(answers) =~= start.batch);
        assert(polls(*rx) =~= polls(*old(rx)) + answers);
        while self.batch.len() < self.batch_rows
            invariant
                start == old(self)@,
                self@ == (WriterModel { batch: start.batch + entries_of(answers), ..start }),
                polls(*rx) == polls(*old(rx)) + answers,
                entries_of(answers).len() == answers.len(),
                forall|i: int| 0 <= i < answers.len() ==> is_entry(#[trigger] answers[i]),
                answers.len() > 0 ==> start.batch.len() + (answers.len() - 1) < start.batch_rows,
            decreases self.batch_rows - self.batch.len(),
        {
            let ghost before = answers;
            let msg = try_recv(rx);
            proof {
                answers = before.push(msg);
                assert(answers.drop_last() =~= before);
                assert(polls(*rx) =~= polls(*old(rx)) + answers);
                assert(batch_with(start.batch + entries_of(before), msg) =~= start.batch
                    + entries_of(answers));
            }
            let step = self.polled(msg);
            match step {
                WriterStep::Drain => {},
                _ => {
                    assert(drained(start, answers, self@, step));
                    return step;
                },
            }
        }
        let r = WriterStep::Flush(self.take_rows());
        assert(drained(start, answers, self@, r));
        r
    }
}

/// What the pipeline answers in one turn.
pub ghost enum Input {
    /// The answer to waiting for a message, for [`Writer::received`].
    Received(Option<PipelineMsg<serde_json::Value>>),
    /// The answer to looking for another message, for [`Writer::polled`].
    Polled(Option<PipelineMsg<serde_json::Value>>),
    /// The answers that [`Writer::drain`] was given.
    Drained(Seq<Option<PipelineMsg<serde_json::Value>>>),
}

/// One turn in the course of a run: what the pipeline answered, the step that
/// the writer took and the state it was left in.
pub ghost struct Turn {
    pub input: Input,
    pub step: WriterStep,
    pub state: WriterModel,
}

/// The state before turn `i` of a run from `start`.
pub open spec fn state_before(start: WriterModel, turns: Seq<Turn>, i: int) -> WriterModel {
    if i == 0 {
        start
    } else {
        turns[i - 1].state
    }
}

/// Whether turn `i` follows from what came before it: after a drain step the
/// writer looks for one message or drains, otherwise it waits for a message,
/// and after a step that stops there is no further turn.
pub open spec fn turn_follows(start: WriterModel, turns: Seq<Turn>, i: int) -> bool {
    let t = turns[i];
    let s = state_before(start, turns, i);
    let draining = i > 0 && turns[i - 1].step is Drain;
    match t.input {
        Input::Received(msg) => {
            &&& on_received(s, msg, t.state, t.step)
            &&& !draining
            &&& i > 0 ==> !turns[i - 1].step.stops()
        },
        Input::Polled(msg) => draining && on_polled(s, msg, t.state, t.step),
        Input::Drained(answers) => draining && drained(s, answers, t.state, t.step),
    }
}

/// Whether turns form a run of a writer from `start`.
pub open spec fn is_run(start: WriterModel, turns: Seq<Turn>) -> bool {
    forall|i: int| 0 <= i < turns.len() ==> #[trigger] turn_follows(start, turns, i)
}

/// The entries that the turns of a run brought in, in order.
pub open spec fn brought_in(turns: Seq<Turn>) -> Seq<StoredEntry>
    decreases turns.len(),
{
    if turns.len() == 0 {
        Seq::empty()
    } else {
        match turns.last().input {
            Input::Received(msg) => batch_with(brought_in(turns.drop_last()), msg),
            Input::Polled(msg) => batch_with(brought_in(turns.drop_last()), msg),
            Input::Drained(answers) => brought_in(turns.drop_last()) + entries_of(answers),
        }
    }
}

/// The rows that the turns of a run inserted, in order.
pub open spec fn inserted(turns: Seq<Turn>) -> Seq<(Seq<u8>, Seq<u8>)>
    decreases turns.len(),
{
    if turns.len() == 0 {
        Seq::empty()
    } else {
        inserted(turns.drop_last()) + turns.last().step.rows()
    }
}

/// Every entry that reaches the writer is inserted exactly once and in order.
/// What a run inserted, followed by the batch it still holds, is the rows of
/// the entries that came in; unless it is draining it holds none, so once it
/// waits or has stopped everything is inserted.
pub proof fn law_every_entry_is_inserted_once(start: WriterModel, turns: Seq<Turn>)
    requires
        start.batch.len() == 0,
        is_run(start, turns),
    ensures
        ({
            let end = state_before(start, turns, turns.len() as int);
            &&& inserted(turns) + crate::storage::fjall_engine::rows(end.batch, end.seq)
                == crate::storage::fjall_engine::rows(brought_in(turns), start.seq)
            &&& turns.len() == 0 || !(turns.last().step is Drain) ==> end.batch.len() == 0
        }),
{
    lemma_run_state(start, turns);
}

proof fn lemma_run_prefix(start: WriterModel, turns: Seq<Turn>)
    requires
        is_run(start, turns),
        turns.len() > 0,
    ensures
        is_run(start, turns.drop_last()),
        state_before(start, turns.drop_last(), turns.len() - 1) == state_before(
            start,
            turns,
            turns.len() - 1,
        ),
{
    let p = turns.drop_last();
    assert forall|i: int| 0 <= i < p.len() implies #[trigger] turn_follows(start, p, i) by {
        assert(turn_follows(start, turns, i));
    }
}

proof fn lemma_run_state(start: WriterModel, turns: Seq<Turn>)
    requires
        start.batch.len() == 0,
        is_run(start, turns),
    ensures
        ({
            let end = state_before(start, turns, turns.len() as int);
            &&& inserted(turns) + crate::storage::fjall_engine::rows(end.batch, end.seq)
                == crate::storage::fjall_engine::rows(brought_in(turns), start.seq)
            &&& turns.len() == 0 || !(turns.last().step is Drain) ==> end.batch.len() == 0
            &&& end.seq == crate::storage::fjall_engine::seq_after(
                start.seq,
                brought_in(turns).len() - end.batch.len(),
            )
            &&& end.batch.len() <= brought_in(turns).len()
        }),
    decreases turns.len(),
{
    if turns.len() == 0 {
        crate::storage::fjall_engine::lemma_seq_after(start.seq, 0, 0);
        assert(crate::storage::fjall_engine::rows(start.batch, start.seq) =~= Seq::empty());
        assert(crate::storage::fjall_engine::rows(brought_in(turns), start.seq) =~= Seq::empty());
    } else {
        let n = turns.len() as int;
        let p = turns.drop_last();
        let s = state_before(start, turns, n - 1);
        let t = turns[n - 1];
        assert(turn_follows(start, turns, n - 1));
        lemma_run_prefix(start, turns);
        lemma_run_state(start, p);
        assert(state_before(start, p, p.len() as int) == s);
        if n > 1 {
            assert(p.last() == turns[n - 2]);
        }
        let more = match t.input {
            Input::Received(msg) => batch_with(Seq::empty(), msg),
            Input::Polled(msg) => batch_with(Seq::empty(), msg),
            Input::Drained(answers) => entries_of(answers),
        };
        let taken = s.batch + more;
        assert(brought_in(turns) =~= brought_in(p) + more);
        match t.input {
            Input::Received(msg) => {
                assert(s.batch =~= Seq::empty());
                assert(taken =~= batch_with(Seq::empty(), msg));
            },
            Input::Polled(msg) => {
                assert(taken =~= batch_with(s.batch, msg));
            },
            Input::Drained(_) => {},
        }
        lemma_taken(start.seq, inserted(p), s, brought_in(p), more);
        crate::storage::fjall_engine::lemma_seq_after(
            start.seq,
            brought_in(p).len() - s.batch.len(),
            taken.len() as int,
        );
        if t.step is Flush || t.step is FlushAndStop {
            assert(t.step.rows() == crate::storage::fjall_engine::rows(taken, s.seq));
            assert(crate::storage::fjall_engine::rows(t.state.batch, t.state.seq) =~= Seq::empty());
            assert(inserted(turns) + Seq::<(Seq<u8>, Seq<u8>)>::empty() =~= inserted(turns));
        } else {
            assert(t.state.batch =~= taken);
            assert(inserted(turns) =~= inserted(p));
        }
    }
}

proof fn lemma_taken(
    first: u32,
    out: Seq<(Seq<u8>, Seq<u8>)>,
    s: WriterModel,
    brought: Seq<StoredEntry>,
    more: Seq<StoredEntry>,
)
    requires
        s.batch.len() <= brought.len(),
        s.seq == crate::storage::fjall_engine::seq_after(first, brought.len() - s.batch.len()),
        out + crate::storage::fjall_engine::rows(s.batch, s.seq)
            == crate::storage::fjall_engine::rows(brought, first),
    ensures
        out + crate::storage::fjall_engine::rows(s.batch + more, s.seq)
            == crate::storage::fjall_engine::rows(brought + more, first),
{
    crate::storage::fjall_engine::lemma_seq_after(
        first,
        brought.len() - s.batch.len(),
        s.batch.len() as int,
    );
    crate::storage::fjall_engine::lemma_rows_concat(s.batch, more, s.seq);
    crate::storage::fjall_engine::lemma_rows_concat(brought, more, first);
    let last = crate::storage::fjall_engine::rows(
        more,
        crate::storage::fjall_engine::seq_after(first, brought.len() as int),
    );
    assert(out + (crate::storage::fjall_engine::rows(s.batch, s.seq) + last) =~= (out
        + crate::storage::fjall_engine::rows(s.batch, s.seq)) + last);
}

proof fn lemma_entries_bounded(answers: Seq<Option<PipelineMsg<serde_json::Value>>>)
    ensures
        entries_of(answers).len() <= answers.len(),
    decreases answers.len(),
{
    if answers.len() > 0 {
        lemma_entries_bounded(answers.drop_last());
    }
}

/// No insert burst is larger than the configured batch, where the batch may
/// hold anything at all: a step inserts at most `batch_rows` rows.
pub proof fn law_bursts_are_bounded(start: WriterModel, turns: Seq<Turn>, i: int)
    requires
        start.batch.len() == 0,
        start.batch_rows > 0,
        is_run(start, turns),
        0 <= i < turns.len(),
    ensures
        turns[i].step.rows().len() <= start.batch_rows,
        turns[i].state.batch_rows == start.batch_rows,
        turns[i].step is Drain ==> turns[i].state.batch.len() < start.batch_rows,
        !(turns[i].step is Drain) ==> turns[i].state.batch.len() == 0,
    decreases i,
{
    if i > 0 {
        law_bursts_are_bounded(start, turns, i - 1);
    }
    assert(turn_follows(start, turns, i));
    if let Input::Drained(answers) = turns[i].input {
        lemma_entries_bounded(answers);
    }
}

/// What the answers of the pipeline bring in: each entry once, in its place,
/// and nothing else.
pub proof fn law_answers_bring_in_their_entries(
    answers: Seq<Option<PipelineMsg<serde_json::Value>>>,
    entry: StoredEntry,
)
    ensures
        entries_of(Seq::empty()).len() == 0,
        entries_of(answers.push(Some(PipelineMsg::Metric(entry)))) == entries_of(answers).push(
            entry,
        ),
        entries_of(answers.push(Some(PipelineMsg::Shutdown))) == entries_of(answers),
        entries_of(answers.push(None)) == entries_of(answers),
{
    assert(answers.push(Some(PipelineMsg::Metric(entry))).drop_last() =~= answers);
    assert(answers.push(Some(PipelineMsg::Shutdown)).drop_last() =~= answers);
    assert(answers.push(None).drop_last() =~= answers);
}

/// What the turns of a run bring in and insert: the entries of each turn once,
/// after those of the turns before, and the rows of its step.
pub proof fn law_turns_bring_in_their_entries(
    turns: Seq<Turn>,
    step: WriterStep,
    state: WriterModel,
    entry: StoredEntry,
    answers: Seq<Option<PipelineMsg<serde_json::Value>>>,
)
    ensures
        ({
            let msg = Some(PipelineMsg::Metric(entry));
            let before = brought_in(turns);
            &&& brought_in(Seq::empty()).len() == 0
            &&& brought_in(turns.push(Turn { input: Input::Received(msg), step, state }))
                == before.push(entry)
            &&& brought_in(turns.push(Turn { input: Input::Polled(msg), step, state }))
                == before.push(entry)
            &&& brought_in(turns.push(Turn { input: Input::Drained(answers), step, state }))
                == before + entries_of(answers)
            &&& brought_in(turns.push(Turn { input: Input::Received(None), step, state })) == before
            &&& brought_in(turns.push(Turn { input: Input::Polled(None), step, state })) == before
            &&& inserted(turns.push(Turn { input: Input::Polled(None), step, state })) == inserted(
                turns,
            ) + step.rows()
        }),
{
    let msg = Some(PipelineMsg::Metric(entry));
    assert(turns.push(Turn { input: Input::Received(msg), step, state }).drop_last() =~= turns);
    assert(turns.push(Turn { input: Input::Polled(msg), step, state }).drop_last() =~= turns);
    assert(turns.push(Turn { input: Input::Drained(answers), step, state }).drop_last() =~= turns);
    assert(turns.push(Turn { input: Input::Received(None), step, state }).drop_last() =~= turns);
    assert(turns.push(Turn { input: Input::Polled(None), step, state }).drop_last() =~= turns);
}

/// A step inserts the rows that it carries and no others.
pub proof fn law_steps_insert_their_rows(rows: Vec<(Vec<u8>, Vec<u8>)>, i: int)
    requires
        0 <= i < rows@.len(),
    ensures
        WriterStep::Flush(rows).rows().len() == rows@.len(),
        WriterStep::FlushAndStop(rows).rows().len() == rows@.len(),
        WriterStep::Flush(rows).rows()[i] == (rows@[i].0@, rows@[i].1@),
        WriterStep::FlushAndStop(rows).rows()[i] == (rows@[i].0@, rows@[i].1@),
        WriterStep::Drain.rows().len() == 0,
        WriterStep::Stop.rows().len() == 0,
{
}

/// When the writer goes on: it drains while the batch has room for more,
/// inserts the batch as soon as it is full or nothing is left, and stops on a
/// request, at once while it waits and after the batch while it drains, and
/// when the pipeline is closed.
pub proof fn law_writer_fills_its_batches(
    s: WriterModel,
    msg: Option<PipelineMsg<serde_json::Value>>,
    t: WriterModel,
    r: WriterStep,
)
    ensures
        on_received(s, msg, t, r) ==> {
            &&& msg matches Some(PipelineMsg::Metric(e)) ==> if s.batch_rows > 1 {
                r is Drain && t.batch == seq![e] && t.seq == s.seq
            } else {
                r is Flush && t.batch.len() == 0 && r.rows()
                    == crate::storage::fjall_engine::rows(seq![e], s.seq)
            }
            &&& !(msg matches Some(PipelineMsg::Metric(_))) ==> r is Stop && t.batch.len() == 0
            &&& t.batch_rows == s.batch_rows
        },
        on_polled(s, msg, t, r) ==> {
            &&& msg matches Some(PipelineMsg::Metric(e)) ==> if s.batch.len() + 1 < s.batch_rows {
                r is Drain && t.batch == s.batch.push(e) && t.seq == s.seq
            } else {
                r is Flush && t.batch.len() == 0 && r.rows()
                    == crate::storage::fjall_engine::rows(s.batch.push(e), s.seq)
            }
            &&& msg == Some(PipelineMsg::<serde_json::Value>::Shutdown) ==> r is FlushAndStop
            &&& msg is None ==> r is Flush
            &&& !(msg matches Some(PipelineMsg::Metric(_))) ==> t.batch.len() == 0 && r.rows()
                == crate::storage::fjall_engine::rows(s.batch, s.seq)
            &&& t.batch_rows == s.batch_rows
        },
        WriterStep::Stop.stops(),
        !WriterStep::Drain.stops(),
{
}

/// Draining takes what is there: it stops only when the batch is full, when
/// the pipeline had nothing left or when it was asked to, asks no more once
/// the batch is full, and inserts the batch with every entry that came.
pub proof fn law_draining_takes_what_is_there(
    s: WriterModel,
    answers: Seq<Option<PipelineMsg<serde_json::Value>>>,
    t: WriterModel,
    r: WriterStep,
)
    requires
        drained(s, answers, t, r),
    ensures
        forall|i: int|
            0 <= i < answers.len() - 1 ==> (#[trigger] answers[i] matches Some(
                PipelineMsg::Metric(_),
            )),
        answers.len() == 0 ==> s.batch.len() >= s.batch_rows && r is Flush,
        answers.len() > 0 ==> {
            &&& s.batch.len() + answers.len() <= s.batch_rows
            &&& match answers.last() {
                Some(PipelineMsg::Metric(_)) => r is Flush && s.batch.len() + answers.len()
                    == s.batch_rows,
                Some(PipelineMsg::Shutdown) => r is FlushAndStop,
                None => r is Flush,
            }
        },
        r.rows() == crate::storage::fjall_engine::rows(s.batch + entries_of(answers), s.seq),
        t.batch.len() == 0,
        t.batch_rows == s.batch_rows,
        t.seq as int == (s.seq as int + s.batch.len() + entries_of(answers).len()) % 0x1_0000_0000,
{
    lemma_entries_bounded(answers);
    assert forall|i: int| 0 <= i < answers.len() - 1 implies (#[trigger] answers[i] matches Some(
        PipelineMsg::Metric(_),
    )) by {
        assert(is_entry(answers[i]));
    }
}

proof fn lemma_all_entries(answers: Seq<Option<PipelineMsg<serde_json::Value>>>, i: int)
    requires
        forall|j: int| 0 <= j < answers.len() ==> is_entry(#[trigger] answers[j]),
        0 <= i < answers.len(),
    ensures
        entries_of(answers).len() == answers.len(),
        answers[i] == Some(PipelineMsg::Metric(entries_of(answers)[i])),
    decreases answers.len(),
{
    let before = answers.drop_last();
    assert(is_entry(answers[answers.len() - 1]));
    assert forall|j: int| 0 <= j < before.len() implies is_entry(#[trigger] before[j]) by {
        assert(before[j] == answers[j]);
    }
    let earlier = entries_of(before);
    if before.len() > 0 {
        lemma_all_entries(before, if i < before.len() { i } else { 0 });
    }
    assert(earlier.len() == before.len());
    if let Some(PipelineMsg::Metric(e)) = answers.last() {
        assert(entries_of(answers) == earlier.push(e));
        if i < before.len() {
            assert(before[i] == answers[i]);
            assert(entries_of(answers)[i] == earlier[i]);
        } else {
            assert(answers[i] == answers.last());
            assert(entries_of(answers)[i] == e);
        }
    }
}

/// Entries that came one after the other are inserted one after the other:
/// answer by answer, each entry is where it came.
pub proof fn law_entries_keep_their_place(
    answers: Seq<Option<PipelineMsg<serde_json::Value>>>,
    i: int,
)
    requires
        forall|j: int|
            0 <= j < answers.len() ==> (#[trigger] answers[j] matches Some(PipelineMsg::Metric(_))),
        0 <= i < answers.len(),
    ensures
        entries_of(answers).len() == answers.len(),
        answers[i] == Some(PipelineMsg::Metric(entries_of(answers)[i])),
{
    assert forall|j: int| 0 <= j < answers.len() implies is_entry(#[trigger] answers[j]) by {}
    lemma_all_entries(answers, i);
}

} // verus!
