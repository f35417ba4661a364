//! The engine's decisions: where an observation goes, in which order the
//! engine is brought up and down, and what a request before or after that is
//! answered.
//!
//! * An observation never waits: it updates the registry and is offered to
//!   the channel.
//! * Without an engine, and once it is shutting down, observations are silent
//!   no-ops.
//! * A full channel drops the sample for the store; it is still counted in
//!   the registry, and the drop is counted too.

use crate::config::{Config, FjallConfig};
use crate::error::Error;
use crate::prometheus::PromRegistry;
use crate::storage::writer::StoredEntry;
use crate::types::PipelineMsg;
use vstd::prelude::*;

verus! {

/// How often a shutdown offers its request to a full channel.
pub const SENTINEL_ATTEMPTS: u32 = 100;

/// How long a shutdown pauses after each offer to a full channel.
pub const SENTINEL_PAUSE_MILLIS: u64 = 10;

/// The sending half of a bounded channel of `tokio`. What is in the channel is
/// shared with the receiver and is not spoken of.
#[verifier::external_type_specification]
#[verifier::external_body]
#[verifier::reject_recursive_types(T)]
pub struct ExSender<T>(tokio::sync::mpsc::Sender<T>);

/// The receiving half of a bounded channel of `tokio`.
#[verifier::external_type_specification]
#[verifier::external_body]
#[verifier::reject_recursive_types(T)]
pub struct ExReceiver<T>(tokio::sync::mpsc::Receiver<T>);

/// How many messages a channel was made for.
pub uninterp spec fn sender_capacity(
    tx: tokio::sync::mpsc::Sender<PipelineMsg<serde_json::Value>>,
) -> usize;

/// The largest capacity that a channel can be made for.
pub open spec fn largest_capacity() -> int {
    usize::MAX as int / 8
}

/// `tokio::sync::mpsc::channel`: both halves of a channel of the given
/// capacity, of which nothing was asked yet. The call panics without capacity and beyond the largest one.
#[verifier::external_body]
fn open_channel(capacity: usize) -> (r: (
    tokio::sync::mpsc::Sender<PipelineMsg<serde_json::Value>>,
    tokio::sync::mpsc::Receiver<PipelineMsg<serde_json::Value>>,
))
    requires
        0 < capacity <= largest_capacity(),
    ensures
        sender_capacity(r.0) == capacity,
        crate::storage::writer::polls(r.1).len() == 0,
{
    tokio::sync::mpsc::channel(capacity)
}

/// `tokio::sync::mpsc::Sender::max_capacity`: the capacity that the channel
/// was made for.
#[verifier::external_body]
fn capacity_of(tx: &tokio::sync::mpsc::Sender<PipelineMsg<serde_json::Value>>) -> (r: usize)
    ensures
        r == sender_capacity(*tx),
{
    tx.max_capacity()
}

/// How the channel took an offer.
#[derive(Debug, Clone, Copy, PartialEq, Eq, Structural)]
pub enum Offer {
    /// The message is in the channel.
    Delivered,
    /// The channel is full.
    Full,
    /// The receiver is gone.
    Closed,
}

/// `tokio::sync::mpsc::Sender::try_send`: offers a message without waiting.
/// How the channel takes it depends on the other threads, so nothing is said
/// of it.
#[verifier::external_body]
fn try_send(
    tx: &tokio::sync::mpsc::Sender<PipelineMsg<serde_json::Value>>,
    msg: PipelineMsg<serde_json::Value>,
) -> Offer {
    match tx.try_send(msg) {
        Ok(()) => Offer::Delivered,
        Err(tokio::sync::mpsc::error::TrySendError::Full(_)) => Offer::Full,
        Err(tokio::sync::mpsc::error::TrySendError::Closed(_)) => Offer::Closed,
    }
}

/// The engine: its end of the channel to the writer, and what else it is made
/// of.
#[derive(Debug)]
pub struct EngineHandle {
    tx: Option<tokio::sync::mpsc::Sender<PipelineMsg<serde_json::Value>>>,
    prometheus: bool,
    fjall: bool,
}

/// Where an observation goes.
#[derive(Debug, Clone, Copy, PartialEq, Eq, Structural)]
pub struct RecordPlan {
    /// Update the registry.
    pub to_registry: bool,
    /// Offer the entry to the channel.
    pub to_channel: bool,
}

/// What follows an offer to the channel.
#[derive(Debug, Clone, Copy, PartialEq, Eq, Structural)]
pub struct DropPlan {
    /// Count one dropped sample.
    pub count: bool,
    /// Increment the drop counter of the registry.
    pub inc_registry: bool,
}

impl EngineHandle {
    /// The capacity of the channel to the writer, if there is one.
    pub closed spec fn capacity(self) -> Option<usize> {
        match self.tx {
            Some(tx) => Some(sender_capacity(tx)),
            None => None,
        }
    }

    /// Whether there is a registry.
    pub closed spec fn with_prometheus(self) -> bool {
        self.prometheus
    }

    /// Whether the store is open.
    pub closed spec fn with_fjall(self) -> bool {
        self.fjall
    }

    /// Whether what is offered to the channel of this engine is for the given
    /// receiver: both are halves of one channel.
    pub closed spec fn feeds(
        self,
        rx: tokio::sync::mpsc::Receiver<PipelineMsg<serde_json::Value>>,
    ) -> bool {
        self.tx matches Some(tx) && exists|capacity: usize| #[trigger]
            call_ensures(open_channel, (capacity,), (tx, rx))
    }

    /// An engine for the given configuration and the writer's end of its
    /// channel: with a channel where a store is configured and available,
    /// with a registry where exposition is available, and with no open store
    /// yet.
    #[must_use]
    pub fn new<B>(config: &Config<B>, prometheus_exporter: bool, fjall_backend: bool) -> (r: (
        Self,
        Option<tokio::sync::mpsc::Receiver<PipelineMsg<serde_json::Value>>>,
    ))
        requires
            fjall_backend && config.fjall is Some ==> 0 < config.channel_capacity
                <= largest_capacity(),
        ensures
            r.0.capacity() == (if fjall_backend && config.fjall is Some {
                Some(config.channel_capacity)
            } else {
                None
            }),
            (r.1 is Some) == (fjall_backend && config.fjall is Some),
            r.1 matches Some(rx) ==> r.0.feeds(rx) && crate::storage::writer::polls(rx).len() == 0,
            r.0.with_prometheus() == prometheus_exporter,
            !r.0.with_fjall(),
    {
        if fjall_backend && config.fjall.is_some() {
            let (tx, rx) = open_channel(config.channel_capacity);
            (EngineHandle { tx: Some(tx), prometheus: prometheus_exporter, fjall: false }, Some(rx))
        } else {
            (EngineHandle { tx: None, prometheus: prometheus_exporter, fjall: false }, None)
        }
    }

    /// The engine with its store open.
    #[must_use]
    pub fn opened(self) -> (r: Self)
        ensures
            r.with_fjall(),
            r.capacity() == self.capacity(),
            r.with_prometheus() == self.with_prometheus(),
            forall|rx: tokio::sync::mpsc::Receiver<PipelineMsg<serde_json::Value>>| #[trigger]
                r.feeds(rx) == self.feeds(rx),
            forall|msg: PipelineMsg<serde_json::Value>, taken: Offer| #[trigger]
                r.answers(msg, taken) == self.answers(msg, taken),
    {
        EngineHandle { tx: self.tx, prometheus: self.prometheus, fjall: true }
    }

    /// The capacity of the channel to the writer, if there is one.
    #[must_use]
    pub fn channel_capacity(&self) -> (r: Option<usize>)
        ensures
            r == self.capacity(),
    {
        match &self.tx {
            Some(tx) => Some(capacity_of(tx)),
            None => None,
        }
    }

    /// Whether a store is attached.
    #[must_use]
    pub fn has_fjall(&self) -> (r: bool)
        ensures
            r == self.with_fjall(),
    {
        self.fjall
    }

    /// Whether Prometheus sync is active.
    #[must_use]
    pub fn has_prometheus(&self) -> (r: bool)
        ensures
            r == self.with_prometheus(),
    {
        self.prometheus
    }

    /// Where an observation goes.
    pub open spec fn record_plan(self, shutdown: bool) -> RecordPlan {
        RecordPlan {
            to_registry: !shutdown && self.with_prometheus(),
            to_channel: !shutdown && self.capacity() is Some,
        }
    }

    /// Decides where an observation goes: nowhere once the engine is shutting
    /// down.
    #[must_use]
    pub fn record(&self, shutdown: bool) -> (r: RecordPlan)
        ensures
            r == self.record_plan(shutdown),
    {
        RecordPlan {
            to_registry: !shutdown && self.prometheus,
            to_channel: !shutdown && self.tx.is_some(),
        }
    }

    /// What follows an offer to the channel.
    pub open spec fn drop_plan(self, delivered: bool) -> DropPlan {
        DropPlan { count: !delivered, inc_registry: !delivered && self.with_prometheus() }
    }

    /// Decides what follows an offer to the channel: a sample that was not
    /// delivered is counted.
    #[must_use]
    pub fn after_offer(&self, taken: Offer) -> (r: DropPlan)
        ensures
            r == self.drop_plan(taken is Delivered),
    {
        let delivered = match taken {
            Offer::Delivered => true,
            Offer::Full => false,
            Offer::Closed => false,
        };
        DropPlan { count: !delivered, inc_registry: !delivered && self.prometheus }
    }

    /// Whether `taken` is how the channel of this engine can have taken the
    /// message, when it was offered.
    pub closed spec fn answers(self, msg: PipelineMsg<serde_json::Value>, taken: Offer) -> bool {
        self.tx matches Some(tx) && call_ensures(try_send, (&tx, msg), taken)
    }

    /// Offers an entry to the channel and says what follows from how the
    /// channel took it. Nothing is offered once the engine is shutting down
    /// or without a channel.
    pub fn offer(&self, entry: StoredEntry, shutdown: bool) -> (r: DropPlan)
        ensures
            !self.record_plan(shutdown).to_channel ==> r == self.drop_plan(true),
            self.record_plan(shutdown).to_channel ==> exists|taken: Offer| #[trigger]
                self.answers(PipelineMsg::Metric(entry), taken) && r == self.drop_plan(
                    taken is Delivered,
                ),
    {
        match &self.tx {
            Some(tx) if !shutdown => {
                let taken = try_send(tx, PipelineMsg::Metric(entry));
                assert(self.answers(PipelineMsg::Metric(entry), taken));
                self.after_offer(taken)
            },
            _ => self.after_offer(Offer::Delivered),
        }
    }

    /// Offers the request to stop to the writer; `true` when the channel was
    /// full.
    pub fn offer_shutdown(&self) -> (r: bool)
        ensures
            self.capacity() is None ==> !r,
            self.capacity() is Some ==> exists|taken: Offer| #[trigger]
                self.answers(PipelineMsg::Shutdown, taken) && r == (taken is Full),
    {
        match &self.tx {
            Some(tx) => {
                let taken = try_send(tx, PipelineMsg::Shutdown);
                assert(self.answers(PipelineMsg::Shutdown, taken));
                sentinel_waits(taken)
            },
            None => false,
        }
    }

    /// Renders the registry, or nothing where there is none.
    pub fn prometheus_text(&self, registry: Option<&PromRegistry>) -> (r: Result<String, Error>)
        ensures
            registry is None ==> (r matches Ok(text) && text@ == Seq::<char>::empty()),
            registry matches Some(reg) ==> reg.renders(r),
            r matches Err(e) ==> e is Prometheus,
    {
        match registry {
            Some(reg) => reg.gather_text(),
            None => {
                let empty = String::new();
                assert(empty@ =~= Seq::<char>::empty());
                Ok(empty)
            },
        }
    }
}

/// Whether the request to stop has to be offered again: only a full channel
/// can take it later.
#[must_use]
pub fn sentinel_waits(taken: Offer) -> (r: bool)
    ensures
        r == (taken is Full),
{
    match taken {
        Offer::Full => true,
        Offer::Delivered => false,
        Offer::Closed => false,
    }
}

/// Decides where an observation goes when there may be no engine: nowhere
/// without one.
#[must_use]
pub fn global_record(engine: Option<&EngineHandle>, shutdown: bool) -> (r: RecordPlan)
    ensures
        r == match engine {
            Some(h) => h.record_plan(shutdown),
            None => (RecordPlan { to_registry: false, to_channel: false }),
        },
{
    match engine {
        Some(h) => h.record(shutdown),
        None => RecordPlan { to_registry: false, to_channel: false },
    }
}

/// A drop loses nothing but the stored sample: whether or not the channel
/// takes the entry, it goes to the registry of a running engine that has one,
/// and a drop is counted there and in the engine.
pub proof fn law_drop_is_still_recorded(engine: EngineHandle)
    ensures
        engine.with_prometheus() ==> engine.record_plan(false).to_registry,
        engine.drop_plan(false).count,
        engine.with_prometheus() ==> engine.drop_plan(false).inc_registry,
        engine.drop_plan(true) == (DropPlan { count: false, inc_registry: false }),
{
}

/// Once the engine is shutting down, an observation goes nowhere.
pub proof fn law_shutdown_makes_recording_silent(engine: EngineHandle)
    ensures
        engine.record_plan(true) == (RecordPlan { to_registry: false, to_channel: false }),
{
}

/// Whether there is an engine.
#[must_use]
pub fn is_initialized(engine: Option<&EngineHandle>) -> (r: bool)
    ensures
        r == (engine is Some),
{
    engine.is_some()
}

/// Renders the registry of the engine, where there is one.
pub fn prometheus_text(engine: Option<&EngineHandle>, registry: Option<&PromRegistry>) -> (r:
    Result<String, Error>)
    ensures
        engine is None ==> (r matches Err(e) && e is NotInitialized),
        engine is Some && registry is None ==> (r matches Ok(text) && text@ == Seq::<
            char,
        >::empty()),
        engine is Some ==> (registry matches Some(reg) ==> reg.renders(r)),
        engine is Some && r is Err ==> (r matches Err(e) && e is Prometheus),
{
    match engine {
        Some(h) => h.prometheus_text(registry),
        None => Err(Error::NotInitialized),
    }
}

// ---------------------------------------------------------------------------
// Bringing the engine up
// ---------------------------------------------------------------------------

/// What bringing the engine up does next.
#[derive(Debug, Clone, Copy, PartialEq, Eq, Structural)]
pub enum InitStep {
    /// Create the registry.
    CreateRegistry,
    /// Open the store.
    OpenStorage,
    /// Make the engine the global one, unless there is one already.
    Publish,
    /// Start the writer thread.
    SpawnWriter,
    /// Start the compaction task, where that is possible.
    StartCompaction,
    /// Nothing: the engine is up.
    Done,
}

/// Bringing the engine up as a mathematical value.
pub ghost struct InitModel {
    /// Whether there is a store.
    pub fjall: bool,
    /// What is being done.
    pub step: InitStep,
}

/// Bringing the engine up.
#[derive(Debug, Clone, Copy)]
pub struct Init {
    fjall: bool,
    step: InitStep,
}

impl View for Init {
    type V = InitModel;

    closed spec fn view(&self) -> InitModel {
        InitModel { fjall: self.fjall, step: self.step }
    }
}

/// What comes after a step that was done.
pub open spec fn init_after(s: InitModel) -> InitStep {
    match s.step {
        InitStep::CreateRegistry => if s.fjall {
            InitStep::OpenStorage
        } else {
            InitStep::Publish
        },
        InitStep::OpenStorage => InitStep::Publish,
        InitStep::Publish => if s.fjall {
            InitStep::SpawnWriter
        } else {
            InitStep::Done
        },
        InitStep::SpawnWriter => InitStep::StartCompaction,
        InitStep::StartCompaction => InitStep::Done,
        InitStep::Done => InitStep::Done,
    }
}

/// Whether bringing the engine up goes on after the given outcome: a store or
/// registry that fails ends it, and so does an engine that is there already;
/// compaction may fail to start.
pub open spec fn init_goes_on(s: InitModel, outcome: Result<(), Error>) -> bool {
    outcome is Ok || s.step is StartCompaction || s.step is Done
}

/// The error for a writer thread that did not start.
#[must_use]
pub fn writer_spawn_error(text: &str) -> (r: Error)
    ensures
        r matches Error::Storage(m) && m@ == "spawn writer thread: "@ + text@,
{
    let mut m = "spawn writer thread: ".to_owned();
    m.append(text);
    Error::Storage(m)
}

impl Init {
    /// Begins with a valid configuration; an invalid one is rejected before
    /// anything is done. `prometheus_exporter` and `fjall_backend` say what is
    /// available.
    pub fn start<B>(config: &Config<B>, prometheus_exporter: bool, fjall_backend: bool) -> (r:
        Result<Self, Error>)
        ensures
            match r {
                Ok(init) => {
                    &&& config.fault(fjall_backend) is None
                    &&& init@ == (InitModel {
                        fjall: config.fjall is Some,
                        step: if prometheus_exporter {
                            InitStep::CreateRegistry
                        } else if config.fjall is Some {
                            InitStep::OpenStorage
                        } else {
                            InitStep::Publish
                        },
                    })
                },
                Err(e) => e matches Error::InvalidConfig(m) && config.fault(fjall_backend) == Some(
                    m@,
                ),
            },
    {
        match config.validate(fjall_backend) {
            Err(e) => Err(e),
            Ok(_) => {
                let fjall = config.fjall.is_some();
                let step = if prometheus_exporter {
                    InitStep::CreateRegistry
                } else if fjall {
                    InitStep::OpenStorage
                } else {
                    InitStep::Publish
                };
                Ok(Init { fjall, step })
            },
        }
    }

    /// What is to be done.
    #[must_use]
    pub fn step(&self) -> (r: InitStep)
        ensures
            r == self@.step,
    {
        self.step
    }

    /// Goes on after the step was tried with the given outcome, or ends with
    /// an error.
    pub fn next(self, outcome: Result<(), Error>) -> (r: Result<Self, Error>)
        ensures
            match r {
                Ok(init) => {
                    &&& init_goes_on(self@, outcome)
                    &&& init@ == (InitModel { step: init_after(self@), ..self@ })
                },
                Err(e) => {
                    &&& !init_goes_on(self@, outcome)
                    &&& if self@.step is Publish {
                        e is AlreadyInitialized
                    } else {
                        outcome == Result::<(), Error>::Err(e)
                    }
                },
            },
    {
        let fjall = self.fjall;
        match self.step {
            InitStep::CreateRegistry => {
                outcome?;
                let step = if fjall {
                    InitStep::OpenStorage
                } else {
                    InitStep::Publish
                };
                Ok(Init { fjall, step })
            },
            InitStep::OpenStorage => {
                outcome?;
                Ok(Init { fjall, step: InitStep::Publish })
            },
            InitStep::Publish => match outcome {
                Ok(_) => {
                    let step = if fjall {
                        InitStep::SpawnWriter
                    } else {
                        InitStep::Done
                    };
                    Ok(Init { fjall, step })
                },
                Err(_) => Err(Error::AlreadyInitialized),
            },
            InitStep::SpawnWriter => {
                outcome?;
                Ok(Init { fjall, step: InitStep::StartCompaction })
            },
            InitStep::StartCompaction => Ok(Init { fjall, step: InitStep::Done }),
            InitStep::Done => Ok(Init { fjall, step: InitStep::Done }),
        }
    }
}

/// Whether steps were gone through one after the other, with or without a
/// store.
pub open spec fn is_bring_up(fjall: bool, steps: Seq<InitStep>) -> bool {
    forall|i: int|
        0 < i < steps.len() ==> #[trigger] steps[i] == init_after(
            InitModel { fjall, step: steps[i - 1] },
        )
}

spec fn init_rank(step: InitStep) -> int {
    match step {
        InitStep::CreateRegistry => 0,
        InitStep::OpenStorage => 1,
        InitStep::Publish => 2,
        InitStep::SpawnWriter => 3,
        InitStep::StartCompaction => 4,
        InitStep::Done => 5,
    }
}

proof fn lemma_init_rank(fjall: bool, steps: Seq<InitStep>, i: int, j: int)
    requires
        is_bring_up(fjall, steps),
        0 <= i <= j < steps.len(),
    ensures
        init_rank(steps[i]) <= init_rank(steps[j]),
        i < j && !(steps[i] is Done) ==> init_rank(steps[i]) < init_rank(steps[j]),
    decreases j - i,
{
    if i < j {
        lemma_init_rank(fjall, steps, i, j - 1);
        assert(steps[j] == init_after(InitModel { fjall, step: steps[j - 1] }));
    }
}

/// A failed start stays retryable: a registry or a store that fails does so
/// before the engine is published, so nothing global has changed.
pub proof fn law_failure_before_publish_is_retryable(
    fjall: bool,
    steps: Seq<InitStep>,
    i: int,
    j: int,
)
    requires
        is_bring_up(fjall, steps),
        0 <= i <= j < steps.len(),
        steps[j] is CreateRegistry || steps[j] is OpenStorage,
    ensures
        !(steps[i] is Publish),
{
    lemma_init_rank(fjall, steps, i, j);
}

/// The writer is started for a published engine with an open store, and never
/// without one.
pub proof fn law_writer_follows_publish(fjall: bool, steps: Seq<InitStep>, j: int)
    requires
        is_bring_up(fjall, steps),
        0 < j < steps.len(),
        steps[j] is SpawnWriter,
    ensures
        fjall,
        steps[j - 1] is Publish,
{
    assert(steps[j] == init_after(InitModel { fjall, step: steps[j - 1] }));
}

/// Whether a compaction task may be started: compaction is enabled, the
/// engine has an open store, and a runtime is running.
#[must_use]
pub fn may_compact(config: &FjallConfig, engine: Option<&EngineHandle>, runtime: bool) -> (r: bool)
    ensures
        r == (config.enable_compaction && runtime && match engine {
            Some(h) => h.with_fjall(),
            None => false,
        }),
{
    if !config.enable_compaction {
        return false;
    }
    match engine {
        Some(h) => h.has_fjall() && runtime,
        None => false,
    }
}

// ---------------------------------------------------------------------------
// Bringing the engine down
// ---------------------------------------------------------------------------

/// What bringing the engine down does next.
#[derive(Debug, Clone, Copy, PartialEq, Eq, Structural)]
pub enum ShutdownStep {
    /// Offer the shutdown request to the channel.
    SendSentinel,
    /// Pause, since the channel was full.
    Pause,
    /// Wait for the writer thread to end.
    JoinWriter,
    /// Stop the compaction task.
    AbortCompaction,
    /// Persist the store.
    Persist,
    /// Nothing: the engine is down.
    Done,
}

/// Bringing the engine down as a mathematical value.
pub ghost struct ShutdownModel {
    /// Whether there is a store to persist.
    pub fjall: bool,
    /// How often the request found the channel full.
    pub attempts: nat,
    /// What is being done.
    pub step: ShutdownStep,
}

/// Bringing the engine down.
#[derive(Debug, Clone, Copy)]
pub struct Shutdown {
    fjall: bool,
    attempts: u32,
    step: ShutdownStep,
}

impl View for Shutdown {
    type V = ShutdownModel;

    closed spec fn view(&self) -> ShutdownModel {
        ShutdownModel { fjall: self.fjall, attempts: self.attempts as nat, step: self.step }
    }
}

/// What comes after a step; `full` says that an offer found the channel full.
pub open spec fn shutdown_after(s: ShutdownModel, full: bool) -> ShutdownModel {
    match s.step {
        ShutdownStep::SendSentinel => if full {
            ShutdownModel { attempts: s.attempts + 1, step: ShutdownStep::Pause, ..s }
        } else {
            ShutdownModel { step: ShutdownStep::JoinWriter, ..s }
        },
        ShutdownStep::Pause => if s.attempts < SENTINEL_ATTEMPTS {
            ShutdownModel { step: ShutdownStep::SendSentinel, ..s }
        } else {
            ShutdownModel { step: ShutdownStep::JoinWriter, ..s }
        },
        ShutdownStep::JoinWriter => ShutdownModel { step: ShutdownStep::AbortCompaction, ..s },
        ShutdownStep::AbortCompaction => if s.fjall {
            ShutdownModel { step: ShutdownStep::Persist, ..s }
        } else {
            ShutdownModel { step: ShutdownStep::Done, ..s }
        },
        _ => ShutdownModel { step: ShutdownStep::Done, ..s },
    }
}

/// A state that bringing the engine down can be in: while offers go on there
/// were few enough of them.
pub open spec fn shutdown_valid(s: ShutdownModel) -> bool {
    &&& s.attempts <= SENTINEL_ATTEMPTS
    &&& s.step is SendSentinel ==> s.attempts < SENTINEL_ATTEMPTS
}

impl Shutdown {
    /// What every state keeps.
    pub closed spec fn wf(&self) -> bool {
        shutdown_valid(self@)
    }

    /// Begins to bring an engine down. There has to be one; a second request
    /// has nothing to do.
    pub fn start(engine: Option<&EngineHandle>, already: bool) -> (r: Result<Option<Self>, Error>)
        ensures
            match engine {
                None => r matches Err(e) && e is NotInitialized,
                Some(h) => if already {
                    r matches Ok(s) && s is None
                } else {
                    r matches Ok(Some(s)) && {
                        &&& s.wf()
                        &&& s@ == (ShutdownModel {
                            fjall: h.with_fjall(),
                            attempts: 0,
                            step: if h.capacity() is Some {
                                ShutdownStep::SendSentinel
                            } else {
                                ShutdownStep::JoinWriter
                            },
                        })
                    }
                },
            },
    {
        match engine {
            None => Err(Error::NotInitialized),
            Some(h) => {
                if already {
                    return Ok(None);
                }
                let step = if h.tx.is_some() {
                    ShutdownStep::SendSentinel
                } else {
                    ShutdownStep::JoinWriter
                };
                Ok(Some(Shutdown { fjall: h.fjall, attempts: 0, step }))
            },
        }
    }

    /// What is to be done.
    #[must_use]
    pub fn step(&self) -> (r: ShutdownStep)
        ensures
            r == self@.step,
    {
        self.step
    }

    /// Goes on after the step was done; `full` says that the offer of the
    /// request found the channel full.
    pub fn next(&mut self, full: bool)
        requires
            old(self).wf(),
        ensures
            final(self).wf(),
            final(self)@ == shutdown_after(old(self)@, full),
    {
        match self.step {
            ShutdownStep::SendSentinel => {
                if full {
                    self.attempts = self.attempts + 1;
                    self.step = ShutdownStep::Pause;
                } else {
                    self.step = ShutdownStep::JoinWriter;
                }
            },
            ShutdownStep::Pause => {
                if self.attempts < SENTINEL_ATTEMPTS {
                    self.step = ShutdownStep::SendSentinel;
                } else {
                    self.step = ShutdownStep::JoinWriter;
                }
            },
            ShutdownStep::JoinWriter => {
                self.step = ShutdownStep::AbortCompaction;
            },
            ShutdownStep::AbortCompaction => {
                if self.fjall {
                    self.step = ShutdownStep::Persist;
                } else {
                    self.step = ShutdownStep::Done;
                }
            },
            ShutdownStep::Persist => {
                self.step = ShutdownStep::Done;
            },
            ShutdownStep::Done => {},
        }
    }
}

/// How many steps bringing the engine down has left, at most.
pub open spec fn shutdown_left(s: ShutdownModel) -> int {
    match s.step {
        ShutdownStep::SendSentinel => 2 * (SENTINEL_ATTEMPTS - s.attempts) + 3,
        ShutdownStep::Pause => 2 * (SENTINEL_ATTEMPTS - s.attempts) + 4,
        ShutdownStep::JoinWriter => 3,
        ShutdownStep::AbortCompaction => 2,
        ShutdownStep::Persist => 1,
        ShutdownStep::Done => 0,
    }
}

/// Bringing the engine down never offers its request for ever: whatever the
/// channel answers, each step leaves fewer to go, and the request is offered
/// at most a hundred times.
pub proof fn law_shutdown_ends(s: ShutdownModel, full: bool)
    requires
        shutdown_valid(s),
    ensures
        shutdown_valid(shutdown_after(s, full)),
        0 <= shutdown_left(shutdown_after(s, full)),
        !(s.step is Done) ==> shutdown_left(shutdown_after(s, full)) < shutdown_left(s),
        s.step is Done ==> shutdown_after(s, full) == s,
        shutdown_after(s, full).attempts <= SENTINEL_ATTEMPTS,
{
}

/// A running engine sends every observation wherever it can: to the registry
/// exactly when there is one, and to the channel exactly when there is one. A
/// sample that was not delivered is counted, and in the registry where there
/// is one.
pub proof fn law_running_engines_record_everywhere(engine: EngineHandle)
    ensures
        engine.record_plan(false).to_registry == engine.with_prometheus(),
        engine.record_plan(false).to_channel == (engine.capacity() is Some),
        engine.drop_plan(false).count,
        engine.drop_plan(false).inc_registry == engine.with_prometheus(),
        !engine.drop_plan(true).count && !engine.drop_plan(true).inc_registry,
{
}

/// The engine comes up in one order: registry, store, publication, writer,
/// compaction, and without a store only registry and publication. None of
/// the steps is left out or taken twice.
pub proof fn law_bring_up_order(fjall: bool, steps: Seq<InitStep>)
    requires
        is_bring_up(fjall, steps),
        steps.len() >= 6,
    ensures
        steps[0] is CreateRegistry && fjall ==> steps.take(6) == seq![
            InitStep::CreateRegistry,
            InitStep::OpenStorage,
            InitStep::Publish,
            InitStep::SpawnWriter,
            InitStep::StartCompaction,
            InitStep::Done,
        ],
        steps[0] is OpenStorage && fjall ==> steps.take(5) == seq![
            InitStep::OpenStorage,
            InitStep::Publish,
            InitStep::SpawnWriter,
            InitStep::StartCompaction,
            InitStep::Done,
        ],
        steps[0] is CreateRegistry && !fjall ==> steps.take(3) == seq![
            InitStep::CreateRegistry,
            InitStep::Publish,
            InitStep::Done,
        ],
        steps[0] is Publish && !fjall ==> steps.take(2) == seq![InitStep::Publish, InitStep::Done],
        forall|i: int| 0 <= i < steps.len() - 1 && steps[i] is Done ==> #[trigger] steps[i + 1] is Done,
{
    assert(steps[1] == init_after(InitModel { fjall, step: steps[0] }));
    assert(steps[2] == init_after(InitModel { fjall, step: steps[1] }));
    assert(steps[3] == init_after(InitModel { fjall, step: steps[2] }));
    assert(steps[4] == init_after(InitModel { fjall, step: steps[3] }));
    assert(steps[5] == init_after(InitModel { fjall, step: steps[4] }));
    if steps[0] is CreateRegistry && fjall {
        assert(steps.take(6) =~= seq![
            InitStep::CreateRegistry,
            InitStep::OpenStorage,
            InitStep::Publish,
            InitStep::SpawnWriter,
            InitStep::StartCompaction,
            InitStep::Done,
        ]);
    }
    if steps[0] is OpenStorage && fjall {
        assert(steps.take(5) =~= seq![
            InitStep::OpenStorage,
            InitStep::Publish,
            InitStep::SpawnWriter,
            InitStep::StartCompaction,
            InitStep::Done,
        ]);
    }
    if steps[0] is CreateRegistry && !fjall {
        assert(steps.take(3) =~= seq![InitStep::CreateRegistry, InitStep::Publish, InitStep::Done]);
    }
    if steps[0] is Publish && !fjall {
        assert(steps.take(2) =~= seq![InitStep::Publish, InitStep::Done]);
    }
    assert forall|i: int| 0 <= i < steps.len() - 1 && steps[i] is Done implies #[trigger] steps[i
        + 1] is Done by {
        assert(steps[i + 1] == init_after(InitModel { fjall, step: steps[i] }));
    }
}

/// Bringing the engine up stops at the first failure of a registry, a store,
/// a publication or a writer, and goes on after every success; a compaction
/// that does not start stops nothing.
pub proof fn law_failures_stop_the_bring_up(s: InitModel, outcome: Result<(), Error>)
    ensures
        outcome is Ok ==> init_goes_on(s, outcome),
        outcome is Err ==> init_goes_on(s, outcome) == !(s.step is CreateRegistry
            || s.step is OpenStorage || s.step is Publish || s.step is SpawnWriter),
{
}

/// The engine comes down in one order: the request is offered until the
/// channel takes it or is gone, or it was full a hundred times; the writer is
/// joined, compaction stopped, and a store persisted last.
pub proof fn law_shutdown_order(s: ShutdownModel, full: bool)
    ensures
        ({
            let t = shutdown_after(s, full);
            &&& t.fjall == s.fjall
            &&& s.step is SendSentinel && full ==> t.step is Pause && t.attempts == s.attempts + 1
            &&& s.step is SendSentinel && !full ==> t.step is JoinWriter
            &&& s.step is Pause && s.attempts < 100 ==> t.step is SendSentinel
            &&& s.step is Pause && s.attempts >= 100 ==> t.step is JoinWriter
            &&& s.step is JoinWriter ==> t.step is AbortCompaction
            &&& s.step is AbortCompaction && s.fjall ==> t.step is Persist
            &&& s.step is AbortCompaction && !s.fjall ==> t.step is Done
            &&& s.step is Persist ==> t.step is Done
            &&& !(s.step is SendSentinel) ==> t.attempts == s.attempts
        }),
{
}

} // verus!
