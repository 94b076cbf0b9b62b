//! The durable event log of a session.
//!
//! JSON values inside events (arguments, bodies, identifiers, results) are held as JSON text.
use vstd::prelude::*;

use crate::agent;
use crate::agent::{AssistantMessage, StopReason, Usage, UsageSemantics};
use crate::command_journal::{AuthSnapshot, CommandEcho, Origin, RejectStage};
use crate::double::Double;
use crate::protocol::autonomy::{AutonomousIterationOutcome, AutonomousTerminationReason};
use crate::protocol::events::ProviderStatusKind;
use crate::seqs;

verus! {

/// An event of a session's durable log.
#[derive(Debug, Clone, PartialEq)]
pub struct SessionEvent {
    pub id: u64,
    pub session_id: String,
    pub parent_event_ids: Vec<u64>,
    pub timestamp_unix_ms: u64,
    pub actor: EventActor,
    pub payload: EventPayload,
}

/// Who caused an event.
#[derive(Debug, Clone, PartialEq)]
pub enum EventActor {
    User,
    Agent,
    Tool { name: String },
    Provider { name: String },
    System,
}

/// What happened.
#[derive(Debug, Clone, PartialEq)]
pub enum EventPayload {
    SessionCreated {
        provider_kind: String,
        model: String,
        parent_session_id: Option<String>,
        branched_at_parent_event_id: Option<u64>,
        usage_semantics: Option<UsageSemantics>,
    },
    UserMessage { content: String },
    AssistantMessageEvent { message: AssistantMessage },
    ToolCall {
        call_id: String,
        name: String,
        arguments: String,
    },
    ToolResult {
        call_id: String,
        content: String,
        is_error: bool,
    },
    Done {
        stop_reason: StopReason,
        turn_count: u32,
        usage: Option<Usage>,
        elapsed_ms: Option<u64>,
    },
    Error { message: String },
    Callout {
        category: String,
        title: String,
        body: String,
        theme: Option<String>,
        context_refs: Vec<String>,
    },
    ErrorInvalidMessage {
        provider: String,
        raw_message: String,
        validation_error: String,
    },
    ProviderSwitched {
        old_provider_kind: String,
        old_model: String,
        new_provider_kind: String,
        new_model: String,
        context_soft_limit: Option<u64>,
        context_hard_limit: Option<u64>,
        usage_semantics: Option<UsageSemantics>,
    },
    SessionClosed,
    ContextAssembly {
        model_call_id: u32,
        message_count: u32,
        user_message_count: u32,
        assistant_message_count: u32,
        tool_result_count: u32,
        tool_count: u32,
        token_count_estimate: Option<u64>,
        token_breakdown: Vec<(String, u64)>,
        provider_kind: String,
        model: String,
        renderer: Option<String>,
        cache_strategy: Option<String>,
        span_count: Option<u32>,
        cache_boundary_count: Option<u32>,
        first_span_ids: Vec<String>,
        prefix_hash: Option<String>,
        prefix_span_hashes: Vec<String>,
    },
    CompactionAssembly {
        model_call_id: u32,
        policy_id: String,
        tokens_before: u64,
        tokens_after: u64,
        decisions: Vec<String>,
        wall_clock_us: u64,
    },
    AutonomousIterationStarted { iteration: u32, motivation: String },
    AutonomousIterationCompleted {
        iteration: u32,
        outcome: AutonomousIterationOutcome,
    },
    AutonomousScheduledWakeup {
        wake_at_unix_ms: u64,
        reason: String,
    },
    AutonomousTerminated {
        reason: AutonomousTerminationReason,
    },
    ProviderStatusUpdate {
        state: ProviderStatusKind,
        started_at_unix_ms: u64,
        elapsed_ms: u64,
        bytes_received: Option<u64>,
        tool_call_id: Option<String>,
    },
    MailboxMessagePosted {
        seq: u64,
        from_daemon_id: String,
        from_session_id: String,
        message_kind: String,
        subject: String,
        body: String,
        expires_at_unix_ms: Option<u64>,
    },
    MailboxMessageConsumed {
        seq: u64,
    },
    TaskTelemetry {
        task_id: String,
        session_id: String,
        parent_task_id: Option<String>,
        provider_kind: String,
        model: String,
        model_version: Option<String>,
        started_at_unix_ms: Option<u64>,
        ended_at_unix_ms: u64,
        wall_clock_ms: Option<u64>,
        prompt_tokens: Option<u64>,
        completion_tokens: Option<u64>,
        cache_read_tokens: Option<u64>,
        cache_write_tokens: Option<u64>,
        cache_write_5m_tokens: Option<u64>,
        cache_write_1h_tokens: Option<u64>,
        tools_granted: Vec<String>,
        tools_actually_called: Vec<(String, u32)>,
        exit_reason: TaskExitReason,
        max_budget_usd: Option<Double>,
        actual_spend_usd: Option<Double>,
        local_hour: Option<u8>,
        day_of_week: Option<u8>,
        tz: Option<String>,
    },
    WorkerSpawned {
        pot_name: String,
        model: String,
        pid: Option<u32>,
        prompt_summary: Option<String>,
    },
    WorkerExited { exit_code: i32, elapsed_ms: u64 },
    WorkerFailed { reason: String },
    WorkerTimeout { elapsed_ms: u64 },
    OperatorMark {
        rating: u8,
        note: Option<String>,
    },
    HeadAttached {
        daemon_id: String,
        claimed_actor: String,
        predecessor_session_id: String,
        branched_at_event_id: Option<u64>,
    },
    Tombstone {
        target_event_id: u64,
        reason: String,
    },
    CommandReceived {
        request_id: String,
        method: String,
        params: String,
        auth: AuthSnapshot,
        origin: Origin,
    },
    CommandSucceeded {
        command_event_id: u64,
        command: CommandEcho,
        result: String,
        elapsed_ms: u64,
    },
    CommandFailed {
        command_event_id: u64,
        command: CommandEcho,
        code: i32,
        message: String,
        elapsed_ms: u64,
    },
    CommandRejected {
        command_event_id: u64,
        command: CommandEcho,
        code: i32,
        message: String,
        stage: RejectStage,
    },
}

impl EventPayload {
    /// The wire tag of the payload.
    pub open spec fn tag(&self) -> Seq<char> {
        match *self {
            EventPayload::SessionCreated { .. } => "session_created"@,
            EventPayload::UserMessage { .. } => "user_message"@,
            EventPayload::AssistantMessageEvent { .. } => "assistant_message_event"@,
            EventPayload::ToolCall { .. } => "tool_call"@,
            EventPayload::ToolResult { .. } => "tool_result"@,
            EventPayload::Done { .. } => "done"@,
            EventPayload::Error { .. } => "error"@,
            EventPayload::Callout { .. } => "callout"@,
            EventPayload::ErrorInvalidMessage { .. } => "error_invalid_message"@,
            EventPayload::ProviderSwitched { .. } => "provider_switched"@,
            EventPayload::SessionClosed => "session_closed"@,
            EventPayload::ContextAssembly { .. } => "context_assembly"@,
            EventPayload::CompactionAssembly { .. } => "compaction_assembly"@,
            EventPayload::AutonomousIterationStarted { .. } => "autonomous_iteration_started"@,
            EventPayload::AutonomousIterationCompleted { .. } => "autonomous_iteration_completed"@,
            EventPayload::AutonomousScheduledWakeup { .. } => "autonomous_scheduled_wakeup"@,
            EventPayload::AutonomousTerminated { .. } => "autonomous_terminated"@,
            EventPayload::ProviderStatusUpdate { .. } => "provider_status_update"@,
            EventPayload::MailboxMessagePosted { .. } => "mailbox_message_posted"@,
            EventPayload::MailboxMessageConsumed { .. } => "mailbox_message_consumed"@,
            EventPayload::TaskTelemetry { .. } => "task_telemetry"@,
            EventPayload::WorkerSpawned { .. } => "worker_spawned"@,
            EventPayload::WorkerExited { .. } => "worker_exited"@,
            EventPayload::WorkerFailed { .. } => "worker_failed"@,
            EventPayload::WorkerTimeout { .. } => "worker_timeout"@,
            EventPayload::OperatorMark { .. } => "operator_mark"@,
            EventPayload::HeadAttached { .. } => "head_attached"@,
            EventPayload::Tombstone { .. } => "tombstone"@,
            EventPayload::CommandReceived { .. } => "command_received"@,
            EventPayload::CommandSucceeded { .. } => "command_succeeded"@,
            EventPayload::CommandFailed { .. } => "command_failed"@,
            EventPayload::CommandRejected { .. } => "command_rejected"@,
        }
    }

    /// The wire tag of the payload.
    pub fn kind_str(&self) -> (r: &'static str)
        ensures
            r@ == self.tag(),
    {
        match self {
            EventPayload::SessionCreated { .. } => "session_created",
            EventPayload::UserMessage { .. } => "user_message",
            EventPayload::AssistantMessageEvent { .. } => "assistant_message_event",
            EventPayload::ToolCall { .. } => "tool_call",
            EventPayload::ToolResult { .. } => "tool_result",
            EventPayload::Done { .. } => "done",
            EventPayload::Error { .. } => "error",
            EventPayload::Callout { .. } => "callout",
            EventPayload::ErrorInvalidMessage { .. } => "error_invalid_message",
            EventPayload::ProviderSwitched { .. } => "provider_switched",
            EventPayload::SessionClosed => "session_closed",
            EventPayload::ContextAssembly { .. } => "context_assembly",
            EventPayload::CompactionAssembly { .. } => "compaction_assembly",
            EventPayload::AutonomousIterationStarted { .. } => "autonomous_iteration_started",
            EventPayload::AutonomousIterationCompleted { .. } => "autonomous_iteration_completed",
            EventPayload::AutonomousScheduledWakeup { .. } => "autonomous_scheduled_wakeup",
            EventPayload::AutonomousTerminated { .. } => "autonomous_terminated",
            EventPayload::ProviderStatusUpdate { .. } => "provider_status_update",
            EventPayload::MailboxMessagePosted { .. } => "mailbox_message_posted",
            EventPayload::MailboxMessageConsumed { .. } => "mailbox_message_consumed",
            EventPayload::TaskTelemetry { .. } => "task_telemetry",
            EventPayload::WorkerSpawned { .. } => "worker_spawned",
            EventPayload::WorkerExited { .. } => "worker_exited",
            EventPayload::WorkerFailed { .. } => "worker_failed",
            EventPayload::WorkerTimeout { .. } => "worker_timeout",
            EventPayload::OperatorMark { .. } => "operator_mark",
            EventPayload::HeadAttached { .. } => "head_attached",
            EventPayload::Tombstone { .. } => "tombstone",
            EventPayload::CommandReceived { .. } => "command_received",
            EventPayload::CommandSucceeded { .. } => "command_succeeded",
            EventPayload::CommandFailed { .. } => "command_failed",
            EventPayload::CommandRejected { .. } => "command_rejected",
        }
    }
}

/// Why a task ended.
#[derive(Debug, Clone, Copy, PartialEq, Eq, Structural)]
pub enum TaskExitReason {
    /// The task ran to its end.
    Done,
    /// A terminal error of provider or loop.
    Error,
    /// The task was cancelled.
    Cancelled,
    /// The budget was used up.
    BudgetCap,
    /// The watchdog tripped.
    Timeout,
    /// The operator stopped the task.
    OperatorStopped,
}

/// The sum over `events` of what `f` gives for each payload.
pub open spec fn total(events: Seq<SessionEvent>, f: spec_fn(EventPayload) -> nat) -> nat
    decreases events.len(),
{
    if events.len() == 0 {
        0
    } else {
        total(events.drop_last(), f) + f(events.last().payload)
    }
}

/// The number of `events` whose payload satisfies `p`.
pub open spec fn count(events: Seq<SessionEvent>, p: spec_fn(EventPayload) -> bool) -> nat {
    total(
        events,
        |e: EventPayload|
            if p(e) {
                1
            } else {
                0
            },
    )
}

/// The operator mark of `events` with the greatest identifier; of marks with the same one the last.
pub open spec fn latest_mark(events: Seq<SessionEvent>) -> Option<SessionEvent>
    decreases events.len(),
{
    if events.len() == 0 {
        None
    } else {
        let before = latest_mark(events.drop_last());
        let e = events.last();
        if e.payload is OperatorMark && (before is None || before->0.id <= e.id) {
            Some(e)
        } else {
            before
        }
    }
}

/// Adds `u` to a usage that may be absent.
pub open spec fn usage_plus(acc: Option<Usage>, u: Option<Usage>) -> Option<Usage> {
    match (acc, u) {
        (Some(a), Some(b)) => Some(a.plus(b)),
        (None, b) => b,
        (a, None) => a,
    }
}

/// The usage that a completed ask reports.
pub open spec fn done_usage(p: EventPayload) -> Option<Usage> {
    match p {
        EventPayload::Done { usage, .. } => usage,
        _ => None,
    }
}

/// The usage that an assistant message reports.
pub open spec fn message_usage(p: EventPayload) -> Option<Usage> {
    match p {
        EventPayload::AssistantMessageEvent { message } => message.usage,
        _ => None,
    }
}

/// The sum of the usages that `f` finds in `events`; absent if it finds none.
pub open spec fn usage_total(
    events: Seq<SessionEvent>,
    f: spec_fn(EventPayload) -> Option<Usage>,
) -> Option<Usage>
    decreases events.len(),
{
    if events.len() == 0 {
        None
    } else {
        usage_plus(usage_total(events.drop_last(), f), f(events.last().payload))
    }
}

/// The usage semantics that `events` registered last, at creation or at a provider switch.
pub open spec fn semantics_after(events: Seq<SessionEvent>) -> Option<UsageSemantics>
    decreases events.len(),
{
    if events.len() == 0 {
        None
    } else {
        let registered = match events.last().payload {
            EventPayload::SessionCreated { usage_semantics, .. } => usage_semantics,
            EventPayload::ProviderSwitched { usage_semantics, .. } => usage_semantics,
            _ => None,
        };
        if registered is Some {
            registered
        } else {
            semantics_after(events.drop_last())
        }
    }
}

/// The prompt size of the last assistant message that reports usage, under the semantics
/// registered before it; without such semantics, input, cache reads and cache writes together.
pub open spec fn last_prompt(events: Seq<SessionEvent>) -> Option<u64>
    decreases events.len(),
{
    if events.len() == 0 {
        None
    } else {
        match message_usage(events.last().payload) {
            Some(u) => {
                let known = match semantics_after(events.drop_last()) {
                    Some(s) => s.prompt(u),
                    None => None,
                };
                if known is Some {
                    known
                } else {
                    Some(u.disjoint_prompt())
                }
            },
            None => last_prompt(events.drop_last()),
        }
    }
}

/// Provider and model of the first creation event.
pub open spec fn first_provider(events: Seq<SessionEvent>) -> Option<(Seq<char>, Seq<char>)>
    decreases events.len(),
{
    if events.len() == 0 {
        None
    } else {
        let before = first_provider(events.drop_last());
        match events.last().payload {
            EventPayload::SessionCreated { provider_kind, model, .. } if before is None => Some(
                (provider_kind@, model@),
            ),
            _ => before,
        }
    }
}

/// Provider and model that are in force: of the latest switch or creation.
pub open spec fn provider_after(events: Seq<SessionEvent>) -> Option<(Seq<char>, Seq<char>)>
    decreases events.len(),
{
    if events.len() == 0 {
        None
    } else {
        match events.last().payload {
            EventPayload::ProviderSwitched { new_provider_kind, new_model, .. } => Some(
                (new_provider_kind@, new_model@),
            ),
            EventPayload::SessionCreated { provider_kind, model, .. } => Some(
                (provider_kind@, model@),
            ),
            _ => provider_after(events.drop_last()),
        }
    }
}

/// The identifiers of the events that tombstones in `events` retract.
pub open spec fn tombstones(events: Seq<SessionEvent>) -> Set<u64> {
    Set::new(
        |id: u64|
            exists|i: int|
                0 <= i < events.len() && retracts(#[trigger] events[i].payload, id),
    )
}

/// Whether the payload is a tombstone of the event `id`.
pub open spec fn retracts(p: EventPayload, id: u64) -> bool {
    match p {
        EventPayload::Tombstone { target_event_id, .. } => target_event_id == id,
        _ => false,
    }
}

/// Why a command could not be appended.
#[derive(Debug, Clone, Copy, PartialEq, Eq, Structural)]
pub enum AppendError {
    /// Commands must be durable before they are processed, and no disk writer is attached.
    NoDiskWriter,
}

impl AppendError {
    /// The error in words.
    pub fn message(&self) -> (r: &'static str)
        ensures
            r@
                == "append_command requires a disk writer: commands must be durable before processing (spec mu-046 INV-1)"@,
    {
        "append_command requires a disk writer: commands must be durable before processing (spec mu-046 INV-1)"
    }
}

/// The state of a log: the events in append order, the identifier that the next one gets, and
/// whether events are also written to disk.
pub struct LogState {
    pub session_id: Seq<char>,
    pub events: Seq<SessionEvent>,
    pub next_id: u64,
    pub durable: bool,
}

impl LogState {
    /// Every event in memory has an identifier that is not assigned again.
    pub open spec fn fresh(self) -> bool {
        forall|i: int| 0 <= i < self.events.len() ==> (#[trigger] self.events[i]).id < self.next_id
    }
}

/// The log of a session: its events in append order.
///
/// An event gets its identifier first, is then written to disk by the caller where a writer is
/// attached, and then enters memory. File order, identifier order and memory order agree.
#[derive(Debug)]
pub struct SessionEventLog {
    session_id: String,
    events: Vec<SessionEvent>,
    next_id: u64,
    durable: bool,
}

impl View for SessionEventLog {
    type V = LogState;

    closed spec fn view(&self) -> LogState {
        LogState {
            session_id: self.session_id@,
            events: self.events@,
            next_id: self.next_id,
            durable: self.durable,
        }
    }
}

/// The greatest identifier among `events`, or zero.
pub open spec fn max_id(events: Seq<SessionEvent>) -> u64
    decreases events.len(),
{
    if events.len() == 0 {
        0
    } else if events.last().id > max_id(events.drop_last()) {
        events.last().id
    } else {
        max_id(events.drop_last())
    }
}

/// No event has a greater identifier than the greatest.
pub proof fn lemma_max_id(events: Seq<SessionEvent>, i: int)
    requires
        0 <= i < events.len(),
    ensures
        events[i].id <= max_id(events),
    decreases events.len(),
{
    if i < events.len() - 1 {
        lemma_max_id(events.drop_last(), i);
        assert(events.drop_last()[i] == events[i]);
    }
}

/// What reading one line of a log file gave.
#[derive(Debug)]
pub enum LogLine {
    /// The line is empty.
    Blank,
    /// The line is not an event.
    Malformed,
    /// The event on the line.
    Event(SessionEvent),
}

/// The events among `lines`, in order.
pub open spec fn events_of(lines: Seq<LogLine>) -> Seq<SessionEvent>
    decreases lines.len(),
{
    if lines.len() == 0 {
        Seq::empty()
    } else {
        match lines.last() {
            LogLine::Event(e) => events_of(lines.drop_last()).push(e),
            _ => events_of(lines.drop_last()),
        }
    }
}

/// The number of malformed lines.
pub open spec fn malformed_in(lines: Seq<LogLine>) -> nat
    decreases lines.len(),
{
    if lines.len() == 0 {
        0
    } else {
        malformed_in(lines.drop_last()) + if lines.last() is Malformed {
            1nat
        } else {
            0nat
        }
    }
}

/// Reads the clock through `std::time::SystemTime::now`, as milliseconds since the Unix epoch.
/// Nothing is claimed of the result, which depends on the machine.
#[verifier::external_body]
pub(crate) fn now_unix_ms() -> (r: u64) {
    std::time::SystemTime::now().duration_since(std::time::UNIX_EPOCH).map(
        |d| d.as_millis() as u64,
    ).unwrap_or(0)
}

impl SessionEventLog {
    /// An empty log that is held in memory only. Identifiers start at 1.
    pub fn new(session_id: String) -> (r: Self)
        ensures
            r@ == (LogState {
                session_id: session_id@,
                events: Seq::empty(),
                next_id: 1,
                durable: false,
            }),
            r@.fresh(),
    {
        let r = SessionEventLog { session_id, events: Vec::new(), next_id: 1, durable: false };
        proof {
            assert(r@.events =~= Seq::empty());
        }
        r
    }

    /// Recovers a log from the lines of its file, and counts the malformed lines. The session is
    /// the one of the first event; without events it is named by the stem of the file, and
    /// `recovered` without a stem. New identifiers continue after the greatest.
    pub fn from_lines(lines: Vec<LogLine>, file_stem: Option<String>) -> (r: (Self, usize))
        ensures
            r.0@.events == events_of(lines@),
            r.0@.session_id == (if events_of(lines@).len() > 0 {
                events_of(lines@)[0].session_id@
            } else if file_stem is Some {
                file_stem->0@
            } else {
                "recovered"@
            }),
            r.0@.next_id == (if max_id(events_of(lines@)) < u64::MAX {
                (max_id(events_of(lines@)) + 1) as u64
            } else {
                u64::MAX
            }),
            !r.0@.durable,
            r.1 == malformed_in(lines@),
            max_id(events_of(lines@)) < u64::MAX ==> r.0@.fresh(),
    {
        let mut events: Vec<SessionEvent> = Vec::new();
        let mut malformed: usize = 0;
        let mut greatest: u64 = 0;
        let n: usize = lines.len();
        for line in it: lines
            invariant
                it.seq() == lines@,
                events@ == events_of(lines@.take(it.index() as int)),
                malformed == malformed_in(lines@.take(it.index() as int)),
                malformed <= it.index() <= n,
                n == lines@.len(),
                greatest == max_id(events@),
        {
            proof {
                let k = it.index() as int;
                assert(lines@.take(k + 1).drop_last() =~= lines@.take(k));
                assert(lines@.take(k + 1).last() == line);
            }
            match line {
                LogLine::Blank => {},
                LogLine::Malformed => {
                    malformed = malformed + 1;
                },
                LogLine::Event(e) => {
                    if e.id > greatest {
                        greatest = e.id;
                    }
                    let ghost before = events@;
                    events.push(e);
                    proof {
                        assert(events@.drop_last() =~= before);
                    }
                },
            }
        }
        proof {
            assert(lines@.take(lines@.len() as int) =~= lines@);
        }
        let session_id = if events.len() > 0 {
            events[0].session_id.clone()
        } else {
            match file_stem {
                Some(stem) => stem,
                None => "recovered".to_owned(),
            }
        };
        let next_id: u64 = greatest.saturating_add(1);
        let log = SessionEventLog { session_id, events, next_id, durable: false };
        proof {
            assert forall|i: int| 0 <= i < log@.events.len() implies (
            #[trigger] log@.events[i]).id <= max_id(log@.events) by {
                lemma_max_id(log@.events, i);
            }
        }
        (log, malformed)
    }

    /// Records that events are written to disk from now on.
    pub fn attach_disk_writer(&mut self)
        ensures
            final(self)@ == (LogState { durable: true, ..old(self)@ }),
    {
        self.durable = true;
    }

    /// The session of the log.
    pub fn session_id(&self) -> (r: &str)
        ensures
            r@ == self@.session_id,
    {
        &self.session_id
    }

    /// Makes an event with the next identifier, at the time `now`. It does not enter memory.
    pub fn assign(
        &mut self,
        actor: EventActor,
        payload: EventPayload,
        parent_event_ids: Vec<u64>,
        now: u64,
    ) -> (r: SessionEvent)
        ensures
            r.id == old(self)@.next_id,
            r.session_id@ == old(self)@.session_id,
            r.parent_event_ids == parent_event_ids,
            r.timestamp_unix_ms == now,
            r.actor == actor,
            r.payload == payload,
            final(self)@ == (LogState {
                next_id: old(self)@.next_id.wrapping_add(1),
                ..old(self)@
            }),
    {
        let id: u64 = self.next_id;
        self.next_id = id.wrapping_add(1);
        SessionEvent {
            id,
            session_id: self.session_id.clone(),
            parent_event_ids,
            timestamp_unix_ms: now,
            actor,
            payload,
        }
    }

    /// Takes an event that was assigned, and written to disk where that is due, into memory.
    pub fn commit(&mut self, event: SessionEvent)
        ensures
            final(self)@ == (LogState { events: old(self)@.events.push(event), ..old(self)@ }),
    {
        self.events.push(event);
    }

    /// Appends an event and returns its identifier.
    pub fn append(&mut self, actor: EventActor, payload: EventPayload) -> (r: u64)
        ensures
            r == old(self)@.next_id,
            appended(old(self)@, final(self)@, actor, payload, Seq::empty()),
    {
        self.append_with_parents(actor, payload, Vec::new())
    }

    /// Appends an event with causal parents and returns its identifier.
    pub fn append_with_parents(
        &mut self,
        actor: EventActor,
        payload: EventPayload,
        parent_event_ids: Vec<u64>,
    ) -> (r: u64)
        ensures
            r == old(self)@.next_id,
            appended(old(self)@, final(self)@, actor, payload, parent_event_ids@),
    {
        let ghost before = self@.events;
        let event = self.assign(actor, payload, parent_event_ids, now_unix_ms());
        let id: u64 = event.id;
        self.commit(event);
        proof {
            assert(self@.events.drop_last() =~= before);
        }
        id
    }

    /// Makes the event of a command, at the time `now`, for the caller to write to disk and then
    /// to commit. Without a disk writer the command is refused, and no identifier is used up. An
    /// event that is not committed leaves no trace in memory, and its identifier is not assigned
    /// again.
    pub fn append_command(
        &mut self,
        actor: EventActor,
        payload: EventPayload,
        now: u64,
    ) -> (r: Result<SessionEvent, AppendError>)
        ensures
            match r {
                Ok(e) => {
                    &&& old(self)@.durable
                    &&& e.id == old(self)@.next_id
                    &&& e.session_id@ == old(self)@.session_id
                    &&& e.parent_event_ids@ == Seq::<u64>::empty()
                    &&& e.timestamp_unix_ms == now
                    &&& e.actor == actor
                    &&& e.payload == payload
                    &&& final(self)@ == (LogState {
                        next_id: old(self)@.next_id.wrapping_add(1),
                        ..old(self)@
                    })
                },
                Err(e) => e is NoDiskWriter && !old(self)@.durable && final(self)@ == old(self)@,
            },
    {
        if !self.durable {
            return Err(AppendError::NoDiskWriter);
        }
        Ok(self.assign(actor, payload, Vec::new(), now))
    }

    /// Whether events are written to disk.
    pub fn has_disk_writer(&self) -> (r: bool)
        ensures
            r == self@.durable,
    {
        self.durable
    }

    /// The events in append order.
    pub fn snapshot(&self) -> (r: &[SessionEvent])
        ensures
            r@ == self@.events,
    {
        self.events.as_slice()
    }

    /// The number of events.
    pub fn len(&self) -> (r: usize)
        ensures
            r == self@.events.len(),
    {
        self.events.len()
    }

    /// Whether there are no events.
    pub fn is_empty(&self) -> (r: bool)
        ensures
            r == (self@.events.len() == 0),
    {
        self.events.len() == 0
    }

    /// The usage of all completed asks together; absent if none reported any.
    pub fn cumulative_usage(&self) -> (r: Option<Usage>)
        ensures
            r == usage_total(self@.events, |p: EventPayload| done_usage(p)),
    {
        let ghost f = |p: EventPayload| done_usage(p);
        let mut acc: Option<Usage> = None;
        let mut i: usize = 0;
        while i < self.events.len()
            invariant
                i <= self.events@.len(),
                f == (|p: EventPayload| done_usage(p)),
                acc == usage_total(self.events@.take(i as int), f),
            decreases self.events@.len() - i,
        {
            proof {
                seqs::lemma_take_step(self.events@, i as int);
            }
            if let EventPayload::Done { usage: Some(u), .. } = &self.events[i].payload {
                acc = Some(
                    match acc {
                        Some(prev) => prev.combine(*u),
                        None => *u,
                    },
                );
            }
            i += 1;
        }
        proof {
            assert(self.events@.take(self.events@.len() as int) =~= self.events@);
        }
        acc
    }

    /// The usage of all assistant messages together, and the prompt size of the last one that
    /// reports usage.
    pub fn live_usage(&self) -> (r: (Option<Usage>, Option<u64>))
        ensures
            r.0 == usage_total(self@.events, |p: EventPayload| message_usage(p)),
            r.1 == last_prompt(self@.events),
    {
        let ghost f = |p: EventPayload| message_usage(p);
        let mut acc: Option<Usage> = None;
        let mut last_input: Option<u64> = None;
        let mut semantics: Option<UsageSemantics> = None;
        let mut i: usize = 0;
        while i < self.events.len()
            invariant
                i <= self.events@.len(),
                f == (|p: EventPayload| message_usage(p)),
                acc == usage_total(self.events@.take(i as int), f),
                last_input == last_prompt(self.events@.take(i as int)),
                semantics == semantics_after(self.events@.take(i as int)),
            decreases self.events@.len() - i,
        {
            proof {
                seqs::lemma_take_step(self.events@, i as int);
            }
            match &self.events[i].payload {
                EventPayload::SessionCreated { usage_semantics, .. } => {
                    if usage_semantics.is_some() {
                        semantics = *usage_semantics;
                    }
                },
                EventPayload::ProviderSwitched { usage_semantics, .. } => {
                    if usage_semantics.is_some() {
                        semantics = *usage_semantics;
                    }
                },
                EventPayload::AssistantMessageEvent { message } => {
                    if let Some(u) = message.usage {
                        let known = match semantics {
                            Some(s) => s.prompt_total(&u),
                            None => None,
                        };
                        last_input = match known {
                            Some(n) => Some(n),
                            None => Some(
                                u.input_tokens.saturating_add(
                                    u.cache_read_input_tokens.unwrap_or(0),
                                ).saturating_add(u.cache_creation_input_tokens.unwrap_or(0)),
                            ),
                        };
                        acc = Some(
                            match acc {
                                Some(prev) => prev.combine(u),
                                None => u,
                            },
                        );
                    }
                },
                _ => {},
            }
            i += 1;
        }
        proof {
            assert(self.events@.take(self.events@.len() as int) =~= self.events@);
        }
        (acc, last_input)
    }

    /// The turns of all completed asks together, at most the greatest `u32`.
    pub fn total_turn_count(&self) -> (r: u32)
        ensures
            r == agent::clamp32(total(self@.events, |p: EventPayload| turns(p))),
    {
        let ghost f = |p: EventPayload| turns(p);
        let mut n: u32 = 0;
        let mut i: usize = 0;
        while i < self.events.len()
            invariant
                i <= self.events@.len(),
                f == (|p: EventPayload| turns(p)),
                n == agent::clamp32(total(self.events@.take(i as int), f)),
            decreases self.events@.len() - i,
        {
            proof {
                seqs::lemma_take_step(self.events@, i as int);
            }
            if let EventPayload::Done { turn_count, .. } = &self.events[i].payload {
                n = n.saturating_add(*turn_count);
            }
            i += 1;
        }
        proof {
            assert(self.events@.take(self.events@.len() as int) =~= self.events@);
        }
        n
    }

    /// The number of completed asks. The count is reduced to 32 bits.
    pub fn ask_count(&self) -> (r: u32)
        ensures
            r == count(self@.events, |p: EventPayload| p is Done) as u32,
    {
        let ghost f = |p: EventPayload|
            if (|q: EventPayload| q is Done)(p) {
                1nat
            } else {
                0nat
            };
        let mut n: usize = 0;
        let mut i: usize = 0;
        while i < self.events.len()
            invariant
                i <= self.events@.len(),
                n <= i,
                f == (|p: EventPayload|
                    if (|q: EventPayload| q is Done)(p) {
                        1nat
                    } else {
                        0nat
                    }),
                n == total(self.events@.take(i as int), f),
            decreases self.events@.len() - i,
        {
            proof {
                seqs::lemma_take_step(self.events@, i as int);
            }
            if let EventPayload::Done { .. } = &self.events[i].payload {
                n += 1;
            }
            i += 1;
        }
        proof {
            assert(self.events@.take(self.events@.len() as int) =~= self.events@);
        }
        #[verifier::truncate]
        (n as u32)
    }

    /// The time of all completed asks together, at most the greatest `u64`.
    pub fn elapsed_total_ms(&self) -> (r: u64)
        ensures
            r == agent::clamp64(total(self@.events, |p: EventPayload| elapsed(p))),
    {
        let ghost f = |p: EventPayload| elapsed(p);
        let mut n: u64 = 0;
        let mut i: usize = 0;
        while i < self.events.len()
            invariant
                i <= self.events@.len(),
                f == (|p: EventPayload| elapsed(p)),
                n == agent::clamp64(total(self.events@.take(i as int), f)),
            decreases self.events@.len() - i,
        {
            proof {
                seqs::lemma_take_step(self.events@, i as int);
            }
            if let EventPayload::Done { elapsed_ms: Some(ms), .. } = &self.events[i].payload {
                n = n.saturating_add(*ms);
            }
            i += 1;
        }
        proof {
            assert(self.events@.take(self.events@.len() as int) =~= self.events@);
        }
        n
    }

    /// The number of context assemblies. The count is reduced to 32 bits.
    pub fn context_assembly_count(&self) -> (r: u32)
        ensures
            r == count(self@.events, |p: EventPayload| p is ContextAssembly) as u32,
    {
        let ghost f = |p: EventPayload|
            if (|q: EventPayload| q is ContextAssembly)(p) {
                1nat
            } else {
                0nat
            };
        let mut n: usize = 0;
        let mut i: usize = 0;
        while i < self.events.len()
            invariant
                i <= self.events@.len(),
                n <= i,
                f == (|p: EventPayload|
                    if (|q: EventPayload| q is ContextAssembly)(p) {
                        1nat
                    } else {
                        0nat
                    }),
                n == total(self.events@.take(i as int), f),
            decreases self.events@.len() - i,
        {
            proof {
                seqs::lemma_take_step(self.events@, i as int);
            }
            if let EventPayload::ContextAssembly { .. } = &self.events[i].payload {
                n += 1;
            }
            i += 1;
        }
        proof {
            assert(self.events@.take(self.events@.len() as int) =~= self.events@);
        }
        #[verifier::truncate]
        (n as u32)
    }

    /// The number of tool calls. The count is reduced to 32 bits.
    pub fn tool_call_count(&self) -> (r: u32)
        ensures
            r == count(self@.events, |p: EventPayload| p is ToolCall) as u32,
    {
        let ghost f = |p: EventPayload|
            if (|q: EventPayload| q is ToolCall)(p) {
                1nat
            } else {
                0nat
            };
        let mut n: usize = 0;
        let mut i: usize = 0;
        while i < self.events.len()
            invariant
                i <= self.events@.len(),
                n <= i,
                f == (|p: EventPayload|
                    if (|q: EventPayload| q is ToolCall)(p) {
                        1nat
                    } else {
                        0nat
                    }),
                n == total(self.events@.take(i as int), f),
            decreases self.events@.len() - i,
        {
            proof {
                seqs::lemma_take_step(self.events@, i as int);
            }
            if let EventPayload::ToolCall { .. } = &self.events[i].payload {
                n += 1;
            }
            i += 1;
        }
        proof {
            assert(self.events@.take(self.events@.len() as int) =~= self.events@);
        }
        #[verifier::truncate]
        (n as u32)
    }

    /// Rating and note of the operator mark with the greatest identifier.
    pub fn latest_operator_mark(&self) -> (r: Option<(u8, Option<String>)>)
        ensures
            match latest_mark(self@.events) {
                Some(e) => r == Some((e.payload->rating, e.payload->note)),
                None => r is None,
            },
    {
        let mut best: Option<usize> = None;
        let mut i: usize = 0;
        while i < self.events.len()
            invariant
                i <= self.events@.len(),
                match best {
                    Some(k) => k < i && latest_mark(self.events@.take(i as int)) == Some(
                        self.events@[k as int],
                    ) && self.events@[k as int].payload is OperatorMark,
                    None => latest_mark(self.events@.take(i as int)) is None,
                },
            decreases self.events@.len() - i,
        {
            proof {
                seqs::lemma_take_step(self.events@, i as int);
            }
            if let EventPayload::OperatorMark { .. } = &self.events[i].payload {
                let newer = match best {
                    Some(k) => self.events[k].id <= self.events[i].id,
                    None => true,
                };
                if newer {
                    best = Some(i);
                }
            }
            i += 1;
        }
        proof {
            assert(self.events@.take(self.events@.len() as int) =~= self.events@);
        }
        match best {
            Some(k) => match &self.events[k].payload {
                EventPayload::OperatorMark { rating, note } => Some((*rating, note.clone())),
                _ => None,
            },
            None => None,
        }
    }

    /// The time of the first event.
    pub fn started_at_unix_ms(&self) -> (r: Option<u64>)
        ensures
            r == (if self@.events.len() > 0 {
                Some(self@.events[0].timestamp_unix_ms)
            } else {
                None
            }),
    {
        if self.events.len() > 0 {
            Some(self.events[0].timestamp_unix_ms)
        } else {
            None
        }
    }

    /// The time of the last event.
    pub fn last_activity_unix_ms(&self) -> (r: Option<u64>)
        ensures
            r == (if self@.events.len() > 0 {
                Some(self@.events.last().timestamp_unix_ms)
            } else {
                None
            }),
    {
        if self.events.len() > 0 {
            Some(self.events[self.events.len() - 1].timestamp_unix_ms)
        } else {
            None
        }
    }

    /// The identifiers of the events that tombstones retract, in increasing order and each once.
    pub fn tombstoned_ids(&self) -> (r: Vec<u64>)
        ensures
            r@.to_set() == tombstones(self@.events),
            forall|i: int, j: int| 0 <= i < j < r@.len() ==> r@[i] < r@[j],
    {
        tombstoned_ids(self.events.as_slice())
    }

    /// Provider and model of the first creation event; none if there is no such event.
    pub fn provider_info(&self) -> (r: Option<(String, String)>)
        ensures
            match r {
                Some((provider, model)) => first_provider(self@.events) == Some(
                    (provider@, model@),
                ),
                None => first_provider(self@.events) is None,
            },
    {
        let ghost all = self.events@;
        let mut i: usize = 0;
        proof {
            assert(all.take(0) =~= Seq::empty());
        }
        while i < self.events.len()
            invariant
                i <= all.len(),
                all == self.events@,
                first_provider(all.take(i as int)) is None,
            decreases all.len() - i,
        {
            proof {
                seqs::lemma_take_step(all, i as int);
            }
            if let EventPayload::SessionCreated { provider_kind, model, .. } =
                &self.events[i].payload {
                proof {
                    lemma_first_provider_stays(all, i + 1);
                }
                return Some((provider_kind.clone(), model.clone()));
            }
            i += 1;
        }
        proof {
            assert(all.take(all.len() as int) =~= all);
        }
        None
    }

    /// Provider and model that are in force: of the latest switch or creation.
    pub fn provider_in_force(&self) -> (r: Option<(String, String)>)
        ensures
            match r {
                Some((provider, model)) => provider_after(self@.events) == Some(
                    (provider@, model@),
                ),
                None => provider_after(self@.events) is None,
            },
    {
        let mut i: usize = self.events.len();
        proof {
            assert(self.events@.take(i as int) =~= self.events@);
        }
        while i > 0
            invariant
                i <= self.events@.len(),
                provider_after(self.events@.take(i as int)) == provider_after(self.events@),
            decreases i,
        {
            proof {
                seqs::lemma_take_step(self.events@, i - 1);
            }
            match &self.events[i - 1].payload {
                EventPayload::ProviderSwitched { new_provider_kind, new_model, .. } => {
                    return Some((new_provider_kind.clone(), new_model.clone()));
                },
                EventPayload::SessionCreated { provider_kind, model, .. } => {
                    return Some((provider_kind.clone(), model.clone()));
                },
                _ => {},
            }
            i -= 1;
        }
        None
    }
}

proof fn lemma_first_provider_stays(events: Seq<SessionEvent>, n: int)
    requires
        0 <= n <= events.len(),
        first_provider(events.take(n)) is Some,
    ensures
        first_provider(events) == first_provider(events.take(n)),
    decreases events.len(),
{
    if n == events.len() {
        assert(events.take(n) =~= events);
    } else {
        assert(events.drop_last().take(n) =~= events.take(n));
        lemma_first_provider_stays(events.drop_last(), n);
    }
}

/// The turns of a completed ask.
pub open spec fn turns(p: EventPayload) -> nat {
    match p {
        EventPayload::Done { turn_count, .. } => turn_count as nat,
        _ => 0,
    }
}

/// The time of a completed ask.
pub open spec fn elapsed(p: EventPayload) -> nat {
    match p {
        EventPayload::Done { elapsed_ms: Some(ms), .. } => ms as nat,
        _ => 0,
    }
}

/// `after` is `before` with one more event, which has the next identifier.
pub open spec fn appended(
    before: LogState,
    after: LogState,
    actor: EventActor,
    payload: EventPayload,
    parents: Seq<u64>,
) -> bool {
    &&& after.session_id == before.session_id
    &&& after.durable == before.durable
    &&& after.next_id == before.next_id.wrapping_add(1)
    &&& after.events.len() == before.events.len() + 1
    &&& after.events.drop_last() == before.events
    &&& after.events.last().id == before.next_id
    &&& after.events.last().session_id@ == before.session_id
    &&& after.events.last().parent_event_ids@ == parents
    &&& after.events.last().actor == actor
    &&& after.events.last().payload == payload
}

/// The identifiers of the events that tombstones in `events` retract, in increasing order and each
/// once.
pub fn tombstoned_ids(events: &[SessionEvent]) -> (r: Vec<u64>)
    ensures
        r@.to_set() == tombstones(events@),
        forall|i: int, j: int| 0 <= i < j < r@.len() ==> r@[i] < r@[j],
{
    let mut r: Vec<u64> = Vec::new();
    let mut i: usize = 0;
    while i < events.len()
        invariant
            i <= events@.len(),
            forall|id: u64| r@.contains(id) <==> tombstones(events@.take(i as int)).contains(id),
            forall|a: int, b: int| 0 <= a < b < r@.len() ==> r@[a] < r@[b],
        decreases events@.len() - i,
    {
        proof {
            lemma_tombstones_step(events@, i as int);
        }
        let ghost old_set = tombstones(events@.take(i as int));
        if let EventPayload::Tombstone { target_event_id, .. } = &events[i].payload {
            let id: u64 = *target_event_id;
            proof {
                assert forall|x: u64| retracts(events@[i as int].payload, x) <==> x == id by {}
            }
            let mut at: usize = 0;
            while at < r.len() && r[at] < id
                invariant
                    at <= r@.len(),
                    forall|a: int| 0 <= a < at ==> r@[a] < id,
                    forall|x: u64| r@.contains(x) <==> old_set.contains(x),
                    forall|a: int, b: int| 0 <= a < b < r@.len() ==> r@[a] < r@[b],
                decreases r@.len() - at,
            {
                at += 1;
            }
            if at == r.len() || r[at] != id {
                let ghost before = r@;
                r.insert(at, id);
                proof {
                    assert forall|x: u64| r@.contains(x) <==> before.contains(x) || x == id by {
                        if before.contains(x) {
                            let k = choose|k: int| 0 <= k < before.len() && before[k] == x;
                            assert(r@[if k < at {
                                k
                            } else {
                                k + 1
                            }] == x);
                        }
                        assert(r@[at as int] == id);
                        if r@.contains(x) {
                            let k = choose|k: int| 0 <= k < r@.len() && r@[k] == x;
                            if k < at {
                                assert(before[k] == x);
                            } else if k > at {
                                assert(before[k - 1] == x);
                            }
                        }
                    }
                }
            } else {
                proof {
                    assert(r@[at as int] == id);
                    assert(r@.contains(id));
                }
            }
        }
        proof {
            let now = tombstones(events@.take(i + 1));
            assert forall|x: u64| r@.contains(x) <==> now.contains(x) by {
                assert(now.contains(x) <==> old_set.contains(x) || retracts(
                    events@[i as int].payload,
                    x,
                ));
            }
        }
        i += 1;
    }
    proof {
        assert(events@.take(events@.len() as int) =~= events@);
        assert(r@.to_set() =~= tombstones(events@));
    }
    r
}

proof fn lemma_tombstones_step(events: Seq<SessionEvent>, i: int)
    requires
        0 <= i < events.len(),
    ensures
        forall|id: u64|
            tombstones(events.take(i + 1)).contains(id) <==> (tombstones(events.take(i)).contains(
                id,
            ) || retracts(events[i].payload, id)),
{
    let a = events.take(i);
    let b = events.take(i + 1);
    assert forall|id: u64|
        tombstones(b).contains(id) <==> (tombstones(a).contains(id) || retracts(
            events[i].payload,
            id,
        )) by {
        if tombstones(a).contains(id) {
            let k = choose|k: int|
                0 <= k < a.len() && retracts(#[trigger] a[k].payload, id);
            assert(b[k].payload == a[k].payload);
        }
        if tombstones(b).contains(id) {
            let k = choose|k: int|
                0 <= k < b.len() && retracts(#[trigger] b[k].payload, id);
            if k < i {
                assert(a[k].payload == b[k].payload);
            }
        }
        assert(b[i].payload == events[i].payload);
    }
}

/// Identifiers are assigned in increasing order: an appended event has a greater identifier than
/// every event before it, and the log stays so.
pub proof fn law_ids_increase(
    before: LogState,
    after: LogState,
    actor: EventActor,
    payload: EventPayload,
    parents: Seq<u64>,
)
    requires
        before.fresh(),
        before.next_id < u64::MAX,
        appended(before, after, actor, payload, parents),
    ensures
        after.fresh(),
        forall|i: int|
            0 <= i < before.events.len() ==> (#[trigger] before.events[i]).id
                < after.events.last().id,
{
    assert forall|i: int| 0 <= i < after.events.len() implies (#[trigger] after.events[i]).id
        < after.next_id by {
        if i < before.events.len() {
            assert(after.events.drop_last()[i] == after.events[i]);
        }
    }
}

/// Appending does not change what is in the log: projections over a prefix stay what they were.
pub proof fn law_log_is_append_only(
    before: LogState,
    after: LogState,
    actor: EventActor,
    payload: EventPayload,
    parents: Seq<u64>,
)
    requires
        appended(before, after, actor, payload, parents),
    ensures
        after.events.take(before.events.len() as int) == before.events,
{
    assert(after.events.take(before.events.len() as int) =~= after.events.drop_last());
}

/// A log recovered from the events of another log continues its identifiers: nothing that is in
/// the file gets its identifier again.
pub proof fn law_recovered_ids_are_fresh(lines: Seq<LogLine>, i: int)
    requires
        0 <= i < events_of(lines).len(),
    ensures
        events_of(lines)[i].id < max_id(events_of(lines)) + 1,
{
    lemma_max_id(events_of(lines), i);
}

/// The mark that counts has the greatest identifier of all marks.
pub proof fn law_latest_mark_has_the_greatest_id(events: Seq<SessionEvent>, i: int)
    requires
        0 <= i < events.len(),
        events[i].payload is OperatorMark,
    ensures
        latest_mark(events) is Some,
        latest_mark(events)->0.payload is OperatorMark,
        events[i].id <= latest_mark(events)->0.id,
    decreases events.len(),
{
    lemma_latest_mark_is_one(events.drop_last());
    if i < events.len() - 1 {
        law_latest_mark_has_the_greatest_id(events.drop_last(), i);
    }
}

proof fn lemma_latest_mark_is_one(events: Seq<SessionEvent>)
    ensures
        latest_mark(events) is Some ==> latest_mark(events)->0.payload is OperatorMark
            && events.contains(latest_mark(events)->0),
    decreases events.len(),
{
    if events.len() > 0 {
        let before = events.drop_last();
        lemma_latest_mark_is_one(before);
        seqs::lemma_push_contains(before, events.last());
        assert(events =~= before.push(events.last()));
    }
}

/// Marking anew replaces the mark: an appended mark, whose identifier is greater than all before,
/// is the one that counts, and other events change nothing.
pub proof fn law_a_new_mark_counts(events: Seq<SessionEvent>, e: SessionEvent)
    requires
        forall|i: int| 0 <= i < events.len() ==> (#[trigger] events[i]).id < e.id,
    ensures
        latest_mark(events.push(e)) == if e.payload is OperatorMark {
            Some(e)
        } else {
            latest_mark(events)
        },
{
    assert(events.push(e).drop_last() =~= events);
    lemma_latest_mark_is_one(events);
    if let Some(m) = latest_mark(events) {
        let i = choose|i: int| 0 <= i < events.len() && events[i] == m;
        assert(events[i].id < e.id);
    }
}

/// A total over events takes in each of them once, whatever the order in which they are summed.
pub proof fn law_totals_take_in_every_event_once(
    a: Seq<SessionEvent>,
    b: Seq<SessionEvent>,
    e: SessionEvent,
    f: spec_fn(EventPayload) -> nat,
)
    ensures
        total(a + b, f) == total(a, f) + total(b, f),
        total(a + b, f) == total(b + a, f),
        total(seq![e], f) == f(e.payload),
        total(Seq::empty(), f) == 0,
{
    lemma_total_of_two(a, b, f);
    lemma_total_of_two(b, a, f);
    assert(seq![e].drop_last() =~= Seq::empty());
    assert(total(Seq::<SessionEvent>::empty(), f) == 0);
}

proof fn lemma_total_of_two(
    a: Seq<SessionEvent>,
    b: Seq<SessionEvent>,
    f: spec_fn(EventPayload) -> nat,
)
    ensures
        total(a + b, f) == total(a, f) + total(b, f),
    decreases b.len(),
{
    if b.len() == 0 {
        assert(a + b =~= a);
    } else {
        assert((a + b).drop_last() =~= a + b.drop_last());
        lemma_total_of_two(a, b.drop_last(), f);
    }
}

/// A number of events counts those that are asked for and no others: it is that of the one part
/// and that of the other, one for a single event of the kind, and none for another.
pub proof fn law_events_are_counted_once(
    a: Seq<SessionEvent>,
    b: Seq<SessionEvent>,
    e: SessionEvent,
    p: spec_fn(EventPayload) -> bool,
)
    ensures
        count(a + b, p) == count(a, p) + count(b, p),
        p(e.payload) ==> count(seq![e], p) == 1,
        !p(e.payload) ==> count(seq![e], p) == 0,
        count(Seq::empty(), p) == 0,
        count(a, p) <= a.len(),
{
    let f = |e: EventPayload|
        if p(e) {
            1nat
        } else {
            0nat
        };
    law_totals_take_in_every_event_once(a, b, e, f);
    lemma_count_bound(a, p);
}

proof fn lemma_count_bound(a: Seq<SessionEvent>, p: spec_fn(EventPayload) -> bool)
    ensures
        count(a, p) <= a.len(),
    decreases a.len(),
{
    if a.len() > 0 {
        lemma_count_bound(a.drop_last(), p);
    }
}

/// One count of the usage that `f` finds in a payload, zero where it finds none.
pub open spec fn count_in(
    f: spec_fn(EventPayload) -> Option<Usage>,
    k: int,
) -> spec_fn(EventPayload) -> nat {
    |p: EventPayload|
        if f(p) is Some {
            agent::count(f(p)->0, k)
        } else {
            0
        }
}

/// Every count of a summed usage is the sum, as far as a `u64` goes, of what the events report for
/// that count. The sum is there exactly if some event reports usage, and reports a count exactly if
/// some event does.
pub proof fn law_every_count_is_summed(
    events: Seq<SessionEvent>,
    f: spec_fn(EventPayload) -> Option<Usage>,
    k: int,
)
    requires
        0 <= k < agent::COUNTS,
    ensures
        usage_total(events, f) is Some <==> exists|i: int|
            0 <= i < events.len() && f((#[trigger] events[i]).payload) is Some,
        usage_total(events, f) matches Some(u) ==> {
            let sum = total(events, count_in(f, k));
            &&& sum <= u64::MAX ==> agent::count(u, k) == sum
            &&& sum > u64::MAX ==> agent::count(u, k) == u64::MAX
            &&& agent::reports(u, k) <==> exists|i: int|
                0 <= i < events.len() && f((#[trigger] events[i]).payload) is Some && agent::reports(
                    f(events[i].payload)->0,
                    k,
                )
        },
        usage_total(events, f) is None ==> total(events, count_in(f, k)) == 0,
    decreases events.len(),
{
    if events.len() > 0 {
        let before = events.drop_last();
        let n = events.len() - 1;
        law_every_count_is_summed(before, f, k);
        let e = f(events.last().payload);
        assert(events[n] == events.last());
        assert forall|i: int| 0 <= i < n implies #[trigger] events[i] == before[i] by {}
        if usage_total(before, f) is Some {
            let i = choose|i: int| 0 <= i < before.len() && f((#[trigger] before[i]).payload) is Some;
            assert(events[i] == before[i]);
            let a = usage_total(before, f)->0;
            if agent::reports(a, k) {
                let j = choose|j: int|
                    0 <= j < before.len() && f((#[trigger] before[j]).payload) is Some
                        && agent::reports(f(before[j].payload)->0, k);
                assert(events[j] == before[j]);
            }
            if e is Some {
                agent::law_every_count_adds_up(a, e->0);
                assert(agent::count(a.plus(e->0), k) >= 0);
            }
        }
        if exists|i: int| 0 <= i < events.len() && f((#[trigger] events[i]).payload) is Some {
            let i = choose|i: int| 0 <= i < events.len() && f((#[trigger] events[i]).payload) is Some;
            if i < n {
                assert(before[i] == events[i]);
            }
        }
        if exists|i: int|
            0 <= i < events.len() && f((#[trigger] events[i]).payload) is Some && agent::reports(
                f(events[i].payload)->0,
                k,
            ) {
            let i = choose|i: int|
                0 <= i < events.len() && f((#[trigger] events[i]).payload) is Some
                    && agent::reports(f(events[i].payload)->0, k);
            if i < n {
                assert(before[i] == events[i]);
            }
        }
    }
}

/// Finished asks, and nothing else, report usage, turns and time for the log; assistant messages,
/// and nothing else, report usage while an ask runs.
pub proof fn law_asks_and_messages_report(p: EventPayload)
    ensures
        p is Done ==> done_usage(p) == p->Done_usage && turns(p) == p->Done_turn_count,
        p is Done && p->Done_elapsed_ms is Some ==> elapsed(p) == p->Done_elapsed_ms->0,
        p is Done && p->Done_elapsed_ms is None ==> elapsed(p) == 0,
        !(p is Done) ==> done_usage(p) is None && turns(p) == 0 && elapsed(p) == 0,
        p is AssistantMessageEvent ==> message_usage(p)
            == p->AssistantMessageEvent_message.usage,
        !(p is AssistantMessageEvent) ==> message_usage(p) is None,
{
}

/// The usage semantics that a payload registers.
pub open spec fn registered(p: EventPayload) -> Option<UsageSemantics> {
    if p is SessionCreated {
        p->SessionCreated_usage_semantics
    } else if p is ProviderSwitched {
        p->ProviderSwitched_usage_semantics
    } else {
        None
    }
}

/// The semantics in force are those of the last event that registers any.
pub proof fn law_the_last_registered_semantics_count(events: Seq<SessionEvent>, i: int)
    requires
        -1 <= i < events.len(),
        i >= 0 ==> registered(events[i].payload) is Some,
        forall|j: int| i < j < events.len() ==> registered((#[trigger] events[j]).payload) is None,
    ensures
        i == -1 ==> semantics_after(events) is None,
        i >= 0 ==> semantics_after(events) == registered(events[i].payload),
    decreases events.len(),
{
    if events.len() > 0 && i < events.len() - 1 {
        assert(registered(events[events.len() - 1].payload) is None);
        let before = events.drop_last();
        assert forall|j: int| i < j < before.len() implies registered(
            (#[trigger] before[j]).payload,
        ) is None by {
            assert(before[j] == events[j]);
        }
        law_the_last_registered_semantics_count(before, i);
    }
}

/// The prompt that is shown is that of the last assistant message with usage: as the semantics in
/// force before it have it, and else input, cache reads and cache writes together.
pub proof fn law_the_last_reported_prompt_counts(events: Seq<SessionEvent>, i: int, u: Usage)
    requires
        -1 <= i < events.len(),
        i >= 0 ==> events[i].payload is AssistantMessageEvent
            && events[i].payload->AssistantMessageEvent_message.usage == Some(u),
        forall|j: int|
            i < j < events.len() ==> !((#[trigger] events[j]).payload is AssistantMessageEvent)
                || events[j].payload->AssistantMessageEvent_message.usage is None,
    ensures
        i == -1 ==> last_prompt(events) is None,
        i >= 0 ==> {
            let s = semantics_after(events.take(i));
            &&& last_prompt(events) is Some
            &&& s is Some && s->0.prompt(u) is Some ==> last_prompt(events) == s->0.prompt(u)
            &&& (s is None || s->0.prompt(u) is None) && agent::count(u, 0) + agent::count(u, 2)
                + agent::count(u, 3) <= u64::MAX ==> last_prompt(events)->0 == agent::count(u, 0)
                + agent::count(u, 2) + agent::count(u, 3)
        },
    decreases events.len(),
{
    if events.len() > 0 {
        let before = events.drop_last();
        if i < events.len() - 1 {
            assert(events[events.len() - 1] == events.last());
            assert forall|j: int| i < j < before.len() implies !(
            (#[trigger] before[j]).payload is AssistantMessageEvent)
                || before[j].payload->AssistantMessageEvent_message.usage is None by {
                assert(before[j] == events[j]);
            }
            law_the_last_reported_prompt_counts(before, i, u);
            if i >= 0 {
                assert(before.take(i) =~= events.take(i));
            }
        } else {
            assert(before =~= events.take(i));
        }
    }
}

/// A session was created with the provider and the model of its first creation event, and runs with
/// those of its latest creation or switch.
pub proof fn law_providers_of_a_session(events: Seq<SessionEvent>, i: int)
    requires
        -1 <= i < events.len(),
    ensures
        i >= 0 && events[i].payload is SessionCreated && (forall|j: int|
            0 <= j < i ==> !((#[trigger] events[j]).payload is SessionCreated)) ==> first_provider(
            events,
        ) == Some(
            (events[i].payload->SessionCreated_provider_kind@, events[i].payload->SessionCreated_model@),
        ),
        (forall|j: int|
            0 <= j < events.len() ==> !((#[trigger] events[j]).payload is SessionCreated))
            ==> first_provider(events) is None,
        i >= 0 && events[i].payload is SessionCreated && (forall|j: int|
            i < j < events.len() ==> !((#[trigger] events[j]).payload is SessionCreated)
                && !(events[j].payload is ProviderSwitched)) ==> provider_after(events) == Some(
            (events[i].payload->SessionCreated_provider_kind@, events[i].payload->SessionCreated_model@),
        ),
        i >= 0 && events[i].payload is ProviderSwitched && (forall|j: int|
            i < j < events.len() ==> !((#[trigger] events[j]).payload is SessionCreated)
                && !(events[j].payload is ProviderSwitched)) ==> provider_after(events) == Some(
            (
                events[i].payload->ProviderSwitched_new_provider_kind@,
                events[i].payload->ProviderSwitched_new_model@,
            ),
        ),
        (forall|j: int|
            0 <= j < events.len() ==> !((#[trigger] events[j]).payload is SessionCreated)
                && !(events[j].payload is ProviderSwitched)) ==> provider_after(events) is None,
    decreases events.len(),
{
    if events.len() > 0 {
        let before = events.drop_last();
        let n = events.len() - 1;
        assert(events[n] == events.last());
        assert forall|j: int| 0 <= j < n implies #[trigger] before[j] == events[j] by {}
        if i < n {
            law_providers_of_a_session(before, i);
            if i >= 0 {
                assert(before[i] == events[i]);
            }
        } else {
            law_providers_of_a_session(before, -1);
        }
    }
}

/// An event that an earlier or later tombstone of the log names is retracted, and no other.
pub proof fn law_tombstones_retract_what_they_name(events: Seq<SessionEvent>, id: u64)
    ensures
        tombstones(events).contains(id) <==> exists|i: int|
            0 <= i < events.len() && (#[trigger] events[i]).payload is Tombstone
                && events[i].payload->Tombstone_target_event_id == id,
{
    if tombstones(events).contains(id) {
        let i = choose|i: int| 0 <= i < events.len() && retracts(#[trigger] events[i].payload, id);
        assert(events[i].payload is Tombstone);
    }
    if exists|i: int|
        0 <= i < events.len() && (#[trigger] events[i]).payload is Tombstone
            && events[i].payload->Tombstone_target_event_id == id {
        let i = choose|i: int|
            0 <= i < events.len() && (#[trigger] events[i]).payload is Tombstone
                && events[i].payload->Tombstone_target_event_id == id;
        assert(retracts(events[i].payload, id));
    }
}

/// Appending adds one event with what was handed in, under the next identifier and in the session
/// of the log, and keeps the rest.
pub proof fn law_appending_adds_what_was_handed_in(
    before: LogState,
    after: LogState,
    actor: EventActor,
    payload: EventPayload,
    parents: Seq<u64>,
)
    requires
        appended(before, after, actor, payload, parents),
    ensures
        after.events.len() == before.events.len() + 1,
        forall|i: int|
            0 <= i < before.events.len() ==> #[trigger] after.events[i] == before.events[i],
        after.events[before.events.len() as int].id == before.next_id,
        after.events[before.events.len() as int].payload == payload,
        after.events[before.events.len() as int].actor == actor,
        after.events[before.events.len() as int].parent_event_ids@ == parents,
        after.events[before.events.len() as int].session_id@ == before.session_id,
        before.next_id < u64::MAX ==> after.next_id == before.next_id + 1,
        after.session_id == before.session_id,
        after.durable == before.durable,
{
    assert forall|i: int| 0 <= i < before.events.len() implies #[trigger] after.events[i]
        == before.events[i] by {
        assert(after.events.drop_last()[i] == after.events[i]);
    }
}

/// The lines of a file are read one by one and in order: those of the first part come before those
/// of the second, an event is kept as it is, and another line gives no event. Exactly the malformed
/// lines are counted as such.
pub proof fn law_every_line_is_read_once(a: Seq<LogLine>, b: Seq<LogLine>, line: LogLine)
    ensures
        events_of(a + b) == events_of(a) + events_of(b),
        line is Event ==> events_of(seq![line]) == seq![line->0],
        !(line is Event) ==> events_of(seq![line]).len() == 0,
        events_of(Seq::empty()).len() == 0,
        malformed_in(a + b) == malformed_in(a) + malformed_in(b),
        line is Malformed ==> malformed_in(seq![line]) == 1,
        !(line is Malformed) ==> malformed_in(seq![line]) == 0,
        events_of(a).len() + malformed_in(a) <= a.len(),
{
    lemma_lines_of_two(a, b);
    lemma_lines_bound(a);
    let one = seq![line];
    assert(one.drop_last() =~= Seq::empty());
    assert(events_of(one.drop_last()) =~= Seq::empty());
    assert(malformed_in(one.drop_last()) == 0);
    if line is Event {
        assert(events_of(one) =~= seq![line->0]);
    }
}

proof fn lemma_lines_of_two(a: Seq<LogLine>, b: Seq<LogLine>)
    ensures
        events_of(a + b) == events_of(a) + events_of(b),
        malformed_in(a + b) == malformed_in(a) + malformed_in(b),
    decreases b.len(),
{
    if b.len() == 0 {
        assert(a + b =~= a);
        assert(events_of(a) + events_of(b) =~= events_of(a));
    } else {
        assert((a + b).drop_last() =~= a + b.drop_last());
        lemma_lines_of_two(a, b.drop_last());
        assert(events_of(a + b) =~= events_of(a) + events_of(b));
    }
}

proof fn lemma_lines_bound(a: Seq<LogLine>)
    ensures
        events_of(a).len() + malformed_in(a) <= a.len(),
    decreases a.len(),
{
    if a.len() > 0 {
        lemma_lines_bound(a.drop_last());
    }
}

/// The greatest identifier is that of an event, and no event has a greater one.
pub proof fn law_the_greatest_id_is_one_of_them(events: Seq<SessionEvent>)
    ensures
        forall|i: int| 0 <= i < events.len() ==> (#[trigger] events[i]).id <= max_id(events),
        max_id(events) > 0 ==> exists|i: int|
            0 <= i < events.len() && (#[trigger] events[i]).id == max_id(events),
    decreases events.len(),
{
    if events.len() > 0 {
        let before = events.drop_last();
        law_the_greatest_id_is_one_of_them(before);
        assert forall|i: int| 0 <= i < events.len() implies (#[trigger] events[i]).id <= max_id(
            events,
        ) by {
            lemma_max_id(events, i);
        }
        if max_id(events) > 0 {
            if events.last().id == max_id(events) {
                assert(events[events.len() - 1].id == max_id(events));
            } else {
                let i = choose|i: int|
                    0 <= i < before.len() && (#[trigger] before[i]).id == max_id(before);
                assert(events[i] == before[i]);
            }
        }
    }
}

/// Every kind of event has its wire tag.
pub proof fn law_every_kind_of_event_has_its_tag(p: EventPayload)
    ensures
        p is SessionCreated ==> p.tag() == "session_created"@,
        p is UserMessage ==> p.tag() == "user_message"@,
        p is AssistantMessageEvent ==> p.tag() == "assistant_message_event"@,
        p is ToolCall ==> p.tag() == "tool_call"@,
        p is ToolResult ==> p.tag() == "tool_result"@,
        p is Done ==> p.tag() == "done"@,
        p is Error ==> p.tag() == "error"@,
        p is Callout ==> p.tag() == "callout"@,
        p is ErrorInvalidMessage ==> p.tag() == "error_invalid_message"@,
        p is ProviderSwitched ==> p.tag() == "provider_switched"@,
        p is SessionClosed ==> p.tag() == "session_closed"@,
        p is ContextAssembly ==> p.tag() == "context_assembly"@,
        p is CompactionAssembly ==> p.tag() == "compaction_assembly"@,
        p is AutonomousIterationStarted ==> p.tag() == "autonomous_iteration_started"@,
        p is AutonomousIterationCompleted ==> p.tag() == "autonomous_iteration_completed"@,
        p is AutonomousScheduledWakeup ==> p.tag() == "autonomous_scheduled_wakeup"@,
        p is AutonomousTerminated ==> p.tag() == "autonomous_terminated"@,
        p is ProviderStatusUpdate ==> p.tag() == "provider_status_update"@,
        p is MailboxMessagePosted ==> p.tag() == "mailbox_message_posted"@,
        p is MailboxMessageConsumed ==> p.tag() == "mailbox_message_consumed"@,
        p is TaskTelemetry ==> p.tag() == "task_telemetry"@,
        p is WorkerSpawned ==> p.tag() == "worker_spawned"@,
        p is WorkerExited ==> p.tag() == "worker_exited"@,
        p is WorkerFailed ==> p.tag() == "worker_failed"@,
        p is WorkerTimeout ==> p.tag() == "worker_timeout"@,
        p is OperatorMark ==> p.tag() == "operator_mark"@,
        p is HeadAttached ==> p.tag() == "head_attached"@,
        p is Tombstone ==> p.tag() == "tombstone"@,
        p is CommandReceived ==> p.tag() == "command_received"@,
        p is CommandSucceeded ==> p.tag() == "command_succeeded"@,
        p is CommandFailed ==> p.tag() == "command_failed"@,
        p is CommandRejected ==> p.tag() == "command_rejected"@,
{
}

proof fn lemma_total_agrees(
    events: Seq<SessionEvent>,
    f: spec_fn(EventPayload) -> nat,
    g: spec_fn(EventPayload) -> nat,
)
    requires
        forall|p: EventPayload| #[trigger] f(p) == g(p),
    ensures
        total(events, f) == total(events, g),
    decreases events.len(),
{
    if events.len() > 0 {
        lemma_total_agrees(events.drop_last(), f, g);
        assert(f(events.last().payload) == g(events.last().payload));
    }
}

/// Whether `n` is a total as far as a number can hold it: the total itself up to `max`, and `max`
/// from there on.
pub open spec fn holds_total(n: nat, sum: nat, max: nat) -> bool {
    &&& sum <= max ==> n == sum
    &&& sum > max ==> n == max
}

/// The usage that a log gives is, count by count, what its finished asks report in sum, and the
/// live usage what its assistant messages report; there is one exactly if one of them reports any.
pub proof fn law_logs_sum_up_usage(
    log: &SessionEventLog,
    asks: Option<Usage>,
    live: (Option<Usage>, Option<u64>),
    k: int,
)
    requires
        call_ensures(SessionEventLog::cumulative_usage, (log,), asks),
        call_ensures(SessionEventLog::live_usage, (log,), live),
        0 <= k < agent::COUNTS,
    ensures
        asks matches Some(u) ==> holds_total(
            agent::count(u, k),
            total(
                log@.events,
                |p: EventPayload|
                    if p is Done && p->Done_usage is Some {
                        agent::count(p->Done_usage->0, k)
                    } else {
                        0
                    },
            ),
            u64::MAX as nat,
        ),
        asks is Some <==> exists|i: int|
            0 <= i < log@.events.len() && (#[trigger] log@.events[i]).payload is Done
                && log@.events[i].payload->Done_usage is Some,
        live.0 matches Some(u) ==> holds_total(
            agent::count(u, k),
            total(
                log@.events,
                |p: EventPayload|
                    if p is AssistantMessageEvent
                        && p->AssistantMessageEvent_message.usage is Some {
                        agent::count(p->AssistantMessageEvent_message.usage->0, k)
                    } else {
                        0
                    },
            ),
            u64::MAX as nat,
        ),
        live.0 is Some <==> exists|i: int|
            0 <= i < log@.events.len() && (
            #[trigger] log@.events[i]).payload is AssistantMessageEvent
                && log@.events[i].payload->AssistantMessageEvent_message.usage is Some,
        live.1 == last_prompt(log@.events),
{
    let events = log@.events;
    let f = |p: EventPayload| done_usage(p);
    let g = |p: EventPayload| message_usage(p);
    law_every_count_is_summed(events, f, k);
    law_every_count_is_summed(events, g, k);
    lemma_total_agrees(
        events,
        count_in(f, k),
        |p: EventPayload|
            if p is Done && p->Done_usage is Some {
                agent::count(p->Done_usage->0, k)
            } else {
                0
            },
    );
    lemma_total_agrees(
        events,
        count_in(g, k),
        |p: EventPayload|
            if p is AssistantMessageEvent && p->AssistantMessageEvent_message.usage is Some {
                agent::count(p->AssistantMessageEvent_message.usage->0, k)
            } else {
                0
            },
    );
    if asks is Some {
        let i = choose|i: int| 0 <= i < events.len() && f((#[trigger] events[i]).payload) is Some;
        assert(events[i].payload is Done);
    }
    if live.0 is Some {
        let i = choose|i: int| 0 <= i < events.len() && g((#[trigger] events[i]).payload) is Some;
        assert(events[i].payload is AssistantMessageEvent);
    }
    if exists|i: int|
        0 <= i < events.len() && (#[trigger] events[i]).payload is Done
            && events[i].payload->Done_usage is Some {
        let i = choose|i: int|
            0 <= i < events.len() && (#[trigger] events[i]).payload is Done
                && events[i].payload->Done_usage is Some;
        assert(f(events[i].payload) is Some);
    }
    if exists|i: int|
        0 <= i < events.len() && (#[trigger] events[i]).payload is AssistantMessageEvent
            && events[i].payload->AssistantMessageEvent_message.usage is Some {
        let i = choose|i: int|
            0 <= i < events.len() && (#[trigger] events[i]).payload is AssistantMessageEvent
                && events[i].payload->AssistantMessageEvent_message.usage is Some;
        assert(g(events[i].payload) is Some);
    }
}

/// Turns and time are those of the finished asks in sum, and asks, assembled contexts and tool calls
/// are counted one by one.
pub proof fn law_logs_count_their_events(
    log: &SessionEventLog,
    turn_count: u32,
    asks: u32,
    elapsed_ms: u64,
    assemblies: u32,
    calls: u32,
)
    requires
        log@.events.len() <= u32::MAX,
        call_ensures(SessionEventLog::total_turn_count, (log,), turn_count),
        call_ensures(SessionEventLog::ask_count, (log,), asks),
        call_ensures(SessionEventLog::elapsed_total_ms, (log,), elapsed_ms),
        call_ensures(SessionEventLog::context_assembly_count, (log,), assemblies),
        call_ensures(SessionEventLog::tool_call_count, (log,), calls),
    ensures
        holds_total(
            turn_count as nat,
            total(
                log@.events,
                |p: EventPayload|
                    if p is Done {
                        p->Done_turn_count as nat
                    } else {
                        0
                    },
            ),
            u32::MAX as nat,
        ),
        holds_total(
            elapsed_ms as nat,
            total(
                log@.events,
                |p: EventPayload|
                    if p is Done && p->Done_elapsed_ms is Some {
                        p->Done_elapsed_ms->0 as nat
                    } else {
                        0
                    },
            ),
            u64::MAX as nat,
        ),
        asks == count(log@.events, |p: EventPayload| p is Done),
        assemblies == count(log@.events, |p: EventPayload| p is ContextAssembly),
        calls == count(log@.events, |p: EventPayload| p is ToolCall),
{
    let events = log@.events;
    lemma_total_agrees(
        events,
        |p: EventPayload| turns(p),
        |p: EventPayload|
            if p is Done {
                p->Done_turn_count as nat
            } else {
                0
            },
    );
    lemma_total_agrees(
        events,
        |p: EventPayload| elapsed(p),
        |p: EventPayload|
            if p is Done && p->Done_elapsed_ms is Some {
                p->Done_elapsed_ms->0 as nat
            } else {
                0
            },
    );
    lemma_count_bound(events, |p: EventPayload| p is Done);
    lemma_count_bound(events, |p: EventPayload| p is ContextAssembly);
    lemma_count_bound(events, |p: EventPayload| p is ToolCall);
}

/// A log started with its first event and was last active with its last, and the mark that it gives
/// is the one of its events with the greatest identifier of all marks.
pub proof fn law_logs_tell_their_times_and_mark(
    log: &SessionEventLog,
    started: Option<u64>,
    active: Option<u64>,
    mark: Option<(u8, Option<String>)>,
    i: int,
)
    requires
        call_ensures(SessionEventLog::started_at_unix_ms, (log,), started),
        call_ensures(SessionEventLog::last_activity_unix_ms, (log,), active),
        call_ensures(SessionEventLog::latest_operator_mark, (log,), mark),
        0 <= i < log@.events.len(),
    ensures
        started == Some(log@.events[0].timestamp_unix_ms),
        active == Some(log@.events[log@.events.len() - 1].timestamp_unix_ms),
        log@.events[i].payload is OperatorMark ==> mark is Some,
        log@.events[i].payload is OperatorMark && (forall|j: int|
            0 <= j < log@.events.len() && j != i && (
            #[trigger] log@.events[j]).payload is OperatorMark ==> log@.events[j].id
                < log@.events[i].id) ==> mark == Some(
            (log@.events[i].payload->rating, log@.events[i].payload->note),
        ),
        mark is Some ==> exists|j: int|
            0 <= j < log@.events.len() && (#[trigger] log@.events[j]).payload is OperatorMark
                && mark == Some((log@.events[j].payload->rating, log@.events[j].payload->note)),
{
    let events = log@.events;
    lemma_latest_mark_is_one(events);
    if let Some(m) = latest_mark(events) {
        let j = choose|j: int| 0 <= j < events.len() && events[j] == m;
        assert(events[j].payload is OperatorMark);
        if events[i].payload is OperatorMark {
            law_latest_mark_has_the_greatest_id(events, i);
        }
    }
    if events[i].payload is OperatorMark {
        law_latest_mark_has_the_greatest_id(events, i);
    }
}

/// An empty log tells nothing.
pub proof fn law_empty_logs_tell_nothing(
    log: &SessionEventLog,
    started: Option<u64>,
    active: Option<u64>,
    usage: Option<Usage>,
    asks: u32,
    info: Option<(String, String)>,
    current: Option<(String, String)>,
)
    requires
        log@.events.len() == 0,
        call_ensures(SessionEventLog::started_at_unix_ms, (log,), started),
        call_ensures(SessionEventLog::last_activity_unix_ms, (log,), active),
        call_ensures(SessionEventLog::cumulative_usage, (log,), usage),
        call_ensures(SessionEventLog::ask_count, (log,), asks),
        call_ensures(SessionEventLog::provider_info, (log,), info),
        call_ensures(SessionEventLog::provider_in_force, (log,), current),
    ensures
        started is None,
        active is None,
        usage is None,
        asks == 0,
        info is None,
        current is None,
{
}

/// A log was created with the provider of its first creation event, and runs with that of its last
/// creation or switch.
pub proof fn law_logs_tell_their_providers(
    log: &SessionEventLog,
    info: Option<(String, String)>,
    current: Option<(String, String)>,
    i: int,
    j: int,
)
    requires
        call_ensures(SessionEventLog::provider_info, (log,), info),
        call_ensures(SessionEventLog::provider_in_force, (log,), current),
        0 <= i < log@.events.len(),
        log@.events[i].payload is SessionCreated,
        forall|k: int| 0 <= k < i ==> !((#[trigger] log@.events[k]).payload is SessionCreated),
        i < j < log@.events.len(),
        log@.events[j].payload is ProviderSwitched,
        forall|k: int|
            j < k < log@.events.len() ==> !((#[trigger] log@.events[k]).payload is SessionCreated)
                && !(log@.events[k].payload is ProviderSwitched),
    ensures
        info matches Some((provider, model)) && provider@
            == log@.events[i].payload->SessionCreated_provider_kind@ && model@
            == log@.events[i].payload->SessionCreated_model@,
        current matches Some((provider, model)) && provider@
            == log@.events[j].payload->ProviderSwitched_new_provider_kind@ && model@
            == log@.events[j].payload->ProviderSwitched_new_model@,
{
    law_providers_of_a_session(log@.events, i);
    law_providers_of_a_session(log@.events, j);
}

/// A recovered log holds every event of its lines, belongs to the session of the first of them, or
/// is named after its file without any, counts the malformed lines, is not yet written to disk, and
/// gives no identifier that one of them has.
pub proof fn law_recovered_logs_hold_every_event(
    lines: Vec<LogLine>,
    stem: Option<String>,
    r: (SessionEventLog, usize),
    i: int,
)
    requires
        call_ensures(SessionEventLog::from_lines, (lines, stem), r),
    ensures
        r.0@.events == events_of(lines@),
        r.1 == malformed_in(lines@),
        !r.0@.durable,
        r.0@.events.len() > 0 ==> r.0@.session_id == r.0@.events[0].session_id@,
        r.0@.events.len() == 0 && stem is Some ==> r.0@.session_id == stem->0@,
        r.0@.events.len() == 0 && stem is None ==> r.0@.session_id == "recovered"@,
        r.0@.events.len() == 0 ==> r.0@.next_id == 1,
        0 <= i < r.0@.events.len() && r.0@.next_id < u64::MAX ==> r.0@.events[i].id < r.0@.next_id,
        r.0@.next_id > 1 && r.0@.next_id < u64::MAX ==> exists|j: int|
            0 <= j < r.0@.events.len() && (#[trigger] r.0@.events[j]).id + 1 == r.0@.next_id,
{
    let events = events_of(lines@);
    law_the_greatest_id_is_one_of_them(events);
    if 0 <= i < events.len() {
        lemma_max_id(events, i);
    }
    if r.0@.next_id > 1 && r.0@.next_id < u64::MAX {
        let j = choose|j: int| 0 <= j < events.len() && (#[trigger] events[j]).id == max_id(events);
        assert(r.0@.events[j].id + 1 == r.0@.next_id);
    }
}

/// An appended event is the last of the log and has the identifier that is given back.
pub proof fn law_appended_events_are_last(
    log: &mut SessionEventLog,
    actor: EventActor,
    payload: EventPayload,
    id: u64,
)
    requires
        call_ensures(SessionEventLog::append, (log, actor, payload), id),
    ensures
        final(log)@.events.len() == old(log)@.events.len() + 1,
        final(log)@.events[old(log)@.events.len() as int].id == id,
        final(log)@.events[old(log)@.events.len() as int].payload == payload,
        final(log)@.events[old(log)@.events.len() as int].actor == actor,
        final(log)@.events[old(log)@.events.len() as int].parent_event_ids@.len() == 0,
        id == old(log)@.next_id,
{
}

/// A command is refused exactly if the log is not written to disk, and then nothing changes; else it
/// is given the next identifier and is not in memory yet.
pub proof fn law_commands_need_a_disk_writer(
    log: &mut SessionEventLog,
    actor: EventActor,
    payload: EventPayload,
    now: u64,
    r: Result<SessionEvent, AppendError>,
)
    requires
        call_ensures(SessionEventLog::append_command, (log, actor, payload, now), r),
    ensures
        r is Ok <==> old(log)@.durable,
        final(log)@.events == old(log)@.events,
        r is Err ==> final(log)@ == old(log)@,
        r is Ok ==> r->Ok_0.id == old(log)@.next_id && r->Ok_0.payload == payload && r->Ok_0.actor
            == actor && r->Ok_0.timestamp_unix_ms == now && r->Ok_0.session_id@
            == old(log)@.session_id,
        r is Ok && old(log)@.next_id < u64::MAX ==> final(log)@.next_id == old(log)@.next_id + 1,
{
}

/// A committed event is the last in memory, and neither it nor a disk writer changes identifiers.
pub proof fn law_committed_events_are_last(
    log: &mut SessionEventLog,
    event: SessionEvent,
    other: &mut SessionEventLog,
)
    requires
        call_ensures(SessionEventLog::commit, (log, event), ()),
        call_ensures(SessionEventLog::attach_disk_writer, (other,), ()),
    ensures
        final(log)@.events == old(log)@.events.push(event),
        final(log)@.next_id == old(log)@.next_id,
        final(log)@.session_id == old(log)@.session_id,
        final(log)@.durable == old(log)@.durable,
        final(other)@.durable,
        final(other)@.events == old(other)@.events,
        final(other)@.next_id == old(other)@.next_id,
{
}

} // verus!
