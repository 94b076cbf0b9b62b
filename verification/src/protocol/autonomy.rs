//! Wire types of autonomous session runs.
use vstd::prelude::*;

verus! {

/// Request to put `session_id` into autonomous mode with `goal` and bounds in `options`.
#[derive(Debug, Clone, PartialEq)]
pub struct StartAutonomousRequest {
    pub session_id: String,
    pub goal: String,
    pub options: AutonomyOptions,
}

impl StartAutonomousRequest {
    pub const METHOD: &'static str = "session.start_autonomous";
}

#[derive(Debug, Clone, PartialEq)]
pub struct StartAutonomousResponse {
    pub accepted: bool,
}

/// Per-call autonomy preferences.
#[derive(Debug, Clone, Default, PartialEq, Eq)]
pub struct AutonomyOptions {
    /// Soft cap on iterations.
    pub max_iterations: Option<u32>,
    /// How often to run the goal-check.
    pub goal_check_interval: Option<u32>,
    /// How the loop decides it's done.
    pub goal_check_method: Option<GoalCheckMethod>,
    /// If no progress (no tool call, no streaming) for this long, emit `session.input_required` to
    /// ask the human for guidance.
    pub escalate_on_idle_after_ms: Option<u64>,
}

/// How an autonomous loop decides whether the goal is met.
#[derive(Debug, Clone, PartialEq, Eq)]
pub enum GoalCheckMethod {
    /// Agent emits `session.callout { kind: "goal_status", body: { satisfied: bool, reason: String
    /// } }` at end of each iteration; loop terminates when satisfied: true.
    SelfReport,
    /// Between iterations, ask a sibling/delegate session to grade.
    DelegateGrader {
        grader_session_id: String,
        grader_prompt_template: String,
    },
    /// Wait for a `session.external_signal` notification with matching `signal_name`.
    ExternalSignal { signal_name: String },
}

/// Outcome of one autonomous iteration, recorded in the event log and surfaced via
/// `session.autonomous_iteration_completed`.
#[derive(Debug, Clone, PartialEq, Eq)]
pub enum AutonomousIterationOutcome {
    /// Goal not yet met; loop continues to the next iteration.
    Continue,
    /// Goal met; loop terminates with `AutonomousTerminated { reason: GoalMet }` next.
    GoalMet { detail: String },
    /// Iteration failed (e.g. tool error, grader timeout).
    IterationError { message: String },
    /// Escalation tripped: the loop emitted `session.input_required` and is awaiting a human
    /// response.
    EscalatingToHuman,
}

/// Why the autonomous loop terminated.
#[derive(Debug, Clone, PartialEq, Eq)]
pub enum AutonomousTerminationReason {
    GoalMet {
        detail: String,
    },
    IterationCap,
    WallClockExpired,
    ToolCallCapExhausted,
    EscalationTimedOut,
    GraderRejected {
        detail: String,
    },
    /// Externally cancelled via session.cancel_outstanding or session.cancel_session.
    Cancelled,
    /// Provider or tool error mid-loop that wasn't recoverable.
    Errored {
        message: String,
    },
}

/// Request to park the session for `sleep_for_ms` (or until `wake_at_unix_ms`).
#[derive(Debug, Clone, PartialEq)]
pub struct ScheduleWakeupRequest {
    pub session_id: String,
    pub wake_at_unix_ms: Option<u64>,
    pub sleep_for_ms: Option<u64>,
    /// Free-form reason.
    pub reason: String,
}

impl ScheduleWakeupRequest {
    pub const METHOD: &'static str = "session.schedule_wakeup";
}

#[derive(Debug, Clone, PartialEq)]
pub struct ScheduleWakeupResponse {
    pub accepted: bool,
    pub scheduled_for_unix_ms: u64,
}

/// `session.autonomous_iteration_started` notification.
#[derive(Debug, Clone, PartialEq)]
pub struct AutonomousIterationStartedEvent {
    pub session_id: String,
    pub iteration: u32,
    pub motivation: String,
}

impl AutonomousIterationStartedEvent {
    pub const METHOD: &'static str = "session.autonomous_iteration_started";
}

/// `session.autonomous_iteration_completed` notification.
#[derive(Debug, Clone, PartialEq)]
pub struct AutonomousIterationCompletedEvent {
    pub session_id: String,
    pub iteration: u32,
    pub outcome: AutonomousIterationOutcome,
}

impl AutonomousIterationCompletedEvent {
    pub const METHOD: &'static str = "session.autonomous_iteration_completed";
}

/// `session.autonomous_scheduled_wakeup` notification.
#[derive(Debug, Clone, PartialEq, Eq)]
pub struct AutonomousScheduledWakeupEvent {
    pub session_id: String,
    pub wake_at_unix_ms: u64,
    pub reason: String,
}

impl AutonomousScheduledWakeupEvent {
    pub const METHOD: &'static str = "session.autonomous_scheduled_wakeup";
}

/// `session.autonomous_terminated` notification.
#[derive(Debug, Clone, PartialEq)]
pub struct AutonomousTerminatedEvent {
    pub session_id: String,
    pub reason: AutonomousTerminationReason,
}

impl AutonomousTerminatedEvent {
    pub const METHOD: &'static str = "session.autonomous_terminated";
}

} // verus!
