//! Notification payloads from daemon to frontend.
use vstd::prelude::*;

use crate::agent::{StopReason, Usage};

verus! {

#[derive(Debug, Clone, Copy, PartialEq, Eq)]
pub enum ApprovalDecision {
    Approve,
    Deny,
}

/// Provider-call lifecycle states surfaced to clients.
#[derive(Debug, Clone, Copy, PartialEq, Eq)]
pub enum ProviderStatusKind {
    Idle,
    AwaitingFirstToken,
    Streaming,
    Thinking,
    ToolExecuting,
    AwaitingToolResult,
}

/// `session.provider_status` notification payload.
#[derive(Debug, Clone, PartialEq)]
pub struct ProviderStatusEvent {
    pub session_id: String,
    pub kind: ProviderStatusKind,
    /// Unix milliseconds when the session entered this kind.
    pub started_at_unix_ms: u64,
    /// Milliseconds since `started_at_unix_ms`.
    pub elapsed_ms: u64,
    /// Bytes received from the provider's SSE stream so far (cumulative for this turn).
    pub bytes_received: Option<u64>,
    /// Set only when `kind` is ToolExecuting or AwaitingToolResult.
    pub tool_call_id: Option<String>,
}

impl ProviderStatusEvent {
    pub const METHOD: &'static str = "session.provider_status";
}

#[derive(Debug, Clone, PartialEq)]
pub struct TextDeltaEvent {
    pub session_id: String,
    pub delta: String,
}

impl TextDeltaEvent {
    pub const METHOD: &'static str = "session.text_delta";
}

#[derive(Debug, Clone, PartialEq)]
pub struct AssistantTextFinalizedEvent {
    pub session_id: String,
    /// The final assembled text from the assistant message.
    pub text: String,
}

impl AssistantTextFinalizedEvent {
    pub const METHOD: &'static str = "session.assistant_text_finalized";
}

#[derive(Debug, Clone, PartialEq)]
pub struct ToolCallStartedEvent {
    pub session_id: String,
    pub tool_call_id: String,
    pub tool_name: String,
    pub arguments: String,
}

impl ToolCallStartedEvent {
    pub const METHOD: &'static str = "session.tool_call_started";
}

#[derive(Debug, Clone, PartialEq)]
pub struct ToolCallCompletedEvent {
    pub session_id: String,
    pub tool_call_id: String,
    /// `Ok(result)` or `Err(message)`: both shapes serialize as a tagged enum so the frontend can
    /// render them differently.
    pub outcome: ToolOutcome,
}

#[derive(Debug, Clone, PartialEq)]
pub enum ToolOutcome {
    Success { result: String },
    Failure { message: String },
}

impl ToolCallCompletedEvent {
    pub const METHOD: &'static str = "session.tool_call_completed";
}

#[derive(Debug, Clone, PartialEq)]
pub struct DoneEvent {
    pub session_id: String,
    pub stop_reason: StopReason,
    /// Aggregated token usage across this ask_session's turns.
    pub usage: Option<Usage>,
    /// Wall time from the first turn's start to this Done emit, in milliseconds.
    pub elapsed_ms: Option<u64>,
}

impl DoneEvent {
    pub const METHOD: &'static str = "session.done";
}

#[derive(Debug, Clone, PartialEq)]
pub struct ErrorEvent {
    pub session_id: String,
    pub message: String,
    pub detail: Option<String>,
}

impl ErrorEvent {
    pub const METHOD: &'static str = "session.error";
}

#[derive(Debug, Clone, PartialEq)]
pub struct InputRequiredEvent {
    pub session_id: String,
    /// Token to match in the corresponding response.
    pub request_id: String,
    pub tool_call_id: String,
    pub tool_name: String,
    pub arguments: String,
    /// Why the agent is asking: typically just a short summary of the tool + arguments rendered for
    /// the human.
    pub summary: String,
}

impl InputRequiredEvent {
    pub const METHOD: &'static str = "session.input_required";
}

/// Catch-all "the agent has something notable to say" notification.
#[derive(Debug, Clone, PartialEq)]
pub struct CalloutEvent {
    pub session_id: String,
    pub kind: String,
    pub title: String,
    pub body: CalloutBody,
    pub theme: Option<String>,
    pub context_refs: Vec<String>,
}

/// `CalloutEvent.body` shape.
#[derive(Debug, Clone, PartialEq)]
pub enum CalloutBody {
    Text(String),
    Structured(String),
}

impl CalloutEvent {
    pub const METHOD: &'static str = "session.callout";
}

} // verus!
