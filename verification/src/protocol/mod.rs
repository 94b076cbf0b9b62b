//! The JSON-RPC wire surface.

pub mod auth;
pub mod autonomy;
pub mod discovery;
pub mod events;
pub mod jsonrpc;
pub mod mailbox;
pub mod session;
pub mod stats;

pub use auth::{AuthDenialCode, AuthExchangeResponse, AuthInitiateRequest, AuthMechanism, AuthOfferRequest, AuthOfferResponse, AuthResponseRequest};
pub use autonomy::{AutonomousIterationCompletedEvent, AutonomousIterationOutcome, AutonomousIterationStartedEvent, AutonomousScheduledWakeupEvent, AutonomousTerminatedEvent, AutonomousTerminationReason, AutonomyOptions, GoalCheckMethod, ScheduleWakeupRequest, ScheduleWakeupResponse, StartAutonomousRequest, StartAutonomousResponse};
pub use discovery::{CapabilitiesDiscoverRequest, CapabilitiesDiscoverResponse};
pub use events::{ApprovalDecision, AssistantTextFinalizedEvent, CalloutBody, CalloutEvent, DoneEvent, ErrorEvent, InputRequiredEvent, ProviderStatusEvent, ProviderStatusKind, TextDeltaEvent, ToolCallCompletedEvent, ToolCallStartedEvent, ToolOutcome};
pub use jsonrpc::{ErrorObject, JSONRPC_VERSION, Notification, PingRequest, PingResponse, Request, Response};
pub use mailbox::{MailboxConsumeRequest, MailboxConsumeResponse, MailboxListRequest, MailboxListResponse, MailboxMessageEvent, MailboxMessageView, MailboxPostRequest, MailboxPostResponse, MailboxReadRequest, MailboxReadResponse, PeerHelloRequest, PeerHelloResponse, PeerIdentity, PeerOriginIdentity, PeerWant};
pub use session::{AskSessionRequest, AskSessionResponse, CancelOutstandingRequest, CancelOutstandingResponse, CancelSessionRequest, CancelSessionResponse, CloseSessionRequest, CloseSessionResponse, ConfigApplied, ConfigEntry, ConfigRejected, CreateSessionRequest, CreateSessionResponse, DelegateSessionRequest, DelegateSessionResponse, GetConfigRequest, GetConfigResponse, ProviderSelector, RespondToInputRequiredRequest, RespondToInputRequiredResponse, ResumeSessionRequest, ResumeSessionResponse, SessionEventsRequest, SessionEventsResponse, SessionInfo, SessionListFilter, SessionListRequest, SessionListResponse, SessionRef, SessionStatsRequest, SessionStatsResponse, SessionStatusSummary, SetConfigRequest, SetConfigResponse, SetRouteRequest, SetRouteResponse, SpawnWorkerRequest, SpawnWorkerResponse, WorkerStatus};
pub use stats::{DaemonOutstandingCallsRequest, DaemonOutstandingCallsResponse, DaemonStatsRequest, DaemonStatsResponse, DaemonUsageHistoryRequest, DaemonUsageHistoryResponse, OutstandingCall, PercentileStats, UsageHistoryRow};
