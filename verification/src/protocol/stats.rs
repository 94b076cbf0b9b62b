//! Wire types of daemon statistics.
use vstd::prelude::*;

use crate::protocol::events::ProviderStatusKind;

verus! {

#[derive(Debug, Clone, Default, PartialEq)]
pub struct DaemonStatsRequest {}

impl DaemonStatsRequest {
    pub const METHOD: &'static str = "daemon.stats";
}

#[derive(Debug, Clone, PartialEq)]
pub struct DaemonStatsResponse {
    pub daemon_id: String,
    pub version: String,
    pub started_at_unix_ms: u64,
    pub uptime_ms: u64,
    pub session_count: u32,
    pub active_session_count: u32,
    pub total_events: u64,
    pub total_tool_calls: u64,
    pub total_input_tokens: u64,
    pub total_output_tokens: u64,
    /// Number of sessions whose derived status is one of {Asking, Streaming, ToolExecuting}.
    pub in_flight_calls_count: u32,
}

/// Roll up per-call timing and token usage across sessions, grouped by (provider, model,
/// time-bucket).
#[derive(Debug, Clone, Default, PartialEq)]
pub struct DaemonUsageHistoryRequest {
    /// Lower bound on `SessionCreated.timestamp_unix_ms` (inclusive).
    pub since_unix_ms: Option<u64>,
    /// Upper bound on `SessionCreated.timestamp_unix_ms` (exclusive).
    pub until_unix_ms: Option<u64>,
    /// Bucket size in milliseconds.
    pub time_bucket_ms: Option<u64>,
}

impl DaemonUsageHistoryRequest {
    pub const METHOD: &'static str = "daemon.usage_history";
}

#[derive(Debug, Clone, PartialEq)]
pub struct DaemonUsageHistoryResponse {
    pub rows: Vec<UsageHistoryRow>,
    /// Number of sessions considered before grouping.
    pub session_count_total: u32,
    pub snapshot_at_unix_ms: u64,
}

/// One row of the usage-history projection.
#[derive(Debug, Clone, PartialEq)]
pub struct UsageHistoryRow {
    pub provider_kind: String,
    pub model: String,
    /// Floor(started_at / time_bucket_ms) * time_bucket_ms.
    pub bucket_start_unix_ms: u64,
    pub session_count: u32,
    /// Time-to-first-token distribution.
    pub ttft_ms: Option<PercentileStats>,
    /// Streaming-state duration distribution.
    pub streaming_ms: Option<PercentileStats>,
    /// AssistantMessageEvent.ts - ContextAssembly.ts per model_call.
    pub model_call_latency_ms: Option<PercentileStats>,
    pub tool_total_ms: PercentileStats,
    pub wall_ms: PercentileStats,
    pub input_tokens_sum: u64,
    pub output_tokens_sum: u64,
    pub cache_read_input_tokens_sum: u64,
    pub cache_creation_input_tokens_sum: u64,
    pub reasoning_tokens_sum: u64,
    pub tool_call_count_sum: u64,
    pub error_count: u32,
}

/// Median + p95 of a sample of u64 millisecond values.
#[derive(Debug, Clone, Copy, PartialEq, Eq)]
pub struct PercentileStats {
    pub median: u64,
    pub p95: u64,
    pub count: u32,
}

/// One outstanding provider call across the daemon, as returned by `daemon.outstanding_calls`.
#[derive(Debug, Clone, PartialEq)]
pub struct OutstandingCall {
    pub session_id: String,
    pub kind: ProviderStatusKind,
    pub provider_kind: String,
    pub model: String,
    pub started_at_unix_ms: u64,
    pub elapsed_ms: u64,
}

#[derive(Debug, Clone, Default, PartialEq)]
pub struct DaemonOutstandingCallsRequest {}

impl DaemonOutstandingCallsRequest {
    pub const METHOD: &'static str = "daemon.outstanding_calls";
}

#[derive(Debug, Clone, PartialEq)]
pub struct DaemonOutstandingCallsResponse {
    pub calls: Vec<OutstandingCall>,
    pub snapshot_at_unix_ms: u64,
}

} // verus!
