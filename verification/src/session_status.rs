//! The status of a session, computed from what others keep.
use vstd::prelude::*;

use crate::agent;
use crate::agent::Usage;
use crate::double::Double;
use crate::model_catalog::ModelCatalogConfig;
use crate::pricing;
use crate::pricing::Charge;
use crate::protocol::ProviderStatusKind;

verus! {

/// The status of a session.
#[derive(Debug, Clone, PartialEq)]
pub struct SessionStatus {
    pub session_id: String,
    pub daemon_id: String,
    pub provider_kind: String,
    pub model: String,
    pub phase: String,
    pub phase_elapsed_ms: u64,
    pub input_tokens: u64,
    pub output_tokens: u64,
    /// What the usage is charged as; none if it costs nothing that is known.
    pub cost: Option<Charge>,
    pub ask_count: u32,
    pub tool_call_count: u32,
    pub elapsed_total_ms: u64,
    pub cache_read_tokens: Option<u64>,
    pub cache_creation_tokens: Option<u64>,
    pub context_pressure_pct: Option<Double>,
    pub context_window_size: Option<u64>,
    pub last_call_context_tokens: Option<u64>,
}

/// What a [`SessionStatus`] is computed from.
#[derive(Debug)]
pub struct StatusInputs<'a> {
    pub session_id: &'a str,
    pub daemon_id: &'a str,
    pub provider_kind: &'a str,
    pub model: &'a str,
    pub cumulative_usage: Option<&'a Usage>,
    pub ask_count: u32,
    pub tool_call_count: u32,
    pub elapsed_total_ms: u64,
    pub provider_status: Option<ProviderSnapshot>,
}

/// The state of the provider call in flight.
#[derive(Debug)]
pub struct ProviderSnapshot {
    pub kind: ProviderStatusKind,
    pub started_at_unix_ms: u64,
    pub now_unix_ms: u64,
}

/// The name of a phase.
pub open spec fn phase_view(kind: ProviderStatusKind) -> Seq<char> {
    match kind {
        ProviderStatusKind::Idle => "idle"@,
        ProviderStatusKind::AwaitingFirstToken => "awaiting_first_token"@,
        ProviderStatusKind::Streaming => "streaming"@,
        ProviderStatusKind::Thinking => "thinking"@,
        ProviderStatusKind::ToolExecuting => "tool_executing"@,
        ProviderStatusKind::AwaitingToolResult => "awaiting_tool_result"@,
    }
}

/// The name of a phase.
pub fn phase_name(kind: &ProviderStatusKind) -> (r: &'static str)
    ensures
        r@ == phase_view(*kind),
{
    match kind {
        ProviderStatusKind::Idle => "idle",
        ProviderStatusKind::AwaitingFirstToken => "awaiting_first_token",
        ProviderStatusKind::Streaming => "streaming",
        ProviderStatusKind::Thinking => "thinking",
        ProviderStatusKind::ToolExecuting => "tool_executing",
        ProviderStatusKind::AwaitingToolResult => "awaiting_tool_result",
    }
}

/// The counts of `u` that a status shows and prices.
pub open spec fn shown_usage(u: Option<Usage>) -> Usage {
    match u {
        Some(u) => Usage {
            cache_creation_5m_input_tokens: None,
            cache_creation_1h_input_tokens: None,
            reasoning_tokens: None,
            ..u
        },
        None => Usage::zero(),
    }
}

/// The usage that the inputs carry.
pub open spec fn usage_of(u: Option<&Usage>) -> Option<Usage> {
    match u {
        Some(u) => Some(*u),
        None => None,
    }
}

impl SessionStatus {
    /// The status: idle for no time without a call in flight, all counts zero without usage, and
    /// no charge without a card. The usage sums several requests, so it is charged at the base rate.
    pub fn compute(catalog: &ModelCatalogConfig, inputs: StatusInputs<'_>) -> (r: Self)
        ensures
            r.session_id@ == inputs.session_id@,
            r.daemon_id@ == inputs.daemon_id@,
            r.provider_kind@ == inputs.provider_kind@,
            r.model@ == inputs.model@,
            match inputs.provider_status {
                Some(s) => r.phase@ == phase_view(s.kind) && r.phase_elapsed_ms == (
                if s.now_unix_ms <= s.started_at_unix_ms {
                    0
                } else {
                    s.now_unix_ms - s.started_at_unix_ms
                }),
                None => r.phase@ == "idle"@ && r.phase_elapsed_ms == 0,
            },
            ({
                let u = shown_usage(usage_of(inputs.cumulative_usage));
                &&& r.input_tokens == u.input_tokens
                &&& r.output_tokens == u.output_tokens
                &&& r.cache_read_tokens == u.cache_read_input_tokens
                &&& r.cache_creation_tokens == u.cache_creation_input_tokens
                &&& r.cost == match pricing::card_for(
                    catalog,
                    inputs.provider_kind@,
                    inputs.model@,
                ) {
                    Some(card) => Some(Charge { card, usage: u, per_request: false }),
                    None => None,
                }
            }),
            r.ask_count == inputs.ask_count,
            r.tool_call_count == inputs.tool_call_count,
            r.elapsed_total_ms == inputs.elapsed_total_ms,
            r.context_pressure_pct is None,
            r.context_window_size is None,
            r.last_call_context_tokens is None,
    {
        let (phase, phase_elapsed_ms) = match &inputs.provider_status {
            Some(s) => {
                let elapsed: u64 = s.now_unix_ms.saturating_sub(s.started_at_unix_ms);
                (phase_name(&s.kind).to_owned(), elapsed)
            },
            None => ("idle".to_owned(), 0),
        };
        let mut usage = match inputs.cumulative_usage {
            Some(u) => *u,
            None => Usage::default(),
        };
        usage.cache_creation_5m_input_tokens = None;
        usage.cache_creation_1h_input_tokens = None;
        usage.reasoning_tokens = None;
        let cost = match pricing::for_model_in(catalog, inputs.provider_kind, inputs.model) {
            Some(card) => Some(Charge { card, usage, per_request: false }),
            None => None,
        };
        SessionStatus {
            session_id: inputs.session_id.to_owned(),
            daemon_id: inputs.daemon_id.to_owned(),
            provider_kind: inputs.provider_kind.to_owned(),
            model: inputs.model.to_owned(),
            phase,
            phase_elapsed_ms,
            input_tokens: usage.input_tokens,
            output_tokens: usage.output_tokens,
            cost,
            ask_count: inputs.ask_count,
            tool_call_count: inputs.tool_call_count,
            elapsed_total_ms: inputs.elapsed_total_ms,
            cache_read_tokens: usage.cache_read_input_tokens,
            cache_creation_tokens: usage.cache_creation_input_tokens,
            context_pressure_pct: None,
            context_window_size: None,
            last_call_context_tokens: None,
        }
    }
}

/// A status shows input, output, cache reads and cache writes as they were reported, leaves out the
/// rest, and shows zeros where nothing was reported.
pub proof fn law_statuses_show_what_was_reported(u: Usage)
    ensures
        shown_usage(None) == Usage::zero(),
        forall|k: int|
            0 <= k < 4 ==> #[trigger] agent::count(shown_usage(Some(u)), k) == agent::count(u, k)
                && agent::reports(shown_usage(Some(u)), k) == agent::reports(u, k),
        forall|k: int|
            4 <= k < agent::COUNTS ==> #[trigger] agent::count(shown_usage(Some(u)), k) == 0
                && !agent::reports(shown_usage(Some(u)), k),
        usage_of(Some(&u)) == Some(u),
        usage_of(None) is None,
{
}

/// Every phase has its name.
pub proof fn law_every_phase_has_its_name(kind: ProviderStatusKind)
    ensures
        kind is Idle ==> phase_view(kind) == "idle"@,
        kind is AwaitingFirstToken ==> phase_view(kind) == "awaiting_first_token"@,
        kind is Streaming ==> phase_view(kind) == "streaming"@,
        kind is Thinking ==> phase_view(kind) == "thinking"@,
        kind is ToolExecuting ==> phase_view(kind) == "tool_executing"@,
        kind is AwaitingToolResult ==> phase_view(kind) == "awaiting_tool_result"@,
{
}

/// A status shows the session as it was handed in, the phase of the call in flight and for how long
/// it lasts, and what the reported usage is charged under the card of its provider and model.
pub proof fn law_statuses_show_their_session(
    catalog: &ModelCatalogConfig,
    inputs: StatusInputs<'_>,
    r: SessionStatus,
)
    requires
        call_ensures(SessionStatus::compute, (catalog, inputs), r),
    ensures
        r.session_id@ == inputs.session_id@ && r.daemon_id@ == inputs.daemon_id@,
        r.provider_kind@ == inputs.provider_kind@ && r.model@ == inputs.model@,
        r.ask_count == inputs.ask_count && r.tool_call_count == inputs.tool_call_count
            && r.elapsed_total_ms == inputs.elapsed_total_ms,
        inputs.provider_status is None ==> r.phase@ == "idle"@ && r.phase_elapsed_ms == 0,
        inputs.provider_status matches Some(s) ==> {
            &&& r.phase@ == phase_view(s.kind)
            &&& s.started_at_unix_ms <= s.now_unix_ms ==> s.started_at_unix_ms + r.phase_elapsed_ms
                == s.now_unix_ms
            &&& s.started_at_unix_ms > s.now_unix_ms ==> r.phase_elapsed_ms == 0
        },
        inputs.cumulative_usage matches Some(u) ==> r.input_tokens == agent::count(*u, 0)
            && r.output_tokens == agent::count(*u, 1) && r.cache_read_tokens
            == u.cache_read_input_tokens && r.cache_creation_tokens
            == u.cache_creation_input_tokens,
        inputs.cumulative_usage is None ==> r.input_tokens == 0 && r.output_tokens == 0
            && r.cache_read_tokens is None && r.cache_creation_tokens is None,
        r.cost is Some <==> pricing::card_for(catalog, inputs.provider_kind@, inputs.model@)
            is Some,
        r.cost matches Some(c) ==> !c.per_request && Some(c.card) == pricing::card_for(
            catalog,
            inputs.provider_kind@,
            inputs.model@,
        ) && agent::count(c.usage, 0) == r.input_tokens && agent::count(c.usage, 1)
            == r.output_tokens && c.usage.cache_read_input_tokens == r.cache_read_tokens
            && c.usage.cache_creation_input_tokens == r.cache_creation_tokens,
        r.context_pressure_pct is None && r.context_window_size is None
            && r.last_call_context_tokens is None,
{
}

} // verus!
