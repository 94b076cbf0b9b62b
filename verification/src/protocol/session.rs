//! Wire types of the session lifecycle.
use vstd::prelude::*;

use crate::agent::{SideEffects, Usage};
use crate::capability::{AutonomyCapability, CapabilityAttenuations};
use crate::context::CacheTtl;
use crate::text;
use crate::protocol::events::{ApprovalDecision, ProviderStatusKind};

verus! {

#[derive(Debug, Clone, PartialEq)]
pub struct CreateSessionRequest {
    pub provider: ProviderSelector,
    /// Optional system prompt override.
    pub system_prompt: Option<String>,
    /// Operator's working directory at the time of session creation.
    pub cwd: Option<String>,
    pub cache_ttl: Option<CacheTtl>,
    /// Autonomy grant for this root session.
    pub autonomy: Option<AutonomyCapability>,
    /// The side-effects CEILING for this root session: the posture an operator's "read only" binds
    /// to.
    pub max_side_effects: Option<SideEffects>,
    /// Cap on assistant-message turns.
    pub max_turns: Option<u32>,
    pub effort: Option<String>,
}

impl CreateSessionRequest {
    pub const METHOD: &'static str = "create_session";
}

#[derive(Debug, Clone, PartialEq)]
pub struct CreateSessionResponse {
    pub session_id: String,
    /// The daemon-resolved reasoning-effort vocabulary for the session's route.
    pub valid_effort_levels: Option<Vec<String>>,
    /// Daemon-resolved default effort for the route, when the catalog declares one.
    pub default_effort: Option<String>,
}

/// Provider selection at session-create time.
#[derive(Debug, Clone, PartialEq)]
pub enum ProviderSelector {
    AnthropicApi {
        model: String,
    },
    AnthropicOauth {
        model: String,
    },
    OpenaiApi {
        model: String,
    },
    OpenaiCodex {
        model: String,
    },
    Openrouter {
        model: String,
    },
    /// Local vLLM/OpenAI-compatible server.
    Vllm {
        model: String,
    },
    /// Local ollama server (OpenAI-compatible).
    Ollama {
        model: String,
    },
}

#[derive(Debug, Clone, PartialEq)]
pub struct AskSessionRequest {
    pub session_id: String,
    pub user_message: String,
    /// Per-turn reasoning-effort selection (`/effort`).
    pub effort: Option<String>,
}

impl AskSessionRequest {
    pub const METHOD: &'static str = "ask_session";
}

#[derive(Debug, Clone, PartialEq)]
pub struct AskSessionResponse {
    /// Acknowledgement that the request was accepted; the actual content is delivered via
    /// `session.*` notifications.
    pub accepted: bool,
}

#[derive(Debug, Clone, PartialEq)]
pub struct CancelSessionRequest {
    pub session_id: String,
}

impl CancelSessionRequest {
    pub const METHOD: &'static str = "cancel_session";
}

#[derive(Debug, Clone, PartialEq)]
pub struct CancelSessionResponse {
    pub cancelled: bool,
}

#[derive(Debug, Clone, PartialEq)]
pub struct CloseSessionRequest {
    pub session_id: String,
}

impl CloseSessionRequest {
    pub const METHOD: &'static str = "close_session";
}

#[derive(Debug, Clone, PartialEq)]
pub struct CloseSessionResponse {
    pub closed: bool,
}

/// Query a session's running totals.
#[derive(Debug, Clone, PartialEq)]
pub struct SessionStatsRequest {
    pub session_id: String,
}

impl SessionStatsRequest {
    pub const METHOD: &'static str = "session.stats";
}

#[derive(Debug, Clone, PartialEq)]
pub struct SessionStatsResponse {
    pub session_id: String,
    /// Provider kind from the wire protocol (e.g. "openai_codex").
    pub provider_kind: Option<String>,
    pub model: Option<String>,
    /// Unix ms of the first event (typically SessionCreated).
    pub started_at_unix_ms: Option<u64>,
    /// Unix ms of the most recent event.
    pub last_activity_unix_ms: Option<u64>,
    /// Total event count in the log.
    pub event_count: u32,
    /// Number of completed ask_session round-trips.
    pub ask_count: u32,
    /// Sum of Done.turn_count across all asks.
    pub total_turn_count: u32,
    pub tool_call_count: u32,
    /// Sum of Done.elapsed_ms across all asks.
    pub elapsed_total_ms: u64,
    /// Aggregated usage across all asks.
    pub usage: Option<Usage>,
}

/// Filter for `session.list`.
#[derive(Debug, Clone, Default, PartialEq)]
pub struct SessionListFilter {
    /// Include sessions from peer daemons (requires a federating SessionDiscovery backend like
    /// FileBackend or EtcdBackend).
    pub include_remote: bool,
    /// Only sessions whose parent_session_id matches.
    pub parent_session_id: Option<String>,
    /// Only sessions in the given status.
    pub status: Option<SessionStatusSummary>,
    /// Only sessions with last_activity_unix_ms >= this.
    pub active_since_unix_ms: Option<u64>,
    /// Cap response size.
    pub limit: Option<u32>,
}

/// Derived summary of where a session is in its lifecycle.
#[derive(Debug, Clone, Copy, PartialEq, Eq)]
pub enum SessionStatusSummary {
    /// No ask in flight; last event was Done/SessionClosed or the log is empty.
    Idle,
    /// User message arrived; model call may or may not have started.
    Asking,
    /// Model is producing text (text_delta-style activity within the last ~5s).
    Streaming,
    /// A tool call is in flight (started but not yet completed).
    ToolExecuting,
    /// A session.input_required notification is outstanding; the session is blocked on a client
    /// approve/deny.
    AwaitingInputRequired,
    /// Last completed ask ended cleanly.
    Done,
    /// Last event was Error.
    Errored,
}

#[derive(Debug, Clone, PartialEq)]
pub struct SessionInfo {
    pub session_id: String,
    /// Stable per-daemon identifier (UUID generated at startup).
    pub daemon_id: String,
    /// True iff this session is in a peer daemon (only ever true with include_remote + a federating
    /// backend).
    pub is_remote: bool,
    pub parent_session_id: Option<String>,
    pub provider_kind: String,
    pub model: String,
    pub status: SessionStatusSummary,
    pub started_at_unix_ms: u64,
    pub last_activity_unix_ms: u64,
    pub ask_count: u32,
    pub tool_call_count: u32,
    pub cumulative_usage: Option<Usage>,
}

#[derive(Debug, Clone, PartialEq)]
pub struct SessionListRequest {
    pub filter: Option<SessionListFilter>,
}

impl SessionListRequest {
    pub const METHOD: &'static str = "session.list";
}

#[derive(Debug, Clone, PartialEq)]
pub struct SessionListResponse {
    pub sessions: Vec<SessionInfo>,
    pub snapshot_at_unix_ms: u64,
    /// Set when `include_remote=true` and one or more peer daemons failed to respond.
    pub failed_peers: Vec<String>,
}

#[derive(Debug, Clone, PartialEq)]
pub struct SessionEventsRequest {
    pub session_id: String,
    /// Resume cursor from a prior page.
    pub after_event_id: Option<u64>,
    /// Cap response size.
    pub limit: Option<u32>,
    pub kinds_filter: Vec<String>,
}

impl SessionEventsRequest {
    pub const METHOD: &'static str = "session.events";
}

#[derive(Debug, Clone, PartialEq)]
pub struct SessionEventsResponse {
    pub events: Vec<String>,
    /// Cursor for the next page.
    pub next_event_id: Option<u64>,
    pub end_of_log: bool,
}

/// Cancel the **outstanding provider call** for a session without ending the session itself.
#[derive(Debug, Clone, PartialEq)]
pub struct CancelOutstandingRequest {
    pub session_id: String,
    /// Free-form reason for the cancel.
    pub reason: Option<String>,
}

impl CancelOutstandingRequest {
    pub const METHOD: &'static str = "session.cancel_outstanding";
}

#[derive(Debug, Clone, PartialEq)]
pub struct CancelOutstandingResponse {
    /// True iff a provider call was actually in flight at the time of the request.
    pub canceled: bool,
    pub was_in: ProviderStatusKind,
}

/// Create a new "child" session that's lineage-aware of `parent_session_id`.
#[derive(Debug, Clone, PartialEq)]
pub struct DelegateSessionRequest {
    pub parent_session_id: String,
    /// Provider for the child.
    pub provider: ProviderSelector,
    /// Optional: which event in the parent's log this branched from.
    pub branched_at_parent_event_id: Option<u64>,
    /// Optional capability attenuations.
    pub attenuations: Option<CapabilityAttenuations>,
    /// Child session's working directory.
    pub cwd: Option<String>,
}

impl DelegateSessionRequest {
    pub const METHOD: &'static str = "session.delegate";
}

#[derive(Debug, Clone, PartialEq)]
pub struct DelegateSessionResponse {
    pub child_session_id: String,
}

/// A parsed reference to a session, addressing it by daemon + session.
#[derive(Debug, Clone, PartialEq, Eq)]
pub struct SessionRef {
    pub daemon: String,
    pub session: String,
}

/// The canonical text of a reference.
pub open spec fn canonical(daemon: Seq<char>, session: Seq<char>) -> Seq<char> {
    "mu:"@ + daemon + "/"@ + session
}

/// The error for the reference text `s` with the explanation `why`.
pub open spec fn ref_error(s: Seq<char>, why: Seq<char>) -> Seq<char> {
    "invalid session ref `"@ + s + why
}

/// The two parts of the reference text `s`, or why it is none.
pub open spec fn ref_parts(s: Seq<char>) -> Result<(Seq<char>, Seq<char>), Seq<char>> {
    let t = text::trim_view(s);
    let is_canonical = text::has_prefix(t, "mu:"@);
    let split = if is_canonical {
        text::split_once_view(t.skip("mu:"@.len() as int), '/')
    } else {
        text::split_once_view(t, ':')
    };
    match split {
        None => Err(
            ref_error(
                t,
                if is_canonical {
                    "`: canonical form is `mu:<daemon>/<session>`"@
                } else {
                    "`: expected `daemon:session` or canonical `mu:<daemon>/<session>`"@
                },
            ),
        ),
        Some((daemon, session)) => if daemon.len() == 0 || session.len() == 0 {
            Err(ref_error(t, "`: both daemon and session are required"@))
        } else {
            Ok((daemon, session))
        },
    }
}

fn make_ref_error(s: &str, why: &str) -> (r: String)
    ensures
        r@ == ref_error(s@, why@),
{
    "invalid session ref `".to_owned().concat(s).concat(why)
}

impl SessionRef {
    /// Parses `daemon:session` or `mu:<daemon>/<session>`. White space around it is disregarded.
    pub fn parse(s: &str) -> (r: Result<SessionRef, String>)
        ensures
            match r {
                Ok(p) => ref_parts(s@) == Ok::<(Seq<char>, Seq<char>), Seq<char>>(
                    (p.daemon@, p.session@),
                ),
                Err(e) => ref_parts(s@) == Err::<(Seq<char>, Seq<char>), Seq<char>>(e@),
            },
    {
        let s = text::trim(s);
        let split = match text::strip_prefix(s, "mu:") {
            Some(rest) => match text::split_once(rest, '/') {
                Some(split) => split,
                None => {
                    return Err(
                        make_ref_error(s, "`: canonical form is `mu:<daemon>/<session>`"),
                    );
                },
            },
            None => match text::split_once(s, ':') {
                Some(split) => split,
                None => {
                    return Err(
                        make_ref_error(
                            s,
                            "`: expected `daemon:session` or canonical `mu:<daemon>/<session>`",
                        ),
                    );
                },
            },
        };
        let (daemon, session) = split;
        if daemon.unicode_len() == 0 || session.unicode_len() == 0 {
            return Err(make_ref_error(s, "`: both daemon and session are required"));
        }
        Ok(SessionRef { daemon: daemon.to_owned(), session: session.to_owned() })
    }

    /// The reference in the form `mu:<daemon>/<session>`.
    pub fn to_canonical(&self) -> (r: String)
        ensures
            r@ == canonical(self.daemon@, self.session@),
    {
        "mu:".to_owned().concat(&self.daemon).concat("/").concat(&self.session)
    }
}

/// The session part of a parsed reference does not end in white space.
proof fn lemma_session_end(s: Seq<char>, daemon: Seq<char>, session: Seq<char>)
    requires
        ref_parts(s) == Ok::<(Seq<char>, Seq<char>), Seq<char>>((daemon, session)),
    ensures
        daemon.len() > 0,
        session.len() > 0,
        !text::is_white_space(session.last()),
{
    let t = text::trim_view(s);
    text::lemma_trimmed_end(s);
    let rest = if text::has_prefix(t, "mu:"@) {
        t.skip("mu:"@.len() as int)
    } else {
        t
    };
    let c = if text::has_prefix(t, "mu:"@) {
        '/'
    } else {
        ':'
    };
    text::lemma_first_index_is(rest, c);
    let at = text::first_index(rest, c)->0;
    assert(session == rest.skip(at + 1));
    assert(session.last() == t.last());
}

/// What a canonical text is parsed to.
proof fn lemma_canonical_parts(daemon: Seq<char>, session: Seq<char>)
    requires
        daemon.len() > 0,
        session.len() > 0,
        !text::is_white_space(session.last()),
        !daemon.contains('/'),
    ensures
        ref_parts(canonical(daemon, session)) == Ok::<(Seq<char>, Seq<char>), Seq<char>>(
            (daemon, session),
        ),
{
    reveal_strlit("mu:");
    reveal_strlit("/");
    let full = canonical(daemon, session);
    assert(full[0] == 'm');
    assert(full.last() == session.last());
    text::lemma_trim_nothing(full);
    assert(full.take(3) =~= "mu:"@);
    let inner = full.skip(3);
    assert(inner =~= daemon + "/"@ + session);
    assert(inner[daemon.len() as int] == '/');
    assert forall|j: int| 0 <= j < daemon.len() implies inner[j] != '/' by {
        assert(inner[j] == daemon[j]);
    }
    text::lemma_first_index(inner, '/', daemon.len() as int);
    assert(inner.take(daemon.len() as int) =~= daemon);
    assert(inner.skip(daemon.len() as int + 1) =~= session);
}

/// A parsed reference whose daemon part holds no slash is parsed again from its canonical text.
pub proof fn law_canonical_round_trips(s: Seq<char>, daemon: Seq<char>, session: Seq<char>)
    requires
        ref_parts(s) == Ok::<(Seq<char>, Seq<char>), Seq<char>>((daemon, session)),
        !daemon.contains('/'),
    ensures
        ref_parts(canonical(daemon, session)) == Ok::<(Seq<char>, Seq<char>), Seq<char>>(
            (daemon, session),
        ),
{
    lemma_session_end(s, daemon, session);
    lemma_canonical_parts(daemon, session);
}

/// `session.resume`: STRICT fork-at-tail.
#[derive(Debug, Clone, PartialEq)]
pub struct ResumeSessionRequest {
    pub session_ref: String,
    /// Provider for the resumed (live) session.
    pub provider: ProviderSelector,
    /// Optional capability attenuations for the resumed session.
    pub attenuations: Option<CapabilityAttenuations>,
    /// Working directory for the resumed session (same semantics as `CreateSessionRequest::cwd`).
    pub cwd: Option<String>,
    /// Actor requesting the resume (operator / agent id).
    pub actor: Option<String>,
}

impl ResumeSessionRequest {
    pub const METHOD: &'static str = "session.resume";
}

#[derive(Debug, Clone, PartialEq)]
pub struct ResumeSessionResponse {
    /// The new live session's id.
    pub session_id: String,
    /// The predecessor session id that was forked from.
    pub predecessor_session_id: String,
    /// The event id in the predecessor's log this forked at (the clean boundary).
    pub branched_at_event_id: Option<u64>,
    /// Number of messages seeded into the resumed session from the continuation projection.
    pub seeded_message_count: usize,
}

/// Respond to an outstanding `session.input_required` notification.
#[derive(Debug, Clone, PartialEq)]
pub struct RespondToInputRequiredRequest {
    pub session_id: String,
    pub request_id: String,
    pub decision: ApprovalDecision,
}

impl RespondToInputRequiredRequest {
    pub const METHOD: &'static str = "session.respond_to_input_required";
}

#[derive(Debug, Clone, PartialEq)]
pub struct RespondToInputRequiredResponse {
    /// True if the daemon found the pending request and relayed the decision.
    pub accepted: bool,
}

/// Switch provider+model on an existing session between turns.
#[derive(Debug, Clone, PartialEq)]
pub struct SetRouteRequest {
    pub session_id: String,
    pub provider: ProviderSelector,
    pub catalog_hash: Option<String>,
}

impl SetRouteRequest {
    pub const METHOD: &'static str = "session.set_route";
}

#[derive(Debug, Clone, PartialEq)]
pub struct SetRouteResponse {
    pub provider_kind: String,
    pub model: String,
    pub valid_effort_levels: Option<Vec<String>>,
    /// Daemon-resolved default effort for the new route.
    pub default_effort: Option<String>,
}

/// Read named config keys.
#[derive(Debug, Clone, PartialEq)]
pub struct GetConfigRequest {
    pub session_id: String,
    pub keys: Vec<String>,
}

impl GetConfigRequest {
    pub const METHOD: &'static str = "session.get_config";
    /// Explicit sentinel for "the whole readable config".
    pub const ALL: &'static str = "*";
}

/// The requested keys and their current values: never more than asked.
#[derive(Debug, Clone, PartialEq)]
pub struct GetConfigResponse {
    pub values: Vec<(String, String)>,
}

/// One `key to value` assignment in a `SetConfigRequest`.
#[derive(Debug, Clone, PartialEq)]
pub struct ConfigEntry {
    pub key: String,
    pub value: String,
}

/// Write named config keys.
#[derive(Debug, Clone, PartialEq)]
pub struct SetConfigRequest {
    pub session_id: String,
    pub entries: Vec<ConfigEntry>,
}

impl SetConfigRequest {
    pub const METHOD: &'static str = "session.set_config";
}

/// One successfully-applied key, with its effective (possibly normalized) value.
#[derive(Debug, Clone, PartialEq)]
pub struct ConfigApplied {
    pub key: String,
    pub value: String,
}

/// One rejected key, with a human-readable reason: unknown key, validation failure, read-only key.
#[derive(Debug, Clone, PartialEq)]
pub struct ConfigRejected {
    pub key: String,
    pub reason: String,
}

#[derive(Debug, Clone, PartialEq)]
pub struct SetConfigResponse {
    pub applied: Vec<ConfigApplied>,
    pub rejected: Vec<ConfigRejected>,
}

#[derive(Debug, Clone, PartialEq)]
pub struct SpawnWorkerRequest {
    pub prompt: String,
    pub provider: Option<String>,
    pub model: Option<String>,
    pub pot_name: Option<String>,
    pub pot_template: Option<String>,
    pub timeout_secs: Option<u64>,
    pub parent_session_id: Option<String>,
}

impl SpawnWorkerRequest {
    pub const METHOD: &'static str = "session.spawn_worker";
}

#[derive(Debug, Clone, PartialEq)]
pub struct SpawnWorkerResponse {
    pub session_id: String,
    pub pot_name: String,
}

#[derive(Debug, Clone, PartialEq)]
pub enum WorkerStatus {
    Spawning,
    Running,
    Done { exit_code: i32, elapsed_ms: u64 },
    Failed { reason: String },
}

/// The short form is read as what stands before its first colon and what stands behind it, the
/// canonical form as what stands before and behind its first slash, and white space around either
/// does not count.
pub proof fn law_references_are_read_in_both_forms(
    before: Seq<char>,
    daemon: Seq<char>,
    session: Seq<char>,
    after: Seq<char>,
)
    requires
        forall|i: int| 0 <= i < before.len() ==> text::is_white_space(#[trigger] before[i]),
        forall|i: int| 0 <= i < after.len() ==> text::is_white_space(#[trigger] after[i]),
        daemon.len() > 0,
        session.len() > 0,
        !text::is_white_space(session.last()),
    ensures
        !daemon.contains('/') ==> ref_parts(before + canonical(daemon, session) + after) == Ok::<
            (Seq<char>, Seq<char>),
            Seq<char>,
        >((daemon, session)),
        !text::is_white_space(daemon[0]) && !daemon.contains(':') && daemon != seq!['m', 'u']
            ==> ref_parts(before + (daemon.push(':') + session) + after) == Ok::<
            (Seq<char>, Seq<char>),
            Seq<char>,
        >((daemon, session)),
{
    if !daemon.contains('/') {
        let full = canonical(daemon, session);
        assert(full[0] == 'm') by {
            reveal_strlit("mu:");
        }
        assert(full.last() == session.last());
        lemma_canonical_parts(daemon, session);
        lemma_white_space_does_not_count(before, full, after);
    }
    if !text::is_white_space(daemon[0]) && !daemon.contains(':') && daemon != seq!['m', 'u'] {
        let short = daemon.push(':') + session;
        assert(short[0] == daemon[0]);
        assert(short.last() == session.last());
        lemma_short_parts(daemon, session);
        lemma_white_space_does_not_count(before, short, after);
    }
}

proof fn lemma_white_space_does_not_count(before: Seq<char>, core: Seq<char>, after: Seq<char>)
    requires
        forall|i: int| 0 <= i < before.len() ==> text::is_white_space(#[trigger] before[i]),
        forall|i: int| 0 <= i < after.len() ==> text::is_white_space(#[trigger] after[i]),
        core.len() > 0,
        !text::is_white_space(core[0]),
        !text::is_white_space(core.last()),
    ensures
        ref_parts(before + core + after) == ref_parts(core),
{
    text::law_trimming_finds_the_core(before, core, after);
    text::lemma_trim_nothing(core);
}

proof fn lemma_short_parts(daemon: Seq<char>, session: Seq<char>)
    requires
        daemon.len() > 0,
        session.len() > 0,
        !text::is_white_space(session.last()),
        !text::is_white_space(daemon[0]),
        !daemon.contains(':'),
        daemon != seq!['m', 'u'],
    ensures
        ref_parts(daemon.push(':') + session) == Ok::<(Seq<char>, Seq<char>), Seq<char>>(
            (daemon, session),
        ),
{
    let short = daemon.push(':') + session;
    let n = daemon.len() as int;
    assert(short[0] == daemon[0]);
    assert(short.last() == session.last());
    text::lemma_trim_nothing(short);
    assert(short[n] == ':');
    assert forall|j: int| 0 <= j < n implies short[j] != ':' by {
        assert(short[j] == daemon[j]);
        assert(daemon.contains(daemon[j]));
    }
    assert(!text::has_prefix(short, "mu:"@)) by {
        reveal_strlit("mu:");
        if text::has_prefix(short, "mu:"@) {
            let t = short.take(3);
            assert(t[0] == short[0] && t[1] == short[1] && t[2] == short[2]);
            assert(n == 2);
            assert(daemon =~= seq!['m', 'u']);
        }
    }
    text::lemma_first_index(short, ':', n);
    assert(short.take(n) =~= daemon);
    assert(short.skip(n + 1) =~= session);
}

/// A reference that is read has both parts, and one that is not read is named in the error.
pub proof fn law_references_have_both_parts(s: Seq<char>)
    ensures
        ref_parts(s) matches Ok(parts) ==> parts.0.len() > 0 && parts.1.len() > 0,
        ref_parts(s) matches Err(e) ==> text::has_prefix(
            e,
            "invalid session ref `"@ + text::trim_view(s),
        ),
{
    let t = text::trim_view(s);
    let head = "invalid session ref `"@ + t;
    if let Err(e) = ref_parts(s) {
        assert(e.take(head.len() as int) =~= head);
    }
}

} // verus!
