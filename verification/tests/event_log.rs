use mu_core::agent::{AssistantMessage, ContentBlock, StopReason, Usage, UsageSemantics};
use mu_core::command_journal::{AuthSnapshot, CommandEcho, Origin, RejectStage};
use mu_core::event_log::{
    tombstoned_ids, AppendError, EventActor, EventPayload, LogLine, SessionEvent, SessionEventLog,
};

fn sample_usage(input: u64, output: u64) -> Usage {
    Usage {
        input_tokens: input,
        output_tokens: output,
        cache_read_input_tokens: None,
        cache_creation_input_tokens: None,
        cache_creation_5m_input_tokens: None,
        cache_creation_1h_input_tokens: None,
        reasoning_tokens: None,
    }
}

fn append_session_created(log: &mut SessionEventLog, semantics: Option<UsageSemantics>) {
    log.append(
        EventActor::System,
        EventPayload::SessionCreated {
            provider_kind: "p".into(),
            model: "m".into(),
            parent_session_id: None,
            branched_at_parent_event_id: None,
            usage_semantics: semantics,
        },
    );
}

fn append_assistant_usage(log: &mut SessionEventLog, u: Usage) {
    log.append(
        EventActor::Agent,
        EventPayload::AssistantMessageEvent {
            message: AssistantMessage {
                content: vec![ContentBlock::Text { text: "ok".into() }],
                stop_reason: StopReason::EndTurn,
                usage: Some(u),
            },
        },
    );
}

fn cached_usage(input: u64, cache_read: u64) -> Usage {
    Usage {
        input_tokens: input,
        output_tokens: 10,
        cache_read_input_tokens: Some(cache_read),
        cache_creation_input_tokens: None,
        cache_creation_5m_input_tokens: None,
        cache_creation_1h_input_tokens: None,
        reasoning_tokens: None,
    }
}

fn sample_command_received() -> EventPayload {
    EventPayload::CommandReceived {
        request_id: "7".to_string(),
        method: "session.ask".into(),
        params: "{\"prompt\":\"hi\"}".to_string(),
        auth: AuthSnapshot::Authenticated,
        origin: Origin {
            transport: "stdio".into(),
            connection_id: Some("c1".into()),
        },
    }
}

fn sample_echo() -> CommandEcho {
    CommandEcho {
        request_id: "7".to_string(),
        method: "session.ask".into(),
        params: "{\"prompt\":\"hi\"}".to_string(),
    }
}

#[test]
fn append_assigns_monotonic_ids() {
    let mut log = SessionEventLog::new("s1".to_string());
    let a = log.append(
        EventActor::User,
        EventPayload::UserMessage {
            content: "hi".into(),
        },
    );
    let b = log.append(
        EventActor::Agent,
        EventPayload::Done {
            stop_reason: StopReason::EndTurn,
            turn_count: 1,
            usage: None,
            elapsed_ms: None,
        },
    );
    assert_eq!(a, 1);
    assert_eq!(b, 2);
    assert_eq!(log.len(), 2);
}

#[test]
fn cumulative_usage_sums_done_events() {
    let mut log = SessionEventLog::new("s1".to_string());
    log.append(
        EventActor::Agent,
        EventPayload::Done {
            stop_reason: StopReason::EndTurn,
            turn_count: 1,
            usage: Some(sample_usage(100, 50)),
            elapsed_ms: Some(500),
        },
    );
    log.append(
        EventActor::Agent,
        EventPayload::Done {
            stop_reason: StopReason::EndTurn,
            turn_count: 1,
            usage: Some(sample_usage(200, 75)),
            elapsed_ms: Some(800),
        },
    );
    log.append(
        EventActor::Agent,
        EventPayload::Done {
            stop_reason: StopReason::EndTurn,
            turn_count: 1,
            usage: None,
            elapsed_ms: Some(100),
        },
    );
    let cumulative = log.cumulative_usage().expect("at least one Done had usage");
    assert_eq!(cumulative.input_tokens, 300);
    assert_eq!(cumulative.output_tokens, 125);
    assert_eq!(log.ask_count(), 3);
    assert_eq!(log.elapsed_total_ms(), 500 + 800 + 100);
}

#[test]
fn cumulative_usage_none_when_no_done_reported() {
    let mut log = SessionEventLog::new("s1".to_string());
    log.append(
        EventActor::User,
        EventPayload::UserMessage {
            content: "hi".into(),
        },
    );
    log.append(
        EventActor::Agent,
        EventPayload::Done {
            stop_reason: StopReason::EndTurn,
            turn_count: 1,
            usage: None,
            elapsed_ms: None,
        },
    );
    assert!(log.cumulative_usage().is_none());
    assert_eq!(log.ask_count(), 1);
    assert_eq!(log.elapsed_total_ms(), 0);
}

#[test]
fn context_assembly_count_filters_to_assembly_events() {
    let mut log = SessionEventLog::new("ca-count".to_string());
    log.append(
        EventActor::User,
        EventPayload::UserMessage {
            content: "hi".into(),
        },
    );
    log.append(
        EventActor::System,
        EventPayload::ContextAssembly {
            model_call_id: 1,
            message_count: 1,
            user_message_count: 1,
            assistant_message_count: 0,
            tool_result_count: 0,
            tool_count: 0,
            token_count_estimate: None,
            token_breakdown: Default::default(),
            provider_kind: "anthropic_api".into(),
            model: "x".into(),
            renderer: None,
            cache_strategy: None,
            span_count: None,
            cache_boundary_count: None,
            first_span_ids: Vec::new(),
            prefix_hash: None,
            prefix_span_hashes: Vec::new(),
        },
    );
    log.append(
        EventActor::Agent,
        EventPayload::Done {
            stop_reason: StopReason::EndTurn,
            turn_count: 1,
            usage: None,
            elapsed_ms: Some(100),
        },
    );
    log.append(
        EventActor::System,
        EventPayload::ContextAssembly {
            model_call_id: 2,
            message_count: 3,
            user_message_count: 2,
            assistant_message_count: 1,
            tool_result_count: 0,
            tool_count: 0,
            token_count_estimate: None,
            token_breakdown: Default::default(),
            provider_kind: "anthropic_api".into(),
            model: "x".into(),
            renderer: None,
            cache_strategy: None,
            span_count: None,
            cache_boundary_count: None,
            first_span_ids: Vec::new(),
            prefix_hash: None,
            prefix_span_hashes: Vec::new(),
        },
    );
    assert_eq!(log.context_assembly_count(), 2);
    assert_eq!(log.ask_count(), 1);
}

#[test]
fn tool_call_count_includes_only_tool_calls() {
    let mut log = SessionEventLog::new("s1".to_string());
    log.append(
        EventActor::User,
        EventPayload::UserMessage {
            content: "do it".into(),
        },
    );
    log.append(
        EventActor::Agent,
        EventPayload::ToolCall {
            call_id: "c1".into(),
            name: "read".into(),
            arguments: "{\"path\":\"/x\"}".to_string(),
        },
    );
    log.append(
        EventActor::Tool {
            name: "read".into(),
        },
        EventPayload::ToolResult {
            call_id: "c1".into(),
            content: "contents".into(),
            is_error: false,
        },
    );
    log.append(
        EventActor::Agent,
        EventPayload::ToolCall {
            call_id: "c2".into(),
            name: "edit".into(),
            arguments: "{}".to_string(),
        },
    );
    assert_eq!(log.tool_call_count(), 2);
}

#[test]
fn total_turn_count_sums_done_turn_counts() {
    let mut log = SessionEventLog::new("s1".to_string());
    log.append(
        EventActor::Agent,
        EventPayload::Done {
            stop_reason: StopReason::EndTurn,
            turn_count: 3,
            usage: None,
            elapsed_ms: None,
        },
    );
    log.append(
        EventActor::Agent,
        EventPayload::Done {
            stop_reason: StopReason::EndTurn,
            turn_count: 1,
            usage: None,
            elapsed_ms: None,
        },
    );
    assert_eq!(log.total_turn_count(), 4);
}

#[test]
fn live_usage_openai_semantics_no_double_count() {
    let mut log = SessionEventLog::new("s1".to_string());
    append_session_created(&mut log, Some(UsageSemantics::openai_style()));
    append_assistant_usage(&mut log, cached_usage(55_577, 37_632));
    let (_, last_input) = log.live_usage();
    assert_eq!(last_input, Some(55_577));
}

#[test]
fn live_usage_anthropic_semantics_sums_disjoint_buckets() {
    let mut log = SessionEventLog::new("s1".to_string());
    append_session_created(&mut log, Some(UsageSemantics::anthropic_style()));
    append_assistant_usage(&mut log, cached_usage(1_000, 20_000));
    let (_, last_input) = log.live_usage();
    assert_eq!(last_input, Some(21_000));
}

#[test]
fn live_usage_unstamped_log_falls_back_to_legacy_sum() {
    let mut log = SessionEventLog::new("s1".to_string());
    append_session_created(&mut log, None);
    append_assistant_usage(&mut log, cached_usage(55_577, 37_632));
    let (_, last_input) = log.live_usage();
    assert_eq!(last_input, Some(55_577 + 37_632));
}

#[test]
fn live_usage_provider_switch_changes_interpretation() {
    let mut log = SessionEventLog::new("s1".to_string());
    append_session_created(&mut log, Some(UsageSemantics::anthropic_style()));
    append_assistant_usage(&mut log, cached_usage(1_000, 20_000));
    assert_eq!(log.live_usage().1, Some(21_000), "anthropic: disjoint sum");

    log.append(
        EventActor::System,
        EventPayload::ProviderSwitched {
            old_provider_kind: "anthropic".into(),
            old_model: "m1".into(),
            new_provider_kind: "openai_codex".into(),
            new_model: "m2".into(),
            context_soft_limit: None,
            context_hard_limit: None,
            usage_semantics: Some(UsageSemantics::openai_style()),
        },
    );
    append_assistant_usage(&mut log, cached_usage(50_000, 40_000));
    assert_eq!(
        log.live_usage().1,
        Some(50_000),
        "post-switch: openai total, cache subset not re-added"
    );
}

#[test]
fn append_command_errors_without_disk_writer() {
    let mut log = SessionEventLog::new("s1".to_string());
    let err = log
        .append_command(EventActor::User, sample_command_received(), 5)
        .expect_err("no disk writer must be an error, never a silent success");
    assert_eq!(err, AppendError::NoDiskWriter);
    assert_eq!(
        err.message(),
        "append_command requires a disk writer: commands must be durable before processing (spec mu-046 INV-1)"
    );
    assert!(log.is_empty());
    assert_eq!(
        log.append(EventActor::System, EventPayload::SessionClosed),
        1
    );
}

#[test]
fn plain_append_still_best_effort_for_command_variants() {
    let mut log = SessionEventLog::new("s1".to_string());
    let id = log.append(EventActor::User, sample_command_received());
    assert_eq!(id, 1);
    assert_eq!(log.len(), 1);
}

#[test]
fn kinds_are_in_snake_case() {
    let samples = [
        EventPayload::SessionCreated {
            provider_kind: "mock".into(),
            model: "m1".into(),
            parent_session_id: None,
            branched_at_parent_event_id: None,
            usage_semantics: None,
        },
        EventPayload::UserMessage {
            content: "hi".into(),
        },
        EventPayload::ToolCall {
            call_id: "c1".into(),
            name: "read_file".into(),
            arguments: "{\"path\":\"/tmp/x\"}".to_string(),
        },
        EventPayload::ToolResult {
            call_id: "c1".into(),
            content: "ok".into(),
            is_error: false,
        },
        EventPayload::Done {
            stop_reason: StopReason::EndTurn,
            turn_count: 1,
            usage: Some(sample_usage(1, 2)),
            elapsed_ms: Some(10),
        },
        EventPayload::Error {
            message: "boom".into(),
        },
        EventPayload::Tombstone {
            target_event_id: 1,
            reason: "incomplete record".into(),
        },
        sample_command_received(),
        EventPayload::CommandSucceeded {
            command_event_id: 1,
            command: sample_echo(),
            result: "{\"ok\":true}".to_string(),
            elapsed_ms: 10,
        },
        EventPayload::CommandFailed {
            command_event_id: 1,
            command: sample_echo(),
            code: -32603,
            message: "provider exploded".into(),
            elapsed_ms: 10,
        },
        EventPayload::CommandRejected {
            command_event_id: 1,
            command: sample_echo(),
            code: -32600,
            message: "not yours".into(),
            stage: RejectStage::AuthGate,
        },
        EventPayload::SessionClosed,];
    let tags = ["session_created", "user_message", "tool_call", "tool_result", "done", "error", "tombstone", "command_received", "command_succeeded", "command_failed", "command_rejected", "session_closed"];
    assert_eq!(samples.len(), tags.len());
    for (payload, tag) in samples.iter().zip(tags) {
        assert_eq!(payload.kind_str(), tag);
    }
}

#[test]
fn commands_are_assigned_written_and_committed_in_order() {
    let mut log = SessionEventLog::new("s1".to_string());
    log.attach_disk_writer();
    assert!(log.has_disk_writer());
    let received = log
        .append_command(EventActor::User, sample_command_received(), 11)
        .expect("assigned");
    assert_eq!(received.id, 1);
    assert_eq!(received.timestamp_unix_ms, 11);
    assert!(log.is_empty());
    log.commit(received.clone());
    let receipt = log
        .append_command(
            EventActor::System,
            EventPayload::CommandSucceeded {
                command_event_id: received.id,
                command: sample_echo(),
                result: "{\"accepted\":true}".to_string(),
                elapsed_ms: 3,
            },
            12,
        )
        .expect("assigned");
    assert_eq!(receipt.id, 2);
    log.commit(receipt.clone());
    let (recovered, malformed) = SessionEventLog::from_lines(
        vec![LogLine::Event(received), LogLine::Blank, LogLine::Event(receipt)],
        None,
    );
    assert_eq!(malformed, 0);
    assert_eq!(recovered.snapshot(), log.snapshot());
    assert_eq!(recovered.snapshot()[0].payload, sample_command_received());
}

#[test]
fn a_dropped_command_leaves_a_gap_and_no_event() {
    let mut log = SessionEventLog::new("s1".to_string());
    log.attach_disk_writer();
    let lost = log
        .append_command(EventActor::User, sample_command_received(), 0)
        .expect("assigned");
    assert_eq!(lost.id, 1);
    assert_eq!(log.append(EventActor::System, EventPayload::SessionClosed), 2);
    assert_eq!(log.len(), 1);
}

fn closed(id: u64, session: &str) -> SessionEvent {
    SessionEvent {
        id,
        session_id: session.to_string(),
        parent_event_ids: vec![],
        timestamp_unix_ms: 100 + id,
        actor: EventActor::System,
        payload: EventPayload::SessionClosed,
    }
}

#[test]
fn recovered_identifiers_continue_after_the_greatest() {
    let (mut log, malformed) = SessionEventLog::from_lines(
        vec![
            LogLine::Event(closed(9, "a")),
            LogLine::Malformed,
            LogLine::Event(closed(4, "b")),
        ],
        Some("stem".to_string()),
    );
    assert_eq!(malformed, 1);
    assert_eq!(log.session_id(), "a");
    assert_eq!(log.started_at_unix_ms(), Some(109));
    assert_eq!(log.last_activity_unix_ms(), Some(104));
    assert_eq!(log.append(EventActor::System, EventPayload::SessionClosed), 10);
    let (empty, _) = SessionEventLog::from_lines(vec![LogLine::Blank], Some("stem".to_string()));
    assert_eq!(empty.session_id(), "stem");
    let (none, _) = SessionEventLog::from_lines(vec![], None);
    assert_eq!(none.session_id(), "recovered");
}

#[test]
fn tombstones_are_listed_once_in_order() {
    let mut log = SessionEventLog::new("s1".to_string());
    for target in [7, 3, 7] {
        log.append(
            EventActor::System,
            EventPayload::Tombstone {
                target_event_id: target,
                reason: "r".into(),
            },
        );
    }
    assert_eq!(log.tombstoned_ids(), vec![3, 7]);
    assert_eq!(tombstoned_ids(log.snapshot()), vec![3, 7]);
}

#[test]
fn the_latest_mark_and_the_first_provider_count() {
    let mut log = SessionEventLog::new("s1".to_string());
    assert_eq!(log.latest_operator_mark(), None);
    assert_eq!(log.provider_info(), None);
    append_session_created(&mut log, None);
    log.append(
        EventActor::User,
        EventPayload::OperatorMark {
            rating: 2,
            note: None,
        },
    );
    let id = log.append(
        EventActor::User,
        EventPayload::OperatorMark {
            rating: 3,
            note: Some("on reflection".into()),
        },
    );
    assert_eq!(id, 3);
    assert_eq!(
        log.latest_operator_mark(),
        Some((3, Some("on reflection".to_string())))
    );
    assert_eq!(
        log.provider_info(),
        Some(("p".to_string(), "m".to_string()))
    );
    log.append(
        EventActor::System,
        EventPayload::ProviderSwitched {
            old_provider_kind: "p".into(),
            old_model: "m".into(),
            new_provider_kind: "q".into(),
            new_model: "n".into(),
            context_soft_limit: None,
            context_hard_limit: None,
            usage_semantics: None,
        },
    );
    assert_eq!(
        log.provider_info(),
        Some(("p".to_string(), "m".to_string()))
    );
    assert_eq!(
        log.provider_in_force(),
        Some(("q".to_string(), "n".to_string()))
    );
    assert_eq!(
        log.append_with_parents(EventActor::System, EventPayload::SessionClosed, vec![1, 2]),
        5
    );
    assert_eq!(log.snapshot()[4].parent_event_ids, vec![1, 2]);
}

#[test]
fn the_mark_with_the_greatest_id_counts() {
    let marked = |id: u64, rating: u8| {
        LogLine::Event(SessionEvent {
            id,
            session_id: "s1".to_string(),
            parent_event_ids: Vec::new(),
            timestamp_unix_ms: 0,
            actor: EventActor::User,
            payload: EventPayload::OperatorMark { rating, note: None },
        })
    };
    let (mut log, _) =
        SessionEventLog::from_lines(vec![marked(7, 1), marked(2, 5), marked(7, 4), marked(3, 2)], None);
    assert_eq!(log.latest_operator_mark(), Some((4, None)));
    log.append(EventActor::User, EventPayload::OperatorMark { rating: 3, note: None });
    assert_eq!(log.latest_operator_mark(), Some((3, None)));
}
