use mu_core::agent::{AssistantMessage, ContentBlock, StopReason, Usage};
use mu_core::context_attribution::attribute;
use mu_core::event_log::{EventActor, EventPayload, SessionEvent, SessionEventLog};

fn usage(input: u64, output: u64, cache_read: u64, cache_creation: u64) -> Usage {
    Usage {
        input_tokens: input,
        output_tokens: output,
        cache_read_input_tokens: if cache_read > 0 {
            Some(cache_read)
        } else {
            None
        },
        cache_creation_input_tokens: if cache_creation > 0 {
            Some(cache_creation)
        } else {
            None
        },
        cache_creation_5m_input_tokens: None,
        cache_creation_1h_input_tokens: None,
        reasoning_tokens: None,
    }
}

fn build_session_events() -> Vec<SessionEvent> {
    let mut log = SessionEventLog::new("test-session".to_string());
    log.append(
        EventActor::System,
        EventPayload::SessionCreated {
            provider_kind: "anthropic_api".into(),
            model: "opus-4-7".into(),
            parent_session_id: None,
            branched_at_parent_event_id: None,
                usage_semantics: None,
        },
    );
    log.append(
        EventActor::User,
        EventPayload::UserMessage {
            content: "Hello, explain this code".into(),
        },
    );
    log.append(
        EventActor::System,
        EventPayload::ContextAssembly {
            model_call_id: 1,
            message_count: 1,
            user_message_count: 1,
            assistant_message_count: 0,
            tool_result_count: 0,
            tool_count: 5,
            token_count_estimate: None,
            token_breakdown: Default::default(),
            provider_kind: "anthropic_api".into(),
            model: "opus-4-7".into(),
            renderer: Some("anthropic".into()),
            cache_strategy: Some("sliding_window".into()),
            span_count: Some(12),
            cache_boundary_count: Some(2),
            first_span_ids: vec!["sys-0".into()],
                prefix_hash: None,
                prefix_span_hashes: Vec::new(),
        },
    );
    log.append(
        EventActor::Agent,
        EventPayload::AssistantMessageEvent {
            message: AssistantMessage {
                content: vec![ContentBlock::Text {
                    text: "Let me read that file.".into(),
                }],
                stop_reason: StopReason::ToolUse,
                usage: Some(usage(1500, 200, 800, 100)),
            },
        },
    );
    log.append(
        EventActor::Agent,
        EventPayload::ToolCall {
            call_id: "call-1".into(),
            name: "read".into(),
            arguments: "{\"path\":\"/src/main.rs\"}".to_string(),
        },
    );
    log.append(
        EventActor::Tool {
            name: "read".into(),
        },
        EventPayload::ToolResult {
            call_id: "call-1".into(),
            content: "fn main() { println!(\"hello\"); }".into(),
            is_error: false,
        },
    );
    log.append(
        EventActor::Agent,
        EventPayload::Done {
            stop_reason: StopReason::ToolUse,
            turn_count: 1,
            usage: Some(usage(1500, 200, 800, 100)),
            elapsed_ms: Some(2500),
        },
    );
    log.append(
        EventActor::System,
        EventPayload::ContextAssembly {
            model_call_id: 2,
            message_count: 3,
            user_message_count: 1,
            assistant_message_count: 1,
            tool_result_count: 1,
            tool_count: 5,
            token_count_estimate: None,
            token_breakdown: Default::default(),
            provider_kind: "anthropic_api".into(),
            model: "opus-4-7".into(),
            renderer: Some("anthropic".into()),
            cache_strategy: Some("sliding_window".into()),
            span_count: Some(15),
            cache_boundary_count: Some(2),
            first_span_ids: vec!["sys-0".into()],
                prefix_hash: None,
                prefix_span_hashes: Vec::new(),
        },
    );
    log.append(
        EventActor::Agent,
        EventPayload::ToolCall {
            call_id: "call-2".into(),
            name: "grep".into(),
            arguments: "{\"pattern\":\"TODO\"}".to_string(),
        },
    );
    log.append(
        EventActor::Tool {
            name: "grep".into(),
        },
        EventPayload::ToolResult {
            call_id: "call-2".into(),
            content: "src/lib.rs:42: // TODO: refactor".into(),
            is_error: false,
        },
    );
    log.append(
        EventActor::Agent,
        EventPayload::ToolCall {
            call_id: "call-3".into(),
            name: "read".into(),
            arguments: "{\"path\":\"/src/lib.rs\"}".to_string(),
        },
    );
    log.append(
        EventActor::Tool {
            name: "read".into(),
        },
        EventPayload::ToolResult {
            call_id: "call-3".into(),
            content: "file not found".into(),
            is_error: true,
        },
    );
    log.append(
        EventActor::Agent,
        EventPayload::Done {
            stop_reason: StopReason::EndTurn,
            turn_count: 2,
            usage: Some(usage(3200, 450, 1800, 200)),
            elapsed_ms: Some(4100),
        },
    );

    log.snapshot().to_vec()
}

#[test]
fn attribute_basic_session() {
    let events = build_session_events();
    let attr = attribute(&events);
    assert_eq!(
        attr.provider_model,
        Some(("anthropic_api".into(), "opus-4-7".into()))
    );
    assert_eq!(attr.total_input_tokens, 1500 + 3200);
    assert_eq!(attr.total_output_tokens, 200 + 450);
    assert_eq!(attr.cache_read_tokens, 800 + 1800);
    assert_eq!(attr.cache_creation_tokens, 100 + 200);
    assert_eq!(attr.user_message_count, 1);
    assert_eq!(attr.assistant_message_count, 1);
    assert_eq!(attr.tool_result_count, 3);
    assert_eq!(attr.model_calls.len(), 2);
    assert_eq!(attr.model_calls[0].model_call_id, 1);
    assert_eq!(attr.model_calls[0].message_count, 1);
    assert_eq!(attr.model_calls[0].usage.unwrap().input_tokens, 1500);
    assert_eq!(attr.model_calls[1].model_call_id, 2);
    assert_eq!(attr.model_calls[1].message_count, 3);
    assert_eq!(attr.model_calls[1].usage.unwrap().input_tokens, 3200);
    assert_eq!(attr.tool_attribution.len(), 2);
    let read_attr = attr
        .tool_attribution
        .iter()
        .find(|t| t.tool_name == "read")
        .unwrap();
    assert_eq!(read_attr.call_count, 2);
    assert_eq!(read_attr.error_count, 1);
    let grep_attr = attr
        .tool_attribution
        .iter()
        .find(|t| t.tool_name == "grep")
        .unwrap();
    assert_eq!(grep_attr.call_count, 1);
    assert_eq!(grep_attr.error_count, 0);
}

#[test]
fn attribute_empty_session() {
    let attr = attribute(&[]);
    assert_eq!(attr.total_input_tokens, 0);
    assert_eq!(attr.total_output_tokens, 0);
    assert_eq!(attr.cache_read_tokens, 0);
    assert_eq!(attr.cache_creation_tokens, 0);
    assert_eq!(attr.model_calls.len(), 0);
    assert_eq!(attr.tool_attribution.len(), 0);
    assert_eq!(attr.user_message_count, 0);
    assert_eq!(attr.provider_model, None);
}

#[test]
fn attribute_done_without_usage() {
    let mut log = SessionEventLog::new("no-usage".to_string());
    log.append(
        EventActor::System,
        EventPayload::ContextAssembly {
            model_call_id: 1,
            message_count: 1,
            user_message_count: 1,
            assistant_message_count: 0,
            tool_result_count: 0,
            tool_count: 0,
            token_count_estimate: None,
            token_breakdown: Default::default(),
            provider_kind: "faux".into(),
            model: "test".into(),
            renderer: None,
            cache_strategy: None,
            span_count: None,
            cache_boundary_count: None,
            first_span_ids: Vec::new(),
                prefix_hash: None,
                prefix_span_hashes: Vec::new(),
        },
    );
    log.append(
        EventActor::Agent,
        EventPayload::Done {
            stop_reason: StopReason::EndTurn,
            turn_count: 1,
            usage: None,
            elapsed_ms: Some(100),
        },
    );
    let attr = attribute(log.snapshot());
    assert_eq!(attr.total_input_tokens, 0);
    assert_eq!(attr.model_calls.len(), 1);
    assert!(attr.model_calls[0].usage.is_none());
}

#[test]
fn attribute_tool_result_without_matching_call() {
    let mut log = SessionEventLog::new("orphan-result".to_string());
    log.append(
        EventActor::Tool {
            name: "read".into(),
        },
        EventPayload::ToolResult {
            call_id: "orphan-1".into(),
            content: "some content".into(),
            is_error: false,
        },
    );
    let attr = attribute(log.snapshot());
    assert_eq!(attr.tool_result_count, 1);
    let unknown = attr
        .tool_attribution
        .iter()
        .find(|t| t.tool_name == "unknown")
        .unwrap();
    assert_eq!(unknown.call_count, 0);
    assert_eq!(unknown.total_result_bytes, 12);
}

#[test]
fn attribute_multiple_assemblies_ordering() {
    let mut log = SessionEventLog::new("ordering".to_string());
    for id in 1..=5u32 {
        log.append(
            EventActor::System,
            EventPayload::ContextAssembly {
                model_call_id: id,
                message_count: id,
                user_message_count: 1,
                assistant_message_count: 0,
                tool_result_count: 0,
                tool_count: 0,
                token_count_estimate: None,
                token_breakdown: Default::default(),
                provider_kind: "test".into(),
                model: "test".into(),
                renderer: None,
                cache_strategy: None,
                span_count: None,
                cache_boundary_count: None,
                first_span_ids: Vec::new(),
                prefix_hash: None,
                prefix_span_hashes: Vec::new(),
            },
        );
        log.append(
            EventActor::Agent,
            EventPayload::Done {
                stop_reason: StopReason::EndTurn,
                turn_count: 1,
                usage: Some(usage(100 * id as u64, 10 * id as u64, 0, 0)),
                elapsed_ms: None,
            },
        );
    }
    let attr = attribute(log.snapshot());
    assert_eq!(attr.model_calls.len(), 5);
    for (i, mc) in attr.model_calls.iter().enumerate() {
        assert_eq!(mc.model_call_id, (i + 1) as u32);
        assert_eq!(mc.usage.unwrap().input_tokens, 100 * (i + 1) as u64);
    }
}

#[test]
fn tool_attribution_sorted_by_call_count() {
    let mut log = SessionEventLog::new("tool-sort".to_string());
    for (name, count) in [("read", 3), ("grep", 1), ("edit", 2)] {
        for i in 0..count {
            let call_id = format!("{name}-{i}");
            log.append(
                EventActor::Agent,
                EventPayload::ToolCall {
                    call_id: call_id.clone(),
                    name: name.into(),
                    arguments: "{}".to_string(),
                },
            );
            log.append(
                EventActor::Tool { name: name.into() },
                EventPayload::ToolResult {
                    call_id,
                    content: "ok".into(),
                    is_error: false,
                },
            );
        }
    }
    let attr = attribute(log.snapshot());
    assert_eq!(attr.tool_attribution[0].tool_name, "read");
    assert_eq!(attr.tool_attribution[0].call_count, 3);
    assert_eq!(attr.tool_attribution[1].tool_name, "edit");
    assert_eq!(attr.tool_attribution[1].call_count, 2);
    assert_eq!(attr.tool_attribution[2].tool_name, "grep");
    assert_eq!(attr.tool_attribution[2].call_count, 1);
}

#[test]
fn each_model_call_is_attributed_once() {
    let attr = attribute(&build_session_events());
    let ids: Vec<u32> = attr.model_calls.iter().map(|c| c.model_call_id).collect();
    assert_eq!(ids, vec![1, 2]);
    let names: Vec<&str> = attr
        .tool_attribution
        .iter()
        .map(|t| t.tool_name.as_str())
        .collect();
    assert_eq!(names, vec!["read", "grep"]);
}
