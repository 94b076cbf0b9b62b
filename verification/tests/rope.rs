use mu_core::context::event::RopeEvent;
use mu_core::context::rope::{RetainedRope, RetentionClass, Span, SpanKind};

fn span(
    id: impl Into<String>,
    kind: SpanKind,
    content: impl Into<String>,
    retention: RetentionClass,
) -> Span {
    Span::new(id.into(), kind, content.into(), retention)
}

fn skill_span(skill_id: &str, file: &str, body: &str) -> Span {
    span(
        format!("skill:{skill_id}:{file}"),
        SpanKind::SkillActivation,
        body,
        RetentionClass::Pinned,
    )
}

fn tool_schema_span(name: &str, schema: &str) -> Span {
    span(
        format!("tool-schema:{name}"),
        SpanKind::ToolSchema,
        schema,
        RetentionClass::Hot,
    )
}

#[test]
fn retention_class_stability_is_stable_for_top_three() {
    assert!(RetentionClass::Startup.is_stable());
    assert!(RetentionClass::Pinned.is_stable());
    assert!(RetentionClass::Hot.is_stable());
    assert!(!RetentionClass::Warm.is_stable());
    assert!(!RetentionClass::Cold.is_stable());
    assert!(!RetentionClass::Archived.is_stable());
    assert!(!RetentionClass::Superseded.is_stable());
}

#[test]
fn span_new_sets_cacheable_from_retention_stability() {
    let s1 = span("a", SpanKind::System, "hi", RetentionClass::Startup);
    assert!(s1.cacheable, "stable retention should default to cacheable");

    let s2 = span("b", SpanKind::User, "bye", RetentionClass::Cold);
    assert!(
        !s2.cacheable,
        "non-stable retention should default to uncacheable"
    );
}

#[test]
fn rope_preserves_insertion_order() {
    let mut rope = RetainedRope::new();
    rope.push(span(
        "s1",
        SpanKind::System,
        "sys",
        RetentionClass::Startup,
    ))
    .push(span("u1", SpanKind::User, "hi", RetentionClass::Hot))
    .push(span(
        "a1",
        SpanKind::Assistant,
        "hello",
        RetentionClass::Hot,
    ));

    let ids: Vec<&str> = rope.iter().iter().map(|s| s.id()).collect();
    assert_eq!(ids, vec!["s1", "u1", "a1"]);
    assert_eq!(rope.len(), 3);
    assert!(!rope.is_empty());
}

#[test]
fn rope_from_spans_round_trips() {
    let spans = vec![
        span("x", SpanKind::User, "a", RetentionClass::Hot),
        span("y", SpanKind::Assistant, "b", RetentionClass::Warm),
    ];
    let rope = RetainedRope::from_spans(spans.clone());
    assert_eq!(rope.spans(), spans.as_slice());
}

#[test]
fn activate_skill_pushes_spans_and_emits_event() {
    let mut rope = RetainedRope::new();
    rope.activate_skill(
        "goal-protocol".to_string(),
        vec![
            skill_span("goal-protocol", "SKILL.md", "hello"),
            skill_span("goal-protocol", "stop-criteria.md", "stop"),
        ],
    );
    assert_eq!(rope.len(), 2);
    assert_eq!(rope.events().len(), 1);
    match &rope.events()[0] {
        RopeEvent::SkillActivated { skill_id, span_ids } => {
            assert_eq!(skill_id, "goal-protocol");
            assert_eq!(span_ids.len(), 2);
        }
        other => panic!("expected SkillActivated, got {other:?}"),
    }
}

#[test]
fn deactivate_skill_removes_only_its_spans() {
    let mut rope = RetainedRope::new();
    rope.activate_skill(
        "goal-protocol".to_string(),
        vec![skill_span("goal-protocol", "SKILL.md", "g")],
    );
    rope.activate_skill("review".to_string(), vec![skill_span("review", "SKILL.md", "r")]);
    assert_eq!(rope.len(), 2);

    rope.deactivate_skill("goal-protocol");
    assert_eq!(rope.len(), 1);
    assert_eq!(rope.spans()[0].id(), "skill:review:SKILL.md");
    let last = rope.events().last().expect("event recorded");
    match last {
        RopeEvent::SkillDeactivated { skill_id, span_ids } => {
            assert_eq!(skill_id, "goal-protocol");
            let actual: Vec<&str> = span_ids.iter().map(|s| s.as_str()).collect();
            assert_eq!(actual, vec!["skill:goal-protocol:SKILL.md"]);
        }
        other => panic!("expected SkillDeactivated, got {other:?}"),
    }
}

#[test]
fn deactivate_unknown_skill_emits_empty_event() {
    let mut rope = RetainedRope::new();
    rope.deactivate_skill("never-was");
    assert!(rope.is_empty());
    match rope.events().last().expect("event") {
        RopeEvent::SkillDeactivated { span_ids, .. } => assert!(span_ids.is_empty()),
        other => panic!("expected empty SkillDeactivated, got {other:?}"),
    }
}

#[test]
fn provenance_returns_originating_skill_event() {
    let mut rope = RetainedRope::new();
    rope.activate_skill("review".to_string(), vec![skill_span("review", "SKILL.md", "r")]);
    let prov = rope
        .provenance("skill:review:SKILL.md")
        .expect("provenance hit");
    match prov {
        RopeEvent::SkillActivated { skill_id, .. } => assert_eq!(skill_id, "review"),
        other => panic!("expected SkillActivated, got {other:?}"),
    }
}

#[test]
fn provenance_survives_deactivation() {
    let mut rope = RetainedRope::new();
    rope.activate_skill("review".to_string(), vec![skill_span("review", "SKILL.md", "r")]);
    rope.deactivate_skill("review");
    assert!(rope.is_empty());
    let prov = rope
        .provenance("skill:review:SKILL.md")
        .expect("provenance survives");
    match prov {
        RopeEvent::SkillActivated { skill_id, .. } => assert_eq!(skill_id, "review"),
        other => panic!("expected SkillActivated, got {other:?}"),
    }
}

#[test]
fn provenance_returns_none_for_unknown_span_id() {
    let rope = RetainedRope::new();
    assert!(rope.provenance("does-not-exist").is_none());
}

#[test]
fn register_tool_schema_pushes_span_and_emits_event() {
    let mut rope = RetainedRope::new();
    rope.register_tool_schema("read".to_string(), tool_schema_span("read", "{...read schema...}"));
    assert_eq!(rope.len(), 1);
    assert_eq!(rope.spans()[0].kind, SpanKind::ToolSchema);
    match rope.events().last().expect("event") {
        RopeEvent::ToolSchemaRegistered { tool_name, span_id } => {
            assert_eq!(tool_name, "read");
            assert_eq!(span_id, "tool-schema:read");
        }
        other => panic!("expected ToolSchemaRegistered, got {other:?}"),
    }
}

#[test]
fn unregister_tool_schema_removes_span_and_emits_event() {
    let mut rope = RetainedRope::new();
    rope.register_tool_schema("read".to_string(), tool_schema_span("read", "r"));
    rope.register_tool_schema("write".to_string(), tool_schema_span("write", "w"));
    assert_eq!(rope.len(), 2);

    rope.unregister_tool_schema("read");
    assert_eq!(rope.len(), 1);
    assert_eq!(rope.spans()[0].id(), "tool-schema:write");
    match rope.events().last().expect("event") {
        RopeEvent::ToolSchemaUnregistered { tool_name, span_id } => {
            assert_eq!(tool_name, "read");
            assert_eq!(span_id, "tool-schema:read");
        }
        other => panic!("expected ToolSchemaUnregistered, got {other:?}"),
    }
}

#[test]
fn filter_tools_returns_only_matching_tool_schemas() {
    let mut rope = RetainedRope::new();
    rope.register_tool_schema("read".to_string(), tool_schema_span("read", "r"));
    rope.register_tool_schema("write".to_string(), tool_schema_span("write", "w"));
    rope.register_tool_schema("bash".to_string(), tool_schema_span("bash", "b"));
    rope.activate_skill(
        "goal-protocol".to_string(),
        vec![skill_span("goal-protocol", "SKILL.md", "g")],
    );
    let allowed = ["tool-schema:read", "tool-schema:bash"];
    let view = rope.filter_tools(|s| allowed.contains(&s.id()));
    assert_eq!(view.len(), 2);
    let ids: Vec<&str> = view.iter().map(|s| s.id()).collect();
    assert!(ids.contains(&"tool-schema:read"));
    assert!(ids.contains(&"tool-schema:bash"));
    let all_predicate = rope.filter_tools(|_| true);
    assert_eq!(
        all_predicate.len(),
        3,
        "filter_tools is scoped to ToolSchema spans regardless of predicate"
    );
}

#[test]
fn filter_tools_substrate_is_immutable() {
    let mut rope = RetainedRope::new();
    rope.register_tool_schema("read".to_string(), tool_schema_span("read", "r"));
    rope.register_tool_schema("write".to_string(), tool_schema_span("write", "w"));
    let original_len = rope.len();
    let original_events = rope.events().len();
    let _view = rope.filter_tools(|s| s.id() == "tool-schema:read");
    assert_eq!(rope.len(), original_len);
    assert_eq!(rope.events().len(), original_events);
}

#[test]
fn filter_tools_pointer_set_difference_is_observable() {
    let mut rope = RetainedRope::new();
    rope.register_tool_schema("read".to_string(), tool_schema_span("read", "r"));
    rope.register_tool_schema("write".to_string(), tool_schema_span("write", "w"));
    rope.register_tool_schema("bash".to_string(), tool_schema_span("bash", "b"));

    let full: Vec<&str> = rope.spans().iter().map(|s| s.id()).collect();
    let attenuated_ids: Vec<&str> = rope
        .filter_tools(|s| s.id() == "tool-schema:read")
        .into_iter()
        .map(|s| s.id())
        .collect();
    let diff: Vec<&str> = full
        .iter()
        .filter(|id| !attenuated_ids.contains(id))
        .copied()
        .collect();
    assert_eq!(diff.len(), 2);
    assert!(diff.contains(&"tool-schema:write"));
    assert!(diff.contains(&"tool-schema:bash"));
}

#[test]
fn provenance_returns_tool_schema_event() {
    let mut rope = RetainedRope::new();
    rope.register_tool_schema("read".to_string(), tool_schema_span("read", "r"));
    let prov = rope.provenance("tool-schema:read").expect("hit");
    match prov {
        RopeEvent::ToolSchemaRegistered { tool_name, .. } => assert_eq!(tool_name, "read"),
        other => panic!("expected ToolSchemaRegistered, got {other:?}"),
    }
}

#[test]
fn from_spans_keeps_legacy_constructor_working() {
    let spans = vec![
        span("u1", SpanKind::User, "hi", RetentionClass::Hot),
        span("a1", SpanKind::Assistant, "hello", RetentionClass::Hot),
    ];
    let rope = RetainedRope::from_spans(spans.clone());
    assert_eq!(rope.spans(), spans.as_slice());
    assert!(rope.events().is_empty());
    assert!(rope.provenance("u1").is_none());
}

#[test]
fn deactivation_undoes_activation() {
    let mut rope = RetainedRope::new();
    rope.push(span("u1", SpanKind::User, "hi", RetentionClass::Hot));
    let before: Vec<Span> = rope.spans().to_vec();
    rope.activate_skill(
        "review".to_string(),
        vec![skill_span("review", "SKILL.md", "r")],
    );
    assert_eq!(rope.len(), 2);
    rope.deactivate_skill("review");
    assert_eq!(rope.spans(), before.as_slice());
    rope.deactivate_skill("review");
    assert_eq!(rope.spans(), before.as_slice());
    assert_eq!(rope.events().len(), 3);
}

#[test]
fn unregistering_an_unknown_tool_records_an_empty_span() {
    let mut rope = RetainedRope::new();
    rope.unregister_tool_schema("ghost");
    match &rope.events()[0] {
        RopeEvent::ToolSchemaUnregistered { tool_name, span_id } => {
            assert_eq!(tool_name, "ghost");
            assert_eq!(span_id, "");
        }
        other => panic!("expected ToolSchemaUnregistered, got {other:?}"),
    }
}

#[test]
fn each_deactivation_ends_one_activation() {
    let a = skill_span("s", "a", "x");
    let b = skill_span("s", "b", "x");
    let mut rope = RetainedRope::new();
    rope.activate_skill("s".to_string(), vec![a.clone()]);
    rope.activate_skill("s".to_string(), vec![b.clone()]);
    rope.deactivate_skill("s");
    assert_eq!(rope.spans(), [a.clone()]);
    assert_eq!(
        rope.events().last(),
        Some(&RopeEvent::SkillDeactivated {
            skill_id: "s".to_string(),
            span_ids: vec![b.id().to_string()],
        })
    );
    rope.activate_skill("s".to_string(), vec![b]);
    rope.deactivate_skill("s");
    assert_eq!(rope.spans(), [a]);
    rope.deactivate_skill("s");
    assert!(rope.is_empty());
    rope.deactivate_skill("s");
    assert_eq!(
        rope.events().last(),
        Some(&RopeEvent::SkillDeactivated { skill_id: "s".to_string(), span_ids: Vec::new() })
    );
}

#[test]
fn the_schema_registered_last_leaves_first() {
    let a = tool_schema_span("a", "x");
    let b = tool_schema_span("b", "x");
    let mut rope = RetainedRope::new();
    rope.register_tool_schema("read".to_string(), a.clone());
    rope.register_tool_schema("read".to_string(), b.clone());
    rope.unregister_tool_schema("read");
    assert_eq!(rope.spans(), [a]);
    assert_eq!(
        rope.events().last(),
        Some(&RopeEvent::ToolSchemaUnregistered {
            tool_name: "read".to_string(),
            span_id: b.id().to_string(),
        })
    );
    rope.unregister_tool_schema("read");
    assert!(rope.is_empty());
    assert_eq!(rope.clone(), rope);
}
