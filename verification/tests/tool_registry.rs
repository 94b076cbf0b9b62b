use std::collections::HashSet;

use mu_core::agent::{ToolPolicy, ToolSpec};
use mu_core::capability::Capability;
use mu_core::context::event::RopeEvent;
use mu_core::context::rope::{RetainedRope, RetentionClass, Span, SpanKind};
use mu_core::tool_registry::{assemble_schema, serialize_schema, ToolRegistry};

fn stub(name: &str) -> ToolSpec {
    ToolSpec {
        name: name.to_string(),
        description: format!("stub tool: {name}"),
        input_schema: "{\"type\": \"object\", \"properties\": {}, \"required\": []}".to_string(),
        when: None,
        policy: ToolPolicy::default(),
    }
}

fn register(reg: &mut ToolRegistry<ToolSpec>, name: &str, rope: &mut RetainedRope) {
    let spec = stub(name);
    reg.register(stub(name), &spec, rope);
}

fn allow(names: &[&str]) -> Capability {
    Capability {
        allowed_tools: Some(names.iter().map(|s| s.to_string()).collect()),
    }
}

#[test]
fn register_adds_tool_and_schema_span() {
    let mut reg = ToolRegistry::<ToolSpec>::new();
    let mut rope = RetainedRope::new();
    register(&mut reg, "read", &mut rope);
    assert_eq!(reg.len(), 1);
    assert!(reg.get("read").is_some());
    assert_eq!(rope.len(), 1);
    assert_eq!(rope.spans()[0].kind, SpanKind::ToolSchema);
    assert_eq!(rope.spans()[0].id, "tool-schema:read");
    assert!(rope.spans()[0].content.contains("\"name\":\"read\""));
}

#[test]
fn unregister_removes_tool_and_span() {
    let mut reg = ToolRegistry::<ToolSpec>::new();
    let mut rope = RetainedRope::new();
    register(&mut reg, "read", &mut rope);
    register(&mut reg, "write", &mut rope);
    assert_eq!(reg.len(), 2);

    let removed = reg.unregister("read", &mut rope).expect("removed");
    assert_eq!(removed.name, "read");
    assert_eq!(reg.len(), 1);
    assert!(reg.get("read").is_none());
    assert_eq!(rope.len(), 1);
    assert_eq!(rope.spans()[0].id, "tool-schema:write");
}

#[test]
fn attenuate_with_unrestricted_cap_returns_all() {
    let mut reg = ToolRegistry::<ToolSpec>::new();
    let mut rope = RetainedRope::new();
    register(&mut reg, "read", &mut rope);
    register(&mut reg, "write", &mut rope);
    register(&mut reg, "bash", &mut rope);

    let cap = Capability::root();
    let allowed = reg.attenuate_with(&cap);
    assert_eq!(allowed.len(), 3);
}

#[test]
fn attenuate_with_narrowed_cap_returns_subset() {
    let mut reg = ToolRegistry::<ToolSpec>::new();
    let mut rope = RetainedRope::new();
    register(&mut reg, "read", &mut rope);
    register(&mut reg, "write", &mut rope);
    register(&mut reg, "bash", &mut rope);
    let cap = allow(&["read", "bash"]);
    let allowed = reg.attenuate_with(&cap);
    assert_eq!(allowed.len(), 2);
    let names: HashSet<String> = allowed.iter().map(|t| t.name.clone()).collect();
    assert!(names.contains("read"));
    assert!(names.contains("bash"));
    assert!(!names.contains("write"));
}

#[test]
fn attenuated_names_matches_attenuate_with() {
    let mut reg = ToolRegistry::<ToolSpec>::new();
    let mut rope = RetainedRope::new();
    register(&mut reg, "read", &mut rope);
    register(&mut reg, "write", &mut rope);

    let cap = allow(&["read"]);
    let names: HashSet<&str> = reg.attenuated_names(&cap).into_iter().collect();
    assert_eq!(names, HashSet::from(["read"]));
}

#[test]
fn filter_tool_spans_projects_attenuation_onto_rope() {
    let mut reg = ToolRegistry::<ToolSpec>::new();
    let mut rope = RetainedRope::new();
    register(&mut reg, "read", &mut rope);
    register(&mut reg, "write", &mut rope);
    register(&mut reg, "bash", &mut rope);

    let cap = allow(&["read", "bash"]);
    let view = reg.filter_tool_spans(&rope, &cap);
    assert_eq!(view.len(), 2);
    let ids: HashSet<&str> = view.iter().map(|s| s.id.as_str()).collect();
    assert!(ids.contains("tool-schema:read"));
    assert!(ids.contains("tool-schema:bash"));
}

#[test]
fn filter_tool_spans_excludes_stale_schema_spans() {
    let mut reg = ToolRegistry::<ToolSpec>::new();
    let mut rope = RetainedRope::new();
    register(&mut reg, "read", &mut rope);
    reg.unregister("read", &mut rope);
    rope.push(Span::new(
        "tool-schema:ghost".to_string(),
        SpanKind::ToolSchema,
        "{}".to_string(),
        RetentionClass::Hot,
    ));
    let cap = Capability::root();
    let view = reg.filter_tool_spans(&rope, &cap);
    assert!(
        view.is_empty(),
        "stale tool-schema span must not be projected"
    );
}

#[test]
fn attenuation_pointer_set_difference_is_observable() {
    let mut reg = ToolRegistry::<ToolSpec>::new();
    let mut rope = RetainedRope::new();
    register(&mut reg, "read", &mut rope);
    register(&mut reg, "write", &mut rope);
    register(&mut reg, "bash", &mut rope);

    let cap = allow(&["read"]);
    let all: HashSet<String> = reg.names().into_iter().map(String::from).collect();
    let allowed: HashSet<String> = reg
        .attenuated_names(&cap)
        .into_iter()
        .map(String::from)
        .collect();
    let denied: HashSet<String> = all.difference(&allowed).cloned().collect();
    assert_eq!(
        denied,
        HashSet::from(["write".to_string(), "bash".to_string()])
    );
}

#[test]
fn provenance_resolves_for_registered_tool() {
    let mut reg = ToolRegistry::<ToolSpec>::new();
    let mut rope = RetainedRope::new();
    register(&mut reg, "read", &mut rope);
    let prov = rope.provenance("tool-schema:read").expect("provenance");
    match prov {
        RopeEvent::ToolSchemaRegistered { tool_name, .. } => {
            assert_eq!(tool_name, "read");
        }
        other => panic!("expected ToolSchemaRegistered, got {other:?}"),
    }
}

#[test]
fn schemas_are_compact_json_with_sorted_members() {
    let mut spec = stub("say \"hi\"");
    spec.description = "a\nb".to_string();
    assert_eq!(
        serialize_schema(&spec),
        "{\"description\":\"a\\nb\",\"input_schema\":{\"properties\":{},\"required\":[],\"type\":\"object\"},\"name\":\"say \\\"hi\\\"\"}"
    );
    spec.input_schema = "{broken".to_string();
    assert!(serialize_schema(&spec).starts_with("<schema-serialize-error: "));
    assert_eq!(
        assemble_schema("\"n\"", "\"d\"", "{}"),
        "{\"description\":\"d\",\"input_schema\":{},\"name\":\"n\"}"
    );
}

#[test]
fn names_and_tools_come_in_order() {
    let mut reg = ToolRegistry::<ToolSpec>::new();
    let mut rope = RetainedRope::new();
    assert!(reg.is_empty());
    register(&mut reg, "write", &mut rope);
    register(&mut reg, "read", &mut rope);
    assert_eq!(reg.names(), vec!["read", "write"]);
    assert_eq!(reg.iter().len(), 2);
    assert!(reg.unregister("ghost", &mut rope).is_none());
}

#[test]
fn a_tool_under_two_names_comes_twice() {
    let mut reg = ToolRegistry::<u32>::new();
    let mut rope = RetainedRope::new();
    reg.register(7, &stub("write"), &mut rope);
    reg.register(7, &stub("append"), &mut rope);
    reg.register(3, &stub("read"), &mut rope);
    let permitted = allow(&["write", "read", "append"]);
    assert_eq!(reg.attenuated_names(&permitted), vec!["append", "read", "write"]);
    assert_eq!(reg.attenuate_with(&permitted), vec![&7, &3, &7]);
    assert_eq!(reg.attenuate_with(&allow(&["write"])), vec![&7]);
    assert_eq!(reg.iter(), vec![&7, &3, &7]);
}

#[test]
fn control_characters_are_escaped_in_schemas() {
    let mut spec = stub("n");
    spec.description = "\u{0}\u{8}\t\n\u{b}\u{c}\r\u{1f}\"\\/\u{7f}é".to_string();
    spec.input_schema = "1".to_string();
    assert_eq!(
        serialize_schema(&spec),
        "{\"description\":\"\\u0000\\b\\t\\n\\u000b\\f\\r\\u001f\\\"\\\\/\u{7f}é\",\"input_schema\":1,\"name\":\"n\"}"
    );
}
