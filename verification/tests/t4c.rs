use mu_core::agent::{PermissionLevel, RetryPolicy, SideEffects, ToolPolicy, ToolSpec};
use mu_core::capability::Capability;
use mu_core::context::rope::RetainedRope;
use mu_core::double::Double;
use mu_core::t4c_source::{
    build_manifest_for, capability_for, discover_view_constrained, effects_from_policy, tokenize,
    Effects, FsEffect, MuRegistrySource, RankedCapability,
};
use mu_core::tool_registry::ToolRegistry;

fn paths(names: &[&str]) -> Vec<String> {
    names.iter().map(|s| s.to_string()).collect()
}

fn some(s: &str) -> Option<String> {
    Some(s.to_string())
}

fn ranked(path: &str, summary: &str, reason: Option<&str>) -> RankedCapability {
    RankedCapability {
        path: path.to_string(),
        summary: summary.to_string(),
        keywords: paths(&["file"]),
        score: Double { bits: 1.5_f64.to_bits() },
        effects: None,
        disallowed_reason: reason.map(|s| s.to_string()),
        source: some("test"),
    }
}

#[test]
fn tool_maps_under_tool_prefix_with_when_keywords() {
    let c = capability_for(
        "tool",
        "code_recall",
        "semantic + lexical code search",
        &some("when you need to find where something is implemented"),
        None,
        &paths(&["tool.code_recall"]),
    )
    .expect("valid path");
    assert_eq!(c.path, "tool.code_recall");
    assert_eq!(c.summary, "semantic + lexical code search");
    assert!(c.keywords.contains(&"code".to_string()));
    assert!(c.keywords.contains(&"recall".to_string()));
    assert!(c.keywords.contains(&"implemented".to_string()));
}

#[test]
fn skill_maps_under_skill_prefix_and_splits_hyphens() {
    let c = capability_for(
        "skill",
        "freebsd-jails",
        "jail + pot architecture",
        &None,
        None,
        &paths(&["skill.freebsd-jails"]),
    )
    .expect("valid path");
    assert_eq!(c.path, "skill.freebsd-jails");
    assert!(c.keywords.contains(&"freebsd".to_string()));
    assert!(c.keywords.contains(&"jails".to_string()));
    assert!(c.effects.is_none());
}

#[test]
fn empty_description_falls_back_to_name() {
    let c = capability_for("tool", "bash", "", &None, None, &paths(&["tool.bash"]))
        .expect("valid path");
    assert_eq!(c.summary, "bash");
}

#[test]
fn unparseable_name_is_skipped_not_fatal() {
    assert!(capability_for("tool", "", "x", &None, None, &paths(&["tool.bash"])).is_none());
}

#[test]
fn words_are_lower_case_runs_of_letters_and_digits() {
    assert_eq!(tokenize("Find ÄPFEL_in v2-Code!"), vec!["find", "äpfel", "in", "v2", "code"]);
    assert!(tokenize("--- !").is_empty());
}

#[test]
fn policy_projects_side_effects_onto_the_right_axis() {
    let ro = effects_from_policy(&ToolPolicy::default());
    assert_eq!(ro.filesystem, FsEffect::Read);
    assert!(!ro.network && !ro.vcs && !ro.spend);
    let mutating = effects_from_policy(&ToolPolicy {
        side_effects: SideEffects::Mutating,
        permission: PermissionLevel::Allow,
        retry: RetryPolicy::ModelDecides,
        required_aws_capability: None,
        idempotent: false,
    });
    assert_eq!(mutating.filesystem, FsEffect::Write);
    let aws = effects_from_policy(&ToolPolicy {
        side_effects: SideEffects::ReadOnly,
        permission: PermissionLevel::Allow,
        retry: RetryPolicy::ModelDecides,
        required_aws_capability: Some("ec2:DescribeInstances".to_string()),
        idempotent: true,
    });
    assert!(aws.network && aws.spend);
}

#[test]
fn discover_view_projects_serializable_dtos_and_respects_limit() {
    let all = vec![
        ranked("tool.code_recall", "semantic code search", None),
        ranked("tool.grep", "line search", None),
    ];
    let views = discover_view_constrained(&all, 1);
    assert_eq!(views.len(), 1, "limit honored");
    assert_eq!(views[0].path, "tool.code_recall");
    assert!(!views[0].summary.is_empty());
    assert!(views[0].allowed_by_session);
    assert_eq!(views[0].source.as_deref(), Some("test"));
    assert_eq!(discover_view_constrained(&all, 10).len(), 2);
}

#[test]
fn read_only_session_marks_a_writer_disallowed_but_keeps_it_in_results() {
    let all = vec![
        ranked("tool.read", "read a file from disk", None),
        ranked("tool.write", "write a file to disk", Some("session is read-only")),
    ];
    let views = discover_view_constrained(&all, 10);
    let w = views
        .iter()
        .find(|v| v.path == "tool.write")
        .expect("writer present in results");
    assert!(!w.allowed_by_session);
    assert!(w.disallowed_reason.is_some());

    let r = views
        .iter()
        .find(|v| v.path == "tool.read")
        .expect("reader present");
    assert!(r.allowed_by_session);
    assert!(r.disallowed_reason.is_none());
}

#[test]
fn manifests_hold_only_permitted_tools() {
    let spec = |name: &str| ToolSpec {
        name: name.to_string(),
        description: format!("does {name}"),
        when: None,
        input_schema: "{}".to_string(),
        policy: ToolPolicy::default(),
    };
    let mut registry = ToolRegistry::new();
    let mut rope = RetainedRope::new();
    registry.register(spec("read"), &spec("read"), &mut rope);
    registry.register(spec("write"), &spec("write"), &mut rope);
    let cap = Capability { allowed_tools: Some(paths(&["read"])) };
    let m = build_manifest_for(&registry, &cap, &Vec::new(), &paths(&["tool.read", "tool.write"]));
    assert_eq!(m.tools.len(), 1);
    assert_eq!(m.tools.caps[0].path, "tool.read");
    assert_eq!(
        m.tools.caps[0].effects,
        Some(Effects { filesystem: FsEffect::Read, network: false, vcs: false, spend: false })
    );
    assert!(m.skills.is_empty());
    let none = MuRegistrySource::from_skills(&Vec::new(), &Vec::new());
    assert_eq!(none.name, "mu-skills");
}
