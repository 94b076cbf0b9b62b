use mu_core::context::rope::{RetentionClass, SpanKind};
use mu_core::skill::loader::{
    default_search_dirs, discover_skills, is_reference_file, load_skill_dir, parse_skill_md, tool_skills_dir,
    read_error, reference_files, split_skill_md, LoadError, LoadedSkill, SkillFrontmatter,
};

/// Reads the frontmatter of a `SKILL.md` with the YAML parser.
fn frontmatter_of(content: &str) -> Result<SkillFrontmatter, String> {
    let (yaml, _) = split_skill_md(content).ok_or("no frontmatter")?;
    let value: serde_yaml::Value = serde_yaml::from_str(yaml).map_err(|e| e.to_string())?;
    let text = |key: &str| value.get(key).and_then(|v| v.as_str()).map(|s| s.to_string());
    Ok(SkillFrontmatter {
        name: text("name").ok_or("missing field `name`")?,
        description: text("description").ok_or("missing field `description`")?,
        when_to_use: text("when_to_use"),
        status: text("status"),
        disable_model_invocation: value
            .get("disable-model-invocation")
            .and_then(|v| v.as_bool())
            .unwrap_or(false),
        paths: Vec::new(),
        runtime: Vec::new(),
    })
}

fn parse(content: &str) -> Result<(SkillFrontmatter, String), LoadError> {
    parse_skill_md(content, "test.md", frontmatter_of(content))
}

fn skill_md(name: &str, body: &str) -> String {
    format!("---\nname: {name}\ndescription: test skill {name}\n---\n\n{body}\n")
}

fn load(dir: &str, name: &str, body: &str, refs: &[(&str, &str)]) -> LoadedSkill {
    let content = skill_md(name, body);
    let refs: Vec<(String, String)> =
        refs.iter().map(|r| (r.0.to_string(), r.1.to_string())).collect();
    load_skill_dir(dir, &content, frontmatter_of(&content), &refs).unwrap()
}

#[test]
fn parse_simple_frontmatter() {
    let content = "---\nname: review\ndescription: code review\n---\n\n# Body\nHello.\n";
    let (fm, body) = parse(content).unwrap();
    assert_eq!(fm.name, "review");
    assert_eq!(fm.description, "code review");
    assert!(body.starts_with("# Body"));
    assert!(!fm.disable_model_invocation);
}

#[test]
fn parse_multiline_description() {
    let content = "---\nname: goal\ndescription: >-\n  Set up a goal-driven\n  autonomous session.\n---\n\nBody here.\n";
    let (fm, body) = parse(content).unwrap();
    assert_eq!(fm.name, "goal");
    assert!(fm.description.contains("goal-driven"));
    assert_eq!(body, "Body here.\n");
}

#[test]
fn parse_disable_model_invocation() {
    let content = "---\nname: secret\ndescription: hidden\ndisable-model-invocation: true\n---\n\nBody.\n";
    let (fm, _) = parse(content).unwrap();
    assert!(fm.disable_model_invocation);
}

#[test]
fn missing_frontmatter_errors() {
    let content = "# Just markdown\n\nNo frontmatter here.\n";
    let err = parse(content).unwrap_err();
    assert!(matches!(err, LoadError::NoFrontmatter(_)));
    assert_eq!(err.message(), "no YAML frontmatter (missing --- delimiters) in test.md");
}

#[test]
fn unclosed_frontmatter_errors() {
    let err = parse("---\nname: x\n").unwrap_err();
    assert_eq!(err, LoadError::NoFrontmatter("test.md".to_string()));
}

#[test]
fn broken_yaml_is_its_own_error() {
    let content = "---\nname: [\n---\nBody\n";
    let err = parse(content).unwrap_err();
    match &err {
        LoadError::Yaml { path, .. } => assert_eq!(path, "test.md"),
        other => panic!("{other:?}"),
    }
    assert!(err.message().starts_with("YAML parse error in test.md: "));
}

#[test]
fn splitting_skips_leading_blanks_and_line_breaks() {
    assert_eq!(
        split_skill_md("\n  ---\nname: x\n---\n\n\n  body\n"),
        Some(("\nname: x", "  body\n"))
    );
    assert_eq!(split_skill_md("name: x\n---\n"), None);
}

#[test]
fn unreadable_skill_files_are_told_apart() {
    assert_eq!(read_error("d/s", true, "gone"), LoadError::NoSkillFile("d/s".to_string()));
    assert_eq!(read_error("d/s", true, "gone").message(), "SKILL.md not found in d/s");
    assert_eq!(
        read_error("d/s", false, "denied").message(),
        "I/O error reading d/s/SKILL.md: denied"
    );
}

#[test]
fn load_skill_dir_body_and_refs() {
    let names = vec!["recovery-b.md".to_string(), "not-md.txt".to_string(), "recovery-a.md".to_string()];
    assert_eq!(reference_files(&names), vec!["recovery-a.md", "recovery-b.md"]);
    let loaded = load(
        "tmp/jj-runbook",
        "jj-runbook",
        "# jj recovery",
        &[
            ("recovery-a.md", "Recovery A content"),
            ("recovery-b.md", "Recovery B content"),
        ],
    );
    assert_eq!(loaded.frontmatter.name, "jj-runbook");
    assert_eq!(loaded.skill.id, "jj-runbook");
    assert_eq!(loaded.skill.spans.len(), 3);
    assert_eq!(loaded.skill.spans[0].id(), "skill:jj-runbook:SKILL.md");
    assert_eq!(
        loaded.skill.spans[1].id(),
        "skill:jj-runbook:references/recovery-a.md"
    );
    assert_eq!(
        loaded.skill.spans[2].id(),
        "skill:jj-runbook:references/recovery-b.md"
    );
    assert_eq!(loaded.source_dir, "tmp/jj-runbook");
    for span in &loaded.skill.spans {
        assert!(matches!(span.kind(), SpanKind::SkillActivation));
        assert_eq!(span.retention(), RetentionClass::Pinned);
    }
}

#[test]
fn load_skill_dir_no_refs() {
    let loaded = load("tmp/postmortem", "postmortem", "# Template", &[]);
    assert_eq!(loaded.skill.spans.len(), 1);
}

#[test]
fn load_skill_dir_without_a_body_has_no_body_span() {
    let content = "---\nname: x\ndescription: y\n---\n";
    let loaded = load_skill_dir("d/x", content, frontmatter_of(content), &Vec::new()).unwrap();
    assert_eq!(loaded.skill.spans.len(), 0);
}

#[test]
fn reference_files_need_a_stem() {
    assert!(is_reference_file("a.md"));
    assert!(!is_reference_file(".md"));
    assert!(!is_reference_file("a.MD"));
    assert!(!is_reference_file("a.md.bak"));
}

#[test]
fn discover_deduplicates_first_wins() {
    let found = vec![
        load("project/review", "review", "# Project review", &[]),
        load("user/review", "review", "# User review (shadowed)", &[]),
        load("user/postmortem", "postmortem", "# User postmortem", &[]),
    ];
    let skills = discover_skills(found);
    assert_eq!(skills.len(), 2);

    let review = skills.iter().find(|s| s.frontmatter.name == "review").unwrap();
    assert_eq!(review.source_dir, "project/review");

    let pm = skills.iter().find(|s| s.frontmatter.name == "postmortem").unwrap();
    assert_eq!(pm.source_dir, "user/postmortem");
    assert_eq!(skills[0].frontmatter.name, "postmortem");
}

#[test]
fn discovery_of_nothing_is_empty() {
    assert!(discover_skills(Vec::new()).is_empty());
}

#[test]
fn search_dirs_run_from_project_to_shared() {
    assert_eq!(
        default_search_dirs(Some("/p"), Some("/c"), Some("/h"), "other"),
        vec!["/p/.mu/skills", "/c/mu/skills", "/h/.other-personal/skills"]
    );
    assert_eq!(default_search_dirs(None, Some("/c"), None, "other"), vec!["/c/mu/skills"]);
    assert_eq!(tool_skills_dir("/h/", "other"), "/h/.other-personal/skills");
}
