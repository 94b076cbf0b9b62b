use mu_core::hooks::{
    cap_output, deny_given, deny_reason, expand_leading_tilde, passed_variables, post_tool_payload,
    pre_tool_payload, session_start_payload, skipped_entries, stop_payload, GateStep, HookEngine, HookEntry,
    HookEntryConfig, HookEventKind, HooksConfig, RunOutput, SkipReason, DEFAULT_TIMEOUT_MS,
};

fn engine_of(entries: Vec<HookEntryConfig>) -> HookEngine {
    HookEngine::from_config(
        &HooksConfig {
            enabled: true,
            entries,
        },
        None,
    )
    .expect("engine")
}

fn entry(event: &str, matcher: Option<&str>, command: &str) -> HookEntryConfig {
    HookEntryConfig {
        event: event.to_owned(),
        matcher: matcher.map(str::to_owned),
        command: command.to_owned(),
        timeout_ms: None,
    }
}

fn ran(code: i32, stdout: &str, stderr: &str) -> RunOutput {
    RunOutput::ended(Some(code), stdout.as_bytes(), stderr.as_bytes())
}

fn decide(engine: &HookEngine, tool: &str, outputs: &[RunOutput]) -> Option<String> {
    let mut step = engine.gate_begin(tool);
    loop {
        match step {
            GateStep::Run { index } => step = engine.gate_continue(tool, index, &outputs[index]),
            GateStep::Finished { deny } => return deny,
        }
    }
}

#[test]
fn disabled_or_empty_config_yields_no_engine() {
    assert!(HookEngine::from_config(&HooksConfig {
        enabled: false,
        entries: vec![entry("PreToolUse", None, "true")],
    }, None)
    .is_none());
    assert!(HookEngine::from_config(&HooksConfig {
        enabled: true,
        entries: vec![],
    }, None)
    .is_none());
}

#[test]
fn unknown_event_names_are_skipped() {
    assert!(HookEngine::from_config(&HooksConfig {
        enabled: true,
        entries: vec![entry("UserPromptSubmit", None, "true")],
    }, None)
    .is_none());
}

#[test]
fn matcher_semantics() {
    let e = HookEntry {
        event: HookEventKind::PreToolUse,
        matcher: Some("mcp_*".to_owned()),
        command: "true".to_owned(),
        timeout_ms: DEFAULT_TIMEOUT_MS,
    };
    assert!(e.matches_tool("mcp_code_recall"));
    assert!(!e.matches_tool("bash"));
    let exact = HookEntry {
        event: HookEventKind::PreToolUse,
        matcher: Some("bash".to_owned()),
        command: "true".to_owned(),
        timeout_ms: DEFAULT_TIMEOUT_MS,
    };
    assert!(exact.matches_tool("bash"));
    assert!(!exact.matches_tool("bash2"));
    let all = HookEntry { matcher: None, ..e };
    assert!(all.matches_tool("anything"));
}

#[test]
fn listens_reports_configured_events() {
    let engine = engine_of(vec![entry("Stop", None, "true")]);
    assert!(engine.listens(HookEventKind::Stop));
    assert!(!engine.listens(HookEventKind::PreToolUse));
}

#[test]
fn gate_allows_on_exit_zero() {
    let engine = engine_of(vec![entry("PreToolUse", None, "cat >/dev/null; exit 0")]);
    assert!(decide(&engine, "bash", &[ran(0, "", "")]).is_none());
}

#[test]
fn gate_denies_on_exit_two_with_stderr_reason() {
    let engine = engine_of(vec![entry("PreToolUse", None, "guard")]);
    let deny = decide(&engine, "bash", &[ran(2, "", "nope: forbidden\n")]).expect("denied");
    assert_eq!(deny, "denied by hook `guard`: nope: forbidden");
    let silent = decide(&engine, "bash", &[ran(2, "", "  \n")]).expect("denied");
    assert_eq!(silent, "denied by hook `guard` (exit 2)");
}

#[test]
fn gate_denies_on_stdout_json_decision() {
    let engine = engine_of(vec![entry("PreToolUse", None, "guard")]);
    let deny = decide(
        &engine,
        "edit",
        &[ran(
            0,
            "{\"decision\":\"deny\",\"reason\":\"policy says no\"}\n",
            "",
        )],
    )
    .expect("denied");
    assert!(deny.contains("policy says no"), "got: {deny}");
    let bare = decide(&engine, "edit", &[ran(0, "{\"decision\":\"deny\"}", "")]);
    assert_eq!(
        bare.as_deref(),
        Some("denied by hook `guard`: no reason given")
    );
    assert!(decide(&engine, "edit", &[ran(0, "{\"decision\":\"allow\"}", "")]).is_none());
    assert!(decide(&engine, "edit", &[ran(0, "{\"decision\":7}", "")]).is_none());
}

#[test]
fn gate_fails_open_on_other_exit_codes_and_missing_command() {
    let engine = engine_of(vec![
        entry("PreToolUse", None, "cat >/dev/null; exit 1"),
        entry("PreToolUse", None, "/nonexistent/hook-script"),
    ]);
    assert!(decide(&engine, "bash", &[ran(1, "", "no"), RunOutput::failed()]).is_none());
}

#[test]
fn gate_fails_open_on_timeout() {
    let engine = engine_of(vec![entry("PreToolUse", None, "sleep 5")]);
    assert!(decide(&engine, "bash", &[RunOutput::expired()]).is_none());
}

#[test]
fn gate_respects_tool_matcher() {
    let engine = engine_of(vec![entry("PreToolUse", Some("bash"), "exit 2")]);
    assert!(decide(&engine, "edit", &[ran(2, "", "")]).is_none());
    assert!(decide(&engine, "bash", &[ran(2, "", "")]).is_some());
}

#[test]
fn the_first_denial_decides() {
    let engine = engine_of(vec![
        entry("Stop", None, "other"),
        entry("PreToolUse", None, "first"),
        entry("PreToolUse", Some("mcp_*"), "second"),
        entry("PreToolUse", None, "third"),
    ]);
    let outs = [
        RunOutput::failed(),
        ran(0, "", ""),
        ran(2, "", "skipped"),
        ran(2, "", "late"),
    ];
    assert_eq!(
        decide(&engine, "bash", &outs).as_deref(),
        Some("denied by hook `third`: late")
    );
    assert_eq!(
        decide(&engine, "mcp_x", &outs).as_deref(),
        Some("denied by hook `second`: skipped")
    );
}

#[test]
fn payloads_are_compact_json() {
    assert_eq!(
        pre_tool_payload("bash", "{\"command\":\"ls -la\"}"),
        "{\"hook_event_name\":\"PreToolUse\",\"tool_input\":{\"command\":\"ls -la\"},\"tool_name\":\"bash\"}"
    );
    assert_eq!(
        session_start_payload("s\"1", "/tmp"),
        "{\"cwd\":\"/tmp\",\"hook_event_name\":\"SessionStart\",\"session_id\":\"s\\\"1\"}"
    );
    assert_eq!(
        stop_payload("end_turn", 3),
        "{\"hook_event_name\":\"Stop\",\"stop_reason\":\"end_turn\",\"turn_count\":3}"
    );
    let post = post_tool_payload("bash", None, "ok", true);
    assert_eq!(
        post,
        "{\"hook_event_name\":\"PostToolUse\",\"tool_input\":null,\"tool_name\":\"bash\",\"tool_response\":{\"content\":\"ok\",\"content_truncated\":false,\"is_error\":true}}"
    );
    let long = "é".repeat(5000);
    let post = post_tool_payload("bash", Some("{}".to_string()), &long, false);
    assert!(post.contains("\"content_truncated\":true"));
    assert!(post.contains(&format!("\"content\":\"{}\"", "é".repeat(4096))));
    let whole = "é".repeat(4096);
    let post = post_tool_payload("bash", None, &whole, false);
    assert!(post.contains("\"content_truncated\":false"));
    assert!(post.contains(&format!("\"content\":\"{whole}\"")));
}

#[test]
fn output_is_capped_at_a_character() {
    let mut bytes = vec![b'a'; 16383];
    bytes.extend("é".as_bytes());
    assert_eq!(cap_output(&bytes).len(), 16383);
    assert_eq!(cap_output(&[b'x', 0xff]), "x\u{fffd}");
    assert_eq!(cap_output(&vec![b'a'; 20000]).len(), 16384);
}

#[test]
fn home_is_expanded_only_in_front() {
    assert_eq!(expand_leading_tilde("~/x.sh", Some("/home/u")), "/home/u/x.sh");
    assert_eq!(expand_leading_tilde("~/x.sh", None), "~/x.sh");
    assert_eq!(expand_leading_tilde("ls ~/x", Some("/home/u")), "ls ~/x");
}

#[test]
fn entries_keep_their_settings() {
    let mut e = entry("PostToolUse", Some("bash"), "~/log");
    e.timeout_ms = Some(7);
    let engine = HookEngine::from_config(
        &HooksConfig {
            enabled: true,
            entries: vec![entry("Stop", None, "   "), e],
        },
        Some("/h"),
    )
    .expect("engine");
    assert_eq!(engine.entries().len(), 1);
    let hook = &engine.entries()[0];
    assert_eq!(hook.command, "/h/log");
    assert_eq!(hook.timeout_ms, 7);
    assert_eq!(
        engine
            .observers(HookEventKind::PostToolUse, Some("bash"))
            .len(),
        1
    );
    assert!(engine
        .observers(HookEventKind::PostToolUse, Some("edit"))
        .is_empty());
    assert_eq!(engine.observers(HookEventKind::PostToolUse, None).len(), 1);
}

#[test]
fn event_names_read_back() {
    for kind in [
        HookEventKind::SessionStart,
        HookEventKind::PreToolUse,
        HookEventKind::PostToolUse,
        HookEventKind::Stop,
    ] {
        assert_eq!(HookEventKind::parse(kind.name()), Some(kind));
    }
    assert_eq!(
        passed_variables(),
        vec!["PATH", "HOME", "USER", "LANG", "TMPDIR"]
    );
}

#[test]
fn reasons_are_cut_to_their_first_characters() {
    let hook = HookEntry {
        event: HookEventKind::PreToolUse,
        matcher: None,
        command: "g".to_owned(),
        timeout_ms: DEFAULT_TIMEOUT_MS,
    };
    let reason = deny_reason(&hook, &ran(2, "", &"x".repeat(600))).expect("denied");
    assert_eq!(reason.len(), "denied by hook `g`: ".len() + 512);
    assert_eq!(
        deny_given("g", &ran(0, "", ""), Some("deny"), Some("why")).as_deref(),
        Some("denied by hook `g`: why")
    );
    assert!(deny_given("g", &RunOutput::expired(), Some("deny"), None).is_none());
}

#[test]
fn skipped_entries_are_listed_with_their_reasons() {
    let mut cfg = HooksConfig {
        enabled: true,
        entries: vec![
            entry("Nonsense", None, ""),
            entry("Stop", None, "true"),
            entry("PreToolUse", None, "  \t"),
        ],
    };
    assert_eq!(
        skipped_entries(&cfg),
        vec![(0, SkipReason::UnknownEvent), (2, SkipReason::EmptyCommand)]
    );
    assert_eq!(
        SkipReason::UnknownEvent.message(),
        "hooks: unknown event name; entry skipped (expected SessionStart|PreToolUse|PostToolUse|Stop)"
    );
    assert_eq!(SkipReason::EmptyCommand.message(), "hooks: empty command; entry skipped");
    cfg.enabled = false;
    assert!(skipped_entries(&cfg).is_empty());
}
