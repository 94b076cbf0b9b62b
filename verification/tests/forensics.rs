use mu_core::event_log::TaskExitReason;
use mu_core::forensics::{
    classify_task, extract_claimed_files, matches_any_claim_pattern, CiStatus,
    ClassificationInputs, CommitInfo, Confidence, Outcome, PrInfo, TaskTelemetrySnapshot,
};

fn telemetry(exit: TaskExitReason) -> TaskTelemetrySnapshot {
    TaskTelemetrySnapshot {
        task_id: "task-00000000000000000001".to_owned(),
        session_id: "session-test".to_owned(),
        exit_reason: exit,
    }
}

#[test]
fn budget_halted_definite() {
    let t = telemetry(TaskExitReason::BudgetCap);
    let inputs = ClassificationInputs {
        telemetry: &t,
        commit: None,
        pr: None,
    };
    let c = classify_task(&inputs);
    assert_eq!(c.outcome, Outcome::BudgetHalted);
    assert_eq!(c.confidence, Confidence::Definite);
}

#[test]
fn error_exit_definite() {
    let t = telemetry(TaskExitReason::Error);
    let c = classify_task(&ClassificationInputs {
        telemetry: &t,
        commit: None,
        pr: None,
    });
    assert_eq!(c.outcome, Outcome::ErrorExit);
    assert_eq!(c.confidence, Confidence::Definite);
}

#[test]
fn timeout_definite() {
    let t = telemetry(TaskExitReason::Timeout);
    let c = classify_task(&ClassificationInputs {
        telemetry: &t,
        commit: None,
        pr: None,
    });
    assert_eq!(c.outcome, Outcome::Timeout);
    assert_eq!(c.confidence, Confidence::Definite);
}

#[test]
fn cancelled_maps_to_operator_intervention() {
    let t = telemetry(TaskExitReason::Cancelled);
    let c = classify_task(&ClassificationInputs {
        telemetry: &t,
        commit: None,
        pr: None,
    });
    assert_eq!(c.outcome, Outcome::OperatorIntervention);
    assert_eq!(c.confidence, Confidence::Definite);
}

#[test]
fn operator_stopped_maps_to_operator_intervention() {
    let t = telemetry(TaskExitReason::OperatorStopped);
    let c = classify_task(&ClassificationInputs {
        telemetry: &t,
        commit: None,
        pr: None,
    });
    assert_eq!(c.outcome, Outcome::OperatorIntervention);
}

#[test]
fn done_with_no_commit_is_narrative_no_action_definite() {
    let t = telemetry(TaskExitReason::Done);
    let c = classify_task(&ClassificationInputs {
        telemetry: &t,
        commit: None,
        pr: None,
    });
    assert_eq!(c.outcome, Outcome::NarrativeNoAction);
    assert_eq!(c.confidence, Confidence::Definite);
}

#[test]
fn done_with_empty_diff_is_narrative_no_action_probable() {
    let t = telemetry(TaskExitReason::Done);
    let commit = CommitInfo {
        sha: "abc123".to_owned(),
        message: "did the work".to_owned(),
        diff_files: vec![],
    };
    let c = classify_task(&ClassificationInputs {
        telemetry: &t,
        commit: Some(&commit),
        pr: None,
    });
    assert_eq!(c.outcome, Outcome::NarrativeNoAction);
    assert_eq!(c.confidence, Confidence::Probable);
}

#[test]
fn done_with_pr_claim_that_does_not_exist_is_lying_state() {
    let t = telemetry(TaskExitReason::Done);
    let commit = CommitInfo {
        sha: "def456".to_owned(),
        message: "feat(x): mu-foo".to_owned(),
        diff_files: vec!["crates/mu-core/src/x.rs".to_owned()],
    };
    let pr = PrInfo {
        claimed_number: Some(42),
        exists_on_origin: Some(false),
        ci: None,
    };
    let c = classify_task(&ClassificationInputs {
        telemetry: &t,
        commit: Some(&commit),
        pr: Some(&pr),
    });
    assert_eq!(c.outcome, Outcome::LyingState);
    assert_eq!(c.confidence, Confidence::Definite);
    assert!(c.rationale.contains("42"));
}

#[test]
fn done_with_commit_claiming_unchanged_files_is_hollow() {
    let t = telemetry(TaskExitReason::Done);
    let commit = CommitInfo {
        sha: "ghi789".to_owned(),
        message: "feat: added crates/mu-core/src/new_thing.rs and specs/mu-999-fake.md"
            .to_owned(),
        diff_files: vec!["README.md".to_owned()],
    };
    let c = classify_task(&ClassificationInputs {
        telemetry: &t,
        commit: Some(&commit),
        pr: None,
    });
    assert_eq!(c.outcome, Outcome::HollowCommit);
    assert_eq!(c.confidence, Confidence::Probable);
    assert!(
        c.rationale.contains("new_thing.rs") || c.rationale.contains("mu-999"),
        "rationale should name the missing files: {}",
        c.rationale
    );
}

#[test]
fn commit_with_claims_all_present_is_not_hollow() {
    let t = telemetry(TaskExitReason::Done);
    let commit = CommitInfo {
        sha: "jkl012".to_owned(),
        message: "feat: edits crates/mu-core/src/x.rs".to_owned(),
        diff_files: vec!["crates/mu-core/src/x.rs".to_owned()],
    };
    let c = classify_task(&ClassificationInputs {
        telemetry: &t,
        commit: Some(&commit),
        pr: None,
    });
    assert_eq!(c.outcome, Outcome::Unclassified);
}

#[test]
fn done_with_ci_green_is_clean_success() {
    let t = telemetry(TaskExitReason::Done);
    let commit = CommitInfo {
        sha: "mno345".to_owned(),
        message: "feat: crates/mu-core/src/x.rs".to_owned(),
        diff_files: vec!["crates/mu-core/src/x.rs".to_owned()],
    };
    let pr = PrInfo {
        claimed_number: Some(99),
        exists_on_origin: Some(true),
        ci: Some(CiStatus {
            fmt_pass: true,
            clippy_pass: true,
            test_pass: true,
        }),
    };
    let c = classify_task(&ClassificationInputs {
        telemetry: &t,
        commit: Some(&commit),
        pr: Some(&pr),
    });
    assert_eq!(c.outcome, Outcome::CleanSuccess);
    assert_eq!(c.confidence, Confidence::Definite);
}

#[test]
fn done_with_fmt_only_fail_is_cosmetic_failure() {
    let t = telemetry(TaskExitReason::Done);
    let commit = CommitInfo {
        sha: "pqr678".to_owned(),
        message: "feat: crates/mu-core/src/x.rs".to_owned(),
        diff_files: vec!["crates/mu-core/src/x.rs".to_owned()],
    };
    let pr = PrInfo {
        claimed_number: None,
        exists_on_origin: None,
        ci: Some(CiStatus {
            fmt_pass: false,
            clippy_pass: true,
            test_pass: true,
        }),
    };
    let c = classify_task(&ClassificationInputs {
        telemetry: &t,
        commit: Some(&commit),
        pr: Some(&pr),
    });
    assert_eq!(c.outcome, Outcome::CosmeticFailure);
}

#[test]
fn done_with_test_fail_is_bug_in_output() {
    let t = telemetry(TaskExitReason::Done);
    let commit = CommitInfo {
        sha: "stu901".to_owned(),
        message: "feat: crates/mu-core/src/x.rs".to_owned(),
        diff_files: vec!["crates/mu-core/src/x.rs".to_owned()],
    };
    let pr = PrInfo {
        claimed_number: None,
        exists_on_origin: None,
        ci: Some(CiStatus {
            fmt_pass: true,
            clippy_pass: true,
            test_pass: false,
        }),
    };
    let c = classify_task(&ClassificationInputs {
        telemetry: &t,
        commit: Some(&commit),
        pr: Some(&pr),
    });
    assert_eq!(c.outcome, Outcome::BugInOutput);
    assert!(c.rationale.contains("test_pass=false"));
}

#[test]
fn done_with_clippy_fail_is_bug_in_output() {
    let t = telemetry(TaskExitReason::Done);
    let commit = CommitInfo {
        sha: "vwx234".to_owned(),
        message: "refactor: crates/mu-core/src/x.rs".to_owned(),
        diff_files: vec!["crates/mu-core/src/x.rs".to_owned()],
    };
    let pr = PrInfo {
        claimed_number: None,
        exists_on_origin: None,
        ci: Some(CiStatus {
            fmt_pass: true,
            clippy_pass: false,
            test_pass: true,
        }),
    };
    let c = classify_task(&ClassificationInputs {
        telemetry: &t,
        commit: Some(&commit),
        pr: Some(&pr),
    });
    assert_eq!(c.outcome, Outcome::BugInOutput);
}

#[test]
fn claim_parser_extracts_crate_rs_files() {
    let msg = "Added crates/mu-core/src/foo.rs and crates/mu-ai/tests/bar.rs";
    let found = extract_claimed_files(msg);
    assert!(found.contains(&"crates/mu-core/src/foo.rs".to_owned()));
    assert!(found.contains(&"crates/mu-ai/tests/bar.rs".to_owned()));
}

#[test]
fn claim_parser_extracts_spec_md() {
    let msg = "See specs/mu-040-telemetry-substrate.md for context.";
    let found = extract_claimed_files(msg);
    assert_eq!(found, vec!["specs/mu-040-telemetry-substrate.md"]);
}

#[test]
fn claim_parser_handles_backticks_and_quotes() {
    let msg = "Touched `crates/mu-core/src/x.rs` and 'specs/mu-041-forensics-classifier.md'";
    let found = extract_claimed_files(msg);
    assert!(found.contains(&"crates/mu-core/src/x.rs".to_owned()));
    assert!(found.contains(&"specs/mu-041-forensics-classifier.md".to_owned()));
}

#[test]
fn claim_parser_dedups() {
    let msg = "crates/x/src/a.rs and crates/x/src/a.rs again";
    let found = extract_claimed_files(msg);
    assert_eq!(found.len(), 1);
}

#[test]
fn claim_parser_skips_prose() {
    let msg = "Refactored the parser to be cleaner; no new files.";
    let found = extract_claimed_files(msg);
    assert!(found.is_empty());
}

#[test]
fn claim_parser_recognizes_toplevel_files() {
    let msg = "Updated justfile and README.md plus Cargo.toml";
    let found = extract_claimed_files(msg);
    assert!(found.contains(&"justfile".to_owned()));
    assert!(found.contains(&"README.md".to_owned()));
    assert!(found.contains(&"Cargo.toml".to_owned()));
}

#[test]
fn claim_patterns_need_a_directory_and_an_extension() {
    assert!(matches_any_claim_pattern("crates/a/src/b.rs"));
    assert!(matches_any_claim_pattern("crates/a/tests/b.rs"));
    assert!(!matches_any_claim_pattern("crates/a/benches/b.rs"));
    assert!(!matches_any_claim_pattern("crates/b.rs"));
    assert!(!matches_any_claim_pattern("src/b.rs"));
}

#[test]
fn ci_status_tells_formatting_apart() {
    let fmt = CiStatus {
        fmt_pass: false,
        clippy_pass: true,
        test_pass: true,
    };
    assert!(fmt.fmt_only_fail());
    assert!(!fmt.all_pass());
}
