use mu_core::context::event::RopeEvent;
use mu_core::context::rope::{RetainedRope, RetentionClass, Span, SpanKind};
use mu_core::skill::{Skill, SkillError, SkillManager};

fn skill_with_two_files(id: &str) -> Skill {
    Skill::new(
        id.to_string(),
        vec![
            Span::new(
                format!("skill:{id}:SKILL.md"),
                SpanKind::SkillActivation,
                "skill body".to_string(),
                RetentionClass::Pinned,
            ),
            Span::new(
                format!("skill:{id}:references/stop-criteria.md"),
                SpanKind::SkillActivation,
                "stop criteria body".to_string(),
                RetentionClass::Pinned,
            ),
        ],
    )
}

#[test]
fn activate_pushes_spans_into_rope() {
    let mut mgr = SkillManager::new();
    let mut rope = RetainedRope::new();
    mgr.register(skill_with_two_files("goal-protocol"));
    mgr.activate("goal-protocol", &mut rope)
        .expect("activate ok");
    assert_eq!(rope.len(), 2);
    assert!(mgr.is_active("goal-protocol"));
    assert_eq!(mgr.active_count(), 1);
}

#[test]
fn activate_unknown_skill_errors() {
    let mut mgr = SkillManager::new();
    let mut rope = RetainedRope::new();
    let err = mgr.activate("nope", &mut rope).expect_err("should error");
    assert_eq!(err, SkillError::NotRegistered("nope".into()));
    assert!(rope.is_empty());
}

#[test]
fn double_activate_errors_without_double_pushing() {
    let mut mgr = SkillManager::new();
    let mut rope = RetainedRope::new();
    mgr.register(skill_with_two_files("review"));
    mgr.activate("review", &mut rope).expect("first activate");
    let err = mgr
        .activate("review", &mut rope)
        .expect_err("second errors");
    assert_eq!(err, SkillError::AlreadyActive("review".into()));
    assert_eq!(rope.len(), 2);
}

#[test]
fn deactivate_drops_spans_and_clears_active() {
    let mut mgr = SkillManager::new();
    let mut rope = RetainedRope::new();
    mgr.register(skill_with_two_files("goal-protocol"));
    mgr.activate("goal-protocol", &mut rope).unwrap();
    mgr.deactivate("goal-protocol", &mut rope)
        .expect("deactivate ok");
    assert!(rope.is_empty());
    assert!(!mgr.is_active("goal-protocol"));
    assert!(mgr.is_registered("goal-protocol"));
}

#[test]
fn deactivate_not_active_errors() {
    let mut mgr = SkillManager::new();
    let mut rope = RetainedRope::new();
    mgr.register(skill_with_two_files("review"));
    let err = mgr.deactivate("review", &mut rope).expect_err("not active");
    assert_eq!(err, SkillError::NotActive("review".into()));
}

#[test]
fn reactivation_after_deactivation_works() {
    let mut mgr = SkillManager::new();
    let mut rope = RetainedRope::new();
    mgr.register(skill_with_two_files("review"));

    mgr.activate("review", &mut rope).unwrap();
    mgr.deactivate("review", &mut rope).unwrap();
    mgr.activate("review", &mut rope).expect("re-activate");
    assert_eq!(rope.len(), 2);
    assert!(mgr.is_active("review"));
}

#[test]
fn manager_drives_rope_event_log() {
    let mut mgr = SkillManager::new();
    let mut rope = RetainedRope::new();
    mgr.register(skill_with_two_files("review"));
    mgr.activate("review", &mut rope).unwrap();
    mgr.deactivate("review", &mut rope).unwrap();
    assert_eq!(rope.events().len(), 2);
    assert!(matches!(rope.events()[0], RopeEvent::SkillActivated { .. }));
    assert!(matches!(rope.events()[1], RopeEvent::SkillDeactivated { .. }));
}

#[test]
fn activate_concurrent_skills_independent_in_rope() {
    let mut mgr = SkillManager::new();
    let mut rope = RetainedRope::new();
    mgr.register(skill_with_two_files("goal-protocol"));
    mgr.register(skill_with_two_files("review"));

    mgr.activate("goal-protocol", &mut rope).unwrap();
    mgr.activate("review", &mut rope).unwrap();
    assert_eq!(rope.len(), 4);
    mgr.deactivate("goal-protocol", &mut rope).unwrap();
    assert_eq!(rope.len(), 2);
    assert!(rope.spans().iter().all(|s| s.id.contains("review")));
}

#[test]
fn deactivation_restores_the_manager_and_the_rope() {
    let mut mgr = SkillManager::new();
    let mut rope = RetainedRope::new();
    mgr.register(skill_with_two_files("review"));
    mgr.register(skill_with_two_files("goal"));
    mgr.activate("goal", &mut rope).unwrap();
    let spans: Vec<Span> = rope.spans().to_vec();
    mgr.activate("review", &mut rope).unwrap();
    mgr.deactivate("review", &mut rope).unwrap();
    assert_eq!(rope.spans(), spans.as_slice());
    assert_eq!(mgr.active_ids(), vec!["goal"]);
    assert_eq!(mgr.registered(), vec!["goal", "review"]);
}

#[test]
fn skill_errors_are_worded() {
    assert_eq!(
        SkillError::NotRegistered("x".into()).message(),
        "skill not registered: x"
    );
    assert_eq!(
        SkillError::AlreadyActive("x".into()).message(),
        "skill already active: x"
    );
    assert_eq!(
        SkillError::NotActive("x".into()).message(),
        "skill not active: x"
    );
}
