use okf::project_context::{
    impacted_topics, path_matches_prefix, ProjectContextImpactRule, ProjectContextState,
    ProjectContextStatus,
};

fn rules() -> Vec<ProjectContextImpactRule> {
    vec![
        ProjectContextImpactRule::new("okf://project/current/architecture", vec!["src".to_owned()]),
        ProjectContextImpactRule::new("okf://project/current/ci", vec![".github/workflows".to_owned()]),
    ]
}

#[test]
fn classifies_all_recovery_states() {
    assert_eq!(
        ProjectContextStatus::evaluate("p", None, Some("a".into()), vec![], &[]).state,
        ProjectContextState::Uninitialized
    );
    assert_eq!(
        ProjectContextStatus::evaluate("p", Some("a".into()), Some("a".into()), vec![], &[]).state,
        ProjectContextState::Valid
    );
    assert_eq!(
        ProjectContextStatus::evaluate("p", Some("a".into()), Some("b".into()), vec![], &[]).state,
        ProjectContextState::Dirty
    );
    assert_eq!(
        ProjectContextStatus::evaluate("p", Some("a".into()), None, vec![], &[]).state,
        ProjectContextState::Unknown
    );
}

#[test]
fn derives_impacted_topics_from_changed_paths() {
    let status = ProjectContextStatus::evaluate(
        "p",
        Some("a".into()),
        Some("b".into()),
        vec!["src/library.rs".into(), ".github/workflows/ci.yml".into()],
        &rules(),
    );
    assert_eq!(
        status.impacted_topics,
        vec!["okf://project/current/architecture", "okf://project/current/ci"]
    );
}

#[test]
fn path_prefix_matching_respects_segment_boundaries() {
    assert!(path_matches_prefix("src/lib.rs", "src"));
    assert!(path_matches_prefix("src", "src"));
    assert!(!path_matches_prefix("src2/lib.rs", "src"));
}

#[test]
fn normalizes_repository_paths_before_matching() {
    assert!(path_matches_prefix("./src/lib.rs", "/src/"));
    assert!(path_matches_prefix("src\\lib.rs", "src"));
    assert!(path_matches_prefix(" ././src/x ", "src"));
    assert!(path_matches_prefix("anything", ""));
}

#[test]
fn rules_without_prefixes_always_apply_and_topics_are_deduplicated() {
    let rules = vec![
        ProjectContextImpactRule::new("b", vec![]),
        ProjectContextImpactRule::new("a", vec!["docs".to_owned()]),
        ProjectContextImpactRule::new("b", vec!["src".to_owned()]),
    ];
    assert_eq!(impacted_topics(&["src/x.rs".to_owned()], &rules), vec!["b"]);
    assert_eq!(
        impacted_topics(&["docs/readme.md".to_owned()], &rules),
        vec!["a", "b"]
    );
}
