use gg_core::error::GgError;
use gg_core::gh::PrState;
use gg_core::immutability::{guard, ImmutabilityPolicy, ImmutabilityReport, ImmutableEntry, ImmutableReason};
use gg_core::stack::{Stack, StackEntry};

fn mk_entry(pos: usize, sha: &str, title: &str) -> StackEntry {
    StackEntry {
        oid: "0".repeat(40),
        short_sha: sha.to_string(),
        title: title.to_string(),
        gg_id: None,
        gg_parent: None,
        mr_number: None,
        mr_state: None,
        approved: false,
        changes_requested: false,
        mergeable: false,
        ci_status: None,
        position: pos,
        in_merge_train: false,
        merge_train_position: None,
    }
}

fn merged(pos: usize, sha: &str, title: &str, number: u64) -> StackEntry {
    StackEntry { mr_number: Some(number), mr_state: Some(PrState::Merged), ..mk_entry(pos, sha, title) }
}

/// The policy of a repository where the base ref does not exist.
fn no_base_policy(base: &str) -> ImmutabilityPolicy {
    ImmutabilityPolicy { base_ref: base.to_string(), has_base: false }
}

#[test]
fn report_is_clear_when_empty() {
    let report = ImmutabilityReport::default();
    assert!(report.is_clear());
}

#[test]
fn report_formats_multiple_reasons_per_entry() {
    let report = ImmutabilityReport {
        entries: vec![ImmutableEntry {
            position: 2,
            short_sha: "abc1234".to_string(),
            title: "Fix typo".to_string(),
            reasons: vec![
                ImmutableReason::MergedPr { number: Some(123) },
                ImmutableReason::BaseAncestor { base_ref: "origin/main".to_string() },
            ],
        }],
    };
    let formatted = report.format_for_error();
    assert!(formatted.contains("#2"));
    assert!(formatted.contains("abc1234"));
    assert!(formatted.contains("Fix typo"));
    assert!(formatted.contains("merged as !123"));
    assert!(formatted.contains("already in origin/main"));
}

#[test]
fn reason_describe_without_number() {
    let r = ImmutableReason::MergedPr { number: None };
    assert_eq!(r.describe(), "PR/MR is merged");
}

#[test]
fn guard_passes_when_report_is_clear() {
    let report = ImmutabilityReport::default();
    assert!(guard(report, false).is_ok());
}

#[test]
fn guard_fails_when_report_has_entries_and_force_is_false() {
    let report = ImmutabilityReport {
        entries: vec![ImmutableEntry {
            position: 1,
            short_sha: "abc".to_string(),
            title: "x".to_string(),
            reasons: vec![ImmutableReason::MergedPr { number: Some(7) }],
        }],
    };
    let err = guard(report, false).expect_err("should fail");
    match err {
        GgError::ImmutableTargets(msg) => {
            assert!(msg.contains("#1"));
            assert!(msg.contains("merged as !7"));
        }
        other => panic!("unexpected error: {:?}", other),
    }
}

#[test]
fn guard_proceeds_when_forced_even_if_entries_present() {
    let report = ImmutabilityReport {
        entries: vec![ImmutableEntry {
            position: 1,
            short_sha: "abc".to_string(),
            title: "x".to_string(),
            reasons: vec![ImmutableReason::MergedPr { number: Some(7) }],
        }],
    };
    assert!(guard(report, true).is_ok());
}

#[test]
fn guard_forced_warning_text() {
    let report = ImmutabilityReport {
        entries: vec![ImmutableEntry {
            position: 1,
            short_sha: "abc".to_string(),
            title: "x".to_string(),
            reasons: vec![ImmutableReason::MergedPr { number: Some(7) }],
        }],
    };
    let warning = guard(report, true).unwrap().expect("a warning");
    assert_eq!(warning, "overriding immutability check for 1 commit(s):\n  #1  abc  x  (merged as !7)");
}

#[test]
fn reasons_for_merged_pr_returns_merged_pr_reason() {
    let stack = Stack {
        name: "s".to_string(),
        username: "u".to_string(),
        base: "main".to_string(),
        entries: vec![merged(1, "aaa0000", "merged commit", 42)],
        current_position: Some(0),
    };
    let policy = no_base_policy("main");
    let reasons = policy.reasons_for(&stack.entries[0], false);
    assert!(
        reasons.contains(&ImmutableReason::MergedPr { number: Some(42) }),
        "expected MergedPr reason, got {:?}",
        reasons
    );
}

#[test]
fn reasons_for_mutable_commit_is_empty() {
    let stack = Stack {
        name: "s".to_string(),
        username: "u".to_string(),
        base: "nonexistent".to_string(),
        entries: vec![mk_entry(1, "aaa0000", "unpushed")],
        current_position: Some(0),
    };
    let policy = no_base_policy("nonexistent");
    let reasons = policy.reasons_for(&stack.entries[0], false);
    assert!(reasons.is_empty(), "expected no reasons, got {:?}", reasons);
}

#[test]
fn reasons_for_base_ancestor_when_base_exists() {
    let policy = ImmutabilityPolicy { base_ref: "origin/main".to_string(), has_base: true };
    let e = merged(1, "aaa", "a", 5);
    let reasons = policy.reasons_for(&e, true);
    assert_eq!(
        reasons,
        vec![
            ImmutableReason::MergedPr { number: Some(5) },
            ImmutableReason::BaseAncestor { base_ref: "origin/main".to_string() }
        ]
    );
    assert_eq!(policy.base_ref(), "origin/main");
}

#[test]
fn check_positions_collects_multiple_immutables() {
    let stack = Stack {
        name: "s".to_string(),
        username: "u".to_string(),
        base: "nonexistent".to_string(),
        entries: vec![merged(1, "aaa", "a", 1), mk_entry(2, "bbb", "b"), merged(3, "ccc", "c", 3)],
        current_position: Some(2),
    };
    let policy = no_base_policy("nonexistent");
    let report = policy.check_positions(&stack, &[1, 2, 3], &vec![false, false, false]);
    assert_eq!(report.entries.len(), 2);
    assert_eq!(report.entries[0].position, 1);
    assert_eq!(report.entries[1].position, 3);
}

#[test]
fn check_positions_dedups_duplicate_inputs() {
    let stack = Stack {
        name: "s".to_string(),
        username: "u".to_string(),
        base: "nonexistent".to_string(),
        entries: vec![merged(1, "aaa", "a", 1)],
        current_position: Some(0),
    };
    let policy = no_base_policy("nonexistent");
    let report = policy.check_positions(&stack, &[1, 1, 1], &vec![false]);
    assert_eq!(report.entries.len(), 1);
}

#[test]
fn check_all_covers_every_entry() {
    let stack = Stack {
        name: "s".to_string(),
        username: "u".to_string(),
        base: "nonexistent".to_string(),
        entries: vec![merged(1, "aaa", "a", 1), merged(2, "bbb", "b", 2)],
        current_position: Some(1),
    };
    let policy = no_base_policy("nonexistent");
    let report = policy.check_all(&stack, &vec![false, false]);
    assert_eq!(report.entries.len(), 2);
}

#[test]
fn without_base_ancestors_drops_base_only_entries() {
    let report = ImmutabilityReport {
        entries: vec![ImmutableEntry {
            position: 1,
            short_sha: "aaa".to_string(),
            title: "merged commit".to_string(),
            reasons: vec![ImmutableReason::BaseAncestor { base_ref: "origin/main".to_string() }],
        }],
    };
    let filtered = report.without_base_ancestors();
    assert!(filtered.is_clear());
}

#[test]
fn without_base_ancestors_keeps_merged_pr_entries() {
    let report = ImmutabilityReport {
        entries: vec![ImmutableEntry {
            position: 1,
            short_sha: "aaa".to_string(),
            title: "squash-merged".to_string(),
            reasons: vec![ImmutableReason::MergedPr { number: Some(42) }],
        }],
    };
    let filtered = report.without_base_ancestors();
    assert_eq!(filtered.entries.len(), 1);
}

#[test]
fn without_base_ancestors_drops_dual_reason_entries() {
    let report = ImmutabilityReport {
        entries: vec![ImmutableEntry {
            position: 1,
            short_sha: "aaa".to_string(),
            title: "merged and on base".to_string(),
            reasons: vec![
                ImmutableReason::MergedPr { number: Some(10) },
                ImmutableReason::BaseAncestor { base_ref: "origin/main".to_string() },
            ],
        }],
    };
    let filtered = report.without_base_ancestors();
    assert!(filtered.is_clear());
}

#[test]
fn without_base_ancestors_mixed_stack() {
    let report = ImmutabilityReport {
        entries: vec![
            ImmutableEntry {
                position: 1,
                short_sha: "aaa".to_string(),
                title: "on base".to_string(),
                reasons: vec![ImmutableReason::BaseAncestor { base_ref: "origin/main".to_string() }],
            },
            ImmutableEntry {
                position: 2,
                short_sha: "bbb".to_string(),
                title: "squash-merged".to_string(),
                reasons: vec![ImmutableReason::MergedPr { number: Some(99) }],
            },
            ImmutableEntry {
                position: 3,
                short_sha: "ccc".to_string(),
                title: "merged and on base".to_string(),
                reasons: vec![
                    ImmutableReason::MergedPr { number: Some(100) },
                    ImmutableReason::BaseAncestor { base_ref: "origin/main".to_string() },
                ],
            },
        ],
    };
    let filtered = report.without_base_ancestors();
    assert_eq!(filtered.entries.len(), 1);
    assert_eq!(filtered.entries[0].position, 2);
}

#[test]
fn base_ancestor_rule_fires_when_on_base() {
    let stack = Stack {
        name: "s".to_string(),
        username: "u".to_string(),
        base: "main".to_string(),
        entries: vec![mk_entry(1, "aaa", "a"), mk_entry(2, "bbb", "b")],
        current_position: None,
    };
    let policy = ImmutabilityPolicy { base_ref: "origin/main".to_string(), has_base: true };
    let report = policy.check_all(&stack, &vec![true, false]);
    assert_eq!(report.entries.len(), 1);
    assert_eq!(report.entries[0].position, 1);
    let text = report.format_for_error();
    assert_eq!(text, "  #1  aaa  a  (already in origin/main)");
}
