use gg_core::config::Config;
use gg_core::error::GgError;
use gg_core::gh::{CiStatus, PrInfo, PrState};
use gg_core::stack::{
    can_have_unintegrated, format_not_stack_branch_error, list_all_stacks, parse_usize, resolve_target, unintegrated_count,
    unintegrated_kind, unintegrated_commit, CommitFacts, HeadFacts, Stack, StackEntry, UnintegratedKind,
};

fn mk_entry(pos: usize, gg_id: Option<&str>) -> StackEntry {
    StackEntry {
        oid: "0".repeat(40),
        short_sha: format!("sha{}", pos),
        title: format!("commit {}", pos),
        gg_id: gg_id.map(ToString::to_string),
        gg_parent: None,
        mr_number: None,
        mr_state: None,
        approved: false,
        changes_requested: false,
        mergeable: false,
        ci_status: None,
        position: pos,
        in_merge_train: false,
        merge_train_position: None,
    }
}

#[test]
fn expected_parent_first_entry_is_none() {
    let stack = Stack {
        name: "s".to_string(),
        username: "u".to_string(),
        base: "main".to_string(),
        entries: vec![mk_entry(1, Some("c-a"))],
        current_position: Some(0),
    };

    assert_eq!(stack.expected_parent_gg_id(1), None);
}

#[test]
fn expected_parent_uses_previous_entry_gg_id() {
    let stack = Stack {
        name: "s".to_string(),
        username: "u".to_string(),
        base: "main".to_string(),
        entries: vec![mk_entry(1, Some("c-a")), mk_entry(2, Some("c-b"))],
        current_position: Some(1),
    };

    assert_eq!(stack.expected_parent_gg_id(2), Some("c-a"));
}

#[test]
fn prefix_mismatch_returns_warning_data_for_wrong_configured_prefix() {
    let stack = Stack {
        name: "feature".to_string(),
        username: "other".to_string(),
        base: "main".to_string(),
        entries: vec![],
        current_position: None,
    };
    let mut config = Config::default();
    config.defaults.branch_username = Some("testuser".to_string());

    let mismatch = stack.prefix_mismatch(&config).expect("should mismatch");

    assert_eq!(mismatch.current_branch, "other/feature");
    assert_eq!(mismatch.actual_prefix, "other");
    assert_eq!(mismatch.expected_prefix, "testuser");
    assert_eq!(mismatch.stack_name, "feature");
    assert_eq!(mismatch.suggested_branch, "testuser/feature");
    assert!(mismatch
        .warning_message()
        .contains("git branch -m testuser/feature"));
}

#[test]
fn prefix_mismatch_is_none_without_configured_prefix() {
    let stack = Stack {
        name: "feature".to_string(),
        username: "other".to_string(),
        base: "main".to_string(),
        entries: vec![],
        current_position: None,
    };

    assert!(stack.prefix_mismatch(&Config::default()).is_none());
}

#[test]
fn prefix_mismatch_is_none_when_prefix_matches() {
    let stack = Stack {
        name: "feature".to_string(),
        username: "testuser".to_string(),
        base: "main".to_string(),
        entries: vec![],
        current_position: None,
    };
    let mut config = Config::default();
    config.defaults.branch_username = Some("testuser".to_string());

    assert!(stack.prefix_mismatch(&config).is_none());
}

#[test]
fn non_stack_branch_error_includes_configured_prefix_hint() {
    let mut config = Config::default();
    config.defaults.branch_username = Some("testuser".to_string());

    let message = format_not_stack_branch_error("feature", &config);

    assert!(message.contains("Current branch 'feature' is not a stack branch"));
    assert!(message.contains("testuser/feature"));
    assert!(message.contains("git branch -m testuser/feature"));
}

#[test]
fn non_stack_branch_error_without_prefix_suggests_checkout() {
    let message = format_not_stack_branch_error("feature", &Config::default());
    assert_eq!(
        message,
        "Current branch 'feature' is not a stack branch. Expected format: '<prefix>/<stack-name>'. Use `gg co <stack-name>` to create or switch to a stack."
    );
}

fn three() -> Stack {
    let mut e2 = mk_entry(2, Some("c-bbb"));
    e2.mr_number = Some(12);
    e2.mr_state = Some(PrState::Open);
    Stack {
        name: "s".to_string(),
        username: "u".to_string(),
        base: "main".to_string(),
        entries: vec![mk_entry(1, Some("c-aaa")), e2, mk_entry(3, None)],
        current_position: Some(1),
    }
}

#[test]
fn navigation_follows_current_position() {
    let s = three();
    assert_eq!(s.len(), 3);
    assert!(!s.is_empty());
    assert_eq!(s.current().map(|e| e.position), Some(2));
    assert_eq!(s.prev().map(|e| e.position), Some(1));
    assert_eq!(s.next().map(|e| e.position), Some(3));
    assert_eq!(s.first().map(|e| e.position), Some(1));
    assert_eq!(s.last().map(|e| e.position), Some(3));
    assert_eq!(s.synced_count(), 1);
    assert!(s.has_missing_gg_ids());
    assert_eq!(s.entries_needing_gg_ids().len(), 1);
    assert_eq!(s.branch_name(), "u/s");
}

#[test]
fn lookups_by_position_and_gg_id() {
    let s = three();
    assert_eq!(s.get_entry_by_position(3).map(|e| e.title.as_str()), Some("commit 3"));
    assert!(s.get_entry_by_position(0).is_none());
    assert!(s.get_entry_by_position(4).is_none());
    assert_eq!(s.get_entry_by_gg_id("c-bbb").map(|e| e.position), Some(2));
    assert!(s.get_entry_by_gg_id("c-zzz").is_none());
}

#[test]
fn status_display_words() {
    let s = three();
    assert_eq!(s.entries[0].status_display(), "not pushed");
    assert_eq!(s.entries[1].status_display(), "open");
    let mut e = mk_entry(1, None);
    e.mr_number = Some(3);
    e.mr_state = Some(PrState::Open);
    e.approved = true;
    assert_eq!(e.status_display(), "approved");
    e.mr_state = Some(PrState::Merged);
    assert_eq!(e.status_display(), "merged");
}

#[test]
fn parse_usize_accepts_digits_only() {
    assert_eq!(parse_usize("42"), Some(42));
    assert_eq!(parse_usize("007"), Some(7));
    assert_eq!(parse_usize(""), None);
    assert_eq!(parse_usize("4a"), None);
    assert_eq!(parse_usize("-1"), None);
}

#[test]
fn resolve_target_by_position_sha_and_gg_id() {
    let s = three();
    assert_eq!(resolve_target(&s, "2").ok(), Some(2));
    assert_eq!(resolve_target(&s, "c-aaa").ok(), Some(1));
    assert_eq!(resolve_target(&s, "sha3").ok(), Some(3));
    match resolve_target(&s, "9") {
        Err(GgError::Other(m)) => assert_eq!(m, "Position 9 is out of range (1-3)"),
        other => panic!("unexpected: {:?}", other),
    }
    match resolve_target(&s, "nothing-like-this") {
        Err(GgError::Other(m)) => assert_eq!(m, "Could not find commit matching 'nothing-like-this' in stack"),
        other => panic!("unexpected: {:?}", other),
    }
}

#[test]
fn list_all_stacks_merges_config_and_branches() {
    let mut config = Config::default();
    config.get_or_create_stack("alpha");
    let branches = vec![
        "me/beta".to_string(),
        "me/alpha".to_string(),
        "other/gamma".to_string(),
        "me/delta--c-1234567".to_string(),
        "me/beta--c-7654321".to_string(),
        "main".to_string(),
    ];
    let stacks = list_all_stacks(&config, &branches, "me");
    assert_eq!(stacks, vec!["alpha".to_string(), "beta".to_string(), "delta".to_string()]);
}

#[test]
fn refresh_from_applies_provider_answers() {
    let mut e = mk_entry(1, Some("c-aaa"));
    e.mr_number = Some(5);
    let info = PrInfo {
        number: 5,
        title: "t".to_string(),
        state: PrState::Open,
        url: "u".to_string(),
        head_branch: None,
        draft: false,
        approved: true,
        mergeable: true,
        changes_requested: false,
    };
    e.refresh_from(Some(&info), Some(CiStatus::Running), Some(false));
    assert_eq!(e.mr_state, Some(PrState::Open));
    assert!(!e.approved);
    assert!(e.mergeable);
    assert_eq!(e.ci_status, Some(CiStatus::Running));
    e.refresh_from(None, None, None);
    assert_eq!(e.mr_state, None);
    assert_eq!(e.ci_status, Some(CiStatus::Running));

    let mut unsynced = mk_entry(2, None);
    unsynced.refresh_from(Some(&info), Some(CiStatus::Failed), Some(true));
    assert_eq!(unsynced.mr_state, None);
    assert_eq!(unsynced.ci_status, None);
    assert!(!unsynced.approved);
}

#[test]
fn unintegrated_work_rules() {
    assert!(can_have_unintegrated(0, 2));
    assert!(!can_have_unintegrated(1, 2));
    assert!(!can_have_unintegrated(3, 2));
    assert_eq!(unintegrated_kind(true, None, None), Some(UnintegratedKind::Inserted));
    assert_eq!(unintegrated_kind(false, Some("p"), Some("p")), Some(UnintegratedKind::Amended));
    assert_eq!(unintegrated_kind(false, Some("p"), Some("q")), None);
    assert_eq!(unintegrated_kind(false, None, None), None);
    assert_eq!(unintegrated_count(0), 1);
    assert_eq!(unintegrated_count(3), 3);
}

fn facts(oid: &str, title: &str, message: &str) -> CommitFacts {
    CommitFacts {
        oid: oid.to_string(),
        short_sha: oid[..7].to_string(),
        title: title.to_string(),
        message: message.to_string(),
    }
}

#[test]
fn assemble_reads_trailers_config_and_head() {
    let mut config = Config::default();
    config.set_mr_for_entry("feat", "c-aaaaaaa", 42);
    let commits = vec![
        facts("1111111aaaa", "First", "First\n\nGG-ID: c-aaaaaaa"),
        facts("2222222bbbb", "Second", "Second\n\nGG-ID: c-bbbbbbb\nGG-Parent: c-aaaaaaa"),
        facts("3333333cccc", "Third", "Third"),
    ];
    let stack = Stack::assemble("me/feat", &config, "main", &commits, Some("2222222bbbb")).unwrap();
    assert_eq!(stack.name, "feat");
    assert_eq!(stack.username, "me");
    assert_eq!(stack.base, "main");
    assert_eq!(stack.len(), 3);
    assert_eq!(stack.current_position, Some(1));
    assert_eq!(stack.entries[0].gg_id.as_deref(), Some("c-aaaaaaa"));
    assert_eq!(stack.entries[0].mr_number, Some(42));
    assert_eq!(stack.entries[0].position, 1);
    assert_eq!(stack.entries[1].gg_parent.as_deref(), Some("c-aaaaaaa"));
    assert_eq!(stack.entries[1].mr_number, None);
    assert_eq!(stack.entries[2].gg_id, None);
    assert_eq!(stack.entries[2].short_sha, "3333333");
    assert_eq!(stack.entries[2].position, 3);

    let detached = Stack::assemble("me/feat", &config, "main", &commits, Some("9999999")).unwrap();
    assert_eq!(detached.current_position, None);
}

#[test]
fn assemble_refuses_a_plain_branch() {
    let commits: Vec<CommitFacts> = Vec::new();
    match Stack::assemble("main", &Config::default(), "main", &commits, None) {
        Err(GgError::NotOnStackBranch(m)) => {
            assert_eq!(m, format_not_stack_branch_error("main", &Config::default()))
        }
        other => panic!("unexpected: {:?}", other.map(|s| s.name)),
    }
}

fn head_facts() -> HeadFacts {
    HeadFacts {
        detached: true,
        head_oid: "h".repeat(40),
        head_parent: Some("p".repeat(40)),
        head_descends_from_original: true,
        original_parent: Some("q".repeat(40)),
        tip_descends_from_head: false,
        ahead: 0,
        summary: None,
        short_sha: "hhhhhhh".to_string(),
    }
}

#[test]
fn unintegrated_commit_puts_the_rules_together() {
    let stack = three();
    let nav = Some(("u/s".to_string(), 0usize, "o".repeat(40)));
    let u = unintegrated_commit(&stack, nav.clone(), &head_facts()).unwrap();
    assert_eq!(u.kind, UnintegratedKind::Inserted);
    assert_eq!(u.count, 1);
    assert_eq!(u.subject, "(no message)");
    assert_eq!(u.sits_on_position, 1);
    assert_eq!(u.branch_name, "u/s");

    let mut amended = head_facts();
    amended.head_descends_from_original = false;
    amended.original_parent = amended.head_parent.clone();
    amended.ahead = 2;
    amended.summary = Some("Fix".to_string());
    let u = unintegrated_commit(&stack, nav.clone(), &amended).unwrap();
    assert_eq!((u.kind, u.count, u.subject.as_str()), (UnintegratedKind::Amended, 2, "Fix"));

    let mut unrelated = head_facts();
    unrelated.head_descends_from_original = false;
    assert!(unintegrated_commit(&stack, nav.clone(), &unrelated).is_none());
    let mut attached = head_facts();
    attached.detached = false;
    assert!(unintegrated_commit(&stack, nav.clone(), &attached).is_none());
    let mut folded = head_facts();
    folded.tip_descends_from_head = true;
    assert!(unintegrated_commit(&stack, nav, &folded).is_none());
    assert!(unintegrated_commit(&stack, Some(("u/s".to_string(), 2, "o".repeat(40))), &head_facts()).is_none());
    assert!(unintegrated_commit(&stack, None, &head_facts()).is_none());
}
