use gg_core::commands::unstack::{
    ensure_stack_name_available, migrate_config, moved_entries_json, old_entry_branches, resolve_new_stack_name, resolve_unstack_target,
    ensure_independent, rebase_onto_args, check_unstack_size, unstack_counts, moved_gg_ids, rewrite_branches, run_rebase_onto_base, UnstackOptions, UnstackTarget,
};
use gg_core::error::GgError;
use gg_core::config::Config;
use gg_core::stack::{Stack, StackEntry};

fn entry(pos: usize, gg_id: &str) -> StackEntry {
    StackEntry {
        oid: "0".repeat(40),
        short_sha: format!("sha{}", pos),
        title: format!("commit {}", pos),
        gg_id: Some(gg_id.to_string()),
        gg_parent: None,
        mr_number: None,
        mr_state: None,
        approved: false,
        changes_requested: false,
        mergeable: false,
        ci_status: None,
        position: pos,
        in_merge_train: false,
        merge_train_position: None,
    }
}

fn stack() -> Stack {
    Stack {
        name: "old".to_string(),
        username: "u".to_string(),
        base: "main".to_string(),
        entries: vec![entry(1, "c-a"), entry(2, "c-b"), entry(3, "c-c")],
        current_position: None,
    }
}

#[test]
fn unstack_options_default() {
    let opts = UnstackOptions::default();
    assert!(opts.target.is_none());
    assert!(opts.name.is_none());
    assert!(!opts.no_tui);
    assert!(!opts.force);
    assert!(!opts.json);
}

#[test]
fn moved_entries_start_at_target() {
    let s = stack();
    let moved = moved_entries_json(&s, 2);
    assert_eq!(moved.len(), 2);
    assert_eq!(moved[0].old_position, 2);
    assert_eq!(moved[0].sha, "sha2");
    assert_eq!(moved[0].gg_id.as_deref(), Some("c-b"));
    assert_eq!(moved[1].title, "commit 3");
}

#[test]
fn migrate_config_moves_mappings_and_base() {
    let s = stack();
    let mut config = Config::default();
    config.get_or_create_stack("old");
    config.set_mr_for_entry("old", "c-a", 1);
    config.set_mr_for_entry("old", "c-b", 2);
    config.set_mr_for_entry("old", "c-c", 3);
    config.stacks.remove("old").map(|mut c| {
        c.base = Some("develop".to_string());
        config.stacks.insert("old".to_string(), c);
    });
    let moved = vec!["c-b".to_string(), "c-c".to_string()];
    migrate_config(&mut config, &s, "new", &moved);
    assert_eq!(config.get_mr_for_entry("old", "c-a"), Some(1));
    assert_eq!(config.get_mr_for_entry("old", "c-b"), None);
    assert_eq!(config.get_mr_for_entry("new", "c-b"), Some(2));
    assert_eq!(config.get_mr_for_entry("new", "c-c"), Some(3));
    assert_eq!(config.get_base_for_stack("new"), Some("develop"));
    assert_eq!(config.get_base_for_stack("old"), Some("develop"));
}

#[test]
fn migrate_config_creates_new_stack_without_old_config() {
    let s = stack();
    let mut config = Config::default();
    let moved = vec!["c-c".to_string()];
    migrate_config(&mut config, &s, "new", &moved);
    assert!(config.get_stack("new").is_some());
    assert_eq!(config.get_mr_for_entry("new", "c-c"), None);
}

#[test]
fn old_entry_branches_of_moved_entries() {
    let s = Stack {
        name: "old".to_string(),
        username: "u".to_string(),
        base: "main".to_string(),
        entries: vec![entry(1, "c-aaaaaaa"), entry(2, "c-bbbbbbb"), entry(3, "not-an-id")],
        current_position: None,
    };
    let moved = vec!["c-bbbbbbb".to_string(), "not-an-id".to_string()];
    assert_eq!(old_entry_branches(&s, &moved), vec!["u/old--c-bbbbbbb".to_string()]);
    assert!(old_entry_branches(&s, &vec![]).is_empty());
}

fn other_message(r: Result<String, GgError>) -> String {
    match r {
        Err(GgError::Other(m)) => m,
        other => panic!("unexpected: {:?}", other),
    }
}

#[test]
fn new_stack_name_takes_first_free_suffix() {
    let mut config = Config::default();
    config.get_or_create_stack("old-2");
    let branches = vec!["u/old-3".to_string(), "u/old--c-a".to_string()];
    assert_eq!(resolve_new_stack_name(&config, &stack(), None, &branches).unwrap(), "old-4");
    assert_eq!(resolve_new_stack_name(&Config::default(), &stack(), None, &Vec::new()).unwrap(), "old-2");
}

#[test]
fn new_stack_name_checks_the_requested_name() {
    let mut config = Config::default();
    config.get_or_create_stack("taken");
    let branches = vec!["u/busy".to_string()];
    let s = stack();
    assert_eq!(resolve_new_stack_name(&config, &s, Some("fresh".to_string()), &branches).unwrap(), "fresh");
    assert_eq!(
        other_message(resolve_new_stack_name(&config, &s, Some("my stack".to_string()), &branches)),
        "Invalid stack name 'my stack'. Did you mean 'my-stack'?"
    );
    assert_eq!(
        other_message(resolve_new_stack_name(&config, &s, Some("taken".to_string()), &branches)),
        "Stack 'taken' already exists in gg config."
    );
    assert_eq!(
        other_message(resolve_new_stack_name(&config, &s, Some("busy".to_string()), &branches)),
        "Stack branch 'u/busy' already exists."
    );
    match resolve_new_stack_name(&config, &s, Some("a/b".to_string()), &branches) {
        Err(GgError::InvalidStackName(m)) => assert_eq!(m, "Stack name cannot contain '/' (conflicts with branch format)"),
        other => panic!("unexpected: {:?}", other),
    }
}

#[test]
fn stack_name_availability() {
    let mut config = Config::default();
    config.get_or_create_stack("cfg");
    let branches = vec!["me/br".to_string(), "other/free".to_string()];
    assert!(ensure_stack_name_available(&config, "me", "free", &branches).is_ok());
    assert!(matches!(ensure_stack_name_available(&config, "me", "cfg", &branches), Err(GgError::Other(_))));
    assert!(matches!(ensure_stack_name_available(&config, "me", "br", &branches), Err(GgError::Other(_))));
}

#[test]
fn unstack_target_from_option_picker_or_error() {
    let s = stack();
    let mut options = UnstackOptions::default();
    options.target = Some("2".to_string());
    assert!(matches!(resolve_unstack_target(&s, &options, false), Ok(UnstackTarget::Position(2))));
    options.target = Some("c-c".to_string());
    assert!(matches!(resolve_unstack_target(&s, &options, true), Ok(UnstackTarget::Position(3))));
    options.target = Some("9".to_string());
    match resolve_unstack_target(&s, &options, true) {
        Err(GgError::Other(m)) => assert_eq!(m, "Position 9 is out of range (1-3)"),
        other => panic!("unexpected: {:?}", other),
    }

    options.target = None;
    match resolve_unstack_target(&s, &options, true) {
        Ok(UnstackTarget::Pick(es)) => {
            assert_eq!(es.len(), 3);
            assert_eq!(es[1].short_sha, "sha2");
            assert_eq!(es[1].title, "commit 2");
        }
        other => panic!("unexpected: {:?}", other),
    }
    let expected = "No unstack target specified. Use --target <position|SHA|GG-ID>.";
    match resolve_unstack_target(&s, &options, false) {
        Err(GgError::Other(m)) => assert_eq!(m, expected),
        other => panic!("unexpected: {:?}", other),
    }
    options.no_tui = true;
    match resolve_unstack_target(&s, &options, true) {
        Err(GgError::Other(m)) => assert_eq!(m, expected),
        other => panic!("unexpected: {:?}", other),
    }
}

fn oid_stack() -> Stack {
    let mut s = stack();
    for (i, e) in s.entries.iter_mut().enumerate() {
        e.oid = format!("{}", i + 1).repeat(40);
    }
    s
}

#[test]
fn rewrite_plan_names_branches_and_commits() {
    let plan = rewrite_branches(&oid_stack(), "new", 2).unwrap();
    assert_eq!(plan.source_branch, "u/old");
    assert_eq!(plan.new_branch, "u/new");
    assert_eq!(plan.target_oid, "2".repeat(40));
    assert_eq!(plan.previous_oid, "1".repeat(40));
    assert_eq!(plan.old_tip_oid, "3".repeat(40));
    assert_eq!(other_message(rewrite_branches(&oid_stack(), "new", 4).map(|p| p.new_branch)), "Position 4 out of range");
    assert_eq!(other_message(rewrite_branches(&oid_stack(), "new", 1).map(|p| p.new_branch)), "Position 0 out of range");
}

#[test]
fn rebase_onto_base_outcomes() {
    assert_eq!(rebase_onto_args("b", "p", "u/new"), vec!["rebase", "--onto", "b", "p", "u/new"]);
    assert!(run_rebase_onto_base(true, "CONFLICT").is_ok());
    assert!(matches!(run_rebase_onto_base(false, "CONFLICT (content): x"), Err(GgError::RebaseConflict)));
    assert!(matches!(run_rebase_onto_base(false, "merge conflict in y"), Err(GgError::RebaseConflict)));
    match run_rebase_onto_base(false, "  fatal: bad revision\n") {
        Err(GgError::Other(m)) => assert_eq!(m, "Rebase failed: fatal: bad revision"),
        other => panic!("unexpected: {:?}", other),
    }
    assert!(ensure_independent("aaa", "bbb").is_ok());
    match ensure_independent("aaa", "aaa") {
        Err(GgError::Other(m)) => assert_eq!(m, "Unstack failed to create an independent stack."),
        other => panic!("unexpected: {:?}", other),
    }
}

#[test]
fn unstack_needs_two_entries() {
    match check_unstack_size(1) {
        Err(GgError::Other(m)) => assert_eq!(m, "Need at least 2 commits to unstack."),
        other => panic!("unexpected: {:?}", other),
    }
    assert!(check_unstack_size(0).is_err());
    assert!(check_unstack_size(2).is_ok());
}

#[test]
fn unstack_counts_split_the_stack() {
    assert_eq!(unstack_counts(5, 3).unwrap(), (2, 3));
    assert_eq!(unstack_counts(2, 2).unwrap(), (1, 1));
    match unstack_counts(3, 1) {
        Err(GgError::Other(m)) => assert_eq!(
            m,
            "Cannot unstack at position 1 because no commits would remain in the original stack."
        ),
        other => panic!("unexpected: {:?}", other),
    }
}

#[test]
fn moved_gg_ids_skip_entries_without_one() {
    let mut s = stack();
    s.entries[1].gg_id = None;
    assert_eq!(moved_gg_ids(&s, 2), vec!["c-c".to_string()]);
    assert_eq!(moved_gg_ids(&stack(), 2), vec!["c-b".to_string(), "c-c".to_string()]);
    assert!(moved_gg_ids(&stack(), 4).is_empty());
}
