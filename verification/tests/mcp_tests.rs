use gg_core::config::Config;
use gg_core::gh::{CiStatus, PrState};
use gg_core::mcp::{build_stack_info, ci_status_str, config_info, pr_state_str, stack_summaries, summary_branch};
use gg_core::stack::{Stack, StackEntry};

fn entry(pos: usize, oid: &str, pr: Option<u64>) -> StackEntry {
    StackEntry {
        oid: oid.to_string(),
        short_sha: oid[..3].to_string(),
        title: format!("t{pos}"),
        gg_id: Some(format!("c-{pos}{pos}{pos}{pos}{pos}{pos}{pos}")),
        gg_parent: None,
        mr_number: pr,
        mr_state: pr.map(|_| PrState::Open),
        approved: false,
        changes_requested: false,
        mergeable: false,
        ci_status: pr.map(|_| CiStatus::Success),
        position: pos,
        in_merge_train: false,
        merge_train_position: None,
    }
}

#[test]
fn stack_info_reports_entries_and_head() {
    let stack = Stack {
        name: "s".to_string(),
        username: "u".to_string(),
        base: "main".to_string(),
        entries: vec![entry(1, "aaa1", Some(4)), entry(2, "bbb2", None)],
        current_position: None,
    };
    let info = build_stack_info(&stack, Some("bbb2"));
    assert_eq!(info.total_commits, 2);
    assert_eq!(info.synced_commits, 1);
    assert_eq!(info.current_position, Some(2));
    assert_eq!(info.entries[0].pr_state.as_deref(), Some("open"));
    assert_eq!(info.entries[0].ci_status.as_deref(), Some("success"));
    assert!(info.entries[1].is_current);
    assert_eq!(build_stack_info(&stack, None).current_position, None);
}

#[test]
fn state_names() {
    assert_eq!(pr_state_str(&PrState::Draft), "draft");
    assert_eq!(ci_status_str(&CiStatus::Canceled), "canceled");
}

#[test]
fn config_and_stack_summaries() {
    let mut config = Config::default();
    config.defaults.lint = vec!["cargo fmt --check".to_string()];
    let info = config_info(&config);
    assert_eq!(info.lint_commands, vec!["cargo fmt --check".to_string()]);
    assert!(info.auto_add_gg_ids);
    assert!(info.branch_username.is_none());

    config.get_or_create_stack("one");
    config.get_or_create_stack("two");
    assert_eq!(summary_branch(&config, "one"), "unknown/one");
    config.defaults.branch_username = Some("me".to_string());
    assert_eq!(summary_branch(&config, "two"), "me/two");
    let all = stack_summaries(&config, Some("me/two"), &vec![3, 5]);
    assert_eq!(all.current_stack.as_deref(), Some("two"));
    assert_eq!(all.stacks.len(), 2);
    assert_eq!(all.stacks[0].name, "one");
    assert_eq!(all.stacks[0].base, "main");
    assert_eq!(all.stacks[0].commit_count, 3);
    assert!(!all.stacks[0].is_current);
    assert!(all.stacks[1].is_current);
    let none = stack_summaries(&config, Some("main"), &vec![0, 0]);
    assert!(none.current_stack.is_none());
}
