use gg_core::error::GgError;
use gg_core::git::{
    build_push_args, delete_remote_branch_args, find_entry_branch_for_stack, index_lock_step, lock_info_text,
    operation_lock_step, LockStep, extract_description_from_message, format_entry_branch,
    format_stack_branch, generate_gg_id, gg_id_from_message, gg_parent_from_message, git_command_result,
    normalize_gg_id, normalize_gg_metadata_in_message, parse_entry_branch, parse_push_error, parse_stack_branch,
    provider_for_url, rebase_abort_args, remove_worktree_args, sanitize_stack_name, set_gg_id_in_message,
    set_gg_parent_in_message, short_sha_of, strip_gg_id_from_message, strip_gg_parent_from_message,
    validate_branch_username, plan_stack_metadata, is_stale_lease, stale_lease_message, RemoteProvider,
};

#[test]
fn test_sanitize_stack_name() {
    assert_eq!(sanitize_stack_name("my new feature").unwrap(), "my-new-feature");
    assert_eq!(sanitize_stack_name("my-feature").unwrap(), "my-feature");
    assert!(sanitize_stack_name("my/feature").is_err());
    assert!(sanitize_stack_name("my--feature").is_err());
    assert!(sanitize_stack_name("my~feature").is_err());
    assert!(sanitize_stack_name("my:feature").is_err());
    assert!(sanitize_stack_name("my*feature").is_err());
    assert!(sanitize_stack_name(".myfeature").is_err());
    assert!(sanitize_stack_name("myfeature.").is_err());
    assert!(sanitize_stack_name("my..feature").is_err());
    assert!(sanitize_stack_name("feature.lock").is_err());
    assert!(sanitize_stack_name("").is_err());
    assert!(sanitize_stack_name("   ").is_err());
}

#[test]
fn test_validate_branch_username() {
    assert!(validate_branch_username("nacho").is_ok());
    assert!(validate_branch_username("nacho-lopez").is_ok());
    assert!(validate_branch_username("nacho.lopez").is_ok());
    assert!(validate_branch_username("").is_err());
    assert!(validate_branch_username("na/cho").is_err());
    assert!(validate_branch_username("na cho").is_err());
    assert!(validate_branch_username("na..cho").is_err());
    assert!(validate_branch_username(".nacho").is_err());
    assert!(validate_branch_username("nacho.").is_err());
    assert!(validate_branch_username("nacho.lock").is_err());
    assert!(validate_branch_username("nacho@home").is_err());
}

#[test]
fn test_normalize_gg_id() {
    assert_eq!(normalize_gg_id("c-abc1234"), Some("c-abc1234".to_string()));
    assert_eq!(normalize_gg_id("C-ABC1234"), Some("c-abc1234".to_string()));
    assert_eq!(normalize_gg_id("c-abcdefg"), None);
    assert_eq!(normalize_gg_id("c-123456"), None);
    assert_eq!(normalize_gg_id("invalid"), None);
}

#[test]
fn test_parse_stack_branch() {
    assert_eq!(parse_stack_branch("nacho/my-feature"), Some(("nacho".to_string(), "my-feature".to_string())));
    assert_eq!(parse_stack_branch("main"), None);
    assert_eq!(parse_stack_branch("nacho/my-feature/c-abc123"), None);
    assert_eq!(parse_stack_branch("nacho/my-feature--c-abc123"), None);
    assert_eq!(parse_stack_branch("nacho/notes.md--c-7d3f2a6"), None);
}

#[test]
fn test_format_entry_branch() {
    assert_eq!(format_entry_branch("nacho", "my-feature", "c-abc123"), "nacho/my-feature--c-abc123");
}

#[test]
fn test_parse_entry_branch() {
    assert_eq!(
        parse_entry_branch("nacho/my-feature--c-abc123"),
        Some(("nacho".to_string(), "my-feature".to_string(), "c-abc123".to_string()))
    );
    assert_eq!(parse_entry_branch("main"), None);
    assert_eq!(parse_entry_branch("nacho/my-feature"), None);
    assert_eq!(parse_entry_branch("nacho/my-feature/c-abc123"), None);
}

#[test]
fn test_set_gg_id_in_message() {
    let msg = "Add feature\n\nSome description";
    let result = set_gg_id_in_message(msg, "c-abc123");
    assert!(result.contains("GG-ID: c-abc123"));
    let msg_with_id = "Add feature\n\nGG-ID: c-old123";
    let result = set_gg_id_in_message(msg_with_id, "c-new456");
    assert!(result.contains("GG-ID: c-new456"));
    assert!(!result.contains("c-old123"));
}

#[test]
fn test_set_gg_parent_in_message() {
    let msg = "Add feature\n\nSome description\n\nGG-ID: c-abc123";
    let result = set_gg_parent_in_message(msg, Some("c-parent1"));
    assert!(result.contains("GG-Parent: c-parent1"));
    let replaced = set_gg_parent_in_message(&result, Some("c-parent2"));
    assert!(replaced.contains("GG-Parent: c-parent2"));
    assert!(!replaced.contains("c-parent1"));
}

#[test]
fn test_strip_gg_parent_from_message() {
    let msg = "Title\n\nBody\n\nGG-ID: c-abc123\nGG-Parent: c-def456";
    let stripped = strip_gg_parent_from_message(msg);
    assert!(!stripped.contains("GG-Parent:"));
    assert!(stripped.contains("GG-ID: c-abc123"));
}

#[test]
fn test_normalize_gg_metadata_in_message() {
    let msg = "Title\n\nBody";
    let (normalized, id_added, parent_updated, parent_removed) =
        normalize_gg_metadata_in_message(msg, "c-abc1234", Some("c-parent1"));
    assert!(normalized.contains("GG-ID: c-abc1234"));
    assert!(normalized.contains("GG-Parent: c-parent1"));
    assert!(id_added);
    assert!(parent_updated);
    assert!(!parent_removed);
}

#[test]
fn test_strip_gg_id_from_message() {
    let msg = "Add feature\n\nSome description\n\nGG-ID: c-abc123";
    let result = strip_gg_id_from_message(msg);
    assert!(!result.contains("GG-ID"));
    assert!(result.contains("Add feature"));
    assert!(result.contains("Some description"));
}

#[test]
fn test_strip_gg_id_edge_cases() {
    let msg = "Title\n\nBody\n\ngg-id: c-abc123";
    let result = strip_gg_id_from_message(msg);
    assert!(!result.to_lowercase().contains("gg-id"));
    assert_eq!(result, "Title\n\nBody");

    let msg = "Title\n\nBody\n\nGg-Id: c-abc123";
    let result = strip_gg_id_from_message(msg);
    assert!(!result.to_lowercase().contains("gg-id"));

    let msg = "Title\n\nBody\n\nGG-ID: c-abc123\nGG-ID: c-def456";
    let result = strip_gg_id_from_message(msg);
    assert!(!result.contains("GG-ID"));
    assert_eq!(result, "Title\n\nBody");

    let msg = "Title\n\nBody\n\nGG-ID:   c-abc123";
    let result = strip_gg_id_from_message(msg);
    assert!(!result.contains("GG-ID"));

    let msg = "Title\n\nGG-ID: c-abc123";
    let result = strip_gg_id_from_message(msg);
    assert!(!result.contains("GG-ID"));
    assert_eq!(result, "Title");

    let msg = "Title\n\nFirst paragraph\n\nGG-ID: c-abc123\n\nSecond paragraph";
    let result = strip_gg_id_from_message(msg);
    assert!(!result.contains("GG-ID"));
    assert!(result.contains("First paragraph"));
    assert!(result.contains("Second paragraph"));
}

#[test]
fn test_extract_description_from_message() {
    let msg = "Add feature\n\nSome description\n\nGG-ID: c-abc123";
    let result = extract_description_from_message(msg);
    assert_eq!(result.as_deref(), Some("Some description"));
    let msg_no_body = "Add feature\n\nGG-ID: c-abc123";
    let result = extract_description_from_message(msg_no_body);
    assert!(result.is_none());
    let msg_multi = "Add feature\n\nLine one\n\nLine two";
    let result = extract_description_from_message(msg_multi);
    assert_eq!(result.as_deref(), Some("Line one\n\nLine two"));
}

#[test]
fn test_extract_description_filters_gg_id() {
    let msg = "Title\n\nThis is the body.\n\nMore details here.\n\nGG-ID: c-abc123";
    let result = extract_description_from_message(msg);
    assert!(result.is_some());
    let desc = result.unwrap();
    assert!(!desc.contains("GG-ID"));
    assert!(desc.contains("This is the body."));
    assert!(desc.contains("More details here."));

    let msg = "Title\n\nBody text\n\ngg-id: c-abc123";
    let result = extract_description_from_message(msg);
    assert!(result.is_some());
    assert!(!result.unwrap().to_lowercase().contains("gg-id"));

    let msg = "feat: add new feature\n\nFirst paragraph explaining the change.\n\nSecond paragraph with more details.\n\n- Bullet point 1\n- Bullet point 2\n\nGG-ID: c-1234567";
    let result = extract_description_from_message(msg);
    assert!(result.is_some());
    let desc = result.unwrap();
    assert!(!desc.contains("GG-ID"));
    assert!(desc.contains("First paragraph"));
    assert!(desc.contains("Bullet point"));

    let msg = "Title\n\nBody text\n\nGG-ID: c-1234567\nGG-Parent: c-7654321";
    let result = extract_description_from_message(msg);
    assert_eq!(result.as_deref(), Some("Body text"));
}

#[test]
fn test_generate_gg_id() {
    let id = generate_gg_id();
    assert!(id.starts_with("c-"));
    assert_eq!(id.len(), 9);
}

#[test]
fn test_parse_push_error_with_hook() {
    let stderr = "😢 ktlint found style violations in Kotlin code.\nerror: failed to push some refs to 'gitlab.example.com:user/repo.git'";
    let (hook_error, git_error) = parse_push_error(stderr);
    assert!(hook_error.is_some());
    assert_eq!(hook_error.unwrap(), "😢 ktlint found style violations in Kotlin code.");
    assert!(git_error.is_none());
}

#[test]
fn test_parse_push_error_hook_only() {
    let stderr = "Pre-push hook failed\nSome detailed error message";
    let (hook_error, git_error) = parse_push_error(stderr);
    assert!(hook_error.is_some());
    assert!(hook_error.unwrap().contains("Pre-push hook failed"));
    assert!(git_error.is_none());
}

#[test]
fn test_parse_push_error_git_only() {
    let stderr = "error: failed to push some refs to 'origin'\nremote: Permission denied";
    let (hook_error, git_error) = parse_push_error(stderr);
    assert!(hook_error.is_none());
    assert!(git_error.is_some());
    assert_eq!(git_error.unwrap(), "remote: Permission denied");
}

#[test]
fn test_parse_push_error_both() {
    let stderr = "Hook output line 1\nHook output line 2\nerror: some git error\nremote: remote error";
    let (hook_error, git_error) = parse_push_error(stderr);
    assert!(hook_error.is_some());
    assert!(hook_error.unwrap().contains("Hook output line 1"));
    assert!(git_error.is_some());
    assert!(git_error.unwrap().contains("some git error"));
}

#[test]
fn test_parse_push_error_empty() {
    let stderr = "";
    let (hook_error, git_error) = parse_push_error(stderr);
    assert!(hook_error.is_none());
    assert!(git_error.is_none());
}

#[test]
fn test_build_push_args_matrix() {
    let cases: &[((bool, bool, bool), &[&str])] = &[
        ((true, false, false), &["push", "--force-with-lease", "origin", "feat/x"]),
        ((true, false, true), &["push", "--force-with-lease", "--no-verify", "origin", "feat/x"]),
        ((false, true, false), &["push", "--force", "origin", "feat/x"]),
        ((false, true, true), &["push", "--force", "--no-verify", "origin", "feat/x"]),
        ((false, false, false), &["push", "origin", "feat/x"]),
        ((false, false, true), &["push", "--no-verify", "origin", "feat/x"]),
    ];
    for ((fwl, hard, skip_hooks), expected) in cases {
        let got = build_push_args("feat/x", *fwl, *hard, *skip_hooks);
        assert_eq!(got.as_slice(), *expected, "mismatch for (fwl={}, hard={}, skip_hooks={})", fwl, hard, skip_hooks);
    }
}

#[test]
fn gg_trailers_read_back_after_set() {
    let msg = set_gg_id_in_message("Title\n\nBody", "c-1234567");
    assert_eq!(gg_id_from_message(&msg).as_deref(), Some("c-1234567"));
    let msg = set_gg_parent_in_message(&msg, Some("c-7654321"));
    assert_eq!(gg_parent_from_message(&msg).as_deref(), Some("c-7654321"));
    let msg = set_gg_parent_in_message(&msg, None);
    assert_eq!(gg_parent_from_message(&msg), None);
}

#[test]
fn stack_branch_roundtrip() {
    let b = format_stack_branch("nacho", "auth");
    assert_eq!(b, "nacho/auth");
    assert_eq!(parse_stack_branch(&b), Some(("nacho".to_string(), "auth".to_string())));
}

#[test]
fn provider_detection_from_url() {
    assert_eq!(provider_for_url("git@github.com:o/r.git").unwrap(), RemoteProvider::GitHub);
    assert_eq!(provider_for_url("https://gitlab.com/o/r").unwrap(), RemoteProvider::GitLab);
    assert!(provider_for_url("https://example.org/o/r").is_err());
}

#[test]
fn git_command_outcomes() {
    let args = vec!["rebase".to_string(), "--abort".to_string()];
    assert_eq!(git_command_result(&args, true, "  done \n", "").unwrap(), "done");
    match git_command_result(&args, false, "", "no rebase") {
        Err(gg_core::error::GgError::Other(m)) => assert_eq!(m, "git rebase --abort failed: no rebase"),
        other => panic!("unexpected: {:?}", other),
    }
    assert_eq!(rebase_abort_args(), vec!["rebase", "--abort"]);
    assert_eq!(remove_worktree_args("wt"), vec!["worktree", "remove", "wt", "--force"]);
    assert_eq!(delete_remote_branch_args("b"), vec!["push", "origin", "--delete", "b"]);
    assert_eq!(short_sha_of("0123456789abcdef0123456789abcdef01234567"), "0123456");
}

#[test]
fn plan_stack_metadata_chains_parents_and_counts() {
    let messages = vec![
        "A".to_string(),
        "B\n\nGG-ID: c-bbbbbbb".to_string(),
        "C\n\nGG-ID: c-ccccccc\n\nGG-Parent: c-bbbbbbb".to_string(),
    ];
    let fresh = vec!["c-aaaaaaa".to_string(), "c-0000000".to_string(), "c-1111111".to_string()];
    let plan = plan_stack_metadata(&messages, &fresh);
    assert_eq!(plan.messages[0], "A\n\nGG-ID: c-aaaaaaa");
    assert_eq!(plan.messages[1], "B\n\nGG-ID: c-bbbbbbb\n\nGG-Parent: c-aaaaaaa");
    assert_eq!(plan.messages[2], "C\n\nGG-ID: c-ccccccc\n\nGG-Parent: c-bbbbbbb");
    assert_eq!(plan.rewritten, vec![true, true, true]);
    assert_eq!(plan.counts.gg_ids_added, 1);
    assert_eq!(plan.counts.gg_parents_updated, 1);
    assert_eq!(plan.counts.gg_parents_removed, 0);
}

#[test]
fn plan_stack_metadata_leaves_normalized_stack_alone() {
    let messages = vec![
        "A\n\nGG-ID: c-aaaaaaa".to_string(),
        "B\n\nGG-ID: c-bbbbbbb\n\nGG-Parent: c-aaaaaaa".to_string(),
    ];
    let fresh = vec!["c-0000000".to_string(), "c-1111111".to_string()];
    let plan = plan_stack_metadata(&messages, &fresh);
    assert_eq!(plan.messages, messages);
    assert_eq!(plan.rewritten, vec![false, false]);
    assert_eq!(plan.counts.gg_ids_added, 0);
}

#[test]
fn plan_stack_metadata_removes_parent_of_first_entry() {
    let messages = vec!["A\n\nGG-ID: c-aaaaaaa\n\nGG-Parent: c-9999999".to_string()];
    let fresh = vec!["c-0000000".to_string()];
    let plan = plan_stack_metadata(&messages, &fresh);
    assert_eq!(plan.messages[0], "A\n\nGG-ID: c-aaaaaaa");
    assert_eq!(plan.counts.gg_parents_removed, 1);
    assert_eq!(plan.rewritten, vec![true]);
}

#[test]
fn stale_lease_detection_and_message() {
    let stderr = " ! [rejected] a -> a (stale info)\n";
    assert!(is_stale_lease(true, false, stderr));
    assert!(!is_stale_lease(true, true, stderr));
    assert!(!is_stale_lease(false, false, stderr));
    assert!(!is_stale_lease(true, false, "rejected"));
    let m = stale_lease_message("u/s--c-1");
    assert!(m.starts_with("Remote branch 'u/s--c-1' has been updated since your last fetch."));
    assert!(m.ends_with("run with --force flag."));
}

#[test]
fn entry_branch_lookup_takes_first_match() {
    let names = vec![
        "main".to_string(),
        "me/other--c-1111111".to_string(),
        "you/feat--c-2222222".to_string(),
        "me/feat".to_string(),
        "me/feat--c-3333333".to_string(),
        "me/feat--c-4444444".to_string(),
    ];
    assert_eq!(find_entry_branch_for_stack(&names, "me", "feat").as_deref(), Some("me/feat--c-3333333"));
    assert_eq!(find_entry_branch_for_stack(&names, "me", "none"), None);
}

#[test]
fn lock_steps_wait_then_fail() {
    assert!(matches!(index_lock_step(false, 99_999, 10_000, "/r/.git/index.lock"), LockStep::Acquire));
    assert!(matches!(index_lock_step(true, 9_999, 10_000, "/r/.git/index.lock"), LockStep::Wait));
    match index_lock_step(true, 10_000, 10_000, "/r/.git/index.lock") {
        LockStep::Fail(GgError::GitOperationInProgress(a, b)) => {
            assert_eq!(a, "git operation timed out");
            assert_eq!(b, "/r/.git/index.lock");
        }
        other => panic!("unexpected: {:?}", other),
    }
    assert!(matches!(operation_lock_step(false, 0, 1, None, "p"), LockStep::Acquire));
    assert!(matches!(operation_lock_step(true, 0, 1, None, "p"), LockStep::Wait));
    match operation_lock_step(true, 5, 1, Some("operation: sync\npid: 7\n"), "/g/operation.lock") {
        LockStep::Fail(GgError::Other(m)) => assert_eq!(
            m,
            "Another gg operation is currently running.\nLock info:\noperation: sync\npid: 7\nIf no other gg process is running, the lock may be stale.\nYou can manually remove: /g/operation.lock"
        ),
        other => panic!("unexpected: {:?}", other),
    }
    assert_eq!(lock_info_text("sync", 7), "operation: sync\npid: 7\n");
}

#[test]
fn entry_branch_is_never_a_stack_branch() {
    assert_eq!(parse_stack_branch(&format_entry_branch("u", "feat", "c-1234567")), None);
    assert_eq!(parse_stack_branch(&format_entry_branch("u", "feat", "a/b")), None);
}
