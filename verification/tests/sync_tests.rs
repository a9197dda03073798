use gg_core::commands::sync::{
    behind_action, behind_message, entry_drafts, existing_pr_plan, push_failure_report, sync_step, BehindAction,
    EntryOutcome, ExistingPrPlan, SyncAction, SyncEvent, SyncPhase, SyncState,
    ReportLineKind,
};
use gg_core::error::GgError;
use gg_core::commands::sync::{
    build_pr_payload, clean_title, compute_target_branch, description_with_replacement_note,
    ensure_draft_prefix_for_gitlab, is_wip_or_draft_prefix, mismatched_pr_head_branch, replacement_closing_comment,
};
use gg_core::managed_body;
use gg_core::provider::{PrInfo, PrState, Provider};
use gg_core::stack::{Stack, StackEntry};

#[test]
fn test_build_pr_payload_prefers_description() {
    let (title, description) = build_pr_payload("Add feature", Some("Details here".to_string()), "stack", "abc123", None);
    assert_eq!(title, "Add feature");
    assert_eq!(description, "Details here");
}

#[test]
fn test_build_pr_payload_falls_back_without_description() {
    let (title, description) = build_pr_payload("Add feature", None, "stack", "abc123", None);
    assert_eq!(title, "Add feature");
    assert_eq!(description, "Part of stack `stack`\n\nCommit: abc123");
}

#[test]
fn test_clean_title_trims_trailing_period() {
    assert_eq!(clean_title("Add feature."), "Add feature");
    assert_eq!(clean_title("Add feature"), "Add feature");
    assert_eq!(clean_title(" Add feature. "), "Add feature");
}

#[test]
fn test_is_wip_or_draft_prefix_case_insensitive() {
    assert!(is_wip_or_draft_prefix("WIP: something"));
    assert!(is_wip_or_draft_prefix("wip: something"));
    assert!(is_wip_or_draft_prefix("Draft: something"));
    assert!(is_wip_or_draft_prefix("draft: something"));
    assert!(is_wip_or_draft_prefix("   DRAFT: leading spaces"));
    assert!(!is_wip_or_draft_prefix("Not wip: prefix"));
    assert!(!is_wip_or_draft_prefix("WIP something"));
}

#[test]
fn test_build_pr_payload_description_should_not_contain_gg_id() {
    let clean_description = "This is the body.\n\nMore details about the change.";
    let (_, description) = build_pr_payload("Add feature", Some(clean_description.to_string()), "stack", "abc123", None);
    assert_eq!(description, clean_description);
    assert!(!description.contains("GG-ID:"));
}

#[test]
fn test_build_pr_payload_with_template() {
    let template = "# {{title}}\n\n{{description}}\n\n---\nStack: {{stack_name}} | Commit: {{commit_sha}}";
    let (title, description) = build_pr_payload(
        "Add feature",
        Some("This is the description".to_string()),
        "my-stack",
        "abc1234",
        Some(template),
    );
    assert_eq!(title, "Add feature");
    assert_eq!(description, "# Add feature\n\nThis is the description\n\n---\nStack: my-stack | Commit: abc1234");
}

#[test]
fn test_build_pr_payload_with_template_no_description() {
    let template = "## {{title}}\n\n{{description}}\n\nPart of `{{stack_name}}`";
    let (title, description) = build_pr_payload("Fix bug", None, "bugfix", "def5678", Some(template));
    assert_eq!(title, "Fix bug");
    assert_eq!(description, "## Fix bug\n\n\n\nPart of `bugfix`");
}

#[test]
fn test_build_pr_payload_template_overrides_default_behavior() {
    let template = "Custom: {{title}}";
    let (_, description) = build_pr_payload("Test", None, "stack", "abc", Some(template));
    assert_eq!(description, "Custom: Test");
    assert!(!description.contains("Part of stack"));
}

#[test]
fn test_ensure_draft_prefix_for_gitlab_adds_prefix() {
    assert_eq!(ensure_draft_prefix_for_gitlab("Add feature", &Provider::GitLab, true), "Draft: Add feature");
}

#[test]
fn test_ensure_draft_prefix_for_gitlab_no_double_add() {
    assert_eq!(ensure_draft_prefix_for_gitlab("Draft: Add feature", &Provider::GitLab, true), "Draft: Add feature");
    assert_eq!(ensure_draft_prefix_for_gitlab("draft: Add feature", &Provider::GitLab, true), "draft: Add feature");
    assert_eq!(ensure_draft_prefix_for_gitlab("DRAFT: Add feature", &Provider::GitLab, true), "DRAFT: Add feature");
}

#[test]
fn test_ensure_draft_prefix_for_gitlab_non_draft() {
    assert_eq!(ensure_draft_prefix_for_gitlab("Add feature", &Provider::GitLab, false), "Add feature");
}

#[test]
fn test_ensure_draft_prefix_for_github_unchanged() {
    assert_eq!(ensure_draft_prefix_for_gitlab("Add feature", &Provider::GitHub, true), "Add feature");
    assert_eq!(ensure_draft_prefix_for_gitlab("Add feature", &Provider::GitHub, false), "Add feature");
}

#[test]
fn test_ensure_draft_prefix_with_whitespace() {
    assert_eq!(ensure_draft_prefix_for_gitlab("  Draft: Add feature", &Provider::GitLab, true), "  Draft: Add feature");
}

#[test]
fn test_build_pr_payload_wrapped_in_managed_markers() {
    let (_, description) = build_pr_payload("Add feature", Some("Details here".to_string()), "stack", "abc123", None);
    let wrapped = managed_body::wrap(&description);
    assert!(wrapped.starts_with("<!-- gg:managed:start -->"));
    assert!(wrapped.ends_with("<!-- gg:managed:end -->"));
    assert!(wrapped.contains("Details here"));

    let user_edited = format!(
        "## Checklist\n- [x] Tests pass\n- [ ] Docs updated\n\n{}\n\n## Notes\nPeer remarks here",
        wrapped
    );

    let (_, new_description) =
        build_pr_payload("Add feature v2", Some("Updated details".to_string()), "stack", "abc123", None);
    let result = managed_body::replace_managed(&user_edited, &new_description).unwrap();
    assert!(result.contains("- [x] Tests pass"));
    assert!(result.contains("- [ ] Docs updated"));
    assert!(result.contains("Peer remarks here"));
    assert!(result.contains("Updated details"));
    assert!(!result.contains("Details here"));
}

#[test]
fn test_description_with_replacement_note_mentions_old_pr() {
    let description = description_with_replacement_note("Original body", &Provider::GitHub, 428);
    assert!(description.contains("Original body"));
    assert!(description.contains("Replaces PR #428"));
    assert!(description.contains("source branch changed after `gg unstack`"));
}

#[test]
fn test_mismatched_pr_head_branch_detects_old_stack_head() {
    let info = PrInfo {
        number: 428,
        title: "Test PR".to_string(),
        state: PrState::Open,
        url: "https://example.com/pr/428".to_string(),
        head_branch: Some("testuser/old-stack--c-8b999da".to_string()),
        draft: false,
        approved: false,
        mergeable: true,
        changes_requested: false,
    };
    assert_eq!(
        mismatched_pr_head_branch(Some(&info), "testuser/new-stack--c-8b999da"),
        Some("testuser/old-stack--c-8b999da")
    );
}

#[test]
fn test_mismatched_pr_head_branch_skips_matching_or_unknown_head() {
    let matching = PrInfo {
        number: 428,
        title: "Test PR".to_string(),
        state: PrState::Open,
        url: "https://example.com/pr/428".to_string(),
        head_branch: Some("testuser/new-stack--c-8b999da".to_string()),
        draft: false,
        approved: false,
        mergeable: true,
        changes_requested: false,
    };
    let unknown = PrInfo { head_branch: None, ..matching.clone() };
    assert_eq!(mismatched_pr_head_branch(Some(&matching), "testuser/new-stack--c-8b999da"), None);
    assert_eq!(mismatched_pr_head_branch(Some(&unknown), "testuser/new-stack--c-8b999da"), None);
}

#[test]
fn test_replacement_closing_comment_mentions_branches_and_replacement() {
    let comment = replacement_closing_comment(
        &Provider::GitHub,
        "testuser/old--c-1234567",
        "testuser/new--c-1234567",
        430,
        "https://github.com/org/repo/pull/430",
    );
    assert!(comment.contains("testuser/old--c-1234567"));
    assert!(comment.contains("testuser/new--c-1234567"));
    assert!(comment.contains("#430"));
    assert!(comment.contains("https://github.com/org/repo/pull/430"));
}

#[test]
fn test_build_pr_payload_with_template_wrapped_survives_resync() {
    let template = "## {{title}}\n\n{{description}}\n\n---\nStack: {{stack_name}}";
    let (_, description) =
        build_pr_payload("Fix bug", Some("Bug fix description".to_string()), "my-stack", "def456", Some(template));
    let wrapped = managed_body::wrap(&description);
    let body = format!("- [x] Review done\n\n{}\n\n- [ ] Deploy verified", wrapped);
    let (_, new_desc) =
        build_pr_payload("Fix bug v2", Some("Updated fix".to_string()), "my-stack", "def456", Some(template));
    let result = managed_body::replace_managed(&body, &new_desc).unwrap();
    assert!(result.contains("- [x] Review done"));
    assert!(result.contains("- [ ] Deploy verified"));
    assert!(result.contains("Fix bug v2"));
    assert!(result.contains("Updated fix"));
}

#[test]
fn test_legacy_body_without_markers_returns_none() {
    let legacy_body = "This is a PR created before managed markers were introduced.\n\n- [x] Tests pass";
    assert!(managed_body::replace_managed(legacy_body, "New content").is_none());
}

fn make_test_stack(entries: Vec<StackEntry>) -> Stack {
    Stack {
        name: "test-stack".to_string(),
        username: "user".to_string(),
        base: "main".to_string(),
        entries,
        current_position: None,
    }
}

fn make_test_entry(gg_id: &str) -> StackEntry {
    StackEntry {
        oid: "0000000000000000000000000000000000000000".to_string(),
        short_sha: "abc1234".to_string(),
        title: "Test entry".to_string(),
        gg_id: Some(gg_id.to_string()),
        gg_parent: None,
        mr_number: None,
        mr_state: None,
        approved: false,
        ci_status: None,
        position: 1,
        in_merge_train: false,
        merge_train_position: None,
        changes_requested: false,
        mergeable: false,
    }
}

#[test]
fn test_compute_target_branch_first_entry_targets_base() {
    let entries = vec![make_test_entry("c-aaa1111")];
    let stack = make_test_stack(entries.clone());
    let closed = vec![false];
    let result = compute_target_branch(0, "main", &entries, &closed, &stack);
    assert_eq!(result, "main");
}

#[test]
fn test_compute_target_branch_targets_previous_when_open() {
    let entries = vec![make_test_entry("c-aaa1111"), make_test_entry("c-bbb2222")];
    let stack = make_test_stack(entries.clone());
    let closed = vec![false];
    let result = compute_target_branch(1, "main", &entries, &closed, &stack);
    let expected = stack.entry_branch_name(&entries[0]).unwrap();
    assert_eq!(result, expected);
    assert_eq!(result, "user/test-stack--c-aaa1111");
}

#[test]
fn test_compute_target_branch_skips_merged_predecessor() {
    let entries = vec![make_test_entry("c-aaa1111"), make_test_entry("c-bbb2222")];
    let stack = make_test_stack(entries.clone());
    let closed = vec![true];
    let result = compute_target_branch(1, "main", &entries, &closed, &stack);
    assert_eq!(result, "main");
}

#[test]
fn test_compute_target_branch_skips_multiple_merged_predecessors() {
    let entries = vec![make_test_entry("c-aaa1111"), make_test_entry("c-bbb2222"), make_test_entry("c-ccc3333")];
    let stack = make_test_stack(entries.clone());
    let closed = vec![true, true];
    let result = compute_target_branch(2, "main", &entries, &closed, &stack);
    assert_eq!(result, "main");
}

#[test]
fn test_compute_target_branch_finds_nearest_open_ancestor() {
    let entries = vec![make_test_entry("c-aaa1111"), make_test_entry("c-bbb2222"), make_test_entry("c-ccc3333")];
    let stack = make_test_stack(entries.clone());
    let closed = vec![false, true];
    let result = compute_target_branch(2, "main", &entries, &closed, &stack);
    let expected = stack.entry_branch_name(&entries[0]).unwrap();
    assert_eq!(result, expected);
}

#[test]
fn replacement_comment_without_url_and_gitlab_note() {
    let comment = replacement_closing_comment(&Provider::GitLab, "u/old--c-1", "u/new--c-1", 7, "");
    assert!(comment.ends_with("Replacement: !7"));
    let note = description_with_replacement_note("Body", &Provider::GitLab, 5);
    assert_eq!(note, "Body\n\nReplaces MR !5 because the source branch changed after `gg unstack`.");
}

#[test]
fn push_failure_report_prefers_hook_output() {
    let err = GgError::PushFailed {
        branch: "u/s--c-1".to_string(),
        hook_error: Some("lint failed\nline 2".to_string()),
        git_error: Some("rejected".to_string()),
    };
    let report = push_failure_report(&err, "ignored");
    let kinds: Vec<ReportLineKind> = report.iter().map(|l| l.kind).collect();
    assert_eq!(
        kinds,
        vec![
            ReportLineKind::Blank,
            ReportLineKind::Failure,
            ReportLineKind::Blank,
            ReportLineKind::HookHeading,
            ReportLineKind::Detail,
            ReportLineKind::Detail,
            ReportLineKind::Blank,
            ReportLineKind::SuggestionHeading,
            ReportLineKind::Suggestion,
        ]
    );
    assert_eq!(report[1].text, "u/s--c-1");
    assert_eq!(report[4].text, "  lint failed");
    assert_eq!(report[5].text, "  line 2");
}

#[test]
fn push_failure_report_git_error_and_generic() {
    let err = GgError::PushFailed { branch: "b".to_string(), hook_error: None, git_error: Some("rejected".to_string()) };
    let report = push_failure_report(&err, "b");
    assert_eq!(report[3].kind, ReportLineKind::GitHeading);
    assert_eq!(report[4].text, "  rejected");
    assert_eq!(report.len(), 6);

    let err = GgError::PushFailed { branch: "b".to_string(), hook_error: None, git_error: None };
    let report = push_failure_report(&err, "b");
    assert_eq!(report[3].text, "  The push command failed without a clear error message.");
    assert_eq!(report.len(), 6);

    let report = push_failure_report(&GgError::Other("boom".to_string()), "b");
    assert_eq!(report.len(), 3);
    assert_eq!(report[1].kind, ReportLineKind::Failure);
    assert_eq!(report[1].text, "b");
    assert_eq!(report[1].detail.as_deref(), Some("boom"));
}

#[test]
fn behind_base_decisions() {
    assert_eq!(behind_action(0, Some(100), true, false), BehindAction::Proceed);
    assert_eq!(behind_action(5, None, true, false), BehindAction::Proceed);
    assert_eq!(behind_action(5, Some(4), true, false), BehindAction::Proceed);
    assert_eq!(behind_action(5, Some(5), true, true), BehindAction::AutoRebase);
    assert_eq!(behind_action(5, Some(9), false, true), BehindAction::Proceed);
    assert_eq!(behind_action(5, Some(9), false, false), BehindAction::Ask);
    assert_eq!(
        behind_message(7, "main", "PRs", true),
        "Your stack is 7 commits behind origin/main. PRs may show unrelated changes. Auto-rebasing..."
    );
    assert_eq!(
        behind_message(7, "main", "MRs", false),
        "Your stack is 7 commits behind origin/main. MRs may show unrelated changes. Run 'gg rebase' first to update."
    );
}

#[test]
fn drafts_propagate_up_from_first_wip_title() {
    let titles = vec!["Base".to_string(), "  wip: middle".to_string(), "Top".to_string()];
    assert_eq!(entry_drafts(false, &titles), vec![false, true, true]);
    assert_eq!(entry_drafts(true, &titles), vec![true, true, true]);
    let plain = vec!["A".to_string(), "B".to_string()];
    assert_eq!(entry_drafts(false, &plain), vec![false, false]);
}

fn info_with(state: PrState, head: Option<&str>, draft: bool) -> PrInfo {
    PrInfo {
        number: 9,
        title: "t".to_string(),
        state,
        url: "https://x/9".to_string(),
        head_branch: head.map(str::to_string),
        draft,
        approved: false,
        mergeable: false,
        changes_requested: false,
    }
}

#[test]
fn existing_pr_plans() {
    let merged = info_with(PrState::Merged, Some("old"), false);
    assert_eq!(existing_pr_plan(Some(&merged), "new"), ExistingPrPlan::SkipClosed);
    let moved = info_with(PrState::Open, Some("u/s--c-1"), true);
    assert_eq!(
        existing_pr_plan(Some(&moved), "u/t--c-1"),
        ExistingPrPlan::Recreate { old_head: "u/s--c-1".to_string(), draft: true }
    );
    let same = info_with(PrState::Draft, Some("u/s--c-1"), true);
    assert_eq!(existing_pr_plan(Some(&same), "u/s--c-1"), ExistingPrPlan::Update);
    assert_eq!(existing_pr_plan(None, "b"), ExistingPrPlan::Update);
}

#[test]
fn sync_steps_through_entries() {
    // Entry 0 has no request; entry 1 is WIP with request 7; entry 2 has request 9.
    let s = SyncState::new(vec![false, true, false], vec![None, Some(7), Some(9)], false, false, true, true);
    let (s, a) = sync_step(&s, SyncEvent::Begin);
    assert_eq!(a, SyncAction::CheckRemote(0));
    let (s, a) = sync_step(&s, SyncEvent::RemoteMatches(false));
    assert_eq!(a, SyncAction::Push(0));
    let (s, a) = sync_step(&s, SyncEvent::PushDone(true));
    assert_eq!(a, SyncAction::CreatePr { index: 0, draft: false });
    let (s, a) = sync_step(&s, SyncEvent::Created(true));
    assert_eq!(a, SyncAction::CheckRemote(1));
    let (s, a) = sync_step(&s, SyncEvent::RemoteMatches(true));
    assert_eq!(a, SyncAction::FetchPr { index: 1, number: 7 });
    let (s, a) = sync_step(&s, SyncEvent::Info { closed: true, head_changed: false, draft: false });
    assert_eq!(a, SyncAction::CheckRemote(2));
    assert!(s.force_draft);
    let (s, a) = sync_step(&s, SyncEvent::RemoteMatches(true));
    assert_eq!(a, SyncAction::FetchPr { index: 2, number: 9 });
    let (s, a) = sync_step(&s, SyncEvent::Info { closed: false, head_changed: true, draft: true });
    assert_eq!(a, SyncAction::RecreatePr { index: 2, number: 9, draft: true });
    let (s, a) = sync_step(&s, SyncEvent::Recreated(true));
    assert_eq!(a, SyncAction::Finish);
    assert_eq!(s.phase, SyncPhase::Done);
    assert_eq!(s.outcomes, vec![EntryOutcome::Created, EntryOutcome::SkippedClosed, EntryOutcome::Recreated]);
    assert_eq!(s.closed, vec![false, true, false]);
    let (_s, a) = sync_step(&s, SyncEvent::Begin);
    assert_eq!(a, SyncAction::Nothing);
}

#[test]
fn sync_push_failure_stops_outside_json() {
    let s = SyncState::new(vec![false], vec![Some(3)], false, true, false, false);
    let (s, _) = sync_step(&s, SyncEvent::Begin);
    let (s, _) = sync_step(&s, SyncEvent::RemoteMatches(false));
    let (s, a) = sync_step(&s, SyncEvent::PushDone(false));
    assert_eq!(a, SyncAction::AbortPush(0));
    assert_eq!(s.phase, SyncPhase::Done);

    let j = SyncState::new(vec![false, false], vec![Some(3), Some(4)], false, true, false, true);
    let (j, _) = sync_step(&j, SyncEvent::Begin);
    let (j, _) = sync_step(&j, SyncEvent::RemoteMatches(false));
    let (j, a) = sync_step(&j, SyncEvent::PushDone(false));
    assert_eq!(a, SyncAction::CheckRemote(1));
    let (j, _) = sync_step(&j, SyncEvent::RemoteMatches(true));
    let (j, a) = sync_step(&j, SyncEvent::InfoUnknown);
    assert_eq!(a, SyncAction::UpdatePr { index: 1, number: 4, title: true, description: false });
    let (j, a) = sync_step(&j, SyncEvent::Updated);
    assert_eq!(a, SyncAction::Finish);
    assert_eq!(j.outcomes, vec![EntryOutcome::Error, EntryOutcome::Updated]);
}
