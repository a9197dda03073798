use gg_core::gh::{
    aggregate_status_checks, already_draft, approval_from_output, body_from_output, ci_status_from_output,
    pr_creation_from_output, inbox_snapshot_from_json, pr_info_from_json,
    pr_numbers_from_output, pr_state_from, CiStatus, GhPrJson, GhReview, GhStatusCheck, IssueComment,
    PrCreationResult, PrInfo, PrState,
};

#[test]
fn test_pr_state_equality() {
    assert_eq!(PrState::Open, PrState::Open);
    assert_eq!(PrState::Merged, PrState::Merged);
    assert_eq!(PrState::Closed, PrState::Closed);
    assert_eq!(PrState::Draft, PrState::Draft);
    assert_ne!(PrState::Open, PrState::Merged);
}

#[test]
fn test_ci_status_equality() {
    assert_eq!(CiStatus::Success, CiStatus::Success);
    assert_eq!(CiStatus::Failed, CiStatus::Failed);
    assert_eq!(CiStatus::Pending, CiStatus::Pending);
    assert_ne!(CiStatus::Success, CiStatus::Failed);
}

#[test]
fn test_pr_info_construction() {
    let info = PrInfo {
        number: 42,
        title: "Test PR".to_string(),
        state: PrState::Open,
        url: "https://github.com/test/repo/pull/42".to_string(),
        head_branch: Some("user/stack--c-abc1234".to_string()),
        draft: false,
        approved: true,
        mergeable: true,
        changes_requested: false,
    };
    assert_eq!(info.number, 42);
    assert_eq!(info.title, "Test PR");
    assert_eq!(info.state, PrState::Open);
    assert!(info.approved);
    assert!(info.mergeable);
}

#[test]
fn test_pr_creation_result_construction() {
    let result = PrCreationResult { number: 42, url: "https://github.com/user/repo/pull/42".to_string() };
    assert_eq!(result.number, 42);
    assert_eq!(result.url, "https://github.com/user/repo/pull/42");
}

#[test]
fn test_pr_creation_result_clone() {
    let result = PrCreationResult { number: 123, url: "https://github.com/test/repo/pull/123".to_string() };
    let cloned = result.clone();
    assert_eq!(cloned.number, 123);
    assert_eq!(cloned.url, "https://github.com/test/repo/pull/123");
}

#[test]
fn test_comment_helpers_exist() {
    // The comment calls themselves run `gh`; what the library holds of them
    // is the comment type they exchange.
    let comment = IssueComment { id: 12345, body: "This is a comment\n<!-- gg:stack-nav -->".to_string() };
    let copy = comment.clone();
    assert_eq!(copy.id, 12345);
    assert!(copy.body.contains("<!-- gg:stack-nav -->"));
}

fn check(status: Option<&str>, conclusion: Option<&str>, state: Option<&str>) -> GhStatusCheck {
    GhStatusCheck {
        status: status.map(str::to_string),
        conclusion: conclusion.map(str::to_string),
        state: state.map(str::to_string),
    }
}

fn pr_json(review_decision: Option<&str>, rollup: Vec<GhStatusCheck>) -> GhPrJson {
    GhPrJson {
        number: 42,
        title: "Add login".to_string(),
        state: "OPEN".to_string(),
        url: "https://github.com/acme/app/pull/42".to_string(),
        head_ref_name: Some("nacho/auth/c-abc1234".to_string()),
        is_draft: false,
        mergeable: Some("MERGEABLE".to_string()),
        reviews: vec![],
        review_decision: review_decision.map(str::to_string),
        status_check_rollup: rollup,
    }
}

#[test]
fn inbox_snapshot_parses_review_and_ci_from_one_response() {
    let json = pr_json(Some("APPROVED"), vec![check(Some("COMPLETED"), Some("SUCCESS"), None)]);
    let snapshot = inbox_snapshot_from_json(json);
    assert_eq!(snapshot.state, PrState::Open);
    assert!(snapshot.approved);
    assert!(!snapshot.changes_requested);
    assert!(snapshot.mergeable);
    assert_eq!(snapshot.ci_status, Some(CiStatus::Success));
}

#[test]
fn inbox_snapshot_treats_empty_rollup_as_no_ci() {
    let mut json = pr_json(Some("CHANGES_REQUESTED"), vec![]);
    json.head_ref_name = None;
    let snapshot = inbox_snapshot_from_json(json);
    assert!(snapshot.changes_requested);
    assert_eq!(snapshot.ci_status, None);
}

#[test]
fn inbox_snapshot_treats_null_review_decision_as_no_review_required() {
    let json = pr_json(None, vec![]);
    let snapshot = inbox_snapshot_from_json(json);
    assert!(snapshot.approved);
    assert!(!snapshot.changes_requested);
}

#[test]
fn inbox_snapshot_aggregates_rollup_statuses_by_priority() {
    let cases = vec![
        (
            vec![check(Some("COMPLETED"), Some("SUCCESS"), None), check(Some("COMPLETED"), Some("FAILURE"), None)],
            CiStatus::Failed,
        ),
        (
            vec![check(Some("COMPLETED"), Some("SUCCESS"), None), check(Some("COMPLETED"), Some("CANCELLED"), None)],
            CiStatus::Canceled,
        ),
        (vec![check(Some("IN_PROGRESS"), None, None)], CiStatus::Pending),
        (vec![check(None, None, Some("EXPECTED"))], CiStatus::Pending),
        (vec![check(Some("COMPLETED"), None, Some("ERROR"))], CiStatus::Failed),
        (vec![check(Some("COMPLETED"), Some("STARTUP_FAILURE"), None)], CiStatus::Failed),
        (vec![check(Some("COMPLETED"), Some("STALE"), None)], CiStatus::Failed),
    ];
    for (rollup, expected) in cases {
        let snapshot = inbox_snapshot_from_json(pr_json(None, rollup));
        assert_eq!(snapshot.ci_status, Some(expected));
    }
}

#[test]
fn aggregate_checks_lowercase_values_and_unknown() {
    assert_eq!(aggregate_status_checks(&[]), None);
    assert_eq!(
        aggregate_status_checks(&[check(Some("completed"), Some("success"), None)]),
        Some(CiStatus::Success)
    );
    assert_eq!(
        aggregate_status_checks(&[check(Some("COMPLETED"), Some("WEIRD"), None)]),
        Some(CiStatus::Unknown)
    );
}

#[test]
fn pr_info_from_gh_json() {
    let mut json = pr_json(Some("APPROVED"), vec![]);
    json.state = "merged".to_string();
    json.reviews = vec![GhReview { state: "APPROVED".to_string() }];
    let info = pr_info_from_json(json);
    assert_eq!(info.number, 42);
    assert_eq!(info.state, PrState::Merged);
    assert!(info.approved);
    assert!(info.mergeable);
    assert!(!info.changes_requested);
    assert_eq!(info.head_branch.as_deref(), Some("nacho/auth/c-abc1234"));
}

#[test]
fn pr_state_from_names() {
    assert_eq!(pr_state_from("open", false), PrState::Open);
    assert_eq!(pr_state_from("OPEN", true), PrState::Draft);
    assert_eq!(pr_state_from("Closed", true), PrState::Closed);
    assert_eq!(pr_state_from("MERGED", false), PrState::Merged);
}

#[test]
fn ci_status_from_gh_output() {
    assert_eq!(ci_status_from_output("SUCCESS\nfailure\n"), CiStatus::Failed);
    assert_eq!(ci_status_from_output("success\n  queued \n"), CiStatus::Pending);
    assert_eq!(ci_status_from_output("SUCCESS\nCANCELLED\nFAILURE\n"), CiStatus::Canceled);
    assert_eq!(ci_status_from_output("SUCCESS\n"), CiStatus::Success);
    assert_eq!(ci_status_from_output(""), CiStatus::Unknown);
}

#[test]
fn pr_numbers_from_gh_output() {
    assert_eq!(pr_numbers_from_output("12\n 7 \n\nabc\n+3\n"), vec![12, 7, 3]);
    assert_eq!(pr_numbers_from_output(""), Vec::<u64>::new());
}

#[test]
fn pr_creation_parsed_from_gh_output() {
    let out = "Creating pull request for u/s--c-1 into main\n\n  https://github.com/user/repo/pull/123  \n";
    let created = pr_creation_from_output(out).expect("a pull request");
    assert_eq!(created.number, 123);
    assert_eq!(created.url, "https://github.com/user/repo/pull/123");
    assert!(pr_creation_from_output("no url here\n").is_none());
    assert!(pr_creation_from_output("https://x/pull/abc\n").is_none());
}

#[test]
fn approval_body_and_draft_outputs() {
    assert!(approval_from_output("APPROVED\n"));
    assert!(approval_from_output("\n"));
    assert!(approval_from_output("null"));
    assert!(!approval_from_output("REVIEW_REQUIRED\n"));
    assert_eq!(body_from_output("Body text\n\n"), "Body text\n");
    assert_eq!(body_from_output("x"), "x");
    assert!(already_draft("Pull request #3 is Already a DRAFT"));
    assert!(!already_draft("not found"));
}

#[test]
fn lowercase_states_and_conclusions_are_read_like_uppercase() {
    assert!(matches!(pr_state_from("merged", false), PrState::Merged));
    assert!(matches!(pr_state_from("Closed", true), PrState::Closed));
    assert!(matches!(pr_state_from("open", true), PrState::Draft));
    let checks = vec![check(Some("completed"), Some("success"), None)];
    assert!(matches!(aggregate_status_checks(&checks), Some(CiStatus::Success)));
    let checks = vec![check(Some("completed"), Some("success"), None), check(Some("completed"), Some("failure"), None)];
    assert!(matches!(aggregate_status_checks(&checks), Some(CiStatus::Failed)));
}

#[test]
fn check_order_does_not_change_status() {
    let a = check(Some("COMPLETED"), Some("SUCCESS"), None);
    let b = check(Some("IN_PROGRESS"), None, None);
    let c = check(Some("COMPLETED"), Some("CANCELLED"), None);
    let first = aggregate_status_checks(&[a.clone(), b.clone(), c.clone()]);
    let second = aggregate_status_checks(&[c, a, b]);
    assert_eq!(format!("{:?}", first), format!("{:?}", second));
}
