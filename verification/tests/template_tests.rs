use gg_core::template::{render_breadcrumbs, render_template, splice_breadcrumbs, BreadcrumbEntry, TemplateContext, BREADCRUMBS_END, BREADCRUMBS_START};

// --- Breadcrumb tests ---

fn sample_entries() -> Vec<BreadcrumbEntry> {
    vec![
        BreadcrumbEntry {
            title: "Add auth module".to_string(),
            pr_number: Some(10),
            pr_url: Some("https://github.com/org/repo/pull/10".to_string()),
        },
        BreadcrumbEntry {
            title: "Add login page".to_string(),
            pr_number: Some(11),
            pr_url: Some("https://github.com/org/repo/pull/11".to_string()),
        },
        BreadcrumbEntry {
            title: "Add logout button".to_string(),
            pr_number: Some(12),
            pr_url: Some("https://github.com/org/repo/pull/12".to_string()),
        },
    ]
}

#[test]
fn test_render_breadcrumbs_middle_entry() {
    let entries = sample_entries();
    let block = render_breadcrumbs("auth-feature", &entries, 1, "PR", "#");

    assert!(block.starts_with(BREADCRUMBS_START));
    assert!(block.ends_with(BREADCRUMBS_END));
    assert!(block.contains("**Stack:** `auth-feature` — 2/3"));
    // Navigation links to adjacent PRs
    assert!(block.contains("[PR #10](https://github.com/org/repo/pull/10)"));
    assert!(block.contains("[PR #12](https://github.com/org/repo/pull/12)"));
    // Current entry marker
    assert!(
        block.contains("2. Add login page — [#11](https://github.com/org/repo/pull/11) **⮜**")
    );
}

#[test]
fn test_render_breadcrumbs_first_entry() {
    let entries = sample_entries();
    let block = render_breadcrumbs("auth-feature", &entries, 0, "PR", "#");
    assert!(block.contains("— 1/3"));
    assert!(block.contains("THIS (bottom)"));
    assert!(block.contains("[PR #11](https://github.com/org/repo/pull/11)"));
}

#[test]
fn test_render_breadcrumbs_last_entry() {
    let entries = sample_entries();
    let block = render_breadcrumbs("auth-feature", &entries, 2, "PR", "#");
    assert!(block.contains("— 3/3"));
    assert!(block.contains("←\u{a0}THIS (top)"));
}

#[test]
fn test_render_breadcrumbs_single_entry() {
    let entries = vec![BreadcrumbEntry {
        title: "Only commit".to_string(),
        pr_number: Some(1),
        pr_url: Some("https://github.com/org/repo/pull/1".to_string()),
    }];
    let block = render_breadcrumbs("solo", &entries, 0, "PR", "#");
    assert!(block.contains("— 1/1"));
    assert!(block.contains("THIS (only entry)"));
}

#[test]
fn test_render_breadcrumbs_gitlab_prefix() {
    let entries = vec![
        BreadcrumbEntry {
            title: "First".to_string(),
            pr_number: Some(100),
            pr_url: Some("https://gitlab.com/org/repo/-/merge_requests/100".to_string()),
        },
        BreadcrumbEntry {
            title: "Second".to_string(),
            pr_number: Some(101),
            pr_url: None,
        },
    ];
    let block = render_breadcrumbs("gl-stack", &entries, 0, "MR", "!");
    assert!(block.contains("MR !101"));
    assert!(block.contains("!100"));
}

#[test]
fn test_render_breadcrumbs_entry_without_pr() {
    let entries = vec![
        BreadcrumbEntry {
            title: "Has PR".to_string(),
            pr_number: Some(10),
            pr_url: Some("https://example.com/10".to_string()),
        },
        BreadcrumbEntry {
            title: "No PR yet".to_string(),
            pr_number: None,
            pr_url: None,
        },
    ];
    let block = render_breadcrumbs("mixed", &entries, 0, "PR", "#");
    // Entry without PR should have no link
    assert!(block.contains("2. No PR yet\n"));
}

#[test]
fn test_splice_breadcrumbs_append_to_empty() {
    let block = "<!-- gg:breadcrumbs:start -->\ntest\n<!-- gg:breadcrumbs:end -->";
    let (result, changed) = splice_breadcrumbs("", block);
    assert!(changed);
    assert!(result.contains(block));
}

#[test]
fn test_splice_breadcrumbs_append_to_existing_body() {
    let body = "User-written description\n\nMore details.";
    let block = "<!-- gg:breadcrumbs:start -->\nstuff\n<!-- gg:breadcrumbs:end -->";
    let (result, changed) = splice_breadcrumbs(body, block);
    assert!(changed);
    // User content preserved
    assert!(result.starts_with("User-written description\n\nMore details."));
    // Separator between user content and breadcrumbs
    assert!(result.contains("\n\n---\n\n"));
    assert!(result.contains(block));
}

#[test]
fn test_splice_breadcrumbs_replace_existing() {
    let old_block = "<!-- gg:breadcrumbs:start -->\nold stuff\n<!-- gg:breadcrumbs:end -->";
    let new_block = "<!-- gg:breadcrumbs:start -->\nnew stuff\n<!-- gg:breadcrumbs:end -->";
    let body = format!("User description\n\n---\n\n{}\n", old_block);
    let (result, changed) = splice_breadcrumbs(&body, new_block);
    assert!(changed);
    // Old block replaced
    assert!(!result.contains("old stuff"));
    assert!(result.contains("new stuff"));
    // User content preserved
    assert!(result.starts_with("User description\n\n---\n\n"));
}

#[test]
fn test_splice_breadcrumbs_idempotent() {
    let block = "<!-- gg:breadcrumbs:start -->\nstuff\n<!-- gg:breadcrumbs:end -->";
    let body = format!("Description\n\n---\n\n{}\n", block);
    let (result, changed) = splice_breadcrumbs(&body, block);
    assert!(!changed);
    assert_eq!(result, body);
}

#[test]
fn test_splice_breadcrumbs_preserves_content_after_markers() {
    let old_block = "<!-- gg:breadcrumbs:start -->\nold\n<!-- gg:breadcrumbs:end -->";
    let new_block = "<!-- gg:breadcrumbs:start -->\nnew\n<!-- gg:breadcrumbs:end -->";
    let body = format!("Before\n{}\nAfter", old_block);
    let (result, changed) = splice_breadcrumbs(&body, new_block);
    assert!(changed);
    assert!(result.starts_with("Before\n"));
    assert!(result.ends_with("\nAfter"));
    assert!(result.contains("new"));
}

// --- Template tests ---

#[test]
fn test_render_template_all_placeholders() {
    let template =
        "# {{title}}\n\n{{description}}\n\n---\nStack: {{stack_name}}\nCommit: {{commit_sha}}";
    let ctx = TemplateContext {
        description: Some("This is the description"),
        stack_name: "my-feature",
        commit_sha: "abc1234",
        title: "Add new feature",
    };

    let result = render_template(template, &ctx);
    assert_eq!(
        result,
        "# Add new feature\n\nThis is the description\n\n---\nStack: my-feature\nCommit: abc1234"
    );
}

#[test]
fn test_render_template_no_description() {
    let template = "Title: {{title}}\nDesc: {{description}}";
    let ctx = TemplateContext {
        description: None,
        stack_name: "stack",
        commit_sha: "abc",
        title: "Test",
    };

    let result = render_template(template, &ctx);
    assert_eq!(result, "Title: Test\nDesc: ");
}

#[test]
fn test_render_template_multiple_same_placeholder() {
    let template = "{{title}} - {{title}}";
    let ctx = TemplateContext {
        description: None,
        stack_name: "stack",
        commit_sha: "abc",
        title: "Test",
    };

    let result = render_template(template, &ctx);
    assert_eq!(result, "Test - Test");
}


#[test]
fn splice_then_splice_again_is_unchanged() {
    let block = render_breadcrumbs("s", &sample_entries(), 1, "PR", "#");
    let (once, changed) = splice_breadcrumbs("Body", &block);
    assert!(changed);
    let (twice, changed_again) = splice_breadcrumbs(&once, &block);
    assert!(!changed_again);
    assert_eq!(once, twice);
}
