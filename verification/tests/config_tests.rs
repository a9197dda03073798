use gg_core::config::{Config, UnstagedAction};

#[test]
fn test_land_wait_timeout_default() {
    let config = Config::default();
    assert_eq!(config.get_land_wait_timeout_minutes(), 30);
}

#[test]
fn test_land_wait_timeout_custom() {
    let mut config = Config::default();
    config.defaults.land_wait_timeout_minutes = Some(60);
    assert_eq!(config.get_land_wait_timeout_minutes(), 60);
}

#[test]
fn test_land_auto_clean_default() {
    let config = Config::default();
    assert!(!config.get_land_auto_clean());
}

#[test]
fn test_land_auto_clean_enabled() {
    let mut config = Config::default();
    config.defaults.land_auto_clean = true;
    assert!(config.get_land_auto_clean());
}

#[test]
fn test_land_admin_default() {
    let config = Config::default();
    assert!(!config.get_land_admin());
}

#[test]
fn test_land_admin_enabled() {
    let mut config = Config::default();
    config.defaults.land_admin = true;
    assert!(config.get_land_admin());
}

#[test]
fn test_provider_config_default_is_none() {
    let config = Config::default();
    assert!(config.defaults.provider.is_none());
}

#[test]
fn test_provider_config_github() {
    let mut config = Config::default();
    config.defaults.provider = Some("github".to_string());
    assert_eq!(config.defaults.provider.as_deref(), Some("github"));
}

#[test]
fn test_provider_config_gitlab() {
    let mut config = Config::default();
    config.defaults.provider = Some("gitlab".to_string());
    assert_eq!(config.defaults.provider.as_deref(), Some("gitlab"));
}

#[test]
fn test_gitlab_auto_merge_on_land_default_is_false() {
    let config = Config::default();
    assert!(!config.get_gitlab_auto_merge_on_land());
}

#[test]
fn test_sync_auto_lint_default() {
    let config = Config::default();
    assert!(!config.get_sync_auto_lint());
}

#[test]
fn test_sync_auto_lint_enabled() {
    let mut config = Config::default();
    config.defaults.sync_auto_lint = true;
    assert!(config.get_sync_auto_lint());
}

#[test]
fn test_sync_auto_rebase_default() {
    let config = Config::default();
    assert!(!config.get_sync_auto_rebase());
}

#[test]
fn test_sync_auto_rebase_enabled() {
    let mut config = Config::default();
    config.defaults.sync_auto_rebase = true;
    assert!(config.get_sync_auto_rebase());
}

#[test]
fn test_sync_behind_threshold_default() {
    let config = Config::default();
    assert_eq!(config.get_sync_behind_threshold(), 1);
}

#[test]
fn test_render_worktree_path_default() {
    let config = Config::default();
    let repo_root = "/tmp/my-repo";
    let path = config.render_worktree_path(repo_root, "feature-a");
    assert_eq!(path, "/tmp/my-repo/../my-repo.feature-a");
}

#[test]
fn test_render_worktree_path_custom_template() {
    let config = Config { worktree_base_path: Some("/tmp/wt/{repo}-{stack}".to_string()), ..Config::default() };
    let repo_root = "/workspace/my-repo";
    let path = config.render_worktree_path(repo_root, "feature-a");
    assert_eq!(path, "/tmp/wt/my-repo-feature-a");
}

#[test]
fn test_sync_draft_default_is_false() {
    let config = Config::default();
    assert!(!config.get_sync_draft());
}

#[test]
fn test_sync_draft_enabled() {
    let mut config = Config::default();
    config.defaults.sync_draft = true;
    assert!(config.get_sync_draft());
}

#[test]
fn test_sync_update_descriptions_default_is_true() {
    let config = Config::default();
    assert!(config.get_sync_update_descriptions());
}

#[test]
fn test_sync_update_descriptions_disabled() {
    let mut config = Config::default();
    config.defaults.sync_update_descriptions = false;
    assert!(!config.get_sync_update_descriptions());
}

#[test]
fn test_global_config_path_returns_some() {
    let path = Config::global_config_path();
    assert!(path.is_some());
    let path = path.unwrap();
    assert!(path.contains("gg"));
    assert!(path.contains("config.json"));
}

#[test]
fn test_missing_config_returns_default() {
    let config = Config::default();
    assert!(config.stacks.is_empty());
}

#[test]
fn test_auto_add_gg_ids_is_always_true_runtime() {
    let mut config = Config::default();
    config.defaults.auto_add_gg_ids = false;
    assert!(!config.defaults.auto_add_gg_ids);
    assert!(config.get_auto_add_gg_ids());
}

#[test]
fn unstaged_action_default_is_ask() {
    assert_eq!(UnstagedAction::default(), UnstagedAction::Ask);
    assert_eq!(Config::default().get_unstaged_action(), UnstagedAction::Ask);
}

#[test]
fn config_path_is_under_gg_directory() {
    assert_eq!(Config::config_path("/repo/.git"), "/repo/.git/gg/config.json");
    assert_eq!(Config::config_path("/repo/.git/"), "/repo/.git/gg/config.json");
}

#[test]
fn set_then_get_mr_for_entry_reads_back() {
    let mut config = Config::default();
    config.set_mr_for_entry("my-feature", "c-abc123", 1234);
    assert_eq!(config.get_mr_for_entry("my-feature", "c-abc123"), Some(1234));
    assert_eq!(config.get_mr_for_entry("my-feature", "c-other"), None);
    assert_eq!(config.get_mr_for_entry("other", "c-abc123"), None);
    config.set_mr_for_entry("my-feature", "c-abc123", 99);
    assert_eq!(config.get_mr_for_entry("my-feature", "c-abc123"), Some(99));
    config.remove_mr_for_entry("my-feature", "c-abc123");
    assert_eq!(config.get_mr_for_entry("my-feature", "c-abc123"), None);
    assert!(config.get_stack("my-feature").is_some());
}

#[test]
fn base_for_stack_falls_back_to_default() {
    let mut config = Config::default();
    assert_eq!(config.get_base_for_stack("s"), None);
    config.defaults.base = Some("main".to_string());
    assert_eq!(config.get_base_for_stack("s"), Some("main"));
    config.get_or_create_stack("s");
    assert_eq!(config.get_base_for_stack("s"), Some("main"));
    config.stacks.remove("s");
    config.stacks.insert(
        "s".to_string(),
        gg_core::config::StackConfig { base: Some("develop".to_string()), ..gg_core::config::StackConfig::default() },
    );
    assert_eq!(config.get_base_for_stack("s"), Some("develop"));
}

#[test]
fn list_and_remove_stacks() {
    let mut config = Config::default();
    config.get_or_create_stack("a");
    config.get_or_create_stack("b");
    config.get_or_create_stack("a");
    assert_eq!(config.list_stacks(), vec!["a", "b"]);
    config.remove_stack("a");
    assert_eq!(config.list_stacks(), vec!["b"]);
    assert!(config.get_stack("a").is_none());
}

#[test]
fn merge_local_prefers_local_values() {
    let mut global = Config::default();
    global.worktree_base_path = Some("/global/{stack}".to_string());
    global.defaults.base = Some("trunk".to_string());
    global.get_or_create_stack("global-stack");
    let mut local = Config::default();
    local.defaults.base = Some("develop".to_string());
    local.get_or_create_stack("local-stack");
    global.merge_local(local);
    assert_eq!(global.defaults.base.as_deref(), Some("develop"));
    assert_eq!(global.worktree_base_path.as_deref(), Some("/global/{stack}"));
    assert_eq!(global.list_stacks(), vec!["local-stack"]);

    let mut local2 = Config::default();
    local2.worktree_base_path = Some("/local/{repo}".to_string());
    global.merge_local(local2);
    assert_eq!(global.worktree_base_path.as_deref(), Some("/local/{repo}"));
}

#[test]
fn render_worktree_path_without_file_name_uses_repo() {
    let config = Config::default();
    assert_eq!(config.render_worktree_path("/", "s"), "/../repo.s");
    assert_eq!(config.render_worktree_path("/tmp/my-repo/", "s"), "/tmp/my-repo/../my-repo.s");
}
