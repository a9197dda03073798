//! Configuration of git-gud: defaults and per-stack settings.
//!
//! The configuration lives in `.git/gg/config.json`; reading and writing the
//! file is the caller's business, this module holds the values and the rules
//! that answer questions about them.
use vstd::prelude::*;
use crate::git::opt_view;
use crate::keyed::KeyedList;
use crate::paths::{file_name, file_name_of, is_absolute, is_absolute_path, join_path, path_join};
use crate::text::{chars_of, replace_all, replace_all_exec, string_of};

verus! {

/// How `gg sync` integrates with GitHub's native stacked pull requests.
#[derive(Debug, Clone, Copy, PartialEq, Eq, Structural)]
pub enum GithubStacksIntegration {
    Off,
    Auto,
    Force,
}

/// Behavior for `gg amend` when unstaged changes are detected.
#[derive(Debug, Clone, Copy, PartialEq, Eq, Structural)]
pub enum UnstagedAction {
    /// Prompt the user to choose what to do.
    Ask,
    /// Stage all changes (including untracked files) and continue.
    Add,
    /// Stash unstaged changes and continue.
    Stash,
    /// Continue without including unstaged changes.
    Continue,
    /// Abort the operation when unstaged changes are present.
    Abort,
}

impl Default for UnstagedAction {
    fn default() -> (r: Self)
        ensures
            r == UnstagedAction::Ask,
    {
        UnstagedAction::Ask
    }
}

/// GitLab-specific default settings.
#[derive(Debug, Clone, Copy, PartialEq, Eq, Structural)]
pub struct GitLabDefaults {
    /// When landing, ask GitLab to merge once the pipeline succeeds.
    pub auto_merge_on_land: bool,
}

impl Default for GitLabDefaults {
    fn default() -> (r: Self)
        ensures
            !r.auto_merge_on_land,
    {
        GitLabDefaults { auto_merge_on_land: false }
    }
}

/// Default configuration values.
#[derive(Debug, Clone)]
pub struct Defaults {
    /// Git hosting provider ("github" or "gitlab") for self-hosted instances.
    pub provider: Option<String>,
    /// GitLab-specific defaults.
    pub gitlab: GitLabDefaults,
    /// Base branch name (auto-detected when absent).
    pub base: Option<String>,
    /// Username for branch naming.
    pub branch_username: Option<String>,
    /// Lint commands to run per commit.
    pub lint: Vec<String>,
    /// Kept for compatibility with existing files; metadata is always normalized.
    pub auto_add_gg_ids: bool,
    /// Timeout in minutes for `gg land --wait`.
    pub land_wait_timeout_minutes: Option<u64>,
    /// Clean up the stack after landing every entry.
    pub land_auto_clean: bool,
    /// Use admin privileges to bypass approval requirements on land.
    pub land_admin: bool,
    /// Run lint before sync.
    pub sync_auto_lint: bool,
    /// Rebase before sync when the stack base is behind `origin/<base>`.
    pub sync_auto_rebase: bool,
    /// How far behind the base may be before sync warns or rebases.
    pub sync_behind_threshold: usize,
    /// Default action for `gg amend` when unstaged changes are present.
    pub unstaged_action: UnstagedAction,
    /// Create new pull requests as drafts during sync.
    pub sync_draft: bool,
    /// Update descriptions on re-sync.
    pub sync_update_descriptions: bool,
}

/// `d` holds the built-in defaults.
pub open spec fn is_builtin_defaults(d: Defaults) -> bool {
    &&& d.provider is None
    &&& !d.gitlab.auto_merge_on_land
    &&& d.base is None
    &&& d.branch_username is None
    &&& d.lint@.len() == 0
    &&& d.auto_add_gg_ids
    &&& d.land_wait_timeout_minutes is None
    &&& !d.land_auto_clean
    &&& !d.land_admin
    &&& !d.sync_auto_lint
    &&& !d.sync_auto_rebase
    &&& d.sync_behind_threshold == 1
    &&& d.unstaged_action == UnstagedAction::Ask
    &&& !d.sync_draft
    &&& d.sync_update_descriptions
}

impl Default for Defaults {
    fn default() -> (r: Self)
        ensures
            is_builtin_defaults(r),
    {
        Defaults {
            provider: None,
            gitlab: GitLabDefaults { auto_merge_on_land: false },
            base: None,
            branch_username: None,
            lint: Vec::new(),
            auto_add_gg_ids: true,
            land_wait_timeout_minutes: None,
            land_auto_clean: false,
            land_admin: false,
            sync_auto_lint: false,
            sync_auto_rebase: false,
            sync_behind_threshold: 1,
            unstaged_action: UnstagedAction::Ask,
            sync_draft: false,
            sync_update_descriptions: true,
        }
    }
}

/// Per-stack configuration.
#[derive(Debug)]
pub struct StackConfig {
    /// Base branch override for this stack.
    pub base: Option<String>,
    /// Entry id to pull request number.
    pub mrs: KeyedList<u64>,
    /// Absolute path to a linked worktree for this stack.
    pub worktree_path: Option<String>,
}

/// `s` is a stack configuration with nothing set.
pub open spec fn is_blank_stack(s: StackConfig) -> bool {
    &&& s.base is None
    &&& s.mrs.view() == Map::<Seq<char>, u64>::empty()
    &&& s.worktree_path is None
}

impl Default for StackConfig {
    fn default() -> (r: Self)
        ensures
            is_blank_stack(r),
    {
        StackConfig { base: None, mrs: KeyedList::new(), worktree_path: None }
    }
}

/// Root configuration.
#[derive(Debug)]
pub struct Config {
    /// Default settings.
    pub defaults: Defaults,
    /// Template for a stack's worktree path; `{repo}` and `{stack}` are filled in.
    pub worktree_base_path: Option<String>,
    /// Per-stack configurations.
    pub stacks: KeyedList<StackConfig>,
}

impl Default for Config {
    fn default() -> (r: Self)
        ensures
            is_builtin_defaults(r.defaults),
            r.worktree_base_path is None,
            r.stacks.view() == Map::<Seq<char>, StackConfig>::empty(),
    {
        Config { defaults: Defaults::default(), worktree_base_path: None, stacks: KeyedList::new() }
    }
}

/// The base branch a stack uses: its own override, else the default.
pub open spec fn base_for(c: Config, stack: Seq<char>) -> Option<Seq<char>> {
    if c.stacks.view().contains_key(stack) && c.stacks.view()[stack].base is Some {
        opt_view(c.stacks.view()[stack].base)
    } else {
        opt_view(c.defaults.base)
    }
}

/// The pull request recorded for `entry` of `stack`.
pub open spec fn mr_for(c: Config, stack: Seq<char>, entry: Seq<char>) -> Option<u64> {
    if c.stacks.view().contains_key(stack) && c.stacks.view()[stack].mrs.view().contains_key(entry) {
        Some(c.stacks.view()[stack].mrs.view()[entry])
    } else {
        None
    }
}

/// `after` is `before` with `entry` of `stack` mapped to `mr`: the stack is
/// created blank if it was missing, and nothing else changes.
pub open spec fn mr_recorded(before: Config, after: Config, stack: Seq<char>, entry: Seq<char>, mr: u64) -> bool {
    let b = before.stacks.view();
    let a = after.stacks.view();
    &&& a.dom() == b.dom().insert(stack)
    &&& forall|s: Seq<char>| s != stack && #[trigger] b.contains_key(s) ==> a[s] == b[s]
    &&& a[stack].mrs.view() == (if b.contains_key(stack) { b[stack].mrs.view() } else { Map::empty() }).insert(entry, mr)
    &&& b.contains_key(stack) ==> a[stack].base == b[stack].base && a[stack].worktree_path == b[stack].worktree_path
    &&& !b.contains_key(stack) ==> a[stack].base is None && a[stack].worktree_path is None
    &&& after.defaults == before.defaults
    &&& after.worktree_base_path == before.worktree_base_path
}

/// `after` is `before` without the mapping of `entry` in `stack` (unchanged
/// when the stack is not configured).
pub open spec fn mr_forgotten(before: Config, after: Config, stack: Seq<char>, entry: Seq<char>) -> bool {
    let b = before.stacks.view();
    let a = after.stacks.view();
    &&& a.dom() == b.dom()
    &&& forall|s: Seq<char>| s != stack && #[trigger] b.contains_key(s) ==> a[s] == b[s]
    &&& b.contains_key(stack) ==> {
        &&& a[stack].mrs.view() == b[stack].mrs.view().remove(entry)
        &&& a[stack].base == b[stack].base
        &&& a[stack].worktree_path == b[stack].worktree_path
    }
    &&& after.defaults == before.defaults
    &&& after.worktree_base_path == before.worktree_base_path
}

/// Recording a pull request number and reading it back gives that number,
/// and every other entry of every stack reads as before.
pub proof fn lemma_set_then_get(before: Config, after: Config, stack: Seq<char>, entry: Seq<char>, mr: u64)
    requires
        mr_recorded(before, after, stack, entry, mr),
    ensures
        mr_for(after, stack, entry) == Some(mr),
        forall|s: Seq<char>, e: Seq<char>| !(s == stack && e == entry) ==> #[trigger] mr_for(after, s, e) == mr_for(before, s, e),
{
    assert(after.stacks.view().contains_key(stack));
    assert forall|s: Seq<char>, e: Seq<char>| !(s == stack && e == entry) implies #[trigger] mr_for(after, s, e) == mr_for(before, s, e) by {
        if s != stack {
            if before.stacks.view().contains_key(s) {
                assert(after.stacks.view().contains_key(s));
            } else {
                assert(!after.stacks.view().dom().contains(s));
            }
        }
    }
}

/// Forgetting a pull request mapping makes it read as absent, and every other
/// entry of every stack reads as before.
pub proof fn lemma_remove_then_get(before: Config, after: Config, stack: Seq<char>, entry: Seq<char>)
    requires
        mr_forgotten(before, after, stack, entry),
    ensures
        mr_for(after, stack, entry) is None,
        forall|s: Seq<char>, e: Seq<char>| !(s == stack && e == entry) ==> #[trigger] mr_for(after, s, e) == mr_for(before, s, e),
{
    assert forall|s: Seq<char>, e: Seq<char>| !(s == stack && e == entry) implies #[trigger] mr_for(after, s, e) == mr_for(before, s, e) by {
        if before.stacks.view().contains_key(s) {
            assert(after.stacks.view().contains_key(s));
        } else {
            assert(!after.stacks.view().dom().contains(s));
        }
    }
}

/// Where the worktree of `stack` goes: the template (by default
/// `../{repo}.{stack}`) with the repository's directory name and the stack
/// name filled in, taken relative to the repository root unless absolute.
pub open spec fn worktree_path(template: Option<Seq<char>>, repo_root: Seq<char>, stack: Seq<char>) -> Seq<char> {
    let repo = match file_name(repo_root) {
        Some(n) => n,
        None => "repo"@,
    };
    let t = match template {
        Some(t) => t,
        None => "../{repo}.{stack}"@,
    };
    let rendered = replace_all(replace_all(t, "{repo}"@, repo), "{stack}"@, stack);
    if is_absolute(rendered) {
        rendered
    } else {
        path_join(repo_root, rendered)
    }
}

/// `~/.config/gg` under the home directory `home`.
pub open spec fn config_dir_in(home: Seq<char>) -> Seq<char> {
    path_join(path_join(home, ".config"@), "gg"@)
}

/// The home directory (`dirs::home_dir`), as a string; `None` when it cannot
/// be determined. It depends on the environment, so nothing is stated of it.
/// Paths are strings in this library: a home directory that is not valid
/// UTF-8 comes back with its invalid bytes replaced by U+FFFD.
#[verifier::external_body]
fn home_dir() -> (r: Option<String>) {
    dirs::home_dir().map(|h| h.to_string_lossy().into_owned())
}

impl Config {
    /// The config file inside a git directory: `<git_dir>/gg/config.json`.
    pub fn config_path(git_dir: &str) -> (r: String)
        ensures
            r@ == path_join(path_join(git_dir@, "gg"@), "config.json"@),
    {
        let d = join_path(git_dir, "gg");
        join_path(d.as_str(), "config.json")
    }

    /// Makes sure `stack_name` has a configuration, adding a blank one if needed.
    pub fn get_or_create_stack(&mut self, stack_name: &str)
        ensures
            final(self).stacks.view().contains_key(stack_name@),
            old(self).stacks.view().contains_key(stack_name@) ==> final(self).stacks.view() == old(self).stacks.view(),
            !old(self).stacks.view().contains_key(stack_name@) ==> {
                &&& final(self).stacks.view() == old(self).stacks.view().insert(stack_name@, final(self).stacks.view()[stack_name@])
                &&& is_blank_stack(final(self).stacks.view()[stack_name@])
            },
            final(self).defaults == old(self).defaults,
            final(self).worktree_base_path == old(self).worktree_base_path,
    {
        if !self.stacks.contains_key(stack_name) {
            let key = string_of(&chars_of(stack_name));
            self.stacks.insert(key, StackConfig::default());
        }
    }

    /// The configuration of `stack_name`, if any.
    pub fn get_stack(&self, stack_name: &str) -> (r: Option<&StackConfig>)
        ensures
            match r {
                Some(s) => self.stacks.view().contains_key(stack_name@) && *s == self.stacks.view()[stack_name@],
                None => !self.stacks.view().contains_key(stack_name@),
            },
    {
        self.stacks.get(stack_name)
    }

    /// Forgets the configuration of `stack_name`.
    pub fn remove_stack(&mut self, stack_name: &str)
        ensures
            final(self).stacks.view() == old(self).stacks.view().remove(stack_name@),
            final(self).defaults == old(self).defaults,
            final(self).worktree_base_path == old(self).worktree_base_path,
    {
        self.stacks.remove(stack_name);
    }

    /// The base branch of a stack, falling back to the default base.
    pub fn get_base_for_stack(&self, stack_name: &str) -> (r: Option<&str>)
        ensures
            match r {
                Some(b) => base_for(*self, stack_name@) == Some(b@),
                None => base_for(*self, stack_name@) is None,
            },
    {
        match self.stacks.get(stack_name) {
            Some(s) => match &s.base {
                Some(b) => return Some(b.as_str()),
                None => {},
            },
            None => {},
        }
        match &self.defaults.base {
            Some(b) => Some(b.as_str()),
            None => None,
        }
    }

    /// The pull request number recorded for an entry of a stack.
    pub fn get_mr_for_entry(&self, stack_name: &str, entry_id: &str) -> (r: Option<u64>)
        ensures
            r == mr_for(*self, stack_name@, entry_id@),
    {
        match self.stacks.get(stack_name) {
            Some(s) => match s.mrs.get(entry_id) {
                Some(n) => Some(*n),
                None => None,
            },
            None => None,
        }
    }

    /// Records the pull request number of an entry, creating the stack's
    /// configuration if needed. Nothing else changes.
    pub fn set_mr_for_entry(&mut self, stack_name: &str, entry_id: &str, mr_number: u64)
        ensures
            mr_recorded(*old(self), *final(self), stack_name@, entry_id@, mr_number),
    {
        let mut stack = match self.stacks.remove(stack_name) {
            Some(s) => s,
            None => StackConfig::default(),
        };
        stack.mrs.insert(string_of(&chars_of(entry_id)), mr_number);
        self.stacks.insert(string_of(&chars_of(stack_name)), stack);
        proof {
            assert(self.stacks.view().dom() =~= old(self).stacks.view().dom().insert(stack_name@));
        }
    }

    /// Removes the pull request mapping of an entry, if its stack is configured.
    pub fn remove_mr_for_entry(&mut self, stack_name: &str, entry_id: &str)
        ensures
            mr_forgotten(*old(self), *final(self), stack_name@, entry_id@),
    {
        match self.stacks.remove(stack_name) {
            Some(mut stack) => {
                stack.mrs.remove(entry_id);
                self.stacks.insert(string_of(&chars_of(stack_name)), stack);
                proof {
                    assert(self.stacks.view().dom() =~= old(self).stacks.view().dom());
                }
            },
            None => {
                proof {
                    assert(self.stacks.view() =~= old(self).stacks.view());
                }
            },
        }
    }

    /// The names of the configured stacks.
    pub fn list_stacks(&self) -> (r: Vec<&str>)
        ensures
            r@.map_values(|k: &str| k@) == self.stacks.key_seq(),
    {
        self.stacks.keys()
    }

    /// Metadata normalization is always on; the stored flag is only kept.
    pub fn get_auto_add_gg_ids(&self) -> (r: bool)
        ensures
            r,
    {
        true
    }

    /// Minutes `gg land --wait` waits (30 unless configured).
    pub fn get_land_wait_timeout_minutes(&self) -> (r: u64)
        ensures
            r == match self.defaults.land_wait_timeout_minutes {
                Some(m) => m,
                None => 30,
            },
    {
        match self.defaults.land_wait_timeout_minutes {
            Some(m) => m,
            None => 30,
        }
    }

    /// Whether to clean up after landing every entry.
    pub fn get_land_auto_clean(&self) -> (r: bool)
        ensures
            r == self.defaults.land_auto_clean,
    {
        self.defaults.land_auto_clean
    }

    /// Whether landing uses admin privileges.
    pub fn get_land_admin(&self) -> (r: bool)
        ensures
            r == self.defaults.land_admin,
    {
        self.defaults.land_admin
    }

    /// Whether GitLab merges on pipeline success when landing.
    pub fn get_gitlab_auto_merge_on_land(&self) -> (r: bool)
        ensures
            r == self.defaults.gitlab.auto_merge_on_land,
    {
        self.defaults.gitlab.auto_merge_on_land
    }

    /// Whether sync runs lint first.
    pub fn get_sync_auto_lint(&self) -> (r: bool)
        ensures
            r == self.defaults.sync_auto_lint,
    {
        self.defaults.sync_auto_lint
    }

    /// Whether sync rebases first when behind.
    pub fn get_sync_auto_rebase(&self) -> (r: bool)
        ensures
            r == self.defaults.sync_auto_rebase,
    {
        self.defaults.sync_auto_rebase
    }

    /// How far behind the base may be before sync reacts.
    pub fn get_sync_behind_threshold(&self) -> (r: usize)
        ensures
            r == self.defaults.sync_behind_threshold,
    {
        self.defaults.sync_behind_threshold
    }

    /// What `gg amend` does with unstaged changes.
    pub fn get_unstaged_action(&self) -> (r: UnstagedAction)
        ensures
            r == self.defaults.unstaged_action,
    {
        self.defaults.unstaged_action
    }

    /// Whether new pull requests start as drafts.
    pub fn get_sync_draft(&self) -> (r: bool)
        ensures
            r == self.defaults.sync_draft,
    {
        self.defaults.sync_draft
    }

    /// Whether re-sync updates descriptions.
    pub fn get_sync_update_descriptions(&self) -> (r: bool)
        ensures
            r == self.defaults.sync_update_descriptions,
    {
        self.defaults.sync_update_descriptions
    }

    /// The global configuration directory, `~/.config/gg`; `None` when the
    /// home directory is unknown.
    pub fn global_config_dir() -> (r: Option<String>)
        ensures
            r matches Some(d) ==> exists|home: Seq<char>| d@ == config_dir_in(home),
    {
        match home_dir() {
            Some(h) => Some(Self::config_dir_under(h.as_str())),
            None => None,
        }
    }

    /// `<home>/.config/gg`.
    pub fn config_dir_under(home: &str) -> (r: String)
        ensures
            r@ == config_dir_in(home@),
    {
        let c = join_path(home, ".config");
        join_path(c.as_str(), "gg")
    }

    /// The global configuration file, `~/.config/gg/config.json`.
    pub fn global_config_path() -> (r: Option<String>)
        ensures
            r matches Some(p) ==> exists|home: Seq<char>| p@ == path_join(config_dir_in(home), "config.json"@),
    {
        match Self::global_config_dir() {
            Some(d) => Some(join_path(d.as_str(), "config.json")),
            None => None,
        }
    }

    /// Lays a repository's own configuration over this (global) one: the
    /// local stacks and defaults replace these, and the local worktree
    /// template wins when it is set.
    pub fn merge_local(&mut self, local: Config)
        ensures
            final(self).stacks == local.stacks,
            final(self).defaults == local.defaults,
            final(self).worktree_base_path == (if local.worktree_base_path is Some {
                local.worktree_base_path
            } else {
                old(self).worktree_base_path
            }),
    {
        let Config { defaults, worktree_base_path, stacks } = local;
        self.stacks = stacks;
        if worktree_base_path.is_some() {
            self.worktree_base_path = worktree_base_path;
        }
        self.defaults = defaults;
    }

    /// Where the worktree of `stack_name` goes for the repository at `repo_root`.
    pub fn render_worktree_path(&self, repo_root: &str, stack_name: &str) -> (r: String)
        ensures
            r@ == worktree_path(opt_view(self.worktree_base_path), repo_root@, stack_name@),
    {
        let repo_name: String = match file_name_of(repo_root) {
            Some(n) => n,
            None => string_of(&chars_of("repo")),
        };
        let template: Vec<char> = match &self.worktree_base_path {
            Some(t) => chars_of(t.as_str()),
            None => chars_of("../{repo}.{stack}"),
        };
        let repo_pat = chars_of("{repo}");
        let stack_pat = chars_of("{stack}");
        proof {
            reveal_strlit("{repo}");
            reveal_strlit("{stack}");
        }
        let step = replace_all_exec(&template, &repo_pat, &chars_of(repo_name.as_str()));
        let rendered_chars = replace_all_exec(&step, &stack_pat, &chars_of(stack_name));
        let rendered = string_of(&rendered_chars);
        if is_absolute_path(rendered.as_str()) {
            rendered
        } else {
            join_path(repo_root, rendered.as_str())
        }
    }
}

} // verus!
