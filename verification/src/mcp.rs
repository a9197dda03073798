//! What the read-only tool server reports about a stack.
use vstd::prelude::*;
use crate::config::Config;
use crate::gh::{CiStatus, PrState};
use crate::git::{format_stack_branch, opt_view, parse_stack_branch, stack_branch_parts};
use crate::stack::{synced_in, Stack, StackEntry};
use crate::text::{chars_of, copy_str, copy_strings, str_eq, string_of, views};

verus! {

/// Parameters of the stack listing tool.
#[derive(Debug)]
pub struct StackListParams {
    /// Refresh pull request status before listing.
    pub refresh: bool,
}

/// Parameters of the pull request tool.
#[derive(Debug)]
pub struct PrInfoParams {
    /// The number to look up.
    pub number: u64,
}

/// The lowercase name of a pull request state.
pub open spec fn pr_state_name(s: PrState) -> Seq<char> {
    match s {
        PrState::Open => "open"@,
        PrState::Merged => "merged"@,
        PrState::Closed => "closed"@,
        PrState::Draft => "draft"@,
    }
}

/// The lowercase name of a CI status.
pub open spec fn ci_status_name(s: CiStatus) -> Seq<char> {
    match s {
        CiStatus::Pending => "pending"@,
        CiStatus::Running => "running"@,
        CiStatus::Success => "success"@,
        CiStatus::Failed => "failed"@,
        CiStatus::Canceled => "canceled"@,
        CiStatus::Unknown => "unknown"@,
    }
}

/// The lowercase name of a pull request state.
pub fn pr_state_str(state: &PrState) -> (r: &'static str)
    ensures
        r@ == pr_state_name(*state),
{
    match state {
        PrState::Open => "open",
        PrState::Merged => "merged",
        PrState::Closed => "closed",
        PrState::Draft => "draft",
    }
}

/// The lowercase name of a CI status.
pub fn ci_status_str(status: &CiStatus) -> (r: &'static str)
    ensures
        r@ == ci_status_name(*status),
{
    match status {
        CiStatus::Pending => "pending",
        CiStatus::Running => "running",
        CiStatus::Success => "success",
        CiStatus::Failed => "failed",
        CiStatus::Canceled => "canceled",
        CiStatus::Unknown => "unknown",
    }
}

/// One entry as the tool reports it.
#[derive(Debug)]
pub struct StackEntryInfo {
    pub position: usize,
    pub sha: String,
    pub title: String,
    pub gg_id: Option<String>,
    pub pr_number: Option<u64>,
    pub pr_state: Option<String>,
    pub approved: bool,
    pub ci_status: Option<String>,
    pub is_current: bool,
}

/// The stack as the tool reports it.
#[derive(Debug)]
pub struct StackInfo {
    pub name: String,
    pub base: String,
    pub total_commits: usize,
    pub synced_commits: usize,
    pub current_position: Option<usize>,
    pub entries: Vec<StackEntryInfo>,
}

/// The report of one entry, given the commit HEAD is on.
pub open spec fn entry_info_ok(i: StackEntryInfo, e: StackEntry, head: Option<Seq<char>>) -> bool {
    &&& i.position == e.position
    &&& i.sha@ == e.short_sha@
    &&& i.title@ == e.title@
    &&& crate::git::opt_view(i.gg_id) == crate::git::opt_view(e.gg_id)
    &&& i.pr_number == e.mr_number
    &&& crate::git::opt_view(i.pr_state) == match e.mr_state {
        Some(s) => Some(pr_state_name(s)),
        None => None::<Seq<char>>,
    }
    &&& i.approved == e.approved
    &&& crate::git::opt_view(i.ci_status) == match e.ci_status {
        Some(s) => Some(ci_status_name(s)),
        None => None::<Seq<char>>,
    }
    &&& i.is_current == (head == Some(e.oid@))
}

/// The first entry, from `i` on, whose commit is `head`.
pub open spec fn first_at_head(es: Seq<StackEntry>, head: Seq<char>, i: int) -> Option<int>
    decreases es.len() - i,
{
    if i < 0 || i >= es.len() {
        None
    } else if es[i].oid@ == head {
        Some(i)
    } else {
        first_at_head(es, head, i + 1)
    }
}

fn copy(s: &String) -> (r: String)
    ensures
        r@ == s@,
{
    string_of(&chars_of(s.as_str()))
}

fn copy_opt(s: &Option<String>) -> (r: Option<String>)
    ensures
        crate::git::opt_view(r) == crate::git::opt_view(*s),
{
    match s {
        Some(x) => Some(copy(x)),
        None => None,
    }
}

/// The tool's report of a stack; `head_oid` is the commit HEAD is on.
pub fn build_stack_info(stack: &Stack, head_oid: Option<&str>) -> (r: StackInfo)
    ensures
        r.name@ == stack.name@,
        r.base@ == stack.base@,
        r.total_commits == stack.entries@.len(),
        r.synced_commits == synced_in(stack.entries@),
        r.current_position == match head_oid {
            Some(h) => match first_at_head(stack.entries@, h@, 0) {
                Some(i) => Some(stack.entries@[i].position),
                None => None,
            },
            None => None,
        },
        r.entries@.len() == stack.entries@.len(),
        forall|i: int| 0 <= i < stack.entries@.len() ==> entry_info_ok(
            #[trigger] r.entries@[i],
            stack.entries@[i],
            match head_oid {
                Some(h) => Some(h@),
                None => None,
            },
        ),
{
    let ghost head = match head_oid {
        Some(h) => Some(h@),
        None => None::<Seq<char>>,
    };
    let mut entries: Vec<StackEntryInfo> = Vec::new();
    let mut current: Option<usize> = None;
    let mut i: usize = 0;
    while i < stack.entries.len()
        invariant
            i <= stack.entries@.len(),
            head == match head_oid {
                Some(h) => Some(h@),
                None => None::<Seq<char>>,
            },
            entries@.len() == i,
            forall|k: int| 0 <= k < i ==> entry_info_ok(#[trigger] entries@[k], stack.entries@[k], head),
            head_oid is None ==> current is None,
            forall|h: &str| head_oid == Some(h) ==> (current is None ==> first_at_head(stack.entries@, h@, 0)
                == first_at_head(stack.entries@, h@, i as int)),
            forall|h: &str| head_oid == Some(h) ==> (current is Some ==> (first_at_head(stack.entries@, h@, 0) matches Some(k)
                && k < i && current == Some(stack.entries@[k].position))),
        decreases stack.entries.len() - i,
    {
        let e = &stack.entries[i];
        let here = match head_oid {
            Some(h) => str_eq(h, e.oid.as_str()),
            None => false,
        };
        if here && current.is_none() {
            current = Some(e.position);
        }
        let pr_state = match e.mr_state {
            Some(s) => Some(string_of(&chars_of(pr_state_str(&s)))),
            None => None,
        };
        let ci_status = match e.ci_status {
            Some(s) => Some(string_of(&chars_of(ci_status_str(&s)))),
            None => None,
        };
        let info = StackEntryInfo {
            position: e.position,
            sha: copy(&e.short_sha),
            title: copy(&e.title),
            gg_id: copy_opt(&e.gg_id),
            pr_number: e.mr_number,
            pr_state,
            approved: e.approved,
            ci_status,
            is_current: here,
        };
        entries.push(info);
        i = i + 1;
    }
    StackInfo {
        name: copy(&stack.name),
        base: copy(&stack.base),
        total_commits: stack.entries.len(),
        synced_commits: stack.synced_count(),
        current_position: current,
        entries,
    }
}

/// One configured stack, as the all-stacks tool reports it.
#[derive(Debug)]
pub struct StackSummary {
    pub name: String,
    pub base: String,
    pub commit_count: usize,
    pub is_current: bool,
}

/// The all-stacks report.
#[derive(Debug)]
pub struct AllStacksInfo {
    pub current_stack: Option<String>,
    pub stacks: Vec<StackSummary>,
}

/// The configuration as the config tool reports it.
#[derive(Debug)]
pub struct ConfigInfo {
    pub provider: Option<String>,
    pub base_branch: Option<String>,
    pub branch_username: Option<String>,
    pub lint_commands: Vec<String>,
    pub auto_add_gg_ids: bool,
    pub land_auto_clean: bool,
    pub sync_auto_lint: bool,
    pub sync_auto_rebase: bool,
}

/// The config tool's report.
pub fn config_info(config: &Config) -> (r: ConfigInfo)
    ensures
        opt_view(r.provider) == opt_view(config.defaults.provider),
        opt_view(r.base_branch) == opt_view(config.defaults.base),
        opt_view(r.branch_username) == opt_view(config.defaults.branch_username),
        views(r.lint_commands@) == views(config.defaults.lint@),
        r.auto_add_gg_ids == config.defaults.auto_add_gg_ids,
        r.land_auto_clean == config.defaults.land_auto_clean,
        r.sync_auto_lint == config.defaults.sync_auto_lint,
        r.sync_auto_rebase == config.defaults.sync_auto_rebase,
{
    ConfigInfo {
        provider: copy_opt(&config.defaults.provider),
        base_branch: copy_opt(&config.defaults.base),
        branch_username: copy_opt(&config.defaults.branch_username),
        lint_commands: copy_strings(&config.defaults.lint),
        auto_add_gg_ids: config.defaults.auto_add_gg_ids,
        land_auto_clean: config.defaults.land_auto_clean,
        sync_auto_lint: config.defaults.sync_auto_lint,
        sync_auto_rebase: config.defaults.sync_auto_rebase,
    }
}

/// The branch whose commits are counted for a configured stack: the
/// configured username (`unknown` without one), a slash, the stack name.
pub open spec fn summary_branch_of(config: Config, stack_name: Seq<char>) -> Seq<char> {
    let user: Seq<char> = match config.defaults.branch_username {
        Some(u) => u@,
        None => "unknown"@,
    };
    user + seq!['/'] + stack_name
}

/// The branch counted for a configured stack.
pub fn summary_branch(config: &Config, stack_name: &str) -> (r: String)
    ensures
        r@ == summary_branch_of(*config, stack_name@),
{
    let user: &str = match &config.defaults.branch_username {
        Some(u) => u.as_str(),
        None => "unknown",
    };
    format_stack_branch(user, stack_name)
}

/// The base reported for a configured stack: its own, else `main`.
pub open spec fn summary_base_of(config: Config, stack_name: Seq<char>) -> Seq<char> {
    match config.stacks.view()[stack_name].base {
        Some(b) => b@,
        None => "main"@,
    }
}

/// The stack the current branch names, when it is a stack branch.
pub open spec fn current_stack_of(current_branch: Option<Seq<char>>) -> Option<Seq<char>> {
    match current_branch {
        Some(b) => match stack_branch_parts(b) {
            Some((_u, st)) => Some(st),
            None => None,
        },
        None => None,
    }
}

/// The all-stacks report: every configured stack in order, with its base,
/// the number of commits counted on its branch (`commit_counts`, in the
/// same order) and whether the current branch is that stack's.
pub fn stack_summaries(config: &Config, current_branch: Option<&str>, commit_counts: &Vec<usize>) -> (r: AllStacksInfo)
    requires
        commit_counts@.len() == config.stacks.key_seq().len(),
    ensures
        opt_view(r.current_stack) == current_stack_of(
            match current_branch {
                Some(b) => Some(b@),
                None => None,
            },
        ),
        r.stacks@.len() == config.stacks.key_seq().len(),
        forall|i: int| 0 <= i < r.stacks@.len() ==> {
            &&& (#[trigger] r.stacks@[i]).name@ == config.stacks.key_seq()[i]
            &&& r.stacks@[i].base@ == summary_base_of(*config, config.stacks.key_seq()[i])
            &&& r.stacks@[i].commit_count == commit_counts@[i]
            &&& r.stacks@[i].is_current == (opt_view(r.current_stack) == Some(config.stacks.key_seq()[i]))
        },
{
    let current: Option<String> = match current_branch {
        Some(b) => match parse_stack_branch(b) {
            Some((_u, st)) => Some(st),
            None => None,
        },
        None => None,
    };
    let names = config.list_stacks();
    proof {
        config.stacks.lemma_keys_in_map();
    }
    let mut out: Vec<StackSummary> = Vec::new();
    let mut i: usize = 0;
    while i < names.len()
        invariant
            i <= names@.len(),
            names@.map_values(|k: &str| k@) == config.stacks.key_seq(),
            commit_counts@.len() == config.stacks.key_seq().len(),
            forall|k: int| 0 <= k < config.stacks.key_seq().len() ==> config.stacks.view().contains_key(
                #[trigger] config.stacks.key_seq()[k],
            ),
            out@.len() == i,
            forall|k: int| 0 <= k < i ==> {
                &&& (#[trigger] out@[k]).name@ == config.stacks.key_seq()[k]
                &&& out@[k].base@ == summary_base_of(*config, config.stacks.key_seq()[k])
                &&& out@[k].commit_count == commit_counts@[k]
                &&& out@[k].is_current == (opt_view(current) == Some(config.stacks.key_seq()[k]))
            },
        decreases names.len() - i,
    {
        let name = names[i];
        assert(name@ == config.stacks.key_seq()[i as int]);
        let base = match config.get_stack(name) {
            Some(sc) => match &sc.base {
                Some(b) => copy_str(b.as_str()),
                None => copy_str("main"),
            },
            None => copy_str("main"),
        };
        let is_current = match &current {
            Some(c) => str_eq(c.as_str(), name),
            None => false,
        };
        out.push(StackSummary { name: copy_str(name), base, commit_count: commit_counts[i], is_current });
        i = i + 1;
    }
    AllStacksInfo { current_stack: current, stacks: out }
}

} // verus!
