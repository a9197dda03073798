//! Reconciliation of a local stack with GitHub's native stacked pull requests.
//!
//! A native stack on the remote is an ordered list of pull requests. Its
//! merged entries form a prefix; the open or draft entries after it are the
//! active sequence, which must be a prefix of the local pull requests for
//! the two to agree.
use vstd::prelude::*;
use crate::config::GithubStacksIntegration;

verus! {

/// State of a pull request in a remote native stack.
#[derive(Debug, Clone, Copy, PartialEq, Eq, Structural)]
pub enum RemotePullRequestState {
    Open,
    Draft,
    Merged,
    Closed,
}

/// One pull request of a remote native stack.
#[derive(Debug, Clone, PartialEq, Eq)]
pub struct RemoteStackEntry {
    pub number: u64,
    pub state: RemotePullRequestState,
}

/// A remote native stack and its entries, bottom first.
#[derive(Debug, Clone, PartialEq, Eq)]
pub struct RemoteStackSnapshot {
    pub number: u64,
    pub entries: Vec<RemoteStackEntry>,
}

/// What to do to make the remote native stack match the local one.
#[derive(Debug, Clone, PartialEq, Eq)]
pub enum ReconcilePlan {
    Create,
    Append { stack_number: u64, delta: Vec<u64> },
    Unchanged { stack_number: u64 },
    Diverged { message: String },
}

/// A reconcile plan with its vectors and text taken by their views.
pub enum PlanView {
    Create,
    Append(u64, Seq<u64>),
    Unchanged(u64),
    Diverged(Seq<char>),
}

/// The view of a plan.
pub open spec fn plan_view(p: ReconcilePlan) -> PlanView {
    match p {
        ReconcilePlan::Create => PlanView::Create,
        ReconcilePlan::Append { stack_number, delta } => PlanView::Append(stack_number, delta@),
        ReconcilePlan::Unchanged { stack_number } => PlanView::Unchanged(stack_number),
        ReconcilePlan::Diverged { message } => PlanView::Diverged(message@),
    }
}

/// Whether some entry of `entries` has a number among `local`.
pub open spec fn shares_pr(entries: Seq<RemoteStackEntry>, local: Seq<u64>) -> bool {
    exists|i: int| 0 <= i < entries.len() && local.contains(#[trigger] entries[i].number)
}

/// The remote stacks (in order) that contain at least one local pull request.
pub open spec fn matching_stacks(local: Seq<u64>, stacks: Seq<RemoteStackSnapshot>) -> Seq<RemoteStackSnapshot>
    decreases stacks.len(),
{
    if stacks.len() == 0 {
        seq![]
    } else {
        let rest = matching_stacks(local, stacks.drop_last());
        if shares_pr(stacks.last().entries@, local) {
            rest.push(stacks.last())
        } else {
            rest
        }
    }
}

/// Index of the first entry that is not merged (the length if all are).
pub open spec fn active_start(entries: Seq<RemoteStackEntry>) -> int
    decreases entries.len(),
{
    if entries.len() == 0 {
        0
    } else if entries[0].state != RemotePullRequestState::Merged {
        0
    } else {
        1 + active_start(entries.skip(1))
    }
}

/// Whether every entry of `entries` is open or draft.
pub open spec fn all_active(entries: Seq<RemoteStackEntry>) -> bool {
    forall|i: int| 0 <= i < entries.len() ==> (#[trigger] entries[i].state == RemotePullRequestState::Open
        || entries[i].state == RemotePullRequestState::Draft)
}

/// The numbers of `entries`, in order.
pub open spec fn numbers(entries: Seq<RemoteStackEntry>) -> Seq<u64> {
    entries.map_values(|e: RemoteStackEntry| e.number)
}

/// The plan for the local pull requests `local` against `stacks`.
pub open spec fn planned(local: Seq<u64>, stacks: Seq<RemoteStackSnapshot>) -> PlanView {
    let m = matching_stacks(local, stacks);
    if m.len() == 0 {
        PlanView::Create
    } else if m.len() > 1 {
        PlanView::Diverged("Local pull requests belong to multiple native stacks"@)
    } else {
        let st = m[0];
        let entries = st.entries@;
        let active = entries.skip(active_start(entries));
        if !all_active(active) {
            PlanView::Diverged("Native stack has a closed or merged entry after its active prefix"@)
        } else {
            let nums = numbers(active);
            if nums == local {
                PlanView::Unchanged(st.number)
            } else if nums.len() <= local.len() && local.take(nums.len() as int) == nums {
                PlanView::Append(st.number, local.skip(nums.len() as int))
            } else {
                PlanView::Diverged("Local pull requests do not match the native stack active sequence"@)
            }
        }
    }
}

fn diverged(message: &str) -> (r: ReconcilePlan)
    ensures
        plan_view(r) == PlanView::Diverged(message@),
{
    ReconcilePlan::Diverged { message: String::from_str(message) }
}

fn slice_contains(v: &[u64], x: u64) -> (b: bool)
    ensures
        b == v@.contains(x),
{
    let mut i: usize = 0;
    while i < v.len()
        invariant
            i <= v@.len(),
            forall|j: int| 0 <= j < i ==> v@[j] != x,
        decreases v@.len() - i,
    {
        if v[i] == x {
            return true;
        }
        i = i + 1;
    }
    false
}

fn stack_shares_pr(st: &RemoteStackSnapshot, local: &[u64]) -> (b: bool)
    ensures
        b == shares_pr(st.entries@, local@),
{
    let mut i: usize = 0;
    while i < st.entries.len()
        invariant
            i <= st.entries@.len(),
            forall|j: int| 0 <= j < i ==> !local@.contains(#[trigger] st.entries@[j].number),
        decreases st.entries@.len() - i,
    {
        if slice_contains(local, st.entries[i].number) {
            return true;
        }
        i = i + 1;
    }
    false
}

proof fn lemma_active_start(entries: Seq<RemoteStackEntry>, k: int)
    requires
        0 <= k <= entries.len(),
        forall|j: int| 0 <= j < k ==> #[trigger] entries[j].state == RemotePullRequestState::Merged,
        k == entries.len() || entries[k].state != RemotePullRequestState::Merged,
    ensures
        active_start(entries) == k,
    decreases k,
{
    if k > 0 {
        assert(entries[0].state == RemotePullRequestState::Merged);
        assert forall|j: int| 0 <= j < k - 1 implies #[trigger] entries.skip(1)[j].state
            == RemotePullRequestState::Merged by {
            assert(entries.skip(1)[j] == entries[j + 1]);
        }
        lemma_active_start(entries.skip(1), k - 1);
    }
}

/// Decides how to reconcile the local pull requests (bottom first) with the
/// remote native stacks: create a new stack when none contains a local pull
/// request, leave it unchanged when its active sequence is exactly the local
/// one, append the local pull requests beyond it when it is a proper prefix,
/// and report divergence otherwise.
#[verifier::loop_isolation(false)]
pub fn plan_reconciliation(local_pr_numbers: &[u64], remote_stacks: &[RemoteStackSnapshot]) -> (r:
    ReconcilePlan)
    ensures
        plan_view(r) == planned(local_pr_numbers@, remote_stacks@),
{
    let ghost local = local_pr_numbers@;
    let mut found: Option<usize> = None;
    let mut count: usize = 0;
    let mut i: usize = 0;
    while i < remote_stacks.len()
        invariant
            i <= remote_stacks@.len(),
            count == matching_stacks(local, remote_stacks@.take(i as int)).len(),
            count <= i,
            local == local_pr_numbers@,
            count == 0 <==> found is None,
            found matches Some(k) ==> k < i && matching_stacks(local, remote_stacks@.take(i as int))[0]
                == remote_stacks@[k as int],
        decreases remote_stacks@.len() - i,
    {
        let ghost before = matching_stacks(local, remote_stacks@.take(i as int));
        assert(remote_stacks@.take(i + 1).drop_last() =~= remote_stacks@.take(i as int));
        assert(remote_stacks@.take(i + 1).last() == remote_stacks@[i as int]);
        if stack_shares_pr(&remote_stacks[i], local_pr_numbers) {
            if count == 0 {
                found = Some(i);
            }
            count = count + 1;
        }
        i = i + 1;
    }
    assert(remote_stacks@.take(remote_stacks@.len() as int) =~= remote_stacks@);
    let k = match found {
        None => return ReconcilePlan::Create,
        Some(k) => k,
    };
    if count > 1 {
        return diverged("Local pull requests belong to multiple native stacks");
    }
    let stack = &remote_stacks[k];
    let entries = &stack.entries;
    let mut a: usize = 0;
    while a < entries.len() && entries[a].state == RemotePullRequestState::Merged
        invariant
            a <= entries@.len(),
            forall|j: int| 0 <= j < a ==> #[trigger] entries@[j].state == RemotePullRequestState::Merged,
        decreases entries@.len() - a,
    {
        a = a + 1;
    }
    proof {
        lemma_active_start(entries@, a as int);
    }
    let ghost active = entries@.skip(a as int);
    let mut j = a;
    while j < entries.len()
        invariant
            a <= j <= entries@.len(),
            active == entries@.skip(a as int),
            forall|t: int| a <= t < j ==> (#[trigger] entries@[t].state == RemotePullRequestState::Open
                || entries@[t].state == RemotePullRequestState::Draft),
        decreases entries@.len() - j,
    {
        match entries[j].state {
            RemotePullRequestState::Open | RemotePullRequestState::Draft => {},
            _ => {
                assert(active[j - a] == entries@[j as int]);
                assert(!all_active(active));
                return diverged("Native stack has a closed or merged entry after its active prefix");
            },
        }
        j = j + 1;
    }
    assert forall|t: int| 0 <= t < active.len() implies (#[trigger] active[t].state
        == RemotePullRequestState::Open || active[t].state == RemotePullRequestState::Draft) by {
        assert(active[t] == entries@[a + t]);
    }
    let mut nums: Vec<u64> = Vec::new();
    let mut t = a;
    while t < entries.len()
        invariant
            a <= t <= entries@.len(),
            active == entries@.skip(a as int),
            nums@ == numbers(active).take((t - a) as int),
        decreases entries@.len() - t,
    {
        nums.push(entries[t].number);
        t = t + 1;
        assert(nums@ =~= numbers(active).take((t - a) as int));
    }
    assert(nums@ =~= numbers(active));
    let n = nums.len();
    let mut is_prefix = n <= local_pr_numbers.len();
    let mut q: usize = 0;
    while is_prefix && q < n
        invariant
            is_prefix ==> n <= local.len(),
            local == local_pr_numbers@,
            q <= n,
            n == nums@.len(),
            is_prefix ==> forall|x: int| 0 <= x < q ==> nums@[x] == local[x],
            !is_prefix ==> !(n <= local.len() && local.take(n as int) == nums@),
        decreases n - q + (if is_prefix { 1int } else { 0int }),
    {
        if nums[q] != local_pr_numbers[q] {
            is_prefix = false;
            assert(local.take(n as int)[q as int] != nums@[q as int]);
        } else {
            q = q + 1;
        }
    }
    if is_prefix {
        assert(local.take(n as int) =~= nums@);
    }
    if is_prefix && n == local_pr_numbers.len() {
        assert(local =~= nums@);
        ReconcilePlan::Unchanged { stack_number: stack.number }
    } else if is_prefix {
        assert(nums@ != local);
        let mut delta: Vec<u64> = Vec::new();
        let mut d = n;
        while d < local_pr_numbers.len()
            invariant
                n <= d <= local.len(),
                local == local_pr_numbers@,
                delta@ == local.subrange(n as int, d as int),
            decreases local.len() - d,
        {
            delta.push(local_pr_numbers[d]);
            d = d + 1;
            assert(delta@ =~= local.subrange(n as int, d as int));
        }
        assert(delta@ =~= local.skip(n as int));
        ReconcilePlan::Append { stack_number: stack.number, delta }
    } else {
        proof {
            if nums@ == local {
                assert(local.take(n as int) =~= nums@);
            }
        }
        diverged("Local pull requests do not match the native stack active sequence")
    }
}

/// Outcome of syncing a stack with GitHub's native stacks.
#[derive(Debug, Clone, Copy, PartialEq, Eq)]
pub enum GithubStackAction {
    Created,
    Appended,
    Unchanged,
    Skipped,
    Warning,
}

/// Why a native-stack sync was skipped or only warned about.
#[derive(Debug, Clone, Copy, PartialEq, Eq)]
pub enum GithubStackReason {
    Disabled,
    PartialSync,
    InsufficientPrs,
    UnresolvedPrs,
    MissingExtension,
    OutdatedExtension,
    UnsupportedRepository,
    Diverged,
    BackendFailed,
}

/// The report of one native-stack sync.
#[derive(Debug, Clone, PartialEq, Eq)]
pub struct GithubStackSyncResult {
    pub mode: GithubStacksIntegration,
    pub action: GithubStackAction,
    pub reason: Option<GithubStackReason>,
    pub stack_number: Option<u64>,
    pub pr_numbers: Vec<u64>,
    pub message: Option<String>,
}

impl GithubStackSyncResult {
    /// A result for a sync that was skipped for `reason`.
    pub fn skipped(mode: GithubStacksIntegration, reason: GithubStackReason, pr_numbers: Vec<u64>) -> (r:
        Self)
        ensures
            r.mode == mode,
            r.action == GithubStackAction::Skipped,
            r.reason == Some(reason),
            r.stack_number is None,
            r.pr_numbers@ == pr_numbers@,
            r.message is None,
    {
        Self {
            mode,
            action: GithubStackAction::Skipped,
            reason: Some(reason),
            stack_number: None,
            pr_numbers,
            message: None,
        }
    }

    /// A result for a sync that only produced a warning.
    pub fn warning(
        mode: GithubStacksIntegration,
        reason: GithubStackReason,
        pr_numbers: Vec<u64>,
        message: String,
    ) -> (r: Self)
        ensures
            r.mode == mode,
            r.action == GithubStackAction::Warning,
            r.reason == Some(reason),
            r.stack_number is None,
            r.pr_numbers@ == pr_numbers@,
            r.message == Some(message),
    {
        Self {
            mode,
            action: GithubStackAction::Warning,
            reason: Some(reason),
            stack_number: None,
            pr_numbers,
            message: Some(message),
        }
    }

    /// Whether the result is a warning.
    pub fn is_warning(&self) -> (b: bool)
        ensures
            b == (self.action == GithubStackAction::Warning),
    {
        match self.action {
            GithubStackAction::Warning => true,
            _ => false,
        }
    }
}

/// The entries `delta` becomes when appended to a native stack as open pull requests.
pub open spec fn open_entries(delta: Seq<u64>) -> Seq<RemoteStackEntry> {
    delta.map_values(|x: u64| RemoteStackEntry { number: x, state: RemotePullRequestState::Open })
}

proof fn lemma_active_start_props(entries: Seq<RemoteStackEntry>)
    ensures
        0 <= active_start(entries) <= entries.len(),
        forall|j: int| 0 <= j < active_start(entries) ==> #[trigger] entries[j].state
            == RemotePullRequestState::Merged,
        active_start(entries) < entries.len() ==> entries[active_start(entries)].state
            != RemotePullRequestState::Merged,
    decreases entries.len(),
{
    if entries.len() > 0 && entries[0].state == RemotePullRequestState::Merged {
        lemma_active_start_props(entries.skip(1));
        assert forall|j: int| 0 <= j < active_start(entries) implies #[trigger] entries[j].state
            == RemotePullRequestState::Merged by {
            if j > 0 {
                assert(entries[j] == entries.skip(1)[j - 1]);
            }
        }
    }
}

/// Reconciling converges: when the plan for the only remote native stack
/// is to append `delta`, then once `delta` is appended to that stack as open
/// pull requests, the plan for the same local pull requests is to leave the
/// stack unchanged.
pub proof fn lemma_append_then_unchanged(
    local: Seq<u64>,
    st: RemoteStackSnapshot,
    st2: RemoteStackSnapshot,
    n: u64,
    delta: Seq<u64>,
)
    requires
        planned(local, seq![st]) == PlanView::Append(n, delta),
        st2.number == st.number,
        st2.entries@ == st.entries@ + open_entries(delta),
    ensures
        planned(local, seq![st2]) == PlanView::Unchanged(n),
{
    let e = st.entries@;
    let f = open_entries(delta);
    let e2 = st2.entries@;
    assert(seq![st].drop_last() =~= Seq::<RemoteStackSnapshot>::empty());
    assert(seq![st2].drop_last() =~= Seq::<RemoteStackSnapshot>::empty());
    assert(seq![st].last() == st);
    assert(matching_stacks(local, Seq::<RemoteStackSnapshot>::empty()) =~= Seq::<RemoteStackSnapshot>::empty());
    assert(shares_pr(e, local)) by {
        if !shares_pr(e, local) {
            assert(matching_stacks(local, seq![st]) =~= Seq::<RemoteStackSnapshot>::empty());
        }
    }
    let w = choose|i: int| 0 <= i < e.len() && local.contains(#[trigger] e[i].number);
    assert(e2[w] == e[w]);
    assert(shares_pr(e2, local));
    assert(matching_stacks(local, seq![st2]) =~= seq![st2]);
    assert(matching_stacks(local, seq![st]) =~= seq![st]);
    let a = active_start(e);
    lemma_active_start_props(e);
    let active = e.skip(a);
    let nums = numbers(active);
    assert(nums.len() <= local.len() && local.take(nums.len() as int) == nums);
    assert(nums != local);
    assert(delta == local.skip(nums.len() as int));
    assert(delta.len() > 0) by {
        if delta.len() == 0 {
            assert(local =~= local.take(nums.len() as int));
        }
    }
    assert forall|j: int| 0 <= j < a implies #[trigger] e2[j].state == RemotePullRequestState::Merged by {
        assert(e2[j] == e[j]);
    }
    if a < e.len() {
        assert(e2[a] == e[a]);
    } else {
        assert(e2[a] == f[0]);
    }
    lemma_active_start(e2, a);
    let active2 = e2.skip(a);
    assert(active2 =~= active + f);
    assert forall|t: int| 0 <= t < active2.len() implies (#[trigger] active2[t].state
        == RemotePullRequestState::Open || active2[t].state == RemotePullRequestState::Draft) by {
        if t < active.len() {
            assert(active2[t] == active[t]);
        } else {
            assert(active2[t] == f[t - active.len()]);
        }
    }
    assert(numbers(active2) =~= local) by {
        assert(numbers(active2) =~= nums + delta);
        assert(local =~= local.take(nums.len() as int) + local.skip(nums.len() as int));
    }
}

} // verus!
