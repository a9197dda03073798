//! What the GitHub CLI reports about pull requests, and how its answers
//! are read: pull request state, review decision, and the combined status of
//! CI checks. Running `gh` is the front end's business.
use vstd::prelude::*;
use crate::git::opt_view;
use crate::error::{ascii_uppered, is_ascii_text};
use crate::stack::{parse_u64, parsed_u64};
use crate::text::{
    chars_of, contains, contains_exec, find, first_index, lemma_first_index, lines, lines_of, one_of,
    str_eq, str_views, string_of, string_of_range, trim, trim_bounds, views,
};

verus! {

/// State of a pull request.
#[derive(Debug, Clone, Copy, PartialEq, Eq, Structural)]
pub enum PrState {
    Open,
    Merged,
    Closed,
    Draft,
}

/// Information about a pull request.
#[derive(Debug, Clone)]
pub struct PrInfo {
    pub number: u64,
    pub title: String,
    pub state: PrState,
    pub url: String,
    pub head_branch: Option<String>,
    pub draft: bool,
    pub approved: bool,
    pub mergeable: bool,
    pub changes_requested: bool,
}

/// The fields needed to show a pull request in the review inbox.
#[derive(Debug, Clone)]
pub struct InboxPrSnapshot {
    pub state: PrState,
    pub url: String,
    pub approved: bool,
    pub changes_requested: bool,
    pub mergeable: bool,
    pub ci_status: Option<CiStatus>,
}

/// Result of creating a pull request.
#[derive(Debug, Clone)]
pub struct PrCreationResult {
    pub number: u64,
    pub url: String,
}

/// Combined CI status of a pull request.
#[derive(Debug, Clone, Copy, PartialEq, Eq, Structural)]
pub enum CiStatus {
    Pending,
    Running,
    Success,
    Failed,
    Canceled,
    Unknown,
}

/// A comment on a pull request's conversation.
#[derive(Debug, Clone)]
pub struct IssueComment {
    pub id: u64,
    pub body: String,
}


/// The uppercase form of `s` that `str::to_uppercase` returns.
pub uninterp spec fn uppercased(s: Seq<char>) -> Seq<char>;

/// `str::to_uppercase` (Unicode uppercase mapping of every character).
/// Claimed: the result is the named uppercase form of `s`, and on ASCII text,
/// where the Unicode uppercase mapping of `a`..`z` is `A`..`Z` and of every
/// other ASCII character is the character itself, it is that mapping taken
/// character by character. Nothing is claimed of other text beyond the name.
#[verifier::external_body]
fn to_uppercase(s: &str) -> (r: String)
    ensures
        r@ == uppercased(s@),
        is_ascii_text(s@) ==> r@ == ascii_uppered(s@),
{
    s.to_uppercase()
}

/// The state a pull request is in, from the uppercased state that `gh`
/// reports and its draft flag.
pub open spec fn state_of(upper: Seq<char>, is_draft: bool) -> PrState {
    if upper == "MERGED"@ {
        PrState::Merged
    } else if upper == "CLOSED"@ {
        PrState::Closed
    } else if is_draft {
        PrState::Draft
    } else {
        PrState::Open
    }
}

/// The state of a pull request, from an uppercased state name.
pub fn pr_state_from_upper(upper: &str, is_draft: bool) -> (r: PrState)
    ensures
        r == state_of(upper@, is_draft),
{
    if str_eq(upper, "MERGED") {
        PrState::Merged
    } else if str_eq(upper, "CLOSED") {
        PrState::Closed
    } else if is_draft {
        PrState::Draft
    } else {
        PrState::Open
    }
}

/// The state of a pull request, from the state name `gh` reports (any case).
pub fn pr_state_from(state: &str, is_draft: bool) -> (r: PrState)
    ensures
        r == state_of(uppercased(state@), is_draft),
        is_ascii_text(state@) ==> r == state_of(ascii_uppered(state@), is_draft),
{
    let upper = to_uppercase(state);
    pr_state_from_upper(upper.as_str(), is_draft)
}

/// A review, as `gh pr view --json` reports it.
#[derive(Debug, Clone)]
pub struct GhReview {
    pub state: String,
}

/// One status check, as `gh` reports it.
#[derive(Debug, Clone)]
pub struct GhStatusCheck {
    pub conclusion: Option<String>,
    pub status: Option<String>,
    pub state: Option<String>,
}

/// A pull request, as `gh pr view --json` reports it.
#[derive(Debug, Clone)]
pub struct GhPrJson {
    pub number: u64,
    pub title: String,
    pub state: String,
    pub url: String,
    pub head_ref_name: Option<String>,
    pub is_draft: bool,
    pub mergeable: Option<String>,
    pub reviews: Vec<GhReview>,
    pub review_decision: Option<String>,
    pub status_check_rollup: Vec<GhStatusCheck>,
}

/// Check values that mean failure.
pub open spec fn failed_values() -> Seq<Seq<char>> {
    seq!["FAILURE"@, "FAILED"@, "TIMED_OUT"@, "ACTION_REQUIRED"@, "ERROR"@, "STALE"@, "STARTUP_FAILURE"@]
}

/// Check values that mean cancellation.
pub open spec fn canceled_values() -> Seq<Seq<char>> {
    seq!["CANCELLED"@, "CANCELED"@]
}

/// Check values that mean the check has not finished.
pub open spec fn pending_values() -> Seq<Seq<char>> {
    seq!["EXPECTED"@, "PENDING"@, "QUEUED"@, "IN_PROGRESS"@]
}

/// Check values that mean success.
pub open spec fn success_values() -> Seq<Seq<char>> {
    seq!["SUCCESS"@, "NEUTRAL"@, "SKIPPED"@]
}

/// The values a check is judged by: its conclusion, then its state (upper case).
pub open spec fn check_values(u: GhStatusCheck) -> Seq<Seq<char>> {
    (match u.conclusion {
        Some(c) => seq![c@],
        None => seq![],
    }) + (match u.state {
        Some(s) => seq![s@],
        None => seq![],
    })
}

/// Some check has a value from `list`.
pub open spec fn some_value_in(upper: Seq<GhStatusCheck>, list: Seq<Seq<char>>) -> bool {
    exists|i: int| 0 <= i < upper.len() && any_in(check_values(#[trigger] upper[i]), list)
}

/// A check counts as unfinished by itself: its status is not `COMPLETED`,
/// or it has no state and no (or a blank) conclusion.
pub open spec fn unfinished(raw: GhStatusCheck, upper: GhStatusCheck) -> bool {
    (upper.status matches Some(st) && st@ != "COMPLETED"@) || (raw.state is None && match raw.conclusion {
        Some(c) => trim(c@).len() == 0,
        None => true,
    })
}

/// The combined CI status of checks (`upper` holds them uppercased): none
/// without checks; failed when any value means failure; then canceled,
/// pending, success, unknown in that order of precedence.
pub open spec fn combined_status(raw: Seq<GhStatusCheck>, upper: Seq<GhStatusCheck>) -> Option<CiStatus> {
    if raw.len() == 0 {
        None
    } else if some_value_in(upper, failed_values()) {
        Some(CiStatus::Failed)
    } else if some_value_in(upper, canceled_values()) {
        Some(CiStatus::Canceled)
    } else if some_value_in(upper, pending_values()) || exists|i: int| 0 <= i < raw.len() && unfinished(
        #[trigger] raw[i],
        upper[i],
    ) {
        Some(CiStatus::Pending)
    } else if some_value_in(upper, success_values()) {
        Some(CiStatus::Success)
    } else {
        Some(CiStatus::Unknown)
    }
}

/// A word by which a check reports that it failed.
pub open spec fn is_failure_word(w: Seq<char>) -> bool {
    w == "FAILURE"@ || w == "FAILED"@ || w == "TIMED_OUT"@ || w == "ACTION_REQUIRED"@ || w == "ERROR"@ || w == "STALE"@
        || w == "STARTUP_FAILURE"@
}

/// A word by which a check reports that it was cancelled.
pub open spec fn is_cancel_word(w: Seq<char>) -> bool {
    w == "CANCELLED"@ || w == "CANCELED"@
}

/// A check reports `w` as its conclusion or its state.
pub open spec fn reports(c: GhStatusCheck, w: spec_fn(Seq<char>) -> bool) -> bool {
    (c.conclusion matches Some(x) && w(x@)) || (c.state matches Some(x) && w(x@))
}

proof fn lemma_failure_words(w: Seq<char>)
    ensures
        failed_values().contains(w) == is_failure_word(w),
{
    let l = failed_values();
    if l.contains(w) {
        let j = choose|j: int| 0 <= j < l.len() && l[j] == w;
        assert(j == 0 || j == 1 || j == 2 || j == 3 || j == 4 || j == 5 || j == 6);
    }
    if is_failure_word(w) {
        if w == "FAILURE"@ {
            assert(l[0] == w);
        } else if w == "FAILED"@ {
            assert(l[1] == w);
        } else if w == "TIMED_OUT"@ {
            assert(l[2] == w);
        } else if w == "ACTION_REQUIRED"@ {
            assert(l[3] == w);
        } else if w == "ERROR"@ {
            assert(l[4] == w);
        } else if w == "STALE"@ {
            assert(l[5] == w);
        } else {
            assert(l[6] == w);
        }
    }
}

proof fn lemma_cancel_words(w: Seq<char>)
    ensures
        canceled_values().contains(w) == is_cancel_word(w),
{
    let l = canceled_values();
    if l.contains(w) {
        let j = choose|j: int| 0 <= j < l.len() && l[j] == w;
        assert(j == 0 || j == 1);
    }
    if w == "CANCELLED"@ {
        assert(l[0] == w);
    } else if w == "CANCELED"@ {
        assert(l[1] == w);
    }
}

/// Checks are none: no status.
pub proof fn lemma_no_checks_no_status(raw: Seq<GhStatusCheck>, upper: Seq<GhStatusCheck>)
    requires
        raw.len() == 0,
    ensures
        combined_status(raw, upper) is None,
{
}

/// A failing check decides: when some check's conclusion or state is a
/// failure word, the combined status is Failed, whatever the other checks
/// report (pending, cancelled or successful).
pub proof fn lemma_failure_decides(raw: Seq<GhStatusCheck>, upper: Seq<GhStatusCheck>, k: int)
    requires
        raw.len() == upper.len(),
        0 <= k < upper.len(),
        reports(upper[k], |w: Seq<char>| is_failure_word(w)),
    ensures
        combined_status(raw, upper) == Some(CiStatus::Failed),
{
    lemma_any_in_check(upper[k], failed_values());
    match upper[k].conclusion {
        Some(c) => lemma_failure_words(c@),
        None => {},
    }
    match upper[k].state {
        Some(t) => lemma_failure_words(t@),
        None => {},
    }
    assert(any_in(check_values(upper[k]), failed_values()));
}

/// Without a failing check, a cancelled check decides: the combined status
/// is Canceled, even while other checks are still pending.
pub proof fn lemma_cancel_before_pending(raw: Seq<GhStatusCheck>, upper: Seq<GhStatusCheck>, k: int)
    requires
        raw.len() == upper.len(),
        0 <= k < upper.len(),
        reports(upper[k], |w: Seq<char>| is_cancel_word(w)),
        forall|i: int| 0 <= i < upper.len() ==> !reports(#[trigger] upper[i], |w: Seq<char>| is_failure_word(w)),
    ensures
        combined_status(raw, upper) == Some(CiStatus::Canceled),
{
    assert forall|i: int| 0 <= i < upper.len() implies !any_in(check_values(#[trigger] upper[i]), failed_values()) by {
        assert(!reports(upper[i], |w: Seq<char>| is_failure_word(w)));
        lemma_any_in_check(upper[i], failed_values());
        match upper[i].conclusion {
            Some(c) => lemma_failure_words(c@),
            None => {},
        }
        match upper[i].state {
            Some(t) => lemma_failure_words(t@),
            None => {},
        }
    }
    lemma_any_in_check(upper[k], canceled_values());
    match upper[k].conclusion {
        Some(c) => lemma_cancel_words(c@),
        None => {},
    }
    match upper[k].state {
        Some(t) => lemma_cancel_words(t@),
        None => {},
    }
    assert(any_in(check_values(upper[k]), canceled_values()));
}

/// Without a failing or cancelled check, a check that has not completed
/// keeps the combined status Pending, whatever the others report.
pub proof fn lemma_running_is_pending(raw: Seq<GhStatusCheck>, upper: Seq<GhStatusCheck>, k: int)
    requires
        raw.len() == upper.len(),
        0 <= k < upper.len(),
        upper[k].status matches Some(st) && st@ != "COMPLETED"@,
        forall|i: int| 0 <= i < upper.len() ==> !reports(#[trigger] upper[i], |w: Seq<char>| is_failure_word(w))
            && !reports(upper[i], |w: Seq<char>| is_cancel_word(w)),
    ensures
        combined_status(raw, upper) == Some(CiStatus::Pending),
{
    assert forall|i: int| 0 <= i < upper.len() implies !any_in(check_values(#[trigger] upper[i]), failed_values())
        && !any_in(check_values(upper[i]), canceled_values()) by {
        assert(!reports(upper[i], |w: Seq<char>| is_failure_word(w)));
        assert(!reports(upper[i], |w: Seq<char>| is_cancel_word(w)));
        lemma_any_in_check(upper[i], failed_values());
        lemma_any_in_check(upper[i], canceled_values());
        match upper[i].conclusion {
            Some(c) => {
                lemma_failure_words(c@);
                lemma_cancel_words(c@);
            },
            None => {},
        }
        match upper[i].state {
            Some(t) => {
                lemma_failure_words(t@);
                lemma_cancel_words(t@);
            },
            None => {},
        }
    }
    assert(unfinished(raw[k], upper[k]));
}

/// Two checks carry the same values.
pub open spec fn same_check(a: GhStatusCheck, b: GhStatusCheck) -> bool {
    &&& opt_view(a.conclusion) == opt_view(b.conclusion)
    &&& opt_view(a.status) == opt_view(b.status)
    &&& opt_view(a.state) == opt_view(b.state)
}

/// `f` is a permutation of `0..n` with inverse `g`.
pub open spec fn is_permutation(f: spec_fn(int) -> int, g: spec_fn(int) -> int, n: int) -> bool {
    &&& forall|i: int| 0 <= i < n ==> 0 <= #[trigger] f(i) < n && g(f(i)) == i
    &&& forall|i: int| 0 <= i < n ==> 0 <= #[trigger] g(i) < n && f(g(i)) == i
}

proof fn lemma_same_values(a: GhStatusCheck, b: GhStatusCheck, list: Seq<Seq<char>>)
    requires
        same_check(a, b),
    ensures
        any_in(check_values(a), list) == any_in(check_values(b), list),
{
    assert(check_values(a) =~= check_values(b));
}

proof fn lemma_some_value_permuted(
    upper: Seq<GhStatusCheck>,
    upper2: Seq<GhStatusCheck>,
    f: spec_fn(int) -> int,
    g: spec_fn(int) -> int,
    list: Seq<Seq<char>>,
)
    requires
        upper.len() == upper2.len(),
        is_permutation(f, g, upper.len() as int),
        forall|i: int| 0 <= i < upper.len() ==> same_check(#[trigger] upper2[i], upper[f(i)]),
    ensures
        some_value_in(upper2, list) == some_value_in(upper, list),
{
    if some_value_in(upper2, list) {
        let i = choose|i: int| 0 <= i < upper2.len() && any_in(check_values(#[trigger] upper2[i]), list);
        lemma_same_values(upper2[i], upper[f(i)], list);
        assert(any_in(check_values(upper[f(i)]), list));
    }
    if some_value_in(upper, list) {
        let j = choose|j: int| 0 <= j < upper.len() && any_in(check_values(#[trigger] upper[j]), list);
        let i = g(j);
        assert(f(i) == j);
        lemma_same_values(upper2[i], upper[j], list);
        assert(any_in(check_values(upper2[i]), list));
    }
}

/// The combined CI status does not depend on the order of the checks: the
/// checks (and their uppercased values) taken in any other order give the
/// same status.
pub proof fn lemma_status_order_independent(
    raw: Seq<GhStatusCheck>,
    upper: Seq<GhStatusCheck>,
    raw2: Seq<GhStatusCheck>,
    upper2: Seq<GhStatusCheck>,
    f: spec_fn(int) -> int,
    g: spec_fn(int) -> int,
)
    requires
        raw.len() == upper.len(),
        raw2.len() == raw.len(),
        upper2.len() == upper.len(),
        is_permutation(f, g, raw.len() as int),
        forall|i: int| 0 <= i < raw.len() ==> same_check(#[trigger] raw2[i], raw[f(i)]) && same_check(upper2[i], upper[f(i)]),
    ensures
        combined_status(raw2, upper2) == combined_status(raw, upper),
{
    assert forall|i: int| 0 <= i < upper.len() implies same_check(#[trigger] upper2[i], upper[f(i)]) by {
        assert(same_check(raw2[i], raw[f(i)]));
    }
    lemma_some_value_permuted(upper, upper2, f, g, failed_values());
    lemma_some_value_permuted(upper, upper2, f, g, canceled_values());
    lemma_some_value_permuted(upper, upper2, f, g, pending_values());
    lemma_some_value_permuted(upper, upper2, f, g, success_values());
    let u1 = exists|i: int| 0 <= i < raw.len() && unfinished(#[trigger] raw[i], upper[i]);
    let u2 = exists|i: int| 0 <= i < raw2.len() && unfinished(#[trigger] raw2[i], upper2[i]);
    if u2 {
        let i = choose|i: int| 0 <= i < raw2.len() && unfinished(#[trigger] raw2[i], upper2[i]);
        assert(same_check(raw2[i], raw[f(i)]));
        assert(unfinished(raw[f(i)], upper[f(i)]));
    }
    if u1 {
        let j = choose|j: int| 0 <= j < raw.len() && unfinished(#[trigger] raw[j], upper[j]);
        let i = g(j);
        assert(f(i) == j);
        assert(same_check(raw2[i], raw[j]));
        assert(unfinished(raw2[i], upper2[i]));
    }
    assert(u1 == u2);
}

/// Reordering the checks does not change their combined status: for checks
/// `raw2` that are `raw` permuted, each with its values uppercased as
/// `aggregate_status_checks` states, the status is the same.
pub proof fn lemma_aggregate_order_independent(
    raw: Seq<GhStatusCheck>,
    upper: Seq<GhStatusCheck>,
    raw2: Seq<GhStatusCheck>,
    upper2: Seq<GhStatusCheck>,
    f: spec_fn(int) -> int,
    g: spec_fn(int) -> int,
)
    requires
        raw.len() == upper.len(),
        raw2.len() == raw.len(),
        upper2.len() == upper.len(),
        is_permutation(f, g, raw.len() as int),
        forall|i: int| 0 <= i < raw.len() ==> same_check(#[trigger] raw2[i], raw[f(i)]),
        forall|i: int| 0 <= i < raw.len() ==> is_upper_of(#[trigger] upper[i], raw[i]),
        forall|i: int| 0 <= i < raw2.len() ==> is_upper_of(#[trigger] upper2[i], raw2[i]),
    ensures
        combined_status(raw2, upper2) == combined_status(raw, upper),
{
    assert forall|i: int| 0 <= i < raw.len() implies same_check(#[trigger] raw2[i], raw[f(i)]) && same_check(
        upper2[i],
        upper[f(i)],
    ) by {
        assert(same_check(raw2[i], raw[f(i)]));
        assert(is_upper_of(upper[f(i)], raw[f(i)]));
        assert(is_upper_of(upper2[i], raw2[i]));
    }
    lemma_status_order_independent(raw, upper, raw2, upper2, f, g);
}

/// An optional value, uppercased.
pub open spec fn opt_upper(o: Option<String>) -> Option<Seq<char>> {
    match o {
        Some(s) => Some(uppercased(s@)),
        None => None,
    }
}

/// `u` holds the values of `c` uppercased.
pub open spec fn is_upper_of(u: GhStatusCheck, c: GhStatusCheck) -> bool {
    &&& opt_view(u.conclusion) == opt_upper(c.conclusion)
    &&& opt_view(u.status) == opt_upper(c.status)
    &&& opt_view(u.state) == opt_upper(c.state)
}

/// The check's values are all ASCII text.
pub open spec fn ascii_check(c: GhStatusCheck) -> bool {
    &&& (c.conclusion matches Some(v) ==> is_ascii_text(v@))
    &&& (c.status matches Some(v) ==> is_ascii_text(v@))
    &&& (c.state matches Some(v) ==> is_ascii_text(v@))
}

/// An optional value with its ASCII letters raised.
pub open spec fn opt_ascii_upper(o: Option<String>) -> Option<Seq<char>> {
    match o {
        Some(s) => Some(ascii_uppered(s@)),
        None => None,
    }
}

/// `u` holds the values of the ASCII check `c` with their letters raised.
pub open spec fn is_ascii_upper_of(u: GhStatusCheck, c: GhStatusCheck) -> bool {
    &&& opt_view(u.conclusion) == opt_ascii_upper(c.conclusion)
    &&& opt_view(u.status) == opt_ascii_upper(c.status)
    &&& opt_view(u.state) == opt_ascii_upper(c.state)
}

fn upper_opt(o: &Option<String>) -> (r: Option<String>)
    ensures
        opt_view(r) == opt_upper(*o),
        (o matches Some(v) ==> is_ascii_text(v@)) ==> opt_view(r) == opt_ascii_upper(*o),
{
    match o {
        Some(s) => Some(to_uppercase(s.as_str())),
        None => None,
    }
}

/// Whether a value is in the failed, canceled, pending and success lists.
fn classify(v: &Option<String>) -> (r: (bool, bool, bool, bool))
    ensures
        v is None ==> !r.0 && !r.1 && !r.2 && !r.3,
        v matches Some(x) ==> {
            &&& r.0 == failed_values().contains(x@)
            &&& r.1 == canceled_values().contains(x@)
            &&& r.2 == pending_values().contains(x@)
            &&& r.3 == success_values().contains(x@)
        },
{
    match v {
        Some(x) => {
            let failed: Vec<&str> = vec!["FAILURE", "FAILED", "TIMED_OUT", "ACTION_REQUIRED", "ERROR", "STALE", "STARTUP_FAILURE"];
            let canceled: Vec<&str> = vec!["CANCELLED", "CANCELED"];
            let pending: Vec<&str> = vec!["EXPECTED", "PENDING", "QUEUED", "IN_PROGRESS"];
            let success: Vec<&str> = vec!["SUCCESS", "NEUTRAL", "SKIPPED"];
            assert(str_views(failed@) =~= failed_values());
            assert(str_views(canceled@) =~= canceled_values());
            assert(str_views(pending@) =~= pending_values());
            assert(str_views(success@) =~= success_values());
            let s = x.as_str();
            (one_of(s, &failed), one_of(s, &canceled), one_of(s, &pending), one_of(s, &success))
        },
        None => (false, false, false, false),
    }
}

/// Some value of `vals` is in `list`.
pub open spec fn any_in(vals: Seq<Seq<char>>, list: Seq<Seq<char>>) -> bool {
    exists|j: int| 0 <= j < vals.len() && list.contains(#[trigger] vals[j])
}

proof fn lemma_any_in_check(u: GhStatusCheck, list: Seq<Seq<char>>)
    ensures
        any_in(check_values(u), list) == ((u.conclusion matches Some(c) && list.contains(c@)) || (u.state matches Some(
            t,
        ) && list.contains(t@))),
{
    let vals = check_values(u);
    match u.conclusion {
        Some(c) => match u.state {
            Some(t) => {
                assert(vals =~= seq![c@, t@]);
                assert(vals[0] == c@ && vals[1] == t@);
            },
            None => {
                assert(vals =~= seq![c@]);
                assert(vals[0] == c@);
            },
        },
        None => match u.state {
            Some(t) => {
                assert(vals =~= seq![t@]);
                assert(vals[0] == t@);
            },
            None => {
                assert(vals =~= Seq::<Seq<char>>::empty());
            },
        },
    }
}

/// The flags one check contributes: a failed, canceled, pending or success
/// value, and whether it is unfinished by itself.
fn check_flags(raw: &GhStatusCheck, upper: &GhStatusCheck) -> (r: (bool, bool, bool, bool, bool))
    ensures
        r.0 == any_in(check_values(*upper), failed_values()),
        r.1 == any_in(check_values(*upper), canceled_values()),
        r.2 == any_in(check_values(*upper), pending_values()),
        r.3 == unfinished(*raw, *upper),
        r.4 == any_in(check_values(*upper), success_values()),
{
    let (fa, ca, pa, sa) = classify(&upper.conclusion);
    let (fb, cb, pb, sb) = classify(&upper.state);
    let unfinished_status = match &upper.status {
        Some(st) => !str_eq(st.as_str(), "COMPLETED"),
        None => false,
    };
    let blank = match &raw.conclusion {
        Some(c) => {
            let v = chars_of(c.as_str());
            let (x, y) = trim_bounds(&v);
            x == y
        },
        None => true,
    };
    proof {
        lemma_any_in_check(*upper, failed_values());
        lemma_any_in_check(*upper, canceled_values());
        lemma_any_in_check(*upper, pending_values());
        lemma_any_in_check(*upper, success_values());
    }
    (fa || fb, ca || cb, pa || pb, unfinished_status || (raw.state.is_none() && blank), sa || sb)
}

/// The combined CI status of checks whose values `upper` holds uppercased.
pub fn aggregate_uppercased(raw: &[GhStatusCheck], upper: &Vec<GhStatusCheck>) -> (r: Option<CiStatus>)
    requires
        raw@.len() == upper@.len(),
    ensures
        r == combined_status(raw@, upper@),
{
    if raw.len() == 0 {
        return None;
    }
    let mut f = false;
    let mut c = false;
    let mut p = false;
    let mut u = false;
    let mut s = false;
    let mut i: usize = 0;
    while i < raw.len()
        invariant
            i <= raw@.len(),
            raw@.len() == upper@.len(),
            f == exists|k: int| 0 <= k < i && any_in(check_values(#[trigger] upper@[k]), failed_values()),
            c == exists|k: int| 0 <= k < i && any_in(check_values(#[trigger] upper@[k]), canceled_values()),
            p == exists|k: int| 0 <= k < i && any_in(check_values(#[trigger] upper@[k]), pending_values()),
            u == exists|k: int| 0 <= k < i && unfinished(#[trigger] raw@[k], upper@[k]),
            s == exists|k: int| 0 <= k < i && any_in(check_values(#[trigger] upper@[k]), success_values()),
        decreases raw.len() - i,
    {
        let (a, b, d, e, g) = check_flags(&raw[i], &upper[i]);
        f = f || a;
        c = c || b;
        p = p || d;
        u = u || e;
        s = s || g;
        i = i + 1;
    }
    if f {
        Some(CiStatus::Failed)
    } else if c {
        Some(CiStatus::Canceled)
    } else if p || u {
        Some(CiStatus::Pending)
    } else if s {
        Some(CiStatus::Success)
    } else {
        Some(CiStatus::Unknown)
    }
}

/// The combined CI status of the status checks of a pull request.
pub fn aggregate_status_checks(checks: &[GhStatusCheck]) -> (r: Option<CiStatus>)
    ensures
        exists|upper: Seq<GhStatusCheck>| upper.len() == checks@.len() && (forall|i: int| 0 <= i < checks@.len()
            ==> is_upper_of(#[trigger] upper[i], checks@[i]) && (ascii_check(checks@[i]) ==> is_ascii_upper_of(
            upper[i],
            checks@[i],
        ))) && r == combined_status(checks@, upper),
{
    let mut upper: Vec<GhStatusCheck> = Vec::new();
    let mut i: usize = 0;
    while i < checks.len()
        invariant
            i <= checks@.len(),
            upper@.len() == i,
            forall|k: int| 0 <= k < i ==> is_upper_of(#[trigger] upper@[k], checks@[k]) && (ascii_check(checks@[k])
                ==> is_ascii_upper_of(upper@[k], checks@[k])),
        decreases checks.len() - i,
    {
        let ch = &checks[i];
        let u = GhStatusCheck { conclusion: upper_opt(&ch.conclusion), status: upper_opt(&ch.status), state: upper_opt(&ch.state) };
        upper.push(u);
        i = i + 1;
    }
    aggregate_uppercased(checks, &upper)
}


/// `o` is `Some(v)` with `v` equal to `lit`.
pub open spec fn is_some_eq(o: Option<String>, lit: Seq<char>) -> bool {
    o matches Some(v) && v@ == lit
}

fn opt_is(o: &Option<String>, lit: &str) -> (b: bool)
    ensures
        b == is_some_eq(*o, lit@),
{
    match o {
        Some(v) => str_eq(v.as_str(), lit),
        None => false,
    }
}

/// A pull request as `gh pr view` describes it: the state from the state
/// name and draft flag, approval and requested changes from the review
/// decision, mergeability from the mergeable state.
pub fn pr_info_from_json(json: GhPrJson) -> (r: PrInfo)
    ensures
        r.number == json.number,
        r.title == json.title,
        r.state == state_of(uppercased(json.state@), json.is_draft),
        r.url == json.url,
        r.head_branch == json.head_ref_name,
        r.draft == json.is_draft,
        r.approved == is_some_eq(json.review_decision, "APPROVED"@),
        r.changes_requested == is_some_eq(json.review_decision, "CHANGES_REQUESTED"@),
        r.mergeable == is_some_eq(json.mergeable, "MERGEABLE"@),
{
    let state = pr_state_from(json.state.as_str(), json.is_draft);
    let approved = opt_is(&json.review_decision, "APPROVED");
    let changes_requested = opt_is(&json.review_decision, "CHANGES_REQUESTED");
    let mergeable = opt_is(&json.mergeable, "MERGEABLE");
    PrInfo {
        number: json.number,
        title: json.title,
        state,
        url: json.url,
        head_branch: json.head_ref_name,
        draft: json.is_draft,
        approved,
        mergeable,
        changes_requested,
    }
}

/// The inbox fields of a pull request: approved when the review decision
/// is `APPROVED` or absent (no review required), and the combined CI status.
pub fn inbox_snapshot_from_json(json: GhPrJson) -> (r: InboxPrSnapshot)
    ensures
        r.state == state_of(uppercased(json.state@), json.is_draft),
        r.url == json.url,
        r.approved == (json.review_decision is None || is_some_eq(json.review_decision, "APPROVED"@)),
        r.changes_requested == is_some_eq(json.review_decision, "CHANGES_REQUESTED"@),
        r.mergeable == is_some_eq(json.mergeable, "MERGEABLE"@),
        exists|upper: Seq<GhStatusCheck>| upper.len() == json.status_check_rollup@.len() && (forall|i: int|
            0 <= i < upper.len() ==> is_upper_of(#[trigger] upper[i], json.status_check_rollup@[i])) && r.ci_status
            == combined_status(json.status_check_rollup@, upper),
{
    let state = pr_state_from(json.state.as_str(), json.is_draft);
    let approved = json.review_decision.is_none() || opt_is(&json.review_decision, "APPROVED");
    let changes_requested = opt_is(&json.review_decision, "CHANGES_REQUESTED");
    let mergeable = opt_is(&json.mergeable, "MERGEABLE");
    let ci_status = aggregate_status_checks(json.status_check_rollup.as_slice());
    InboxPrSnapshot { state, url: json.url, approved, changes_requested, mergeable, ci_status }
}

/// The CI status from the uppercased conclusions of the checks, from index
/// `i` on: the first failure or cancellation decides; otherwise any pending
/// one, then any success, else unknown.
pub open spec fn ci_from(us: Seq<Seq<char>>, i: int) -> CiStatus
    decreases us.len() - i,
{
    if i < 0 || i >= us.len() {
        if us.contains("PENDING"@) || us.contains("QUEUED"@) {
            CiStatus::Pending
        } else if us.contains("SUCCESS"@) {
            CiStatus::Success
        } else {
            CiStatus::Unknown
        }
    } else if us[i] == "FAILURE"@ || us[i] == "FAILED"@ {
        CiStatus::Failed
    } else if us[i] == "CANCELLED"@ || us[i] == "CANCELED"@ {
        CiStatus::Canceled
    } else {
        ci_from(us, i + 1)
    }
}

/// The CI status from the uppercased, trimmed conclusions `gh` printed.
pub fn ci_status_from_upper(us: &Vec<String>) -> (r: CiStatus)
    ensures
        r == ci_from(views(us@), 0),
{
    let ghost v = views(us@);
    let mut pending = false;
    let mut success = false;
    let mut i: usize = 0;
    while i < us.len()
        invariant
            i <= us@.len(),
            v == views(us@),
            ci_from(v, 0) == ci_from(v, i as int),
            pending == (v.take(i as int).contains("PENDING"@) || v.take(i as int).contains("QUEUED"@)),
            success == v.take(i as int).contains("SUCCESS"@),
        decreases us.len() - i,
    {
        let u = us[i].as_str();
        assert(v[i as int] == u@);
        if str_eq(u, "FAILURE") || str_eq(u, "FAILED") {
            return CiStatus::Failed;
        }
        if str_eq(u, "CANCELLED") || str_eq(u, "CANCELED") {
            return CiStatus::Canceled;
        }
        proof {
            let t = v.take(i + 1);
            assert(t =~= v.take(i as int).push(u@));
            assert forall|x: Seq<char>| t.contains(x) <==> (v.take(i as int).contains(x) || x == u@) by {
                if t.contains(x) {
                    let w = choose|w: int| 0 <= w < t.len() && t[w] == x;
                    if w < i {
                        assert(v.take(i as int)[w] == x);
                    }
                }
                if v.take(i as int).contains(x) {
                    let w = choose|w: int| 0 <= w < i && v.take(i as int)[w] == x;
                    assert(t[w] == x);
                }
                if x == u@ {
                    assert(t[i as int] == x);
                }
            }
        }
        if str_eq(u, "PENDING") || str_eq(u, "QUEUED") {
            pending = true;
        }
        if str_eq(u, "SUCCESS") {
            success = true;
        }
        i = i + 1;
    }
    assert(v.take(us.len() as int) =~= v);
    if pending {
        CiStatus::Pending
    } else if success {
        CiStatus::Success
    } else {
        CiStatus::Unknown
    }
}

/// Each line trimmed, then uppercased.
pub open spec fn upper_trimmed_lines(out: Seq<char>) -> Seq<Seq<char>> {
    lines(out).map_values(|l: Seq<char>| uppercased(trim(l)))
}

/// The CI status from the conclusions `gh` printed, one per line.
pub fn ci_status_from_output(stdout: &str) -> (r: CiStatus)
    ensures
        r == ci_from(upper_trimmed_lines(stdout@), 0),
{
    let ls = lines_of(stdout);
    let mut us: Vec<String> = Vec::new();
    let mut i: usize = 0;
    while i < ls.len()
        invariant
            i <= ls@.len(),
            views(ls@) == lines(stdout@),
            views(us@) == views(ls@).take(i as int).map_values(|l: Seq<char>| uppercased(trim(l))),
        decreases ls.len() - i,
    {
        let v = chars_of(ls[i].as_str());
        let (a, b) = trim_bounds(&v);
        let t = string_of_range(&v, a, b);
        let u = to_uppercase(t.as_str());
        let ghost before = us@;
        us.push(u);
        proof {
            assert(views(us@) =~= views(before).push(u@));
            assert(views(ls@).take(i + 1) =~= views(ls@).take(i as int).push(ls@[i as int]@));
        }
        i = i + 1;
    }
    assert(views(ls@).take(ls.len() as int) =~= views(ls@));
    ci_status_from_upper(&us)
}

/// The numbers on the non-empty lines, trimmed, that parse as `u64`.
pub open spec fn numbers_in(ls: Seq<Seq<char>>) -> Seq<u64>
    decreases ls.len(),
{
    if ls.len() == 0 {
        seq![]
    } else {
        let prev = numbers_in(ls.drop_last());
        let t = trim(ls.last());
        if t.len() > 0 && parsed_u64(t) is Some {
            prev.push(parsed_u64(t)->Some_0 as u64)
        } else {
            prev
        }
    }
}

/// The pull request numbers `gh pr list` printed, one per line.
pub fn pr_numbers_from_output(stdout: &str) -> (r: Vec<u64>)
    ensures
        r@ == numbers_in(lines(stdout@)),
{
    let ls = lines_of(stdout);
    let mut out: Vec<u64> = Vec::new();
    let mut i: usize = 0;
    while i < ls.len()
        invariant
            i <= ls@.len(),
            views(ls@) == lines(stdout@),
            out@ == numbers_in(views(ls@).take(i as int)),
        decreases ls.len() - i,
    {
        let v = chars_of(ls[i].as_str());
        let (a, b) = trim_bounds(&v);
        proof {
            assert(views(ls@).take(i + 1).drop_last() =~= views(ls@).take(i as int));
            assert(views(ls@).take(i + 1).last() == ls@[i as int]@);
        }
        if a < b {
            let t = string_of_range(&v, a, b);
            match parse_u64(t.as_str()) {
                Some(n) => out.push(n),
                None => {},
            }
        }
        i = i + 1;
    }
    assert(views(ls@).take(ls.len() as int) =~= views(ls@));
    out
}

/// The number `gh pr create` printed on a line holding `/pull/`: the text
/// after the first `/pull/` (up to a second one), trimmed, as a number.
pub open spec fn pull_number_in(line: Seq<char>) -> Option<nat> {
    if contains(line, "/pull/"@) {
        let after = line.skip(first_index(line, "/pull/"@) + 6);
        let piece = if contains(after, "/pull/"@) {
            after.take(first_index(after, "/pull/"@))
        } else {
            after
        };
        parsed_u64(trim(piece))
    } else {
        None
    }
}

/// The first line, from `i` on, with a pull request number.
pub open spec fn first_pull_line(ls: Seq<Seq<char>>, i: int) -> Option<int>
    decreases ls.len() - i,
{
    if i < 0 || i >= ls.len() {
        None
    } else if pull_number_in(ls[i]) is Some {
        Some(i)
    } else {
        first_pull_line(ls, i + 1)
    }
}

fn pull_number(line: &str) -> (r: Option<u64>)
    ensures
        match r {
            Some(n) => pull_number_in(line@) == Some(n as nat),
            None => pull_number_in(line@) is None,
        },
{
    let v = chars_of(line);
    let pat = chars_of("/pull/");
    proof {
        reveal_strlit("/pull/");
    }
    let i = match find(&v, &pat) {
        Some(i) => i,
        None => return None,
    };
    proof {
        lemma_first_index(line@, "/pull/"@, i as int);
        assert("/pull/"@.len() == 6);
        assert(i + 6 <= v@.len());
    }
    let n = v.len();
    assert(i + 6 <= n);
    let after = string_of_range(&v, i + 6, n);
    assert(after@ =~= line@.skip(i + 6));
    let av = chars_of(after.as_str());
    let end: usize = match find(&av, &pat) {
        Some(j) => {
            proof {
                lemma_first_index(after@, "/pull/"@, j as int);
            }
            j
        },
        None => av.len(),
    };
    let piece = string_of_range(&av, 0, end);
    proof {
        if end < av.len() {
            assert(piece@ =~= after@.take(end as int));
        } else {
            assert(piece@ =~= after@);
        }
    }
    let pv = chars_of(piece.as_str());
    let (a, b) = trim_bounds(&pv);
    let t = string_of_range(&pv, a, b);
    parse_u64(t.as_str())
}

/// The request `gh pr create` reported: the first printed line holding a
/// `/pull/<number>` URL gives the number, and the line, trimmed, the URL.
/// `None` when no line does.
pub fn pr_creation_from_output(stdout: &str) -> (r: Option<PrCreationResult>)
    ensures
        match first_pull_line(lines(stdout@), 0) {
            Some(i) => r matches Some(c) && Some(c.number as nat) == pull_number_in(lines(stdout@)[i]) && c.url@ == trim(
                lines(stdout@)[i],
            ),
            None => r is None,
        },
{
    let ls = lines_of(stdout);
    let mut i: usize = 0;
    while i < ls.len()
        invariant
            i <= ls@.len(),
            views(ls@) == lines(stdout@),
            first_pull_line(lines(stdout@), 0) == first_pull_line(lines(stdout@), i as int),
        decreases ls.len() - i,
    {
        assert(views(ls@)[i as int] == ls@[i as int]@);
        match pull_number(ls[i].as_str()) {
            Some(n) => {
                let v = chars_of(ls[i].as_str());
                let (a, b) = trim_bounds(&v);
                let url = string_of_range(&v, a, b);
                return Some(PrCreationResult { number: n, url });
            },
            None => {},
        }
        i = i + 1;
    }
    None
}

/// Whether `gh` reported the review decision as satisfied: `APPROVED`, or
/// nothing (no review required; `null` included).
pub fn approval_from_output(stdout: &str) -> (b: bool)
    ensures
        b == (trim(stdout@) == "APPROVED"@ || trim(stdout@).len() == 0 || trim(stdout@) == "null"@),
{
    let v = chars_of(stdout);
    let (a, e) = trim_bounds(&v);
    let t = string_of_range(&v, a, e);
    str_eq(t.as_str(), "APPROVED") || a == e || str_eq(t.as_str(), "null")
}

/// The body `gh --jq .body` printed, without the one newline it appends.
pub fn body_from_output(stdout: &str) -> (r: String)
    ensures
        r@ == (if stdout@.len() > 0 && stdout@.last() == '\n' { stdout@.drop_last() } else { stdout@ }),
{
    let v = chars_of(stdout);
    if v.len() > 0 && v[v.len() - 1] == '\n' {
        string_of_range(&v, 0, v.len() - 1)
    } else {
        string_of(&v)
    }
}

/// Whether a failed `gh pr ready --undo` only says the request is already a
/// draft: its lowercased error mentions both `already` and `draft`.
pub fn already_draft(stderr: &str) -> (b: bool)
    ensures
        b == (contains(crate::error::lowercased(stderr@), "already"@) && contains(
            crate::error::lowercased(stderr@),
            "draft"@,
        )),
{
    let lower = crate::error::to_lowercase(stderr);
    let lv = chars_of(lower.as_str());
    contains_exec(&lv, &chars_of("already")) && contains_exec(&lv, &chars_of("draft"))
}

} // verus!
