//! Pull request titles and bodies produced by `gg sync`.
use vstd::prelude::*;
use crate::error::{error_text, GgError};
use crate::gh::{PrInfo, PrState};
use crate::git::normalized_gg_id;
use crate::stack::{Stack, StackEntry};
use crate::git::opt_view;
use crate::provider::{label_of, number_prefix_of, Provider};
use crate::template::{render_template, rendered, TemplateContext};
use crate::text::{
    ascii_lower_seq, chars_of, dec, dec_string, lower_starts_with_at, push_str, skip_ws_forward,
    starts_with, str_eq, string_of, string_of_range, trim, trim_bounds, trim_start, lines, lines_of, views, copy_str,
};

verus! {

/// An optional string slice, by its characters.
pub open spec fn opt_str_view(o: Option<&str>) -> Option<Seq<char>> {
    match o {
        Some(s) => Some(s@),
        None => None,
    }
}

/// The body used when there is neither a template nor a description.
pub open spec fn fallback_body(stack_name: Seq<char>, short_sha: Seq<char>) -> Seq<char> {
    "Part of stack `"@ + stack_name + "`\n\nCommit: "@ + short_sha
}

/// The body of a pull request: the template rendered when there is one,
/// else the description, else a line naming the stack and commit.
pub open spec fn pr_body(
    title: Seq<char>,
    description: Option<Seq<char>>,
    stack_name: Seq<char>,
    short_sha: Seq<char>,
    template: Option<Seq<char>>,
) -> Seq<char> {
    match template {
        Some(t) => rendered(
            t,
            match description {
                Some(d) => d,
                None => seq![],
            },
            stack_name,
            short_sha,
            title,
        ),
        None => match description {
            Some(d) => d,
            None => fallback_body(stack_name, short_sha),
        },
    }
}

/// The title and body of the pull request of a stack entry.
pub fn build_pr_payload(
    title: &str,
    description: Option<String>,
    stack_name: &str,
    short_sha: &str,
    template: Option<&str>,
) -> (r: (String, String))
    ensures
        r.0@ == title@,
        r.1@ == pr_body(title@, opt_view(description), stack_name@, short_sha@, opt_str_view(template)),
{
    let body = match template {
        Some(tmpl) => {
            let d: Option<&str> = match &description {
                Some(s) => Some(s.as_str()),
                None => None,
            };
            let ctx = TemplateContext { description: d, stack_name, commit_sha: short_sha, title };
            render_template(tmpl, &ctx)
        },
        None => match description {
            Some(d) => d,
            None => {
                let mut s = String::new();
                push_str(&mut s, "Part of stack `");
                push_str(&mut s, stack_name);
                push_str(&mut s, "`\n\nCommit: ");
                push_str(&mut s, short_sha);
                s
            },
        },
    };
    (string_of(&chars_of(title)), body)
}

/// The title, after leading whitespace and ignoring ASCII case, starts with
/// `wip:` or `draft:`.
pub open spec fn has_wip_or_draft_prefix(title: Seq<char>) -> bool {
    let lower = ascii_lower_seq(trim_start(title));
    starts_with(lower, "wip:"@) || starts_with(lower, "draft:"@)
}

/// Whether a title is marked as work in progress or draft.
pub fn is_wip_or_draft_prefix(title: &str) -> (b: bool)
    ensures
        b == has_wip_or_draft_prefix(title@),
{
    let v = chars_of(title);
    let i = skip_ws_forward(&v, 0, v.len());
    assert(v@.subrange(0, v.len() as int) =~= title@);
    let wip = chars_of("wip:");
    let draft = chars_of("draft:");
    lower_starts_with_at(&v, i, &wip) || lower_starts_with_at(&v, i, &draft)
}

/// The title trimmed, without one trailing period.
pub open spec fn cleaned_title(title: Seq<char>) -> Seq<char> {
    let t = trim(title);
    if t.len() > 0 && t.last() == '.' {
        t.drop_last()
    } else {
        t
    }
}

/// A title with surrounding whitespace and one trailing period removed.
pub fn clean_title(title: &str) -> (r: String)
    ensures
        r@ == cleaned_title(title@),
{
    let v = chars_of(title);
    let (a, b) = trim_bounds(&v);
    if b > a && v[b - 1] == '.' {
        let r = string_of_range(&v, a, b - 1);
        assert(r@ =~= trim(title@).drop_last());
        r
    } else {
        string_of_range(&v, a, b)
    }
}

/// The description followed by a note that it replaces an older request.
pub open spec fn replacement_note(description: Seq<char>, provider: Provider, old_pr_number: nat) -> Seq<char> {
    description + "\n\nReplaces "@ + label_of(provider) + " "@ + number_prefix_of(provider) + dec(old_pr_number)
        + " because the source branch changed after `gg unstack`."@
}

/// A description that says which older request it replaces, and why.
pub fn description_with_replacement_note(description: &str, provider: &Provider, old_pr_number: u64) -> (r: String)
    ensures
        r@ == replacement_note(description@, *provider, old_pr_number as nat),
{
    let mut s = String::new();
    push_str(&mut s, description);
    push_str(&mut s, "\n\nReplaces ");
    push_str(&mut s, provider.pr_label());
    push_str(&mut s, " ");
    push_str(&mut s, provider.pr_number_prefix());
    let n = dec_string(old_pr_number);
    push_str(&mut s, n.as_str());
    push_str(&mut s, " because the source branch changed after `gg unstack`.");
    s
}

/// The head branch of an existing request when it differs from the entry's
/// branch; `None` when there is no request, no known head, or they agree.
pub fn mismatched_pr_head_branch<'a>(pr_info: Option<&'a PrInfo>, entry_branch: &str) -> (r: Option<&'a str>)
    ensures
        match r {
            Some(h) => pr_info matches Some(info) && info.head_branch matches Some(hb) && hb@ == h@ && h@ != entry_branch@,
            None => match pr_info {
                Some(info) => match info.head_branch {
                    Some(hb) => hb@ == entry_branch@,
                    None => true,
                },
                None => true,
            },
        },
{
    match pr_info {
        Some(info) => match &info.head_branch {
            Some(h) => {
                if str_eq(h.as_str(), entry_branch) {
                    None
                } else {
                    Some(h.as_str())
                }
            },
            None => None,
        },
        None => None,
    }
}

/// How a replacement request is referred to: its number, then its URL in
/// parentheses when known.
pub open spec fn replacement_ref(provider: Provider, number: nat, url: Seq<char>) -> Seq<char> {
    if url.len() == 0 {
        number_prefix_of(provider) + dec(number)
    } else {
        number_prefix_of(provider) + dec(number) + " ("@ + url + ")"@
    }
}

/// The comment left on a request closed because its entry moved branch.
pub open spec fn closing_comment(
    provider: Provider,
    old_head: Seq<char>,
    new_head: Seq<char>,
    number: nat,
    url: Seq<char>,
) -> Seq<char> {
    "Closed by git-gud because this stack entry moved to a new source branch after `gg unstack`.\n\nOld source branch: `"@
        + old_head + "`\nNew source branch: `"@ + new_head + "`\nReplacement: "@ + replacement_ref(provider, number, url)
}

/// The comment explaining that a request was replaced by a new one.
pub fn replacement_closing_comment(
    provider: &Provider,
    old_head_branch: &str,
    new_head_branch: &str,
    new_pr_number: u64,
    new_pr_url: &str,
) -> (r: String)
    ensures
        r@ == closing_comment(*provider, old_head_branch@, new_head_branch@, new_pr_number as nat, new_pr_url@),
{
    let mut s = String::new();
    push_str(&mut s, "Closed by git-gud because this stack entry moved to a new source branch after `gg unstack`.\n\nOld source branch: `");
    push_str(&mut s, old_head_branch);
    push_str(&mut s, "`\nNew source branch: `");
    push_str(&mut s, new_head_branch);
    push_str(&mut s, "`\nReplacement: ");
    push_str(&mut s, provider.pr_number_prefix());
    let n = dec_string(new_pr_number);
    push_str(&mut s, n.as_str());
    let url = chars_of(new_pr_url);
    if url.len() > 0 {
        push_str(&mut s, " (");
        push_str(&mut s, new_pr_url);
        push_str(&mut s, ")");
    }
    s
}

/// The title with `Draft: ` in front, for a GitLab draft whose title does
/// not already start (after whitespace, ignoring ASCII case) with `draft:`.
pub open spec fn gitlab_draft_title(title: Seq<char>, provider: Provider, is_draft: bool) -> Seq<char> {
    if is_draft && provider == Provider::GitLab && !starts_with(ascii_lower_seq(trim_start(title)), "draft:"@) {
        "Draft: "@ + title
    } else {
        title
    }
}

/// GitLab marks drafts by title prefix: adds `Draft: ` when needed.
pub fn ensure_draft_prefix_for_gitlab(title: &str, provider: &Provider, is_draft: bool) -> (r: String)
    ensures
        r@ == gitlab_draft_title(title@, *provider, is_draft),
{
    if !is_draft || *provider != Provider::GitLab {
        return string_of(&chars_of(title));
    }
    let v = chars_of(title);
    let i = skip_ws_forward(&v, 0, v.len());
    assert(v@.subrange(0, v.len() as int) =~= title@);
    let draft = chars_of("draft:");
    if lower_starts_with_at(&v, i, &draft) {
        string_of(&v)
    } else {
        let mut s = String::new();
        push_str(&mut s, "Draft: ");
        push_str(&mut s, title);
        s
    }
}


/// The nearest entry below `i` whose request is still open, if any.
pub open spec fn nearest_open(closed: Seq<bool>, i: int) -> Option<int>
    decreases i,
{
    if i <= 0 {
        None
    } else if !closed[i - 1] {
        Some(i - 1)
    } else {
        nearest_open(closed, i - 1)
    }
}

/// The entry has a well-formed GG-ID, so it has an entry branch.
pub open spec fn has_entry_branch(e: StackEntry) -> bool {
    e.gg_id matches Some(g) && normalized_gg_id(g@) is Some
}

/// The branch the request of entry `i` targets: the entry branch of the
/// nearest entry below it whose request is not merged or closed, else the
/// base.
pub fn compute_target_branch(i: usize, base: &str, entries: &[StackEntry], entry_is_closed: &[bool], stack: &Stack) -> (r: String)
    requires
        i <= entries@.len(),
        i <= entry_is_closed@.len(),
        nearest_open(entry_is_closed@, i as int) matches Some(j) ==> has_entry_branch(entries@[j]),
    ensures
        match nearest_open(entry_is_closed@, i as int) {
            Some(j) => entries@[j].gg_id matches Some(g) && normalized_gg_id(g@) matches Some(n)
                && r@ == stack.username@ + seq!['/'] + stack.name@ + seq!['-', '-'] + n,
            None => r@ == base@,
        },
{
    let mut j: usize = i;
    while j > 0
        invariant
            j <= i,
            i <= entries@.len(),
            i <= entry_is_closed@.len(),
            nearest_open(entry_is_closed@, i as int) == nearest_open(entry_is_closed@, j as int),
            nearest_open(entry_is_closed@, i as int) matches Some(k) ==> has_entry_branch(entries@[k]),
        decreases j,
    {
        if !entry_is_closed[j - 1] {
            match stack.entry_branch_name(&entries[j - 1]) {
                Some(b) => return b,
                None => {
                    assert(false);
                    return string_of(&chars_of(base));
                },
            }
        }
        j = j - 1;
    }
    string_of(&chars_of(base))
}

/// The kinds of lines of a push failure report; the front end styles each
/// kind (the failure mark in red, headings in bold, the branch in cyan).
#[derive(Debug, Clone, Copy, PartialEq, Eq, Structural)]
pub enum ReportLineKind {
    /// An empty line.
    Blank,
    /// `✗ Push failed for <text>`, followed by `: <detail>` when there is one.
    Failure,
    /// `Pre-push hook failed:`.
    HookHeading,
    /// `Suggestion:`.
    SuggestionHeading,
    /// `  Fix the issue, then retry <text>`.
    Suggestion,
    /// `Git error:`.
    GitHeading,
    /// A line printed as it is.
    Detail,
}

/// One line of a push failure report.
#[derive(Debug)]
pub struct ReportLine {
    pub kind: ReportLineKind,
    pub text: String,
    pub detail: Option<String>,
}

/// A report line by its content.
pub open spec fn line_model(l: ReportLine) -> (ReportLineKind, Seq<char>, Option<Seq<char>>) {
    (l.kind, l.text@, opt_view(l.detail))
}

/// A plain report line.
pub open spec fn plain(kind: ReportLineKind, text: Seq<char>) -> (ReportLineKind, Seq<char>, Option<Seq<char>>) {
    (kind, text, None)
}

/// The lines of `msg`, each indented by two spaces.
pub open spec fn indented(msg: Seq<char>) -> Seq<(ReportLineKind, Seq<char>, Option<Seq<char>>)> {
    lines(msg).map_values(|l: Seq<char>| plain(ReportLineKind::Detail, "  "@ + l))
}

/// The report printed when pushing `branch_name` failed with `e`: for a
/// push failure, the hook output with a suggestion, else the git error,
/// else a generic explanation; for any other error, its message.
pub open spec fn push_report(e: GgError, branch_name: Seq<char>) -> Seq<(ReportLineKind, Seq<char>, Option<Seq<char>>)> {
    let blank = plain(ReportLineKind::Blank, seq![]);
    match e {
        GgError::PushFailed { branch, hook_error, git_error } => {
            let head = seq![blank, plain(ReportLineKind::Failure, branch@), blank];
            let hook = match hook_error {
                Some(h) => seq![plain(ReportLineKind::HookHeading, "Pre-push hook failed:"@)] + indented(h@) + seq![
                    blank,
                    plain(ReportLineKind::SuggestionHeading, "Suggestion:"@),
                    plain(ReportLineKind::Suggestion, "`gg sync`"@),
                ],
                None => seq![],
            };
            let git = match (hook_error, git_error) {
                (None, Some(g)) => seq![plain(ReportLineKind::GitHeading, "Git error:"@)] + indented(g@) + seq![blank],
                _ => seq![],
            };
            let generic = if hook_error is None && git_error is None {
                seq![
                    plain(ReportLineKind::Detail, "  The push command failed without a clear error message."@),
                    plain(ReportLineKind::Detail, "  This might be due to network issues or server-side hooks."@),
                    blank,
                ]
            } else {
                seq![]
            };
            head + hook + git + generic
        },
        _ => seq![blank, (ReportLineKind::Failure, branch_name, Some(error_text(e))), blank],
    }
}

fn blank() -> (l: ReportLine)
    ensures
        line_model(l) == plain(ReportLineKind::Blank, seq![]),
{
    ReportLine { kind: ReportLineKind::Blank, text: String::new(), detail: None }
}

fn line(kind: ReportLineKind, text: &str) -> (l: ReportLine)
    ensures
        line_model(l) == plain(kind, text@),
{
    ReportLine { kind, text: copy_str(text), detail: None }
}

fn push_indented(out: &mut Vec<ReportLine>, msg: &str)
    ensures
        final(out)@.map_values(|l: ReportLine| line_model(l)) == old(out)@.map_values(|l: ReportLine| line_model(l))
            + indented(msg@),
{
    let ls = lines_of(msg);
    let ghost start = out@.map_values(|l: ReportLine| line_model(l));
    let ghost target = indented(msg@);
    let mut i: usize = 0;
    while i < ls.len()
        invariant
            i <= ls@.len(),
            views(ls@) == lines(msg@),
            target == indented(msg@),
            target.len() == ls@.len(),
            out@.map_values(|l: ReportLine| line_model(l)) == start + target.take(i as int),
        decreases ls.len() - i,
    {
        let mut t = String::new();
        push_str(&mut t, "  ");
        push_str(&mut t, ls[i].as_str());
        let ghost before = out@;
        out.push(ReportLine { kind: ReportLineKind::Detail, text: t, detail: None });
        proof {
            assert(views(ls@)[i as int] == ls@[i as int]@);
            assert(out@.map_values(|l: ReportLine| line_model(l)) =~= before.map_values(|l: ReportLine| line_model(l)).push(
                target[i as int],
            ));
            assert(target.take(i + 1) =~= target.take(i as int).push(target[i as int]));
        }
        i = i + 1;
    }
    assert(target.take(ls.len() as int) =~= target);
}

/// The report for a failed push of `branch_name`.
pub fn push_failure_report(error: &GgError, branch_name: &str) -> (r: Vec<ReportLine>)
    ensures
        r@.map_values(|l: ReportLine| line_model(l)) == push_report(*error, branch_name@),
{
    let mut out: Vec<ReportLine> = Vec::new();
    match error {
        GgError::PushFailed { branch, hook_error, git_error } => {
            out.push(blank());
            out.push(line(ReportLineKind::Failure, branch.as_str()));
            out.push(blank());
            let ghost m0 = out@.map_values(|l: ReportLine| line_model(l));
            let ghost hook_part: Seq<(ReportLineKind, Seq<char>, Option<Seq<char>>)> = match hook_error {
                Some(h) => seq![plain(ReportLineKind::HookHeading, "Pre-push hook failed:"@)] + indented(h@) + seq![
                    plain(ReportLineKind::Blank, seq![]),
                    plain(ReportLineKind::SuggestionHeading, "Suggestion:"@),
                    plain(ReportLineKind::Suggestion, "`gg sync`"@),
                ],
                None => seq![],
            };
            match hook_error {
                Some(h) => {
                    out.push(line(ReportLineKind::HookHeading, "Pre-push hook failed:"));
                    let ghost a = out@.map_values(|l: ReportLine| line_model(l));
                    push_indented(&mut out, h.as_str());
                    let ghost b = out@.map_values(|l: ReportLine| line_model(l));
                    out.push(blank());
                    out.push(line(ReportLineKind::SuggestionHeading, "Suggestion:"));
                    out.push(line(ReportLineKind::Suggestion, "`gg sync`"));
                    proof {
                        assert(a =~= m0.push(plain(ReportLineKind::HookHeading, "Pre-push hook failed:"@)));
                        assert(out@.map_values(|l: ReportLine| line_model(l)) =~= b + seq![
                            plain(ReportLineKind::Blank, seq![]),
                            plain(ReportLineKind::SuggestionHeading, "Suggestion:"@),
                            plain(ReportLineKind::Suggestion, "`gg sync`"@),
                        ]);
                        assert(out@.map_values(|l: ReportLine| line_model(l)) =~= m0 + hook_part);
                    }
                },
                None => {},
            }
            let ghost m1 = out@.map_values(|l: ReportLine| line_model(l));
            let ghost git_part: Seq<(ReportLineKind, Seq<char>, Option<Seq<char>>)> = match (hook_error, git_error) {
                (None, Some(g)) => seq![plain(ReportLineKind::GitHeading, "Git error:"@)] + indented(g@) + seq![
                    plain(ReportLineKind::Blank, seq![]),
                ],
                _ => seq![],
            };
            match (hook_error, git_error) {
                (None, Some(g)) => {
                    out.push(line(ReportLineKind::GitHeading, "Git error:"));
                    let ghost a = out@.map_values(|l: ReportLine| line_model(l));
                    push_indented(&mut out, g.as_str());
                    let ghost b = out@.map_values(|l: ReportLine| line_model(l));
                    out.push(blank());
                    proof {
                        assert(a =~= m1.push(plain(ReportLineKind::GitHeading, "Git error:"@)));
                        assert(out@.map_values(|l: ReportLine| line_model(l)) =~= b.push(plain(ReportLineKind::Blank, seq![])));
                        assert(out@.map_values(|l: ReportLine| line_model(l)) =~= m1 + git_part);
                    }
                },
                _ => {},
            }
            let ghost m2 = out@.map_values(|l: ReportLine| line_model(l));
            if hook_error.is_none() && git_error.is_none() {
                out.push(line(ReportLineKind::Detail, "  The push command failed without a clear error message."));
                out.push(line(ReportLineKind::Detail, "  This might be due to network issues or server-side hooks."));
                out.push(blank());
            }
            proof {
                assert(m1 =~= m0 + hook_part);
                assert(m2 =~= m1 + git_part);
                assert(m0 =~= seq![
                    plain(ReportLineKind::Blank, seq![]),
                    plain(ReportLineKind::Failure, branch@),
                    plain(ReportLineKind::Blank, seq![]),
                ]);
                assert(out@.map_values(|l: ReportLine| line_model(l)) =~= push_report(*error, branch_name@));
            }
        },
        _ => {
            out.push(blank());
            out.push(ReportLine {
                kind: ReportLineKind::Failure,
                text: copy_str(branch_name),
                detail: Some(error.message()),
            });
            out.push(blank());
            proof {
                assert(out@.map_values(|l: ReportLine| line_model(l)) =~= push_report(*error, branch_name@));
            }
        },
    }
    out
}

/// What `gg sync` does when it finds the stack behind its base.
#[derive(Debug, Clone, Copy, PartialEq, Eq, Structural)]
pub enum BehindAction {
    /// Go on without rebasing: the check is off, the count is unknown, the
    /// stack is not far enough behind, or (without auto-rebase) the output
    /// is JSON, where nobody can be asked.
    Proceed,
    /// Rebase without asking (saying so, outside JSON mode).
    AutoRebase,
    /// Say so and ask whether to rebase first.
    Ask,
}

/// The decision for a stack `behind` commits behind its upstream base
/// (`None` when it could not be counted), with the configured threshold
/// (0 turns the check off).
pub fn behind_action(threshold: usize, behind: Option<usize>, auto_rebase: bool, json: bool) -> (r: BehindAction)
    ensures
        r == (if threshold == 0 {
            BehindAction::Proceed
        } else {
            match behind {
                None => BehindAction::Proceed,
                Some(b) => if b < threshold {
                    BehindAction::Proceed
                } else if auto_rebase {
                    BehindAction::AutoRebase
                } else if json {
                    BehindAction::Proceed
                } else {
                    BehindAction::Ask
                },
            }
        }),
{
    if threshold == 0 {
        return BehindAction::Proceed;
    }
    match behind {
        None => BehindAction::Proceed,
        Some(b) => if b < threshold {
            BehindAction::Proceed
        } else if auto_rebase {
            BehindAction::AutoRebase
        } else if json {
            BehindAction::Proceed
        } else {
            BehindAction::Ask
        },
    }
}

/// The warning about a stack behind its base, after the `⚠` mark.
pub open spec fn behind_text(behind: nat, base: Seq<char>, prs_label: Seq<char>, auto_rebase: bool) -> Seq<char> {
    "Your stack is "@ + dec(behind) + " commits behind origin/"@ + base + ". "@ + prs_label + (if auto_rebase {
        " may show unrelated changes. Auto-rebasing..."@
    } else {
        " may show unrelated changes. Run 'gg rebase' first to update."@
    })
}

/// The warning text; `prs_label` is e.g. `PRs`, `MRs` or `PRs/MRs`.
pub fn behind_message(behind: usize, base: &str, prs_label: &str, auto_rebase: bool) -> (r: String)
    ensures
        r@ == behind_text(behind as nat, base@, prs_label@, auto_rebase),
{
    let mut s = String::new();
    push_str(&mut s, "Your stack is ");
    push_str(&mut s, dec_string(behind as u64).as_str());
    push_str(&mut s, " commits behind origin/");
    push_str(&mut s, base);
    push_str(&mut s, ". ");
    push_str(&mut s, prs_label);
    if auto_rebase {
        push_str(&mut s, " may show unrelated changes. Auto-rebasing...");
    } else {
        push_str(&mut s, " may show unrelated changes. Run 'gg rebase' first to update.");
    }
    s
}

/// Whether some title among the first `k` is marked WIP or draft.
pub open spec fn wip_within(titles: Seq<Seq<char>>, k: int) -> bool {
    exists|j: int| 0 <= j < k && j < titles.len() && has_wip_or_draft_prefix(#[trigger] titles[j])
}

/// Which entries become drafts: all with `--draft`, and from the first
/// title marked WIP or draft on, every entry above it too.
pub fn entry_drafts(draft: bool, raw_titles: &Vec<String>) -> (r: Vec<bool>)
    ensures
        r@.len() == raw_titles@.len(),
        forall|i: int| 0 <= i < r@.len() ==> #[trigger] r@[i] == (draft || wip_within(views(raw_titles@), i + 1)),
{
    let ghost ts = views(raw_titles@);
    let mut out: Vec<bool> = Vec::new();
    let mut force = draft;
    let mut i: usize = 0;
    while i < raw_titles.len()
        invariant
            i <= raw_titles@.len(),
            ts == views(raw_titles@),
            out@.len() == i,
            force == (draft || wip_within(ts, i as int)),
            forall|k: int| 0 <= k < i ==> #[trigger] out@[k] == (draft || wip_within(ts, k + 1)),
        decreases raw_titles.len() - i,
    {
        let w = is_wip_or_draft_prefix(raw_titles[i].as_str());
        proof {
            assert(ts[i as int] == raw_titles@[i as int]@);
            if w {
                assert(wip_within(ts, i + 1));
            }
            if wip_within(ts, i + 1) && !wip_within(ts, i as int) {
                let j = choose|j: int| 0 <= j < i + 1 && j < ts.len() && has_wip_or_draft_prefix(#[trigger] ts[j]);
                assert(j == i);
            }
            if wip_within(ts, i as int) {
                let j = choose|j: int| 0 <= j < i && j < ts.len() && has_wip_or_draft_prefix(#[trigger] ts[j]);
                assert(wip_within(ts, i + 1));
            }
        }
        if w {
            force = true;
        }
        out.push(force);
        i = i + 1;
    }
    out
}

/// What sync does with an entry's existing pull request.
#[derive(Debug, Clone, PartialEq, Eq)]
pub enum ExistingPrPlan {
    /// It is merged or closed: leave it.
    SkipClosed,
    /// Its head branch is not the entry's branch any more: open a new one
    /// (as a draft when `draft`), then comment on and close the old one
    /// whose head was `old_head`.
    Recreate { old_head: String, draft: bool },
    /// Update it in place (title and description as configured).
    Update,
}

/// The plan for an existing request, from what the provider reported of it
/// (`None` when it could not be read).
pub fn existing_pr_plan(pr_info: Option<&PrInfo>, entry_branch: &str) -> (r: ExistingPrPlan)
    ensures
        match pr_info {
            Some(info) if info.state == PrState::Merged || info.state == PrState::Closed => r == ExistingPrPlan::SkipClosed,
            Some(info) => match info.head_branch {
                Some(h) if h@ != entry_branch@ => r matches ExistingPrPlan::Recreate { old_head, draft } && old_head@ == h@
                    && draft == info.draft,
                _ => r == ExistingPrPlan::Update,
            },
            None => r == ExistingPrPlan::Update,
        },
{
    match pr_info {
        Some(info) => {
            if info.state == PrState::Merged || info.state == PrState::Closed {
                return ExistingPrPlan::SkipClosed;
            }
            match mismatched_pr_head_branch(Some(info), entry_branch) {
                Some(h) => ExistingPrPlan::Recreate { old_head: copy_str(h), draft: info.draft },
                None => ExistingPrPlan::Update,
            }
        },
        None => ExistingPrPlan::Update,
    }
}

// ---------------------------------------------------------------------------
// The per-entry sequence of a sync
// ---------------------------------------------------------------------------

/// How an entry's sync ended.
#[derive(Debug, Clone, Copy, PartialEq, Eq, Structural)]
pub enum EntryOutcome {
    UpToDate,
    Created,
    Updated,
    Recreated,
    SkippedClosed,
    Error,
}

/// Where the sync of the current entry stands.
#[derive(Debug, Clone, Copy, PartialEq, Eq, Structural)]
pub enum SyncPhase {
    /// About to start the entry at `index` (or to finish).
    Start,
    /// Waiting to learn whether the remote branch holds the entry's commit.
    AwaitRemote,
    /// Waiting for the push.
    AwaitPush,
    /// Waiting for a new request to be opened.
    AwaitCreate,
    /// Waiting for what the provider says of the existing request.
    AwaitInfo,
    /// Waiting for a replacement request to be opened (and the old one closed).
    AwaitRecreate,
    /// Waiting for the existing request to be updated.
    AwaitUpdate,
    /// All entries done, or stopped.
    Done,
}

/// What the runner reports back.
#[derive(Debug, Clone, Copy, PartialEq, Eq, Structural)]
pub enum SyncEvent {
    /// Go on (from the start of an entry).
    Begin,
    /// Whether the remote entry branch already holds the entry's commit.
    RemoteMatches(bool),
    /// Whether the push succeeded.
    PushDone(bool),
    /// Whether the new request was opened.
    Created(bool),
    /// What the provider says of the existing request: whether it is merged
    /// or closed, whether its head branch is another branch, and whether it
    /// is a draft.
    Info { closed: bool, head_changed: bool, draft: bool },
    /// The existing request could not be read.
    InfoUnknown,
    /// Whether the replacement request was opened.
    Recreated(bool),
    /// The in-place update is finished (its failures are warnings).
    Updated,
}

/// What the runner does next. Branch names, titles, bodies and the target
/// branch come from the entry at `index` (the target from
/// `compute_target_branch` over the state's `closed` flags).
#[derive(Debug, Clone, Copy, PartialEq, Eq, Structural)]
pub enum SyncAction {
    /// Make the local entry branch and compare it with the remote one.
    CheckRemote(usize),
    /// Push the entry branch.
    Push(usize),
    /// Stop: the push of this entry failed (outside JSON mode).
    AbortPush(usize),
    /// Open a request for the entry, as a draft or not.
    CreatePr { index: usize, draft: bool },
    /// Read the existing request `number` of the entry.
    FetchPr { index: usize, number: u64 },
    /// Open a replacement for request `number`, then comment on and close it.
    RecreatePr { index: usize, number: u64, draft: bool },
    /// Update request `number` in place: its title and body when asked, and
    /// its base.
    UpdatePr { index: usize, number: u64, title: bool, description: bool },
    /// All entries are done.
    Finish,
    /// Nothing to do for this event.
    Nothing,
}

/// The state of a sync over its entries.
#[derive(Debug)]
pub struct SyncState {
    /// Per entry to sync: whether its title starts with "WIP:" or "Draft:".
    pub wip: Vec<bool>,
    /// Per entry to sync: the request the configuration records for it.
    pub existing: Vec<Option<u64>>,
    /// `--draft` (or the configured default).
    pub draft: bool,
    pub update_title: bool,
    pub update_descriptions: bool,
    pub json: bool,
    /// The entry being synced.
    pub index: usize,
    /// New requests are drafts from here on.
    pub force_draft: bool,
    /// Per finished entry: whether its request is merged or closed.
    pub closed: Vec<bool>,
    /// Per finished entry: how it ended.
    pub outcomes: Vec<EntryOutcome>,
    /// Whether the current entry was pushed.
    pub pushed: bool,
    pub phase: SyncPhase,
}

/// The sync state by its values.
#[verifier::ext_equal]
pub struct SyncModel {
    pub wip: Seq<bool>,
    pub existing: Seq<Option<u64>>,
    pub draft: bool,
    pub update_title: bool,
    pub update_descriptions: bool,
    pub json: bool,
    pub index: nat,
    pub force_draft: bool,
    pub closed: Seq<bool>,
    pub outcomes: Seq<EntryOutcome>,
    pub pushed: bool,
    pub phase: SyncPhase,
}

impl SyncState {
    pub open spec fn model(&self) -> SyncModel {
        SyncModel {
            wip: self.wip@,
            existing: self.existing@,
            draft: self.draft,
            update_title: self.update_title,
            update_descriptions: self.update_descriptions,
            json: self.json,
            index: self.index as nat,
            force_draft: self.force_draft,
            closed: self.closed@,
            outcomes: self.outcomes@,
            pushed: self.pushed,
            phase: self.phase,
        }
    }
}

/// A well-formed sync model: one flag and one recorded request per entry,
/// one result per finished entry, and an entry under way only mid-list.
pub open spec fn sync_wf(m: SyncModel) -> bool {
    &&& m.existing.len() == m.wip.len()
    &&& m.index <= m.wip.len()
    &&& m.closed.len() == m.index && m.outcomes.len() == m.index
    &&& (m.phase != SyncPhase::Start && m.phase != SyncPhase::Done) ==> m.index < m.wip.len()
    &&& (m.phase == SyncPhase::AwaitInfo || m.phase == SyncPhase::AwaitRecreate || m.phase == SyncPhase::AwaitUpdate)
        ==> m.existing[m.index as int] is Some
}

/// Starts the entry at `m.index`: drafts from the first WIP title on; or
/// finishes when every entry is done.
pub open spec fn start_entry(m: SyncModel) -> (SyncModel, SyncAction) {
    if m.index >= m.wip.len() {
        (SyncModel { phase: SyncPhase::Done, ..m }, SyncAction::Finish)
    } else {
        (
            SyncModel {
                force_draft: m.force_draft || m.wip[m.index as int],
                pushed: false,
                phase: SyncPhase::AwaitRemote,
                ..m
            },
            SyncAction::CheckRemote(m.index as usize),
        )
    }
}

/// Records how the current entry ended and starts the next one.
pub open spec fn finish_entry(m: SyncModel, outcome: EntryOutcome, closed: bool) -> (SyncModel, SyncAction) {
    start_entry(
        SyncModel {
            closed: m.closed.push(closed),
            outcomes: m.outcomes.push(outcome),
            index: m.index + 1,
            phase: SyncPhase::Start,
            ..m
        },
    )
}

/// The request stage of the current entry: open one, or read the recorded one.
pub open spec fn pr_stage(m: SyncModel) -> (SyncModel, SyncAction) {
    match m.existing[m.index as int] {
        None => (
            SyncModel { phase: SyncPhase::AwaitCreate, ..m },
            SyncAction::CreatePr { index: m.index as usize, draft: m.force_draft },
        ),
        Some(n) => (
            SyncModel { phase: SyncPhase::AwaitInfo, ..m },
            SyncAction::FetchPr { index: m.index as usize, number: n },
        ),
    }
}

/// One step of a sync: from the state and what the runner reports, the next
/// state and what to do. Events that do not fit the phase change nothing.
pub open spec fn sync_transition(m: SyncModel, e: SyncEvent) -> (SyncModel, SyncAction) {
    let i = m.index as usize;
    match m.phase {
        SyncPhase::Start => start_entry(m),
        SyncPhase::AwaitRemote => match e {
            SyncEvent::RemoteMatches(same) => if same {
                pr_stage(m)
            } else {
                (SyncModel { pushed: true, phase: SyncPhase::AwaitPush, ..m }, SyncAction::Push(i))
            },
            _ => (m, SyncAction::Nothing),
        },
        SyncPhase::AwaitPush => match e {
            SyncEvent::PushDone(ok) => if ok {
                pr_stage(m)
            } else if m.json {
                finish_entry(m, EntryOutcome::Error, false)
            } else {
                (SyncModel { phase: SyncPhase::Done, ..m }, SyncAction::AbortPush(i))
            },
            _ => (m, SyncAction::Nothing),
        },
        SyncPhase::AwaitCreate => match e {
            SyncEvent::Created(ok) => finish_entry(m, if ok { EntryOutcome::Created } else { EntryOutcome::Error }, false),
            _ => (m, SyncAction::Nothing),
        },
        SyncPhase::AwaitInfo => {
            let n = m.existing[m.index as int]->0;
            let update = (
                SyncModel { phase: SyncPhase::AwaitUpdate, ..m },
                SyncAction::UpdatePr {
                    index: i,
                    number: n,
                    title: m.update_title,
                    description: m.update_descriptions,
                },
            );
            match e {
                SyncEvent::Info { closed, head_changed, draft } => if closed {
                    finish_entry(m, EntryOutcome::SkippedClosed, true)
                } else if head_changed {
                    (
                        SyncModel { phase: SyncPhase::AwaitRecreate, ..m },
                        SyncAction::RecreatePr { index: i, number: n, draft },
                    )
                } else {
                    update
                },
                SyncEvent::InfoUnknown => update,
                _ => (m, SyncAction::Nothing),
            }
        },
        SyncPhase::AwaitRecreate => match e {
            SyncEvent::Recreated(ok) => finish_entry(
                m,
                if ok { EntryOutcome::Recreated } else { EntryOutcome::Error },
                false,
            ),
            _ => (m, SyncAction::Nothing),
        },
        SyncPhase::AwaitUpdate => match e {
            SyncEvent::Updated => finish_entry(
                m,
                if m.pushed || m.update_descriptions || m.update_title {
                    EntryOutcome::Updated
                } else {
                    EntryOutcome::UpToDate
                },
                false,
            ),
            _ => (m, SyncAction::Nothing),
        },
        SyncPhase::Done => (m, SyncAction::Nothing),
    }
}

/// Some entry at or below index `k` has a WIP/Draft title.
pub open spec fn wip_through(m: SyncModel, k: int) -> bool {
    exists|j: int| 0 <= j <= k && j < m.wip.len() && #[trigger] m.wip[j]
}

/// The draft flag for new requests follows `--draft` and the titles seen so
/// far: at the start of entry `i`, those below it; while entry `i` is under
/// way, those up to and including it.
pub open spec fn drafts_tracked(m: SyncModel) -> bool {
    &&& sync_wf(m)
    &&& m.wip.len() <= usize::MAX
    &&& m.phase == SyncPhase::Start ==> m.force_draft == (m.draft || wip_through(m, m.index - 1))
    &&& (m.phase != SyncPhase::Start && m.phase != SyncPhase::Done) ==> m.force_draft == (m.draft || wip_through(
        m,
        m.index as int,
    ))
}

proof fn lemma_start_tracks(m: SyncModel)
    requires
        sync_wf(m),
        m.wip.len() <= usize::MAX,
        m.phase == SyncPhase::Start,
        m.force_draft == (m.draft || wip_through(m, m.index - 1)),
    ensures
        drafts_tracked(start_entry(m).0),
{
    if m.index < m.wip.len() {
        let n = start_entry(m).0;
        assert(n.wip == m.wip);
        if wip_through(m, m.index as int) {
            let j = choose|j: int| 0 <= j <= m.index && j < m.wip.len() && #[trigger] m.wip[j];
            if j < m.index {
                assert(wip_through(m, m.index - 1));
            }
        }
        if wip_through(m, m.index - 1) {
            let j = choose|j: int| 0 <= j <= m.index - 1 && j < m.wip.len() && #[trigger] m.wip[j];
            assert(wip_through(n, n.index as int));
        }
        if m.wip[m.index as int] {
            assert(wip_through(n, n.index as int));
        }
    }
}

/// Drafts start at the first WIP/Draft title: every request `gg sync` opens
/// is a draft exactly when `--draft` is set or some entry at or below it has
/// a WIP/Draft title, and each step keeps the state that decides this.
#[verifier::spinoff_prover]
#[verifier::rlimit(40)]
pub proof fn lemma_new_request_draft(m: SyncModel, e: SyncEvent)
    requires
        drafts_tracked(m),
    ensures
        drafts_tracked(sync_transition(m, e).0),
        sync_transition(m, e).1 matches SyncAction::CreatePr { index, draft } ==> index == m.index && draft == (m.draft
            || wip_through(m, index as int)) && m.existing[index as int] is None,
        sync_transition(m, e).1 matches SyncAction::RecreatePr { index, number, draft } ==> index == m.index
            && m.existing[index as int] == Some(number) && (e matches SyncEvent::Info { draft: d, .. } && draft == d),
{
    let i = m.index;
    match m.phase {
        SyncPhase::Start => {
            lemma_start_tracks(m);
            assert(sync_transition(m, e) == start_entry(m));
            assert(!(start_entry(m).1 is CreatePr));
        },
        SyncPhase::Done => {},
        _ => {
            let f = SyncModel {
                closed: m.closed.push(false),
                outcomes: m.outcomes.push(EntryOutcome::Error),
                index: m.index + 1,
                phase: SyncPhase::Start,
                ..m
            };
            assert forall|c: bool, o: EntryOutcome| #![auto] drafts_tracked(
                finish_entry(m, o, c).0,
            ) by {
                let g = SyncModel {
                    closed: m.closed.push(c),
                    outcomes: m.outcomes.push(o),
                    index: m.index + 1,
                    phase: SyncPhase::Start,
                    ..m
                };
                assert(wip_through(g, g.index - 1) == wip_through(m, m.index as int)) by {
                    if wip_through(m, m.index as int) {
                        let j = choose|j: int| 0 <= j <= m.index && j < m.wip.len() && #[trigger] m.wip[j];
                        assert(g.wip[j]);
                    }
                    if wip_through(g, g.index - 1) {
                        let j = choose|j: int| 0 <= j <= g.index - 1 && j < g.wip.len() && #[trigger] g.wip[j];
                        assert(m.wip[j]);
                    }
                }
                lemma_start_tracks(g);
            }
        },
    }
}

/// A sync begins with the draft flag tracking `--draft` alone.
pub proof fn lemma_sync_starts_tracked(m: SyncModel)
    requires
        sync_wf(m),
        m.phase == SyncPhase::Start,
        m.index == 0,
        m.force_draft == m.draft,
        m.wip.len() <= usize::MAX,
    ensures
        drafts_tracked(m),
{
}

fn copy_flags(v: &Vec<bool>) -> (r: Vec<bool>)
    ensures
        r@ == v@,
{
    let mut r: Vec<bool> = Vec::new();
    let mut i: usize = 0;
    while i < v.len()
        invariant
            i <= v@.len(),
            r@ == v@.take(i as int),
        decreases v.len() - i,
    {
        r.push(v[i]);
        i = i + 1;
        assert(r@ =~= v@.take(i as int));
    }
    assert(v@.take(v@.len() as int) =~= v@);
    r
}

fn copy_numbers(v: &Vec<Option<u64>>) -> (r: Vec<Option<u64>>)
    ensures
        r@ == v@,
{
    let mut r: Vec<Option<u64>> = Vec::new();
    let mut i: usize = 0;
    while i < v.len()
        invariant
            i <= v@.len(),
            r@ == v@.take(i as int),
        decreases v.len() - i,
    {
        let x = match v[i] {
            Some(n) => Some(n),
            None => None,
        };
        r.push(x);
        i = i + 1;
        assert(r@ =~= v@.take(i as int));
    }
    assert(v@.take(v@.len() as int) =~= v@);
    r
}

fn copy_outcomes(v: &Vec<EntryOutcome>) -> (r: Vec<EntryOutcome>)
    ensures
        r@ == v@,
{
    let mut r: Vec<EntryOutcome> = Vec::new();
    let mut i: usize = 0;
    while i < v.len()
        invariant
            i <= v@.len(),
            r@ == v@.take(i as int),
        decreases v.len() - i,
    {
        let x = v[i];
        r.push(x);
        i = i + 1;
        assert(r@ =~= v@.take(i as int));
    }
    assert(v@.take(v@.len() as int) =~= v@);
    r
}

impl SyncState {
    /// A sync of the entries whose title flags are `wip` and whose recorded
    /// requests are `existing` (as many as entries to sync: all of them, or
    /// up to `--until`).
    pub fn new(wip: Vec<bool>, existing: Vec<Option<u64>>, draft: bool, update_title: bool, update_descriptions: bool, json: bool) -> (s: Self)
        requires
            wip@.len() == existing@.len(),
        ensures
            sync_wf(s.model()),
            s.wip@ == wip@ && s.existing@ == existing@,
            s.draft == draft && s.force_draft == draft,
            s.update_title == update_title && s.update_descriptions == update_descriptions && s.json == json,
            s.index == 0 && s.closed@.len() == 0 && s.outcomes@.len() == 0 && !s.pushed,
            s.phase == SyncPhase::Start,
    {
        SyncState {
            wip,
            existing,
            draft,
            update_title,
            update_descriptions,
            json,
            index: 0,
            force_draft: draft,
            closed: Vec::new(),
            outcomes: Vec::new(),
            pushed: false,
            phase: SyncPhase::Start,
        }
    }

    fn with_phase(&self, phase: SyncPhase) -> (r: SyncState)
        ensures
            r.model() == (SyncModel { phase, ..self.model() }),
    {
        SyncState {
            wip: copy_flags(&self.wip),
            existing: copy_numbers(&self.existing),
            draft: self.draft,
            update_title: self.update_title,
            update_descriptions: self.update_descriptions,
            json: self.json,
            index: self.index,
            force_draft: self.force_draft,
            closed: copy_flags(&self.closed),
            outcomes: copy_outcomes(&self.outcomes),
            pushed: self.pushed,
            phase,
        }
    }
}

fn start_entry_exec(s: SyncState) -> (r: (SyncState, SyncAction))
    requires
        sync_wf(s.model()),
        s.phase == SyncPhase::Start,
    ensures
        sync_wf(r.0.model()),
        (r.0.model(), r.1) == start_entry(s.model()),
{
    let mut s = s;
    if s.index >= s.wip.len() {
        s.phase = SyncPhase::Done;
        return (s, SyncAction::Finish);
    }
    let i = s.index;
    s.force_draft = s.force_draft || s.wip[i];
    s.pushed = false;
    s.phase = SyncPhase::AwaitRemote;
    (s, SyncAction::CheckRemote(i))
}

fn finish_entry_exec(s: SyncState, outcome: EntryOutcome, closed: bool) -> (r: (SyncState, SyncAction))
    requires
        sync_wf(s.model()),
        s.index < s.wip@.len(),
    ensures
        sync_wf(r.0.model()),
        (r.0.model(), r.1) == finish_entry(s.model(), outcome, closed),
{
    let mut s = s;
    let n = s.wip.len();
    assert(s.index < n);
    s.closed.push(closed);
    s.outcomes.push(outcome);
    s.index = s.index + 1;
    s.phase = SyncPhase::Start;
    start_entry_exec(s)
}

fn pr_stage_exec(s: SyncState) -> (r: (SyncState, SyncAction))
    requires
        sync_wf(s.model()),
        s.index < s.wip@.len(),
    ensures
        sync_wf(r.0.model()),
        (r.0.model(), r.1) == pr_stage(s.model()),
{
    let mut s = s;
    let i = s.index;
    match s.existing[i] {
        None => {
            s.phase = SyncPhase::AwaitCreate;
            let d = s.force_draft;
            (s, SyncAction::CreatePr { index: i, draft: d })
        },
        Some(n) => {
            s.phase = SyncPhase::AwaitInfo;
            (s, SyncAction::FetchPr { index: i, number: n })
        },
    }
}

/// One step of `gg sync`: the runner reports what the last action gave
/// (`Begin` to start), and gets the next state and action.
#[verifier::rlimit(60)]
pub fn sync_step(state: &SyncState, event: SyncEvent) -> (r: (SyncState, SyncAction))
    requires
        sync_wf(state.model()),
    ensures
        sync_wf(r.0.model()),
        (r.0.model(), r.1) == sync_transition(state.model(), event),
{
    let same = state.with_phase(state.phase);
    assert(same.model() =~= state.model());
    let i = state.index;
    match state.phase {
        SyncPhase::Start => start_entry_exec(same),
        SyncPhase::AwaitRemote => match event {
            SyncEvent::RemoteMatches(m) => if m {
                pr_stage_exec(same)
            } else {
                let mut s = state.with_phase(SyncPhase::AwaitPush);
                s.pushed = true;
                (s, SyncAction::Push(i))
            },
            _ => (same, SyncAction::Nothing),
        },
        SyncPhase::AwaitPush => match event {
            SyncEvent::PushDone(ok) => if ok {
                pr_stage_exec(same)
            } else if state.json {
                finish_entry_exec(same, EntryOutcome::Error, false)
            } else {
                (state.with_phase(SyncPhase::Done), SyncAction::AbortPush(i))
            },
            _ => (same, SyncAction::Nothing),
        },
        SyncPhase::AwaitCreate => match event {
            SyncEvent::Created(ok) => finish_entry_exec(
                same,
                if ok { EntryOutcome::Created } else { EntryOutcome::Error },
                false,
            ),
            _ => (same, SyncAction::Nothing),
        },
        SyncPhase::AwaitInfo => {
            let n = match state.existing[i] {
                Some(n) => n,
                None => 0,
            };
            match event {
                SyncEvent::Info { closed, head_changed, draft } => if closed {
                    finish_entry_exec(same, EntryOutcome::SkippedClosed, true)
                } else if head_changed {
                    (state.with_phase(SyncPhase::AwaitRecreate), SyncAction::RecreatePr { index: i, number: n, draft })
                } else {
                    (
                        state.with_phase(SyncPhase::AwaitUpdate),
                        SyncAction::UpdatePr {
                            index: i,
                            number: n,
                            title: state.update_title,
                            description: state.update_descriptions,
                        },
                    )
                },
                SyncEvent::InfoUnknown => (
                    state.with_phase(SyncPhase::AwaitUpdate),
                    SyncAction::UpdatePr {
                        index: i,
                        number: n,
                        title: state.update_title,
                        description: state.update_descriptions,
                    },
                ),
                _ => (same, SyncAction::Nothing),
            }
        },
        SyncPhase::AwaitRecreate => match event {
            SyncEvent::Recreated(ok) => finish_entry_exec(
                same,
                if ok { EntryOutcome::Recreated } else { EntryOutcome::Error },
                false,
            ),
            _ => (same, SyncAction::Nothing),
        },
        SyncPhase::AwaitUpdate => match event {
            SyncEvent::Updated => {
                let o = if state.pushed || state.update_descriptions || state.update_title {
                    EntryOutcome::Updated
                } else {
                    EntryOutcome::UpToDate
                };
                finish_entry_exec(same, o, false)
            },
            _ => (same, SyncAction::Nothing),
        },
        SyncPhase::Done => (same, SyncAction::Nothing),
    }
}

} // verus!
