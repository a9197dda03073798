//! Which commits of a stack must not be rewritten casually: those whose pull
//! request is merged, and those already reachable from the base branch.
//! History-rewriting commands build a report, and proceed only when it is
//! clear or the user forces them.
use vstd::prelude::*;
use crate::error::GgError;
use crate::gh::PrState;
use crate::stack::{Stack, StackEntry};
use crate::text::{chars_of, dec, dec_string, join, push_str, string_of};

verus! {

/// Why a commit is considered immutable.
#[derive(Debug, Clone, PartialEq, Eq)]
pub enum ImmutableReason {
    /// Its pull request is merged.
    MergedPr { number: Option<u64> },
    /// It is reachable from the base branch (`base_ref`, e.g. `origin/main`).
    BaseAncestor { base_ref: String },
}

/// A reason, by its content.
pub enum Reason {
    Merged(Option<u64>),
    OnBase(Seq<char>),
}

/// The content of a reason.
pub open spec fn reason_model(r: ImmutableReason) -> Reason {
    match r {
        ImmutableReason::MergedPr { number } => Reason::Merged(number),
        ImmutableReason::BaseAncestor { base_ref } => Reason::OnBase(base_ref@),
    }
}

/// The content of a list of reasons.
pub open spec fn reasons_model(rs: Seq<ImmutableReason>) -> Seq<Reason> {
    rs.map_values(|r: ImmutableReason| reason_model(r))
}

/// The short description of a reason.
pub open spec fn described(r: ImmutableReason) -> Seq<char> {
    match r {
        ImmutableReason::MergedPr { number } => match number {
            Some(n) => "merged as !"@ + dec(n as nat),
            None => "PR/MR is merged"@,
        },
        ImmutableReason::BaseAncestor { base_ref } => "already in "@ + base_ref@,
    }
}

impl ImmutableReason {
    /// A short description for error messages.
    pub fn describe(&self) -> (r: String)
        ensures
            r@ == described(*self),
    {
        let mut s = String::new();
        match self {
            ImmutableReason::MergedPr { number: Some(n) } => {
                push_str(&mut s, "merged as !");
                push_str(&mut s, dec_string(*n).as_str());
            },
            ImmutableReason::MergedPr { number: None } => {
                push_str(&mut s, "PR/MR is merged");
            },
            ImmutableReason::BaseAncestor { base_ref } => {
                push_str(&mut s, "already in ");
                push_str(&mut s, base_ref.as_str());
            },
        }
        s
    }
}

/// An immutable entry and every reason it matched.
#[derive(Debug, Clone)]
pub struct ImmutableEntry {
    /// Position in the stack, from 1.
    pub position: usize,
    pub short_sha: String,
    pub title: String,
    /// The reasons (never empty in a report).
    pub reasons: Vec<ImmutableReason>,
}

/// The immutable entries among the targets of a rewrite, in position order.
#[derive(Debug, Clone)]
pub struct ImmutabilityReport {
    pub entries: Vec<ImmutableEntry>,
}

impl Default for ImmutabilityReport {
    fn default() -> (r: Self)
        ensures
            r.entries@.len() == 0,
    {
        ImmutabilityReport { entries: Vec::new() }
    }
}

/// One of the reasons is reachability from the base.
pub open spec fn has_base_reason(rs: Seq<ImmutableReason>) -> bool {
    exists|i: int| 0 <= i < rs.len() && (#[trigger] rs[i]) is BaseAncestor
}

/// The descriptions of the reasons, in order.
pub open spec fn descriptions(rs: Seq<ImmutableReason>) -> Seq<Seq<char>> {
    rs.map_values(|r: ImmutableReason| described(r))
}

/// The report line of an entry.
pub open spec fn report_line(e: ImmutableEntry) -> Seq<char> {
    "  #"@ + dec(e.position as nat) + "  "@ + e.short_sha@ + "  "@ + e.title@ + "  ("@ + join(
        descriptions(e.reasons@),
        ", "@,
    ) + ")\n"@
}

/// The report lines, one after the other.
pub open spec fn report_lines(es: Seq<ImmutableEntry>) -> Seq<char>
    decreases es.len(),
{
    if es.len() == 0 {
        seq![]
    } else {
        report_lines(es.drop_last()) + report_line(es.last())
    }
}

/// `s` without its trailing newlines.
pub open spec fn without_trailing_newlines(s: Seq<char>) -> Seq<char>
    decreases s.len(),
{
    if s.len() > 0 && s.last() == '\n' {
        without_trailing_newlines(s.drop_last())
    } else {
        s
    }
}

impl ImmutabilityReport {
    /// Whether no entry is immutable.
    pub fn is_clear(&self) -> (r: bool)
        ensures
            r == (self.entries@.len() == 0),
    {
        self.entries.len() == 0
    }

    /// The report without the entries reachable from the base: a rebase
    /// skips those commits whatever other reason they have.
    pub fn without_base_ancestors(self) -> (r: Self)
        ensures
            r.entries@ == self.entries@.filter(|e: ImmutableEntry| !has_base_reason(e.reasons@)),
    {
        let ghost all = self.entries@;
        let mut kept: Vec<ImmutableEntry> = Vec::new();
        let mut entries = self.entries;
        let ghost mut done: int = 0;
        while entries.len() > 0
            invariant
                0 <= done <= all.len(),
                entries@ == all.skip(done),
                kept@ == all.take(done).filter(|e: ImmutableEntry| !has_base_reason(e.reasons@)),
            decreases entries.len(),
        {
            let e = entries.remove(0);
            proof {
                assert(all[done] == e);
                let t = all.take(done + 1);
                assert(t.drop_last() =~= all.take(done));
                assert(t.last() == e);
                reveal(Seq::filter);
            }
            let mut on_base = false;
            let mut i: usize = 0;
            while i < e.reasons.len()
                invariant
                    i <= e.reasons@.len(),
                    on_base == exists|j: int| 0 <= j < i && (#[trigger] e.reasons@[j]) is BaseAncestor,
                decreases e.reasons.len() - i,
            {
                match &e.reasons[i] {
                    ImmutableReason::BaseAncestor { .. } => {
                        on_base = true;
                    },
                    _ => {},
                }
                i = i + 1;
            }
            if !on_base {
                kept.push(e);
            }
            proof {
                done = done + 1;
                assert(entries@ =~= all.skip(done));
            }
        }
        assert(all.take(all.len() as int) =~= all);
        ImmutabilityReport { entries: kept }
    }

    /// The report as indented lines for an error message, without the last
    /// newline.
    pub fn format_for_error(&self) -> (r: String)
        ensures
            r@ == without_trailing_newlines(report_lines(self.entries@)),
    {
        let mut out: Vec<char> = Vec::new();
        let mut k: usize = 0;
        while k < self.entries.len()
            invariant
                k <= self.entries@.len(),
                out@ == report_lines(self.entries@.take(k as int)),
            decreases self.entries.len() - k,
        {
            let e = &self.entries[k];
            let mut descs: Vec<String> = Vec::new();
            let mut j: usize = 0;
            while j < e.reasons.len()
                invariant
                    j <= e.reasons@.len(),
                    crate::text::views(descs@) == descriptions(e.reasons@.take(j as int)),
                decreases e.reasons.len() - j,
            {
                let d = e.reasons[j].describe();
                let ghost before = descs@;
                descs.push(d);
                proof {
                    assert(descs@ == before.push(d));
                    assert(crate::text::views(descs@) =~= crate::text::views(before).push(d@));
                    assert(e.reasons@.take(j + 1) =~= e.reasons@.take(j as int).push(e.reasons@[j as int]));
                    assert(descriptions(e.reasons@.take(j + 1)) =~= descriptions(e.reasons@.take(j as int)).push(
                        described(e.reasons@[j as int]),
                    ));
                }
                j = j + 1;
            }
            assert(e.reasons@.take(e.reasons.len() as int) =~= e.reasons@);
            let mut line = String::new();
            push_str(&mut line, "  #");
            push_str(&mut line, dec_string(e.position as u64).as_str());
            push_str(&mut line, "  ");
            push_str(&mut line, e.short_sha.as_str());
            push_str(&mut line, "  ");
            push_str(&mut line, e.title.as_str());
            push_str(&mut line, "  (");
            push_str(&mut line, crate::text::join_strings(&descs, ", ").as_str());
            push_str(&mut line, ")\n");
            let lc = chars_of(line.as_str());
            let ghost before = out@;
            let mut q: usize = 0;
            while q < lc.len()
                invariant
                    q <= lc.len(),
                    out@ == before + lc@.take(q as int),
                decreases lc.len() - q,
            {
                out.push(lc[q]);
                q = q + 1;
                assert(out@ =~= before + lc@.take(q as int));
            }
            proof {
                assert(lc@.take(lc.len() as int) =~= lc@);
                assert(self.entries@.take(k + 1).drop_last() =~= self.entries@.take(k as int));
                assert(line@ == report_line(*e));
            }
            k = k + 1;
        }
        assert(self.entries@.take(self.entries.len() as int) =~= self.entries@);
        let ghost full = out@;
        let mut n = out.len();
        assert(full.take(n as int) =~= full);
        while n > 0 && out[n - 1] == '\n'
            invariant
                n <= out.len(),
                out@ == full,
                without_trailing_newlines(full) == without_trailing_newlines(full.take(n as int)),
            decreases n,
        {
            proof {
                assert(full.take(n as int).drop_last() =~= full.take(n - 1));
            }
            n = n - 1;
        }
        crate::text::string_of_range(&out, 0, n)
    }
}

/// What a rewrite needs to know to judge entries: the base ref compared
/// against, and whether it was found.
#[derive(Debug, Clone)]
pub struct ImmutabilityPolicy {
    /// The ref compared against, e.g. `origin/main` or `main`.
    pub base_ref: String,
    /// Whether `base_ref` names a commit; when it does not, reachability
    /// from the base is never a reason.
    pub has_base: bool,
}

/// The reasons an entry is immutable, given whether it is reachable from
/// the base.
pub open spec fn expected_reasons(p: ImmutabilityPolicy, e: StackEntry, on_base: bool) -> Seq<Reason> {
    let merged: Seq<Reason> = if e.mr_state == Some(PrState::Merged) {
        seq![Reason::Merged(e.mr_number)]
    } else {
        seq![]
    };
    let base: Seq<Reason> = if p.has_base && on_base {
        seq![Reason::OnBase(p.base_ref@)]
    } else {
        seq![]
    };
    merged + base
}

/// Why a commit may not be rewritten: as merged exactly when its request
/// is merged (an open, draft or closed request, or none, is no reason), and
/// as part of the base exactly when the base is known and reaches it. A
/// commit with neither may be rewritten.
pub proof fn lemma_reasons_exact(p: ImmutabilityPolicy, e: StackEntry, on_base: bool)
    ensures
        (exists|i: int| 0 <= i < expected_reasons(p, e, on_base).len() && #[trigger] expected_reasons(p, e, on_base)[i]
            == Reason::Merged(e.mr_number)) == (e.mr_state == Some(PrState::Merged)),
        (exists|i: int| 0 <= i < expected_reasons(p, e, on_base).len() && #[trigger] expected_reasons(p, e, on_base)[i]
            == Reason::OnBase(p.base_ref@)) == (p.has_base && on_base),
        forall|i: int| 0 <= i < expected_reasons(p, e, on_base).len() ==> (#[trigger] expected_reasons(p, e, on_base)[i]
            == Reason::Merged(e.mr_number) || expected_reasons(p, e, on_base)[i] == Reason::OnBase(p.base_ref@)),
        (expected_reasons(p, e, on_base).len() == 0) == (e.mr_state != Some(PrState::Merged) && !(p.has_base
            && on_base)),
{
    let rs = expected_reasons(p, e, on_base);
    if e.mr_state == Some(PrState::Merged) {
        assert(rs[0] == Reason::Merged(e.mr_number));
        if p.has_base && on_base {
            assert(rs[1] == Reason::OnBase(p.base_ref@));
        }
    } else if p.has_base && on_base {
        assert(rs[0] == Reason::OnBase(p.base_ref@));
    }
}

/// An entry of a report, by its content.
pub open spec fn entry_model(e: ImmutableEntry) -> (usize, Seq<char>, Seq<char>, Seq<Reason>) {
    (e.position, e.short_sha@, e.title@, reasons_model(e.reasons@))
}

/// The report over the first `k` entries of a stack: those whose position
/// is among the targets and that have a reason, in stack order.
pub open spec fn report_model(
    p: ImmutabilityPolicy,
    es: Seq<StackEntry>,
    positions: Seq<usize>,
    on_base: Seq<bool>,
    k: int,
) -> Seq<(usize, Seq<char>, Seq<char>, Seq<Reason>)>
    decreases k,
{
    if k <= 0 {
        seq![]
    } else {
        let prev = report_model(p, es, positions, on_base, k - 1);
        let e = es[k - 1];
        let rs = expected_reasons(p, e, on_base[k - 1]);
        if positions.contains(k as usize) && rs.len() > 0 {
            prev.push((e.position, e.short_sha@, e.title@, rs))
        } else {
            prev
        }
    }
}

impl ImmutabilityPolicy {
    /// The ref used for base comparisons.
    pub fn base_ref(&self) -> (r: &str)
        ensures
            r@ == self.base_ref@,
    {
        self.base_ref.as_str()
    }

    /// The reasons `entry` is immutable; `on_base` says whether it is
    /// reachable from the base. None means it may be rewritten.
    pub fn reasons_for(&self, entry: &StackEntry, on_base: bool) -> (r: Vec<ImmutableReason>)
        ensures
            reasons_model(r@) == expected_reasons(*self, *entry, on_base),
    {
        let mut reasons: Vec<ImmutableReason> = Vec::new();
        if entry.mr_state == Some(PrState::Merged) {
            reasons.push(ImmutableReason::MergedPr { number: entry.mr_number });
        }
        if self.has_base && on_base {
            reasons.push(ImmutableReason::BaseAncestor { base_ref: string_of(&chars_of(self.base_ref.as_str())) });
        }
        proof {
            assert(reasons_model(reasons@) =~= expected_reasons(*self, *entry, on_base));
        }
        reasons
    }

    /// The report for the given positions (from 1): each position of the
    /// stack that is listed, once and in order, with its reasons, when it has
    /// any. `on_base` tells, for each entry, whether it is reachable from
    /// the base; positions outside the stack are skipped.
    pub fn check_positions(&self, stack: &Stack, positions: &[usize], on_base: &Vec<bool>) -> (r: ImmutabilityReport)
        requires
            on_base@.len() == stack.entries@.len(),
        ensures
            r.entries@.map_values(|e: ImmutableEntry| entry_model(e)) == report_model(
                *self,
                stack.entries@,
                positions@,
                on_base@,
                stack.entries@.len() as int,
            ),
    {
        let mut out: Vec<ImmutableEntry> = Vec::new();
        let mut k: usize = 0;
        while k < stack.entries.len()
            invariant
                k <= stack.entries@.len(),
                on_base@.len() == stack.entries@.len(),
                out@.map_values(|e: ImmutableEntry| entry_model(e)) == report_model(*self, stack.entries@, positions@, on_base@, k as int),
            decreases stack.entries.len() - k,
        {
            let pos = k + 1;
            let mut listed = false;
            let mut j: usize = 0;
            while j < positions.len()
                invariant
                    j <= positions@.len(),
                    pos == k + 1,
                    listed == positions@.take(j as int).contains(pos),
                decreases positions.len() - j,
            {
                proof {
                    let t = positions@.take(j + 1);
                    assert(t =~= positions@.take(j as int).push(positions@[j as int]));
                    if positions@.take(j as int).contains(pos) {
                        let w = choose|w: int| 0 <= w < j && positions@.take(j as int)[w] == pos;
                        assert(t[w] == pos);
                    }
                    if t.contains(pos) && positions@[j as int] != pos {
                        let w = choose|w: int| 0 <= w < j + 1 && t[w] == pos;
                        assert(positions@.take(j as int)[w] == pos);
                    }
                    if positions@[j as int] == pos {
                        assert(t[j as int] == pos);
                    }
                }
                if positions[j] == pos {
                    listed = true;
                }
                j = j + 1;
            }
            assert(positions@.take(positions.len() as int) =~= positions@);
            let ghost before = out@;
            if listed {
                let e = &stack.entries[k];
                let reasons = self.reasons_for(e, on_base[k]);
                if reasons.len() > 0 {
                    let item = ImmutableEntry {
                        position: e.position,
                        short_sha: string_of(&chars_of(e.short_sha.as_str())),
                        title: string_of(&chars_of(e.title.as_str())),
                        reasons,
                    };
                    out.push(item);
                    proof {
                        assert(out@.map_values(|e: ImmutableEntry| entry_model(e)) =~= before.map_values(
                            |e: ImmutableEntry| entry_model(e),
                        ).push(entry_model(item)));
                    }
                }
            }
            k = k + 1;
        }
        ImmutabilityReport { entries: out }
    }

    /// The report over every entry of the stack.
    pub fn check_all(&self, stack: &Stack, on_base: &Vec<bool>) -> (r: ImmutabilityReport)
        requires
            on_base@.len() == stack.entries@.len(),
        ensures
            r.entries@.map_values(|e: ImmutableEntry| entry_model(e)) == report_model(
                *self,
                stack.entries@,
                stack.entries@.map_values(|e: StackEntry| e.position),
                on_base@,
                stack.entries@.len() as int,
            ),
    {
        let mut positions: Vec<usize> = Vec::new();
        let mut i: usize = 0;
        while i < stack.entries.len()
            invariant
                i <= stack.entries@.len(),
                positions@ == stack.entries@.take(i as int).map_values(|e: StackEntry| e.position),
            decreases stack.entries.len() - i,
        {
            positions.push(stack.entries[i].position);
            i = i + 1;
            assert(positions@ =~= stack.entries@.take(i as int).map_values(|e: StackEntry| e.position));
        }
        assert(stack.entries@.take(stack.entries.len() as int) =~= stack.entries@);
        self.check_positions(stack, positions.as_slice(), on_base)
    }
}

/// The warning printed when a rewrite is forced over immutable entries.
pub open spec fn guard_warning(es: Seq<ImmutableEntry>) -> Seq<char> {
    "overriding immutability check for "@ + dec(es.len()) + " commit(s):\n"@ + without_trailing_newlines(report_lines(es))
}

/// What a rewrite does about a report: go ahead when it is clear, go ahead
/// with a warning (given back as text) when forced, and refuse otherwise.
pub fn guard(report: ImmutabilityReport, force: bool) -> (r: Result<Option<String>, GgError>)
    ensures
        report.entries@.len() == 0 ==> r == Ok::<Option<String>, GgError>(None),
        report.entries@.len() > 0 && force ==> (r matches Ok(Some(w)) && w@ == guard_warning(report.entries@)),
        report.entries@.len() > 0 && !force ==> (r matches Err(GgError::ImmutableTargets(m)) && m@
            == without_trailing_newlines(report_lines(report.entries@))),
{
    if report.is_clear() {
        return Ok(None);
    }
    let text = report.format_for_error();
    if force {
        let mut w = String::new();
        push_str(&mut w, "overriding immutability check for ");
        push_str(&mut w, dec_string(report.entries.len() as u64).as_str());
        push_str(&mut w, " commit(s):\n");
        push_str(&mut w, text.as_str());
        return Ok(Some(w));
    }
    Err(GgError::ImmutableTargets(text))
}

} // verus!
