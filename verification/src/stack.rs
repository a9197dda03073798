//! The stack model: a linear run of commits on a branch, each identified by
//! a GG-ID trailer that survives rebases.
use vstd::prelude::*;
use crate::config::{mr_for, Config};
use crate::error::GgError;
use crate::gh::{CiStatus, PrInfo, PrState};
use crate::git::{
    entry_branch_parts, format_entry_branch, format_stack_branch, gg_id_from_message, gg_parent_from_message,
    normalize_gg_id, normalized_gg_id, opt_view, parse_entry_branch, parse_stack_branch, stack_branch_parts,
    trailer_value_from,
};
use crate::text::{
    chars_of, contains, copy_str, dec, dec_string, lines, push_str, starts_with, starts_with_exec, str_eq, string_of, views,
};

verus! {

/// One commit of a stack.
#[derive(Debug, Clone)]
pub struct StackEntry {
    /// The commit id, as 40 hexadecimal digits.
    pub oid: String,
    /// Short SHA for display.
    pub short_sha: String,
    /// Commit title (first line).
    pub title: String,
    /// GG-ID (stable identifier).
    pub gg_id: Option<String>,
    /// GG-ID of the previous entry.
    pub gg_parent: Option<String>,
    /// Pull request number, if synced.
    pub mr_number: Option<u64>,
    /// Pull request state, if known.
    pub mr_state: Option<PrState>,
    pub approved: bool,
    pub changes_requested: bool,
    pub mergeable: bool,
    pub ci_status: Option<CiStatus>,
    /// Position in the stack, from 1.
    pub position: usize,
    /// Whether the merge request is in a merge train (GitLab).
    pub in_merge_train: bool,
    pub merge_train_position: Option<usize>,
}

/// The status word shown for an entry.
pub open spec fn status_text(e: StackEntry) -> Seq<char> {
    match e.mr_state {
        Some(PrState::Merged) => "merged"@,
        Some(PrState::Closed) => "closed"@,
        Some(PrState::Draft) => "draft"@,
        Some(PrState::Open) => if e.approved { "approved"@ } else { "open"@ },
        None => if e.mr_number is Some { seq![] } else { "not pushed"@ },
    }
}

/// Each pull request state has its own word in the listing: a word names
/// exactly one state (an open request reads "approved" or "open" by its
/// approval), and an entry without a request reads "not pushed".
pub proof fn lemma_status_words(e: StackEntry)
    ensures
        (status_text(e) == "merged"@) == (e.mr_state == Some(PrState::Merged)),
        (status_text(e) == "closed"@) == (e.mr_state == Some(PrState::Closed)),
        (status_text(e) == "draft"@) == (e.mr_state == Some(PrState::Draft)),
        (status_text(e) == "approved"@) == (e.mr_state == Some(PrState::Open) && e.approved),
        (status_text(e) == "open"@) == (e.mr_state == Some(PrState::Open) && !e.approved),
        (status_text(e) == "not pushed"@) == (e.mr_state is None && e.mr_number is None),
{
    reveal_strlit("merged");
    reveal_strlit("closed");
    reveal_strlit("draft");
    reveal_strlit("approved");
    reveal_strlit("open");
    reveal_strlit("not pushed");
    assert("merged"@.len() == 6 && "closed"@.len() == 6 && "draft"@.len() == 5 && "approved"@.len() == 8);
    assert("open"@.len() == 4 && "not pushed"@.len() == 10);
    assert("merged"@[0] != "closed"@[0]);
    let empty = Seq::<char>::empty();
    assert(empty != "merged"@ && empty != "closed"@ && empty != "draft"@ && empty != "not pushed"@);
    assert(empty != "approved"@ && empty != "open"@);
}

impl StackEntry {
    /// Whether the entry has a pull request.
    pub fn is_synced(&self) -> (r: bool)
        ensures
            r == self.mr_number is Some,
    {
        self.mr_number.is_some()
    }

    /// Whether the entry lacks a GG-ID.
    pub fn needs_gg_id(&self) -> (r: bool)
        ensures
            r == self.gg_id is None,
    {
        self.gg_id.is_none()
    }

    /// The status word: the pull request state (`approved` for an approved
    /// open one), nothing when a request exists whose state is unknown, and
    /// `not pushed` without a request.
    pub fn status_display(&self) -> (r: String)
        ensures
            r@ == status_text(*self),
    {
        let s: &str = match self.mr_state {
            Some(PrState::Merged) => "merged",
            Some(PrState::Closed) => "closed",
            Some(PrState::Draft) => "draft",
            Some(PrState::Open) => if self.approved {
                "approved"
            } else {
                "open"
            },
            None => if self.mr_number.is_some() {
                ""
            } else {
                "not pushed"
            },
        };
        proof {
            reveal_strlit("");
        }
        string_of(&chars_of(s))
    }
}

/// A complete stack.
#[derive(Debug)]
pub struct Stack {
    /// Stack name (from the branch).
    pub name: String,
    /// Username (from the branch).
    pub username: String,
    /// Base branch.
    pub base: String,
    /// The commits, from the base up to the head.
    pub entries: Vec<StackEntry>,
    /// Index of the entry HEAD is on, if HEAD is detached inside the stack.
    pub current_position: Option<usize>,
}

/// A stack branch whose prefix differs from the configured username.
#[derive(Debug, Clone, PartialEq, Eq)]
pub struct StackPrefixMismatch {
    pub current_branch: String,
    pub actual_prefix: String,
    pub expected_prefix: String,
    pub stack_name: String,
    pub suggested_branch: String,
}

/// The warning about a mismatched prefix.
pub open spec fn mismatch_warning(m: StackPrefixMismatch) -> Seq<char> {
    "current branch '"@ + m.current_branch@ + "' does not use the configured prefix '"@ + m.expected_prefix@
        + "/'. Some stack discovery, listing, and saved PR/MR mappings may be inaccurate. Consider renaming it: git branch -m "@
        + m.suggested_branch@
}

impl StackPrefixMismatch {
    /// A warning that names the configured prefix and suggests a rename.
    pub fn warning_message(&self) -> (r: String)
        ensures
            r@ == mismatch_warning(*self),
    {
        let mut s = String::new();
        push_str(&mut s, "current branch '");
        push_str(&mut s, self.current_branch.as_str());
        push_str(&mut s, "' does not use the configured prefix '");
        push_str(&mut s, self.expected_prefix.as_str());
        push_str(&mut s, "/'. Some stack discovery, listing, and saved PR/MR mappings may be inaccurate. Consider renaming it: git branch -m ");
        push_str(&mut s, self.suggested_branch.as_str());
        s
    }
}

/// The index of the first entry, from `i` on, whose GG-ID is `id`.
pub open spec fn first_with_gg_id(es: Seq<StackEntry>, id: Seq<char>, i: int) -> Option<int>
    decreases es.len() - i,
{
    if i < 0 || i >= es.len() {
        None
    } else if opt_view(es[i].gg_id) == Some(id) {
        Some(i)
    } else {
        first_with_gg_id(es, id, i + 1)
    }
}

/// The index of the first entry, from `i` on, whose short or full SHA
/// begins with `t`.
pub open spec fn first_with_sha_prefix(es: Seq<StackEntry>, t: Seq<char>, i: int) -> Option<int>
    decreases es.len() - i,
{
    if i < 0 || i >= es.len() {
        None
    } else if starts_with(es[i].short_sha@, t) || starts_with(es[i].oid@, t) {
        Some(i)
    } else {
        first_with_sha_prefix(es, t, i + 1)
    }
}

/// The value of a string of decimal digits.
pub open spec fn digits_value(d: Seq<char>) -> nat
    decreases d.len(),
{
    if d.len() == 0 {
        0
    } else {
        digits_value(d.drop_last()) * 10 + ((d.last() as u32) - ('0' as u32)) as nat
    }
}

/// Every character is an ASCII digit.
pub open spec fn all_digits(d: Seq<char>) -> bool {
    forall|i: int| 0 <= i < d.len() ==> '0' <= #[trigger] d[i] && d[i] <= '9'
}

/// What `str::parse::<usize>` gives: an optional `+`, then at least one
/// digit, with a value that fits.
pub open spec fn parsed_usize(s: Seq<char>) -> Option<nat> {
    let d = if s.len() > 0 && s[0] == '+' { s.skip(1) } else { s };
    if d.len() > 0 && all_digits(d) && digits_value(d) <= usize::MAX {
        Some(digits_value(d))
    } else {
        None
    }
}

pub proof fn lemma_digits_value_mono(d: Seq<char>, i: int, j: int)
    requires
        0 <= i <= j <= d.len(),
        all_digits(d),
    ensures
        digits_value(d.take(i)) <= digits_value(d.take(j)),
    decreases j - i,
{
    if i < j {
        assert(d.take(j).drop_last() =~= d.take(j - 1));
        lemma_digits_value_mono(d, i, j - 1);
    }
}

/// `str::parse::<usize>`.
pub fn parse_usize(s: &str) -> (r: Option<usize>)
    ensures
        match r {
            Some(n) => parsed_usize(s@) == Some(n as nat),
            None => parsed_usize(s@) is None,
        },
{
    let v = chars_of(s);
    let start: usize = if v.len() > 0 && v[0] == '+' { 1 } else { 0 };
    let ghost d = if s@.len() > 0 && s@[0] == '+' { s@.skip(1) } else { s@ };
    assert(d =~= v@.skip(start as int));
    if start >= v.len() {
        return None;
    }
    let mut acc: usize = 0;
    let mut i: usize = start;
    assert(d.take(0) =~= Seq::<char>::empty());
    while i < v.len()
        invariant
            start <= i <= v.len(),
            start < v.len(),
            v@ == s@,
            d == (if s@.len() > 0 && s@[0] == '+' { s@.skip(1) } else { s@ }),
            d == v@.skip(start as int),
            all_digits(d.take(i - start)),
            acc == digits_value(d.take(i - start)),
        decreases v.len() - i,
    {
        let c = v[i];
        proof {
            assert(d.take(i - start + 1).drop_last() =~= d.take(i - start));
            assert(d.take(i - start + 1).last() == c);
        }
        proof {
            assert(d[i - start] == v@[i as int]);
        }
        if c < '0' || c > '9' {
            proof {
                assert(d[i - start] == c);
                assert(!all_digits(d));
            }
            return None;
        }
        let digit: usize = ((c as u32) - ('0' as u32)) as usize;
        proof {
            assert(all_digits(d.take(i - start + 1)));
            assert(digits_value(d.take(i - start + 1)) == acc * 10 + digit);
        }
        match acc.checked_mul(10) {
            Some(m) => match m.checked_add(digit) {
                Some(n) => {
                    acc = n;
                },
                None => {
                    proof {
                        assert(all_digits(d.take(i - start + 1)));
                        if all_digits(d) {
                            assert(d.take(d.len() as int) =~= d);
                            lemma_digits_value_mono(d, i - start + 1, d.len() as int);
                        }
                    }
                    return None;
                },
            },
            None => {
                proof {
                    assert(all_digits(d.take(i - start + 1)));
                    if all_digits(d) {
                        assert(d.take(d.len() as int) =~= d);
                        lemma_digits_value_mono(d, i - start + 1, d.len() as int);
                    }
                }
                return None;
            },
        }
        i = i + 1;
    }
    assert(d.take(i - start) =~= d);
    Some(acc)
}

/// What `str::parse::<u64>` gives: an optional `+`, then at least one
/// digit, with a value that fits.
pub open spec fn parsed_u64(s: Seq<char>) -> Option<nat> {
    let d = if s.len() > 0 && s[0] == '+' { s.skip(1) } else { s };
    if d.len() > 0 && all_digits(d) && digits_value(d) <= u64::MAX {
        Some(digits_value(d))
    } else {
        None
    }
}

/// `str::parse::<u64>`.
pub fn parse_u64(s: &str) -> (r: Option<u64>)
    ensures
        match r {
            Some(n) => parsed_u64(s@) == Some(n as nat),
            None => parsed_u64(s@) is None,
        },
{
    let v = chars_of(s);
    let start: usize = if v.len() > 0 && v[0] == '+' { 1 } else { 0 };
    let ghost d = if s@.len() > 0 && s@[0] == '+' { s@.skip(1) } else { s@ };
    assert(d =~= v@.skip(start as int));
    if start >= v.len() {
        return None;
    }
    let mut acc: u64 = 0;
    let mut i: usize = start;
    assert(d.take(0) =~= Seq::<char>::empty());
    while i < v.len()
        invariant
            start <= i <= v.len(),
            start < v.len(),
            v@ == s@,
            d == (if s@.len() > 0 && s@[0] == '+' { s@.skip(1) } else { s@ }),
            d == v@.skip(start as int),
            all_digits(d.take(i - start)),
            acc == digits_value(d.take(i - start)),
        decreases v.len() - i,
    {
        let c = v[i];
        proof {
            assert(d.take(i - start + 1).drop_last() =~= d.take(i - start));
            assert(d.take(i - start + 1).last() == c);
        }
        proof {
            assert(d[i - start] == v@[i as int]);
        }
        if c < '0' || c > '9' {
            proof {
                assert(d[i - start] == c);
                assert(!all_digits(d));
            }
            return None;
        }
        let digit: u64 = ((c as u32) - ('0' as u32)) as u64;
        proof {
            assert(all_digits(d.take(i - start + 1)));
            assert(digits_value(d.take(i - start + 1)) == acc * 10 + digit);
        }
        match acc.checked_mul(10) {
            Some(m) => match m.checked_add(digit) {
                Some(n) => {
                    acc = n;
                },
                None => {
                    proof {
                        assert(all_digits(d.take(i - start + 1)));
                        if all_digits(d) {
                            assert(d.take(d.len() as int) =~= d);
                            lemma_digits_value_mono(d, i - start + 1, d.len() as int);
                        }
                    }
                    return None;
                },
            },
            None => {
                proof {
                    assert(all_digits(d.take(i - start + 1)));
                    if all_digits(d) {
                        assert(d.take(d.len() as int) =~= d);
                        lemma_digits_value_mono(d, i - start + 1, d.len() as int);
                    }
                }
                return None;
            },
        }
        i = i + 1;
    }
    assert(d.take(i - start) =~= d);
    Some(acc)
}

/// Where a target names a position: a number in range, else the first
/// entry with that GG-ID, else the first whose SHA begins with it; the error
/// message otherwise.
pub open spec fn resolved_target(es: Seq<StackEntry>, t: Seq<char>) -> Result<nat, Seq<char>> {
    match parsed_usize(t) {
        Some(p) => if p == 0 || p > es.len() {
            Err("Position "@ + dec(p) + " is out of range (1-"@ + dec(es.len()) + ")"@)
        } else {
            Ok(p)
        },
        None => match first_with_gg_id(es, t, 0) {
            Some(i) => Ok(es[i].position as nat),
            None => match first_with_sha_prefix(es, t, 0) {
                Some(i) => Ok(es[i].position as nat),
                None => Err("Could not find commit matching '"@ + t + "' in stack"@),
            },
        },
    }
}

/// The message for a branch that is not a stack branch, with a rename hint
/// when a prefix is configured and the branch has no `/`.
pub open spec fn not_stack_branch_message(branch: Seq<char>, prefix: Option<Seq<char>>) -> Seq<char> {
    match prefix {
        Some(p) => if p.len() > 0 && !contains(branch, seq!['/']) {
            let suggested = p + seq!['/'] + branch;
            "Current branch '"@ + branch + "' is not a stack branch. Expected format: '<prefix>/<stack-name>', for example '"@
                + suggested + "'. Rename it with: git branch -m "@ + suggested
        } else {
            "Current branch '"@ + branch
                + "' is not a stack branch. Expected format: '<prefix>/<stack-name>'. Use `gg co <stack-name>` to create or switch to a stack."@
        },
        None => "Current branch '"@ + branch
            + "' is not a stack branch. Expected format: '<prefix>/<stack-name>'. Use `gg co <stack-name>` to create or switch to a stack."@,
    }
}

/// The error text for a branch that is not a stack branch.
pub fn format_not_stack_branch_error(branch_name: &str, config: &Config) -> (r: String)
    ensures
        r@ == not_stack_branch_message(branch_name@, opt_view(config.defaults.branch_username)),
{
    let b = chars_of(branch_name);
    let slash = chars_of("/");
    proof {
        reveal_strlit("/");
        assert(slash@ =~= seq!['/']);
    }
    let mut s = String::new();
    match &config.defaults.branch_username {
        Some(p) => {
            let pv = chars_of(p.as_str());
            if pv.len() > 0 && !crate::text::contains_exec(&b, &slash) {
                let suggested = format_stack_branch(p.as_str(), branch_name);
                push_str(&mut s, "Current branch '");
                push_str(&mut s, branch_name);
                push_str(&mut s, "' is not a stack branch. Expected format: '<prefix>/<stack-name>', for example '");
                push_str(&mut s, suggested.as_str());
                push_str(&mut s, "'. Rename it with: git branch -m ");
                push_str(&mut s, suggested.as_str());
                return s;
            }
        },
        None => {},
    }
    push_str(&mut s, "Current branch '");
    push_str(&mut s, branch_name);
    push_str(
        &mut s,
        "' is not a stack branch. Expected format: '<prefix>/<stack-name>'. Use `gg co <stack-name>` to create or switch to a stack.",
    );
    s
}

/// Number of synced entries.
pub open spec fn synced_in(es: Seq<StackEntry>) -> nat
    decreases es.len(),
{
    if es.len() == 0 {
        0
    } else {
        synced_in(es.drop_last()) + if es.last().mr_number is Some { 1nat } else { 0nat }
    }
}

impl Stack {
    /// The mismatch between the branch prefix and the configured username,
    /// when one is configured, non-empty and different.
    pub fn prefix_mismatch(&self, config: &Config) -> (r: Option<StackPrefixMismatch>)
        ensures
            match r {
                Some(m) => {
                    &&& config.defaults.branch_username matches Some(p) && p@.len() > 0 && p@ != self.username@
                    &&& m.current_branch@ == self.username@ + seq!['/'] + self.name@
                    &&& m.actual_prefix@ == self.username@
                    &&& m.expected_prefix@ == config.defaults.branch_username->Some_0@
                    &&& m.stack_name@ == self.name@
                    &&& m.suggested_branch@ == config.defaults.branch_username->Some_0@ + seq!['/'] + self.name@
                },
                None => match config.defaults.branch_username {
                    Some(p) => p@.len() == 0 || p@ == self.username@,
                    None => true,
                },
            },
    {
        let expected = match &config.defaults.branch_username {
            Some(p) => p,
            None => return None,
        };
        if chars_of(expected.as_str()).len() == 0 || str_eq(expected.as_str(), self.username.as_str()) {
            return None;
        }
        Some(StackPrefixMismatch {
            current_branch: self.branch_name(),
            actual_prefix: string_of(&chars_of(self.username.as_str())),
            expected_prefix: string_of(&chars_of(expected.as_str())),
            stack_name: string_of(&chars_of(self.name.as_str())),
            suggested_branch: format_stack_branch(expected.as_str(), self.name.as_str()),
        })
    }

    /// Whether some entry lacks a GG-ID.
    pub fn has_missing_gg_ids(&self) -> (r: bool)
        ensures
            r == exists|i: int| 0 <= i < self.entries@.len() && (#[trigger] self.entries@[i]).gg_id is None,
    {
        let mut i: usize = 0;
        while i < self.entries.len()
            invariant
                i <= self.entries@.len(),
                forall|j: int| 0 <= j < i ==> (#[trigger] self.entries@[j]).gg_id is Some,
            decreases self.entries.len() - i,
        {
            if self.entries[i].needs_gg_id() {
                return true;
            }
            i = i + 1;
        }
        false
    }

    /// The entries without a GG-ID, in order.
    pub fn entries_needing_gg_ids(&self) -> (r: Vec<&StackEntry>)
        ensures
            r@.map_values(|e: &StackEntry| *e) == self.entries@.filter(|e: StackEntry| e.gg_id is None),
    {
        let mut r: Vec<&StackEntry> = Vec::new();
        let mut i: usize = 0;
        while i < self.entries.len()
            invariant
                i <= self.entries@.len(),
                r@.map_values(|e: &StackEntry| *e) == self.entries@.take(i as int).filter(|e: StackEntry| e.gg_id is None),
            decreases self.entries.len() - i,
        {
            let ghost before = r@;
            let e = &self.entries[i];
            proof {
                let t = self.entries@.take(i + 1);
                assert(t.drop_last() =~= self.entries@.take(i as int));
                reveal(Seq::filter);
            }
            if e.needs_gg_id() {
                r.push(e);
                assert(r@.map_values(|e: &StackEntry| *e) =~= before.map_values(|e: &StackEntry| *e).push(*e));
            }
            i = i + 1;
        }
        assert(self.entries@.take(self.entries.len() as int) =~= self.entries@);
        r
    }

    /// The GG-ID the entry at a position (from 1) should name as its parent:
    /// that of the entry below it.
    pub fn expected_parent_gg_id(&self, position: usize) -> (r: Option<&str>)
        ensures
            match r {
                Some(p) => 2 <= position <= self.entries@.len() && opt_view(self.entries@[position - 2].gg_id) == Some(p@),
                None => position <= 1 || position > self.entries@.len() || self.entries@[position - 2].gg_id is None,
            },
    {
        if position <= 1 || position > self.entries.len() {
            None
        } else {
            match &self.entries[position - 2].gg_id {
                Some(g) => Some(g.as_str()),
                None => None,
            }
        }
    }

    /// The entry at a position counted from 1.
    pub fn get_entry_by_position(&self, pos: usize) -> (r: Option<&StackEntry>)
        ensures
            match r {
                Some(e) => 1 <= pos <= self.entries@.len() && *e == self.entries@[pos - 1],
                None => pos == 0 || pos > self.entries@.len(),
            },
    {
        if pos == 0 || pos > self.entries.len() {
            None
        } else {
            Some(&self.entries[pos - 1])
        }
    }

    /// The first entry with the given GG-ID.
    pub fn get_entry_by_gg_id(&self, gg_id: &str) -> (r: Option<&StackEntry>)
        ensures
            match first_with_gg_id(self.entries@, gg_id@, 0) {
                Some(i) => r == Some(&self.entries@[i]),
                None => r is None,
            },
    {
        let mut i: usize = 0;
        while i < self.entries.len()
            invariant
                i <= self.entries@.len(),
                first_with_gg_id(self.entries@, gg_id@, 0) == first_with_gg_id(self.entries@, gg_id@, i as int),
            decreases self.entries.len() - i,
        {
            let hit = match &self.entries[i].gg_id {
                Some(g) => str_eq(g.as_str(), gg_id),
                None => false,
            };
            if hit {
                return Some(&self.entries[i]);
            }
            i = i + 1;
        }
        None
    }

    /// The bottom entry.
    pub fn first(&self) -> (r: Option<&StackEntry>)
        ensures
            match r {
                Some(e) => self.entries@.len() > 0 && *e == self.entries@[0],
                None => self.entries@.len() == 0,
            },
    {
        if self.entries.len() == 0 {
            None
        } else {
            Some(&self.entries[0])
        }
    }

    /// The top entry (the stack head).
    pub fn last(&self) -> (r: Option<&StackEntry>)
        ensures
            match r {
                Some(e) => self.entries@.len() > 0 && *e == self.entries@.last(),
                None => self.entries@.len() == 0,
            },
    {
        if self.entries.len() == 0 {
            None
        } else {
            Some(&self.entries[self.entries.len() - 1])
        }
    }

    /// The entry HEAD is on.
    pub fn current(&self) -> (r: Option<&StackEntry>)
        ensures
            match r {
                Some(e) => self.current_position matches Some(p) && p < self.entries@.len() && *e == self.entries@[p as int],
                None => match self.current_position {
                    Some(p) => p >= self.entries@.len(),
                    None => true,
                },
            },
    {
        match self.current_position {
            Some(p) => if p < self.entries.len() {
                Some(&self.entries[p])
            } else {
                None
            },
            None => None,
        }
    }

    /// The entry below the current one (below the head when HEAD is on the
    /// branch).
    pub fn prev(&self) -> (r: Option<&StackEntry>)
        ensures
            ({
                let cur: int = match self.current_position {
                    Some(p) => p as int,
                    None => if self.entries@.len() == 0 { 0 } else { self.entries@.len() - 1 },
                };
                match r {
                    Some(e) => 0 < cur && cur - 1 < self.entries@.len() && *e == self.entries@[cur - 1],
                    None => cur == 0 || cur - 1 >= self.entries@.len(),
                }
            }),
    {
        let n = self.entries.len();
        let current = match self.current_position {
            Some(p) => p,
            None => if n == 0 { 0 } else { n - 1 },
        };
        if current > 0 && current - 1 < n {
            Some(&self.entries[current - 1])
        } else {
            None
        }
    }

    /// The entry above the current one (none when HEAD is on the branch).
    pub fn next(&self) -> (r: Option<&StackEntry>)
        requires
            self.entries@.len() > 0,
        ensures
            ({
                let cur: int = match self.current_position {
                    Some(p) => p as int,
                    None => self.entries@.len() as int,
                };
                match r {
                    Some(e) => cur < self.entries@.len() - 1 && *e == self.entries@[cur + 1],
                    None => cur >= self.entries@.len() - 1,
                }
            }),
    {
        let n = self.entries.len();
        let current = match self.current_position {
            Some(p) => p,
            None => n,
        };
        if current < n - 1 {
            Some(&self.entries[current + 1])
        } else {
            None
        }
    }

    /// Number of entries.
    pub fn len(&self) -> (r: usize)
        ensures
            r == self.entries@.len(),
    {
        self.entries.len()
    }

    /// Whether the stack has no entries.
    pub fn is_empty(&self) -> (r: bool)
        ensures
            r == (self.entries@.len() == 0),
    {
        self.entries.len() == 0
    }

    /// Number of entries with a pull request.
    pub fn synced_count(&self) -> (r: usize)
        ensures
            r == synced_in(self.entries@),
    {
        let mut n: usize = 0;
        let mut i: usize = 0;
        while i < self.entries.len()
            invariant
                i <= self.entries@.len(),
                n == synced_in(self.entries@.take(i as int)),
                n <= i,
            decreases self.entries.len() - i,
        {
            proof {
                assert(self.entries@.take(i + 1).drop_last() =~= self.entries@.take(i as int));
            }
            if self.entries[i].is_synced() {
                n = n + 1;
            }
            i = i + 1;
        }
        assert(self.entries@.take(self.entries.len() as int) =~= self.entries@);
        n
    }

    /// The stack branch, `username/name`.
    pub fn branch_name(&self) -> (r: String)
        ensures
            r@ == self.username@ + seq!['/'] + self.name@,
    {
        format_stack_branch(self.username.as_str(), self.name.as_str())
    }

    /// The branch of an entry, named after its normalized GG-ID; none when
    /// it has no GG-ID or the GG-ID is malformed.
    pub fn entry_branch_name(&self, entry: &StackEntry) -> (r: Option<String>)
        ensures
            match r {
                Some(b) => entry.gg_id matches Some(g) && normalized_gg_id(g@) matches Some(n)
                    && b@ == self.username@ + seq!['/'] + self.name@ + seq!['-', '-'] + n,
                None => match entry.gg_id {
                    Some(g) => normalized_gg_id(g@) is None,
                    None => true,
                },
            },
    {
        match &entry.gg_id {
            Some(g) => match normalize_gg_id(g.as_str()) {
                Some(n) => Some(format_entry_branch(self.username.as_str(), self.name.as_str(), n.as_str())),
                None => None,
            },
            None => None,
        }
    }
}

proof fn lemma_first_gg_id_at(es: Seq<StackEntry>, t: Seq<char>, i: int, k: int)
    requires
        0 <= i <= k < es.len(),
        opt_view(es[k].gg_id) == Some(t),
        forall|j: int| i <= j < k ==> opt_view(#[trigger] es[j].gg_id) != Some(t),
    ensures
        first_with_gg_id(es, t, i) == Some(k),
    decreases k - i,
{
    if i < k {
        lemma_first_gg_id_at(es, t, i + 1, k);
    }
}

proof fn lemma_no_gg_id(es: Seq<StackEntry>, t: Seq<char>, i: int)
    requires
        0 <= i,
        forall|j: int| i <= j < es.len() ==> opt_view(#[trigger] es[j].gg_id) != Some(t),
    ensures
        first_with_gg_id(es, t, i) is None,
    decreases es.len() - i,
{
    if i < es.len() {
        lemma_no_gg_id(es, t, i + 1);
    }
}

proof fn lemma_first_sha_at(es: Seq<StackEntry>, t: Seq<char>, i: int, k: int)
    requires
        0 <= i <= k < es.len(),
        starts_with(es[k].short_sha@, t) || starts_with(es[k].oid@, t),
        forall|j: int| i <= j < k ==> !starts_with(#[trigger] es[j].short_sha@, t) && !starts_with(es[j].oid@, t),
    ensures
        first_with_sha_prefix(es, t, i) == Some(k),
    decreases k - i,
{
    if i < k {
        lemma_first_sha_at(es, t, i + 1, k);
    }
}

proof fn lemma_no_sha(es: Seq<StackEntry>, t: Seq<char>, i: int)
    requires
        0 <= i,
        forall|j: int| i <= j < es.len() ==> !starts_with(#[trigger] es[j].short_sha@, t) && !starts_with(es[j].oid@, t),
    ensures
        first_with_sha_prefix(es, t, i) is None,
    decreases es.len() - i,
{
    if i < es.len() {
        lemma_no_sha(es, t, i + 1);
    }
}

/// A number names the position itself when it is one of the stack's, and is
/// refused otherwise.
pub proof fn lemma_target_by_position(es: Seq<StackEntry>, t: Seq<char>, p: nat)
    requires
        parsed_usize(t) == Some(p),
    ensures
        1 <= p <= es.len() ==> resolved_target(es, t) == Ok::<nat, Seq<char>>(p),
        !(1 <= p <= es.len()) ==> resolved_target(es, t) is Err,
{
}

/// A target that is no number and is some entry's GG-ID names the first
/// entry with that GG-ID, whatever the SHAs say.
pub proof fn lemma_target_by_gg_id(es: Seq<StackEntry>, t: Seq<char>, k: int)
    requires
        parsed_usize(t) is None,
        0 <= k < es.len(),
        opt_view(es[k].gg_id) == Some(t),
        forall|j: int| 0 <= j < k ==> opt_view(#[trigger] es[j].gg_id) != Some(t),
    ensures
        resolved_target(es, t) == Ok::<nat, Seq<char>>(es[k].position as nat),
{
    lemma_first_gg_id_at(es, t, 0, k);
}

/// A target that is no number and no entry's GG-ID names the first entry
/// whose short SHA or full commit id begins with it; a full commit id (or
/// any prefix of one) finds its entry even where the short SHA is shorter.
pub proof fn lemma_target_by_sha(es: Seq<StackEntry>, t: Seq<char>, k: int)
    requires
        parsed_usize(t) is None,
        forall|j: int| 0 <= j < es.len() ==> opt_view(#[trigger] es[j].gg_id) != Some(t),
        0 <= k < es.len(),
        starts_with(es[k].oid@, t) || starts_with(es[k].short_sha@, t),
        forall|j: int| 0 <= j < k ==> !starts_with(#[trigger] es[j].short_sha@, t) && !starts_with(es[j].oid@, t),
    ensures
        resolved_target(es, t) == Ok::<nat, Seq<char>>(es[k].position as nat),
{
    lemma_no_gg_id(es, t, 0);
    lemma_first_sha_at(es, t, 0, k);
}

/// A target that is no number, no GG-ID and begins no entry's short SHA or
/// commit id is refused.
pub proof fn lemma_target_not_found(es: Seq<StackEntry>, t: Seq<char>)
    requires
        parsed_usize(t) is None,
        forall|j: int| 0 <= j < es.len() ==> opt_view(#[trigger] es[j].gg_id) != Some(t),
        forall|j: int| 0 <= j < es.len() ==> !starts_with(#[trigger] es[j].short_sha@, t) && !starts_with(es[j].oid@, t),
    ensures
        resolved_target(es, t) is Err,
{
    lemma_no_gg_id(es, t, 0);
    lemma_no_sha(es, t, 0);
}

/// The position a target (a position, a GG-ID or a SHA prefix) names.
pub fn resolve_target(stack: &Stack, target: &str) -> (r: Result<usize, GgError>)
    ensures
        match r {
            Ok(p) => resolved_target(stack.entries@, target@) == Ok::<nat, Seq<char>>(p as nat),
            Err(GgError::Other(m)) => resolved_target(stack.entries@, target@) == Err::<nat, Seq<char>>(m@),
            Err(_) => false,
        },
{
    match parse_usize(target) {
        Some(pos) => {
            if pos == 0 || pos > stack.len() {
                let mut m = String::new();
                push_str(&mut m, "Position ");
                push_str(&mut m, dec_string(pos as u64).as_str());
                push_str(&mut m, " is out of range (1-");
                push_str(&mut m, dec_string(stack.len() as u64).as_str());
                push_str(&mut m, ")");
                return Err(GgError::Other(m));
            }
            return Ok(pos);
        },
        None => {},
    }
    match stack.get_entry_by_gg_id(target) {
        Some(e) => {
            return Ok(e.position);
        },
        None => {},
    }
    let t = chars_of(target);
    let es = &stack.entries;
    let mut i: usize = 0;
    while i < es.len()
        invariant
            i <= es@.len(),
            *es == stack.entries,
            t@ == target@,
            parsed_usize(target@) is None,
            first_with_gg_id(es@, target@, 0) is None,
            first_with_sha_prefix(es@, target@, 0) == first_with_sha_prefix(es@, target@, i as int),
        decreases es.len() - i,
    {
        let a = chars_of(es[i].short_sha.as_str());
        let b = chars_of(es[i].oid.as_str());
        if starts_with_exec(&a, &t) || starts_with_exec(&b, &t) {
            return Ok(es[i].position);
        }
        i = i + 1;
    }
    let mut m = String::new();
    push_str(&mut m, "Could not find commit matching '");
    push_str(&mut m, target);
    push_str(&mut m, "' in stack");
    Err(GgError::Other(m))
}

/// Whether the detached commit was added on top of the navigated one or
/// rewrites it in place.
#[derive(Debug, Clone, Copy, PartialEq, Eq, Structural)]
pub enum UnintegratedKind {
    Inserted,
    Amended,
}

/// The stack a local branch names for `user`: a stack branch
/// `user/<stack>`, or else an entry branch `user/<stack>--<id>`.
pub open spec fn stack_named_by(branch: Seq<char>, user: Seq<char>) -> Option<Seq<char>> {
    match stack_branch_parts(branch) {
        Some((u, st)) => if u == user {
            Some(st)
        } else {
            None
        },
        None => match entry_branch_parts(branch) {
            Some((u, st, _e)) => if u == user {
                Some(st)
            } else {
                None
            },
            None => None,
        },
    }
}

/// The stack names gathered from `acc` on by scanning branches in order:
/// each new name is appended once.
pub open spec fn stacks_after(acc: Seq<Seq<char>>, branches: Seq<Seq<char>>, user: Seq<char>) -> Seq<Seq<char>>
    decreases branches.len(),
{
    if branches.len() == 0 {
        acc
    } else {
        let prev = stacks_after(acc, branches.drop_last(), user);
        match stack_named_by(branches.last(), user) {
            Some(st) => if prev.contains(st) {
                prev
            } else {
                prev.push(st)
            },
            None => prev,
        }
    }
}

fn contains_name(v: &Vec<String>, s: &str) -> (b: bool)
    ensures
        b == views(v@).contains(s@),
{
    let mut i: usize = 0;
    while i < v.len()
        invariant
            i <= v@.len(),
            forall|k: int| 0 <= k < i ==> v@[k]@ != s@,
        decreases v.len() - i,
    {
        if str_eq(v[i].as_str(), s) {
            assert(views(v@)[i as int] == s@);
            return true;
        }
        i = i + 1;
    }
    proof {
        if views(v@).contains(s@) {
            let k = choose|k: int| 0 <= k < views(v@).len() && views(v@)[k] == s@;
            assert(v@[k]@ == s@);
        }
    }
    false
}

/// Every stack of `username`: the configured ones first, then those that
/// local branches name (stack branches and entry branches), each once, in
/// the order met. `branch_names` lists the local branches.
pub fn list_all_stacks(config: &Config, branch_names: &Vec<String>, username: &str) -> (r: Vec<String>)
    ensures
        views(r@) == stacks_after(config.stacks.key_seq(), views(branch_names@), username@),
{
    let keys = config.list_stacks();
    let mut out: Vec<String> = Vec::new();
    let mut k: usize = 0;
    while k < keys.len()
        invariant
            k <= keys@.len(),
            keys@.map_values(|x: &str| x@) == config.stacks.key_seq(),
            views(out@) == config.stacks.key_seq().take(k as int),
        decreases keys.len() - k,
    {
        let ghost before = out@;
        out.push(copy_str(keys[k]));
        proof {
            assert(views(out@) =~= views(before).push(keys@[k as int]@));
            assert(config.stacks.key_seq().take(k + 1) =~= config.stacks.key_seq().take(k as int).push(
                keys@.map_values(|x: &str| x@)[k as int],
            ));
        }
        k = k + 1;
    }
    proof {
        assert(config.stacks.key_seq().take(k as int) =~= config.stacks.key_seq());
    }
    let ghost acc = config.stacks.key_seq();
    let ghost bs = views(branch_names@);
    let mut i: usize = 0;
    while i < branch_names.len()
        invariant
            i <= branch_names@.len(),
            bs == views(branch_names@),
            views(out@) == stacks_after(acc, bs.take(i as int), username@),
        decreases branch_names.len() - i,
    {
        let name = branch_names[i].as_str();
        let ghost before = views(out@);
        proof {
            assert(bs.take(i + 1).drop_last() =~= bs.take(i as int));
            assert(bs.take(i + 1).last() == name@);
        }
        let found: Option<String> = match parse_stack_branch(name) {
            Some((u, st)) => if str_eq(u.as_str(), username) {
                Some(st)
            } else {
                None
            },
            None => match parse_entry_branch(name) {
                Some((u, st, _e)) => if str_eq(u.as_str(), username) {
                    Some(st)
                } else {
                    None
                },
                None => None,
            },
        };
        match found {
            Some(st) => {
                if !contains_name(&out, st.as_str()) {
                    let ghost sv = st@;
                    out.push(st);
                    proof {
                        assert(views(out@) =~= before.push(sv));
                    }
                }
            },
            None => {},
        }
        i = i + 1;
    }
    proof {
        assert(bs.take(branch_names.len() as int) =~= bs);
    }
    out
}

/// `after` is `before` refreshed from what the provider reported about its
/// pull request: the state and review flags of `info` (the state forgotten
/// when the request could not be read), then the CI status and the approval
/// when they were read. An entry without a pull request is left alone.
pub open spec fn refreshed(
    before: StackEntry,
    after: StackEntry,
    info: Option<(PrState, bool, bool, bool)>,
    ci: Option<CiStatus>,
    approved: Option<bool>,
) -> bool {
    &&& after.oid == before.oid && after.short_sha == before.short_sha && after.title == before.title
    &&& after.gg_id == before.gg_id && after.gg_parent == before.gg_parent && after.mr_number == before.mr_number
    &&& after.position == before.position && after.in_merge_train == before.in_merge_train
    &&& after.merge_train_position == before.merge_train_position
    &&& if before.mr_number is None {
        after.mr_state == before.mr_state && after.approved == before.approved && after.changes_requested
            == before.changes_requested && after.mergeable == before.mergeable && after.ci_status == before.ci_status
    } else {
        &&& after.mr_state == (match info {
            Some((st, _, _, _)) => Some(st),
            None => None,
        })
        &&& after.changes_requested == (match info {
            Some((_, _, c, _)) => c,
            None => before.changes_requested,
        })
        &&& after.mergeable == (match info {
            Some((_, _, _, m)) => m,
            None => before.mergeable,
        })
        &&& after.ci_status == (match ci {
            Some(c) => Some(c),
            None => before.ci_status,
        })
        &&& after.approved == (match approved {
            Some(a) => a,
            None => match info {
                Some((_, a, _, _)) => a,
                None => before.approved,
            },
        })
    }
}

/// The state and flags `(state, approved, changes_requested, mergeable)` of
/// a pull request.
pub open spec fn info_flags(info: Option<&PrInfo>) -> Option<(PrState, bool, bool, bool)> {
    match info {
        Some(i) => Some((i.state, i.approved, i.changes_requested, i.mergeable)),
        None => None,
    }
}

impl StackEntry {
    /// Applies what the provider reported about the entry's pull request:
    /// `info` is `None` when it could not be read, `ci` and `approved` are
    /// `None` when their queries failed.
    pub fn refresh_from(&mut self, info: Option<&PrInfo>, ci: Option<CiStatus>, approved: Option<bool>)
        ensures
            refreshed(*old(self), *final(self), info_flags(info), ci, approved),
    {
        if self.mr_number.is_none() {
            return;
        }
        match info {
            Some(i) => {
                self.mr_state = Some(i.state);
                self.approved = i.approved;
                self.changes_requested = i.changes_requested;
                self.mergeable = i.mergeable;
            },
            None => {
                self.mr_state = None;
            },
        }
        match ci {
            Some(c) => {
                self.ci_status = Some(c);
            },
            None => {},
        }
        match approved {
            Some(a) => {
                self.approved = a;
            },
            None => {},
        }
    }
}

/// Commits made at a detached HEAD in the middle of a stack that are not
/// folded into the stack branch yet.
#[derive(Debug, Clone)]
pub struct UnintegratedCommit {
    /// The detached HEAD (the tip of the new work), in hexadecimal.
    pub head_oid: String,
    /// The commit navigated to, from the navigation context.
    pub original_oid: String,
    /// Stack branch name from the navigation context.
    pub branch_name: String,
    /// Index (from 0) of the navigated commit in the stack.
    pub saved_position: usize,
    /// Position (from 1) the new work sits on.
    pub sits_on_position: usize,
    pub short_sha: String,
    /// First line of the head commit's message.
    pub subject: String,
    /// Number of new commits (1 for an amend).
    pub count: usize,
    pub kind: UnintegratedKind,
}

/// Work can only be waiting above a navigated commit that has commits above
/// it in the stack.
pub fn can_have_unintegrated(saved_position: usize, stack_len: usize) -> (b: bool)
    ensures
        b == (saved_position + 1 < stack_len),
{
    saved_position < stack_len && stack_len - saved_position > 1
}

/// How new work at a detached HEAD relates to the navigated commit: built on
/// top of it (inserted), or a rewrite of it with the same parent (amended);
/// otherwise it is not stack work.
pub fn unintegrated_kind(head_descends_from_original: bool, original_parent: Option<&str>, head_parent: Option<&str>) -> (r: Option<UnintegratedKind>)
    ensures
        head_descends_from_original ==> r == Some(UnintegratedKind::Inserted),
        !head_descends_from_original ==> r == (match (original_parent, head_parent) {
            (Some(a), Some(b)) => if a@ == b@ {
                Some(UnintegratedKind::Amended)
            } else {
                None::<UnintegratedKind>
            },
            _ => None::<UnintegratedKind>,
        }),
{
    if head_descends_from_original {
        return Some(UnintegratedKind::Inserted);
    }
    match (original_parent, head_parent) {
        (Some(a), Some(b)) => if str_eq(a, b) {
            Some(UnintegratedKind::Amended)
        } else {
            None
        },
        _ => None,
    }
}

/// The number of new commits shown: those HEAD is ahead of the navigated
/// commit by, at least one.
pub fn unintegrated_count(ahead: usize) -> (r: usize)
    ensures
        r == (if ahead == 0 { 1 } else { ahead as int }),
{
    if ahead == 0 {
        1
    } else {
        ahead
    }
}

/// What the repository says of HEAD, for finding new work at a detached
/// HEAD: commit ids in hexadecimal.
#[derive(Debug, Clone)]
pub struct HeadFacts {
    /// Whether HEAD is detached.
    pub detached: bool,
    pub head_oid: String,
    /// HEAD's first parent.
    pub head_parent: Option<String>,
    /// Whether HEAD descends from the navigated commit.
    pub head_descends_from_original: bool,
    /// The navigated commit's first parent.
    pub original_parent: Option<String>,
    /// Whether the stack's tip descends from HEAD.
    pub tip_descends_from_head: bool,
    /// How many commits HEAD is ahead of the navigated commit.
    pub ahead: usize,
    /// HEAD's summary line, if it has one.
    pub summary: Option<String>,
    pub short_sha: String,
}

/// How the work at HEAD relates to the navigated commit, if it is stack work.
pub open spec fn kind_of(f: HeadFacts) -> Option<UnintegratedKind> {
    if f.head_descends_from_original {
        Some(UnintegratedKind::Inserted)
    } else if f.original_parent is Some && f.head_parent is Some && f.original_parent->0@ == f.head_parent->0@ {
        Some(UnintegratedKind::Amended)
    } else {
        None
    }
}

/// Whether there is new work to fold in: a navigation context, a detached
/// HEAD that moved off the navigated commit, commits above that commit, work
/// that is stack work, and a stack tip that neither is HEAD nor descends from it.
pub open spec fn has_unintegrated(stack: Stack, nav: Option<(String, usize, String)>, f: HeadFacts) -> bool {
    match nav {
        Some((_b, p, o)) => {
            &&& f.detached
            &&& f.head_oid@ != o@
            &&& p + 1 < stack.entries@.len()
            &&& kind_of(f) is Some
            &&& stack.entries@.last().oid@ != f.head_oid@
            &&& !f.tip_descends_from_head
        },
        None => false,
    }
}

/// The new work at a detached HEAD in the middle of `stack`, given the
/// navigation context (branch, index of the navigated commit, its id) and
/// what the repository says of HEAD; none when there is nothing to fold in.
pub fn unintegrated_commit(stack: &Stack, nav: Option<(String, usize, String)>, facts: &HeadFacts) -> (r: Option<UnintegratedCommit>)
    ensures
        r is Some <==> has_unintegrated(*stack, nav, *facts),
        r matches Some(u) ==> nav matches Some((b, p, o)) && {
            &&& u.head_oid@ == facts.head_oid@ && u.original_oid@ == o@ && u.branch_name@ == b@
            &&& u.saved_position == p && u.sits_on_position == p + 1
            &&& u.short_sha@ == facts.short_sha@
            &&& u.subject@ == match facts.summary {
                Some(x) => x@,
                None => "(no message)"@,
            }
            &&& u.count == (if facts.ahead == 0 { 1 } else { facts.ahead as int })
            &&& Some(u.kind) == kind_of(*facts)
        },
{
    let (branch_name, saved_position, original_oid) = match nav {
        Some(n) => n,
        None => return None,
    };
    if !facts.detached || str_eq(facts.head_oid.as_str(), original_oid.as_str()) {
        return None;
    }
    if !can_have_unintegrated(saved_position, stack.entries.len()) {
        return None;
    }
    let op = match &facts.original_parent {
        Some(x) => Some(x.as_str()),
        None => None,
    };
    let hp = match &facts.head_parent {
        Some(x) => Some(x.as_str()),
        None => None,
    };
    let kind = match unintegrated_kind(facts.head_descends_from_original, op, hp) {
        Some(k) => k,
        None => return None,
    };
    let tip = &stack.entries[stack.entries.len() - 1];
    if str_eq(tip.oid.as_str(), facts.head_oid.as_str()) || facts.tip_descends_from_head {
        return None;
    }
    let subject = match &facts.summary {
        Some(x) => copy_str(x.as_str()),
        None => copy_str("(no message)"),
    };
    Some(UnintegratedCommit {
        head_oid: copy_str(facts.head_oid.as_str()),
        original_oid,
        branch_name,
        saved_position,
        sits_on_position: saved_position + 1,
        short_sha: copy_str(facts.short_sha.as_str()),
        subject,
        count: unintegrated_count(facts.ahead),
        kind,
    })
}

/// What the repository says of one commit of a stack.
#[derive(Debug, Clone)]
pub struct CommitFacts {
    /// The commit id, in hexadecimal.
    pub oid: String,
    pub short_sha: String,
    /// The commit's summary line.
    pub title: String,
    /// The whole message.
    pub message: String,
}

/// `e` is the entry made of commit `c` at `position`, with pull request
/// `mr`: its GG-ID and GG-Parent come from the message, its pull request
/// state is not known yet.
pub open spec fn entry_of(e: StackEntry, c: CommitFacts, position: nat, mr: Option<u64>) -> bool {
    &&& e.oid@ == c.oid@ && e.short_sha@ == c.short_sha@ && e.title@ == c.title@
    &&& opt_view(e.gg_id) == trailer_value_from(lines(c.message@), 0, false)
    &&& opt_view(e.gg_parent) == trailer_value_from(lines(c.message@), 0, true)
    &&& e.mr_number == mr && e.mr_state is None && !e.approved && !e.changes_requested && !e.mergeable
    &&& e.ci_status is None && e.position == position && !e.in_merge_train && e.merge_train_position is None
}

/// The pull request the configuration records for a message's GG-ID.
pub open spec fn recorded_mr(config: Config, stack: Seq<char>, message: Seq<char>) -> Option<u64> {
    match trailer_value_from(lines(message), 0, false) {
        Some(id) => mr_for(config, stack, id),
        None => None,
    }
}

/// The first commit, from `i` on, whose id is `head`.
pub open spec fn first_commit_at(cs: Seq<CommitFacts>, head: Seq<char>, i: int) -> Option<int>
    decreases cs.len() - i,
{
    if i < 0 || i >= cs.len() {
        None
    } else if cs[i].oid@ == head {
        Some(i)
    } else {
        first_commit_at(cs, head, i + 1)
    }
}

impl Stack {
    /// The stack of branch `branch_name` over `base`, from its commits
    /// (from the base up) and the commit HEAD is on: pull request numbers
    /// come from the configuration, and HEAD's position is the first entry
    /// on its commit. A branch that is not a stack branch is refused.
    pub fn assemble(
        branch_name: &str,
        config: &Config,
        base: &str,
        commits: &Vec<CommitFacts>,
        head_oid: Option<&str>,
    ) -> (r: Result<Stack, GgError>)
        requires
            commits@.len() < usize::MAX,
        ensures
            match r {
                Ok(s) => {
                    &&& stack_branch_parts(branch_name@) == Some((s.username@, s.name@))
                    &&& s.base@ == base@
                    &&& s.entries@.len() == commits@.len()
                    &&& forall|i: int| 0 <= i < commits@.len() ==> entry_of(
                        #[trigger] s.entries@[i],
                        commits@[i],
                        (i + 1) as nat,
                        recorded_mr(*config, s.name@, commits@[i].message@),
                    )
                    &&& s.current_position == match head_oid {
                        Some(h) => match first_commit_at(commits@, h@, 0) {
                            Some(k) => Some(k as usize),
                            None => None,
                        },
                        None => None,
                    }
                },
                Err(GgError::NotOnStackBranch(m)) => stack_branch_parts(branch_name@) is None && m@ == not_stack_branch_message(
                    branch_name@,
                    opt_view(config.defaults.branch_username),
                ),
                Err(_) => false,
            },
    {
        let (username, name) = match parse_stack_branch(branch_name) {
            Some(p) => p,
            None => return Err(GgError::NotOnStackBranch(format_not_stack_branch_error(branch_name, config))),
        };
        let mut entries: Vec<StackEntry> = Vec::new();
        let mut current: Option<usize> = None;
        let mut i: usize = 0;
        while i < commits.len()
            invariant
                i <= commits@.len(),
                commits@.len() < usize::MAX,
                entries@.len() == i,
                forall|k: int| 0 <= k < i ==> entry_of(
                    #[trigger] entries@[k],
                    commits@[k],
                    (k + 1) as nat,
                    recorded_mr(*config, name@, commits@[k].message@),
                ),
                head_oid is None ==> current is None,
                forall|h: &str| head_oid == Some(h) ==> (current is None ==> first_commit_at(commits@, h@, 0)
                    == first_commit_at(commits@, h@, i as int)),
                forall|h: &str| head_oid == Some(h) ==> (current matches Some(k) ==> first_commit_at(commits@, h@, 0)
                    == Some(k as int)),
            decreases commits.len() - i,
        {
            let c = &commits[i];
            let gg_id = gg_id_from_message(c.message.as_str());
            let mr = match &gg_id {
                Some(g) => config.get_mr_for_entry(name.as_str(), g.as_str()),
                None => None,
            };
            let e = StackEntry {
                oid: copy_str(c.oid.as_str()),
                short_sha: copy_str(c.short_sha.as_str()),
                title: copy_str(c.title.as_str()),
                gg_id,
                gg_parent: gg_parent_from_message(c.message.as_str()),
                mr_number: mr,
                mr_state: None,
                approved: false,
                changes_requested: false,
                mergeable: false,
                ci_status: None,
                position: i + 1,
                in_merge_train: false,
                merge_train_position: None,
            };
            entries.push(e);
            match head_oid {
                Some(h) => {
                    if current.is_none() && str_eq(c.oid.as_str(), h) {
                        current = Some(i);
                    }
                },
                None => {},
            }
            i = i + 1;
        }
        Ok(Stack { name, username, base: copy_str(base), entries, current_position: current })
    }
}

} // verus!
