//! `gg unstack` splits a stack in two: the entries from a target position up
//! move to a new stack. This module holds its options and the bookkeeping
//! that goes with the move.
use vstd::prelude::*;
use crate::config::{Config, StackConfig};
use crate::git::opt_view;
use crate::output::UnstackMovedEntryJson;
use crate::git::normalized_gg_id;
use crate::stack::{resolve_target, resolved_target, Stack, StackEntry};
use crate::commands::unstack_tui::UnstackEntry;
use crate::error::GgError;
use crate::git::{format_stack_branch, lemma_numbered_name_valid, sanitize_stack_name, spaces_to_hyphens, stack_name_problem};
use crate::text::{chars_of, contains, contains_exec, copy_str, dec, string_of_range, trim, trim_bounds, dec_string, lemma_dec_digits, lemma_dec_injective, push_char, push_str, str_eq, string_of, views};
use vstd::set_lib::{lemma_int_range, lemma_len_subset, lemma_len_union, lemma_map_size, lemma_map_size_bound, set_int_range};
use vstd::relations::injective_on;

verus! {

/// Options of the unstack command.
#[derive(Debug)]
pub struct UnstackOptions {
    /// First commit to move into the new stack: position, short SHA, or GG-ID.
    pub target: Option<String>,
    /// Name of the new stack.
    pub name: Option<String>,
    /// Disable the picker; a target is then required.
    pub no_tui: bool,
    /// Override the immutability check for rewritten commits.
    pub force: bool,
    /// Output structured JSON.
    pub json: bool,
}

impl Default for UnstackOptions {
    fn default() -> (r: Self)
        ensures
            r.target is None && r.name is None && !r.no_tui && !r.force && !r.json,
    {
        UnstackOptions { target: None, name: None, no_tui: false, force: false, json: false }
    }
}

fn copy(s: &String) -> (r: String)
    ensures
        r@ == s@,
{
    string_of(&chars_of(s.as_str()))
}

fn copy_opt(s: &Option<String>) -> (r: Option<String>)
    ensures
        opt_view(r) == opt_view(*s),
{
    match s {
        Some(x) => Some(copy(x)),
        None => None,
    }
}

/// The JSON description of a moved entry.
pub open spec fn moved_entry_ok(j: UnstackMovedEntryJson, e: StackEntry) -> bool {
    &&& j.old_position == e.position
    &&& j.sha@ == e.short_sha@
    &&& opt_view(j.gg_id) == opt_view(e.gg_id)
    &&& j.title@ == e.title@
}

/// The entries that move: those from `target_position` (counted from 1) up.
pub fn moved_entries_json(stack: &Stack, target_position: usize) -> (r: Vec<UnstackMovedEntryJson>)
    requires
        1 <= target_position <= stack.entries@.len() + 1,
    ensures
        r@.len() == stack.entries@.len() - (target_position - 1),
        forall|k: int| 0 <= k < r@.len() ==> moved_entry_ok(#[trigger] r@[k], stack.entries@[target_position - 1 + k]),
{
    let mut out: Vec<UnstackMovedEntryJson> = Vec::new();
    let mut i: usize = target_position - 1;
    while i < stack.entries.len()
        invariant
            target_position - 1 <= i <= stack.entries@.len(),
            1 <= target_position,
            out@.len() == i - (target_position - 1),
            forall|k: int| 0 <= k < out@.len() ==> moved_entry_ok(#[trigger] out@[k], stack.entries@[target_position - 1 + k]),
        decreases stack.entries.len() - i,
    {
        let e = &stack.entries[i];
        out.push(UnstackMovedEntryJson {
            old_position: e.position,
            sha: copy(&e.short_sha),
            gg_id: copy_opt(&e.gg_id),
            title: copy(&e.title),
        });
        i = i + 1;
    }
    out
}

/// The ids among `moved`, as a set of character sequences.
pub open spec fn id_set(moved: Seq<String>) -> Set<Seq<char>> {
    Set::new(|k: Seq<char>| views(moved).contains(k))
}

/// The configuration after moving the entries `moved` from stack `old` to
/// stack `new`: the old stack keeps the mappings of the other entries; the
/// new stack (created if needed) takes the old stack's base, its own
/// mappings plus the moved ones, and no worktree. Nothing else changes.
pub open spec fn migrated(before: Config, after: Config, old: Seq<char>, new: Seq<char>, moved: Set<Seq<char>>) -> bool {
    let b = before.stacks.view();
    let a = after.stacks.view();
    let old_mrs: Map<Seq<char>, u64> = if b.contains_key(old) { b[old].mrs.view() } else { Map::empty() };
    let old_base: Option<Seq<char>> = if b.contains_key(old) { opt_view(b[old].base) } else { None };
    let new_mrs_before: Map<Seq<char>, u64> = if new == old {
        old_mrs.remove_keys(moved)
    } else if b.contains_key(new) {
        b[new].mrs.view()
    } else {
        Map::empty()
    };
    &&& a.dom() == b.dom().insert(new)
    &&& forall|s: Seq<char>| s != old && s != new && #[trigger] b.contains_key(s) ==> a[s] == b[s]
    &&& (b.contains_key(old) && old != new) ==> {
        &&& a[old].mrs.view() == old_mrs.remove_keys(moved)
        &&& a[old].base == b[old].base
        &&& a[old].worktree_path == b[old].worktree_path
    }
    &&& opt_view(a[new].base) == old_base
    &&& a[new].mrs.view() == new_mrs_before.union_prefer_right(old_mrs.restrict(moved))
    &&& a[new].worktree_path is None
    &&& after.defaults == before.defaults
    &&& after.worktree_base_path == before.worktree_base_path
}

/// Moves the configuration of the moved entries from the source stack to
/// the new stack.
pub fn migrate_config(config: &mut Config, source_stack: &Stack, new_stack_name: &str, moved_gg_ids: &Vec<String>)
    ensures
        migrated(*old(config), *final(config), source_stack.name@, new_stack_name@, id_set(moved_gg_ids@)),
{
    let ghost before = *config;
    let ghost moved = id_set(moved_gg_ids@);
    let old_name = source_stack.name.as_str();
    let mut moved_pairs: Vec<(String, u64)> = Vec::new();
    let mut old_base: Option<String> = None;
    match config.stacks.remove(old_name) {
        Some(mut old_cfg) => {
            old_base = copy_opt(&old_cfg.base);
            let mut i: usize = 0;
            while i < moved_gg_ids.len()
                invariant
                    i <= moved_gg_ids@.len(),
                    before.stacks.view().contains_key(source_stack.name@),
                    old_cfg.mrs.view() == before.stacks.view()[source_stack.name@].mrs.view().remove_keys(
                        id_set(moved_gg_ids@.take(i as int)),
                    ),
                    old_cfg.base == before.stacks.view()[source_stack.name@].base,
                    old_cfg.worktree_path == before.stacks.view()[source_stack.name@].worktree_path,
                    forall|p: int| 0 <= p < moved_pairs@.len() ==> {
                        &&& id_set(moved_gg_ids@.take(i as int)).contains(#[trigger] moved_pairs@[p].0@)
                        &&& before.stacks.view()[source_stack.name@].mrs.view().contains_key(moved_pairs@[p].0@)
                        &&& before.stacks.view()[source_stack.name@].mrs.view()[moved_pairs@[p].0@] == moved_pairs@[p].1
                    },
                    forall|k: Seq<char>| #[trigger] id_set(moved_gg_ids@.take(i as int)).contains(k)
                        && before.stacks.view()[source_stack.name@].mrs.view().contains_key(k)
                        ==> exists|p: int| 0 <= p < moved_pairs@.len() && moved_pairs@[p].0@ == k,
                decreases moved_gg_ids.len() - i,
            {
                let id = moved_gg_ids[i].as_str();
                let ghost prev_set = id_set(moved_gg_ids@.take(i as int));
                let ghost next_set = id_set(moved_gg_ids@.take(i + 1));
                proof {
                    assert(views(moved_gg_ids@.take(i + 1)) =~= views(moved_gg_ids@.take(i as int)).push(id@));
                    assert forall|k: Seq<char>| next_set.contains(k) <==> (prev_set.contains(k) || k == id@) by {
                        let pv = views(moved_gg_ids@.take(i as int));
                        let nv = views(moved_gg_ids@.take(i + 1));
                        if nv.contains(k) {
                            let w = choose|w: int| 0 <= w < nv.len() && nv[w] == k;
                            if w < i {
                                assert(pv[w] == k);
                            }
                        }
                        if pv.contains(k) {
                            let w = choose|w: int| 0 <= w < pv.len() && pv[w] == k;
                            assert(nv[w] == k);
                        }
                        if k == id@ {
                            assert(nv[i as int] == k);
                        }
                    }
                }
                let ghost mrs_before = old_cfg.mrs.view();
                let ghost pairs_before = moved_pairs@;
                let ghost m = before.stacks.view()[source_stack.name@].mrs.view();
                match old_cfg.mrs.remove(id) {
                    Some(n) => {
                        moved_pairs.push((copy(&moved_gg_ids[i]), n));
                        proof {
                            assert forall|k: Seq<char>| #[trigger] next_set.contains(k) && m.contains_key(k)
                                implies exists|q: int| 0 <= q < moved_pairs@.len() && moved_pairs@[q].0@ == k by {
                                if prev_set.contains(k) {
                                    let w = choose|w: int| 0 <= w < pairs_before.len() && pairs_before[w].0@ == k;
                                    assert(moved_pairs@[w] == pairs_before[w]);
                                } else {
                                    assert(moved_pairs@[pairs_before.len() as int].0@ == k);
                                }
                            }
                            assert forall|q: int| 0 <= q < moved_pairs@.len() implies {
                                &&& next_set.contains(#[trigger] moved_pairs@[q].0@)
                                &&& m.contains_key(moved_pairs@[q].0@)
                                &&& m[moved_pairs@[q].0@] == moved_pairs@[q].1
                            } by {
                                if q < pairs_before.len() {
                                    assert(moved_pairs@[q] == pairs_before[q]);
                                }
                            }
                        }
                    },
                    None => {
                        proof {
                            assert forall|k: Seq<char>| #[trigger] next_set.contains(k) && m.contains_key(k)
                                implies exists|q: int| 0 <= q < moved_pairs@.len() && moved_pairs@[q].0@ == k by {
                                if !prev_set.contains(k) {
                                    assert(k == id@);
                                    assert(mrs_before.contains_key(k));
                                }
                            }
                        }
                    },
                }
                proof {
                    assert(old_cfg.mrs.view() =~= before.stacks.view()[source_stack.name@].mrs.view().remove_keys(next_set));
                }
                i = i + 1;
            }
            proof {
                assert(moved_gg_ids@.take(moved_gg_ids.len() as int) =~= moved_gg_ids@);
            }
            config.stacks.insert(copy(&source_stack.name), old_cfg);
            proof {
                assert(config.stacks.view()[source_stack.name@].mrs.view() == before.stacks.view()[source_stack.name@].mrs.view().remove_keys(moved));
                assert(opt_view(old_base) == opt_view(before.stacks.view()[source_stack.name@].base));
            }
        },
        None => {},
    }
    let ghost m_old: Map<Seq<char>, u64> = if before.stacks.view().contains_key(source_stack.name@) {
        before.stacks.view()[source_stack.name@].mrs.view()
    } else {
        Map::empty()
    };
    let ghost mid = config.stacks.view();
    let ghost old_base_v = opt_view(old_base);
    assert(old_base_v == (if before.stacks.view().contains_key(source_stack.name@) {
        opt_view(before.stacks.view()[source_stack.name@].base)
    } else {
        None::<Seq<char>>
    }));
    proof {
        if before.stacks.view().contains_key(source_stack.name@) {
            assert(mid =~= before.stacks.view().insert(source_stack.name@, mid[source_stack.name@]));
        } else {
            assert(mid =~= before.stacks.view());
        }
    }
    let mut new_cfg = match config.stacks.remove(new_stack_name) {
        Some(c) => c,
        None => StackConfig::default(),
    };
    let ghost n0 = new_cfg.mrs.view();
    new_cfg.base = old_base;
    let mut p: usize = 0;
    while p < moved_pairs.len()
        invariant
            p <= moved_pairs@.len(),
            opt_view(new_cfg.base) == old_base_v,
            new_cfg.mrs.view() == n0.union_prefer_right(Map::new(
                |k: Seq<char>| exists|q: int| 0 <= q < p && (#[trigger] moved_pairs@[q]).0@ == k,
                |k: Seq<char>| m_old[k],
            )),
            forall|q: int| 0 <= q < moved_pairs@.len() ==> m_old.contains_key((#[trigger] moved_pairs@[q]).0@)
                && m_old[moved_pairs@[q].0@] == moved_pairs@[q].1,
        decreases moved_pairs.len() - p,
    {
        let k = &moved_pairs[p].0;
        let n = moved_pairs[p].1;
        let ghost before_mrs = new_cfg.mrs.view();
        new_cfg.mrs.insert(copy(k), n);
        proof {
            let pm0 = Map::new(
                |x: Seq<char>| exists|q: int| 0 <= q < p && (#[trigger] moved_pairs@[q]).0@ == x,
                |x: Seq<char>| m_old[x],
            );
            let pm1 = Map::new(
                |x: Seq<char>| exists|q: int| 0 <= q < p + 1 && (#[trigger] moved_pairs@[q]).0@ == x,
                |x: Seq<char>| m_old[x],
            );
            assert(pm1 =~= pm0.insert(k@, n)) by {
                assert forall|x: Seq<char>| pm1.dom().contains(x) <==> pm0.insert(k@, n).dom().contains(x) by {
                    if pm1.dom().contains(x) {
                        let q = choose|q: int| 0 <= q < p + 1 && (#[trigger] moved_pairs@[q]).0@ == x;
                        if q < p {
                            assert(pm0.dom().contains(x));
                        }
                    }
                    if pm0.dom().contains(x) {
                        let q = choose|q: int| 0 <= q < p && (#[trigger] moved_pairs@[q]).0@ == x;
                        assert(0 <= q < p + 1 && moved_pairs@[q].0@ == x);
                    }
                    if x == k@ {
                        assert(moved_pairs@[p as int].0@ == x);
                    }
                }
            }
            assert(new_cfg.mrs.view() =~= n0.union_prefer_right(pm1));
        }
        p = p + 1;
    }
    new_cfg.worktree_path = None;
    assert(opt_view(new_cfg.base) == old_base_v);
    config.stacks.insert(string_of(&chars_of(new_stack_name)), new_cfg);
    proof {
        let pm = Map::new(
            |k: Seq<char>| exists|q: int| 0 <= q < moved_pairs@.len() && (#[trigger] moved_pairs@[q]).0@ == k,
            |k: Seq<char>| m_old[k],
        );
        assert(pm =~= m_old.restrict(moved));
        let b = before.stacks.view();
        let a = config.stacks.view();
        let on = source_stack.name@;
        let nn = new_stack_name@;
        assert(a.dom() =~= b.dom().insert(nn));
        assert(n0 == (if mid.contains_key(nn) { mid[nn].mrs.view() } else { Map::<Seq<char>, u64>::empty() }));
        if nn == on {
            if b.contains_key(on) {
                assert(n0 == m_old.remove_keys(moved));
            } else {
                assert(n0 =~= m_old.remove_keys(moved));
            }
        } else if b.contains_key(nn) {
            assert(mid[nn] == b[nn]);
        }
        assert(a[nn].mrs.view() == n0.union_prefer_right(m_old.restrict(moved)));
        if b.contains_key(on) && on != nn {
            assert(a[on] == mid[on]);
        }
        assert forall|x: Seq<char>| x != on && x != nn && #[trigger] b.contains_key(x) implies a[x] == b[x] by {
            assert(mid[x] == b[x]);
        }
        assert(opt_view(a[nn].base) == (if b.contains_key(on) { opt_view(b[on].base) } else { None::<Seq<char>> }));
        assert(a[nn].worktree_path is None);
        assert(config.defaults == before.defaults);
        assert(config.worktree_base_path == before.worktree_base_path);
        assert(migrated(before, *config, on, nn, moved));
    }
}

/// The entry branch of `e` in `stack`, when it has a well-formed GG-ID.
pub open spec fn entry_branch_of(stack: Stack, e: StackEntry) -> Option<Seq<char>> {
    match e.gg_id {
        Some(g) => match normalized_gg_id(g@) {
            Some(n) => Some(stack.username@ + seq!['/'] + stack.name@ + seq!['-', '-'] + n),
            None => None,
        },
        None => None,
    }
}

/// The entry branches left behind by the moved entries, among the first `k`
/// entries of the source stack, in stack order.
pub open spec fn left_behind(stack: Stack, moved: Set<Seq<char>>, k: int) -> Seq<Seq<char>>
    decreases k,
{
    if k <= 0 {
        seq![]
    } else {
        let prev = left_behind(stack, moved, k - 1);
        let e = stack.entries@[k - 1];
        match e.gg_id {
            Some(g) => if moved.contains(g@) {
                match entry_branch_of(stack, e) {
                    Some(b) => prev.push(b),
                    None => prev,
                }
            } else {
                prev
            },
            None => prev,
        }
    }
}

/// The entry branches of the source stack to delete once its moved
/// entries live in the new stack.
pub fn old_entry_branches(source_stack: &Stack, moved_gg_ids: &Vec<String>) -> (r: Vec<String>)
    ensures
        views(r@) == left_behind(*source_stack, id_set(moved_gg_ids@), source_stack.entries@.len() as int),
{
    let mut out: Vec<String> = Vec::new();
    let mut i: usize = 0;
    while i < source_stack.entries.len()
        invariant
            i <= source_stack.entries@.len(),
            views(out@) == left_behind(*source_stack, id_set(moved_gg_ids@), i as int),
        decreases source_stack.entries.len() - i,
    {
        let e = &source_stack.entries[i];
        match &e.gg_id {
            Some(g) => {
                let mut found = false;
                let mut j: usize = 0;
                while j < moved_gg_ids.len()
                    invariant
                        j <= moved_gg_ids@.len(),
                        found == views(moved_gg_ids@.take(j as int)).contains(g@),
                    decreases moved_gg_ids.len() - j,
                {
                    let ghost before = views(moved_gg_ids@.take(j as int));
                    proof {
                        assert(views(moved_gg_ids@.take(j + 1)) =~= before.push(moved_gg_ids@[j as int]@));
                    }
                    if str_eq(moved_gg_ids[j].as_str(), g.as_str()) {
                        found = true;
                        proof {
                            assert(views(moved_gg_ids@.take(j + 1))[j as int] == g@);
                        }
                    } else {
                        proof {
                            let nv = views(moved_gg_ids@.take(j + 1));
                            if found {
                                let w = choose|w: int| 0 <= w < before.len() && before[w] == g@;
                                assert(nv[w] == g@);
                            }
                            if nv.contains(g@) {
                                let w = choose|w: int| 0 <= w < nv.len() && nv[w] == g@;
                                if w < j {
                                    assert(before[w] == g@);
                                }
                            }
                        }
                    }
                    j = j + 1;
                }
                proof {
                    assert(moved_gg_ids@.take(moved_gg_ids@.len() as int) =~= moved_gg_ids@);
                }
                if found {
                    match source_stack.entry_branch_name(e) {
                        Some(b) => {
                            let ghost pre = out@;
                            out.push(b);
                            proof {
                                assert(views(out@) =~= views(pre).push(b@));
                            }
                        },
                        None => {},
                    }
                }
            },
            None => {},
        }
        i = i + 1;
    }
    out
}

// ---------------------------------------------------------------------------
// The new stack's name
// ---------------------------------------------------------------------------

/// Why no new stack called `name` can be made: a stack of that name in the
/// configuration, or a local branch `username/name`; none when it can.
pub open spec fn name_taken(config: Config, username: Seq<char>, name: Seq<char>, branches: Seq<Seq<char>>) -> Option<
    Seq<char>,
> {
    if config.stacks.view().contains_key(name) {
        Some("Stack '"@ + name + "' already exists in gg config."@)
    } else if branches.contains(username + seq!['/'] + name) {
        Some("Stack branch '"@ + username + seq!['/'] + name + "' already exists."@)
    } else {
        None
    }
}

/// Checks that a new stack `stack_name` of `username` can be made, given the
/// names of the local branches.
pub fn ensure_stack_name_available(config: &Config, username: &str, stack_name: &str, local_branches: &Vec<String>) -> (r:
    Result<(), GgError>)
    ensures
        match r {
            Ok(_) => name_taken(*config, username@, stack_name@, views(local_branches@)) is None,
            Err(e) => name_taken(*config, username@, stack_name@, views(local_branches@)) matches Some(m) && e matches GgError::Other(
                msg,
            ) && msg@ == m,
        },
{
    if config.get_stack(stack_name).is_some() {
        let mut m = String::new();
        push_str(&mut m, "Stack '");
        push_str(&mut m, stack_name);
        push_str(&mut m, "' already exists in gg config.");
        return Err(GgError::Other(m));
    }
    let branch = format_stack_branch(username, stack_name);
    let ghost bs = views(local_branches@);
    let mut i: usize = 0;
    while i < local_branches.len()
        invariant
            i <= local_branches@.len(),
            bs == views(local_branches@),
            branch@ == username@ + seq!['/'] + stack_name@,
            !config.stacks.view().contains_key(stack_name@),
            forall|j: int| 0 <= j < i ==> bs[j] != branch@,
        decreases local_branches.len() - i,
    {
        if str_eq(local_branches[i].as_str(), branch.as_str()) {
            let mut m = String::new();
            push_str(&mut m, "Stack branch '");
            push_str(&mut m, branch.as_str());
            push_str(&mut m, "' already exists.");
            proof {
                assert(bs[i as int] == branch@);
                assert(bs.contains(branch@));
                assert(m@ =~= "Stack branch '"@ + username@ + seq!['/'] + stack_name@ + "' already exists."@);
            }
            return Err(GgError::Other(m));
        }
        i = i + 1;
    }
    proof {
        if bs.contains(branch@) {
            let j = choose|j: int| 0 <= j < bs.len() && bs[j] == branch@;
            assert(bs[j] != branch@);
        }
    }
    Ok(())
}

/// The stack name `name-n` (spaces turned into hyphens).
pub open spec fn suffixed(name: Seq<char>, n: nat) -> Seq<char> {
    spaces_to_hyphens(name + seq!['-'] + dec(n))
}

/// `n` is the first suffix from 2 on that gives a free name.
pub open spec fn first_free_suffix(config: Config, username: Seq<char>, name: Seq<char>, branches: Seq<Seq<char>>, n: nat) -> bool {
    &&& n >= 2
    &&& name_taken(config, username, suffixed(name, n), branches) is None
    &&& forall|m: nat| 2 <= m < n ==> name_taken(config, username, #[trigger] suffixed(name, m), branches) is Some
}

/// The message refusing a requested name that sanitizing changes.
pub open spec fn did_you_mean(name: Seq<char>, sanitized: Seq<char>) -> Seq<char> {
    "Invalid stack name '"@ + name + "'. Did you mean '"@ + sanitized + "'?"@
}

proof fn lemma_suffixed(name: Seq<char>, n: nat)
    ensures
        suffixed(name, n) == spaces_to_hyphens(name) + seq!['-'] + dec(n),
{
    lemma_dec_digits(n);
    let k = name.len() + 1;
    let a = suffixed(name, n);
    let b = spaces_to_hyphens(name) + seq!['-'] + dec(n);
    assert forall|i: int| 0 <= i < a.len() implies a[i] == b[i] by {
        if i >= k {
            assert((name + seq!['-'] + dec(n))[i] == dec(n)[i - k]);
            assert(48 <= dec(n)[i - k] as int <= 57);
        } else if i < name.len() {
            assert((name + seq!['-'] + dec(n))[i] == name[i]);
        }
    }
    assert(a =~= b);
}

proof fn lemma_suffixed_injective(name: Seq<char>, a: nat, b: nat)
    requires
        suffixed(name, a) == suffixed(name, b),
    ensures
        a == b,
{
    lemma_suffixed(name, a);
    lemma_suffixed(name, b);
    let k = name.len() + 1;
    assert(suffixed(name, a).skip(k as int) =~= dec(a));
    assert(suffixed(name, b).skip(k as int) =~= dec(b));
    lemma_dec_injective(a, b);
}

/// Among the suffixes 2 to `stacks + branches + 2` one gives a free name:
/// each stack and each branch takes at most one of them.
proof fn lemma_free_suffix_exists(config: Config, username: Seq<char>, name: Seq<char>, branches: Seq<Seq<char>>)
    requires
        config.stacks.view().dom().finite(),
    ensures
        exists|k: nat| 2 <= k <= config.stacks.view().dom().len() + branches.len() + 2 && name_taken(
            config,
            username,
            suffixed(name, k),
            branches,
        ) is None,
{
    let d = config.stacks.view().dom();
    let n = d.len() + branches.len();
    if !exists|k: nat| 2 <= k <= n + 2 && name_taken(config, username, suffixed(name, k), branches) is None {
        let f = |i: int| suffixed(name, i as nat);
        let x = set_int_range(2, n + 3 as int);
        lemma_int_range(2, n + 3 as int);
        assert(injective_on(f, x)) by {
            assert forall|p: int, q: int| x.contains(p) && x.contains(q) && #[trigger] f(p) == #[trigger] f(q) implies p == q by {
                lemma_suffixed_injective(name, p as nat, q as nat);
            }
        }
        let y = x.map(f);
        lemma_map_size(x, y, f);
        let prefix = username + seq!['/'];
        let g = |b: Seq<char>| b.skip(prefix.len() as int);
        let bt = branches.to_set();
        branches.lemma_cardinality_of_set();
        let bn = bt.map(g);
        lemma_map_size_bound(bt, bn, g);
        assert(y.subset_of(d.union(bn))) by {
            assert forall|c: Seq<char>| y.contains(c) implies #[trigger] d.union(bn).contains(c) by {
                let i = choose|i: int| x.contains(i) && f(i) == c;
                assert(2 <= i as nat <= n + 2);
                assert(name_taken(config, username, suffixed(name, i as nat), branches) is Some);
                if !d.contains(c) {
                    let full = prefix + c;
                    assert(branches.contains(username + seq!['/'] + c));
                    assert(full =~= username + seq!['/'] + c);
                    assert(bt.contains(full));
                    assert(g(full) =~= c);
                }
            }
        }
        lemma_len_union(d, bn);
        lemma_len_subset(y, d.union(bn));
        assert(false);
    }
}

/// The name of the stack that `gg unstack` makes from `source_stack`: the
/// requested one, sanitized and checked to be free, or else the first free
/// `<name>-<n>` from 2 on. `local_branches` are the names of the local
/// branches.
pub fn resolve_new_stack_name(
    config: &Config,
    source_stack: &Stack,
    requested_name: Option<String>,
    local_branches: &Vec<String>,
) -> (r: Result<String, GgError>)
    requires
        requested_name is None ==> stack_name_problem(suffixed(source_stack.name@, 2)) is None,
        config.stacks.view().dom().len() + local_branches@.len() + 3 <= u64::MAX,
    ensures
        match requested_name {
            Some(n) => {
                let h = spaces_to_hyphens(n@);
                match stack_name_problem(h) {
                    Some(m) => r matches Err(GgError::InvalidStackName(msg)) && msg@ == m,
                    None => if h != n@ {
                        r matches Err(GgError::Other(msg)) && msg@ == did_you_mean(n@, h)
                    } else {
                        match name_taken(*config, source_stack.username@, n@, views(local_branches@)) {
                            Some(m) => r matches Err(GgError::Other(msg)) && msg@ == m,
                            None => r matches Ok(s) && s@ == n@,
                        }
                    },
                }
            },
            None => r matches Ok(s) && exists|k: nat| #![trigger suffixed(source_stack.name@, k)]
                first_free_suffix(*config, source_stack.username@, source_stack.name@, views(local_branches@), k)
                    && s@ == suffixed(source_stack.name@, k),
        },
{
    let ghost bs = views(local_branches@);
    match &requested_name {
        Some(name) => {
            let sanitized = match sanitize_stack_name(name.as_str()) {
                Ok(s) => s,
                Err(e) => return Err(e),
            };
            if !str_eq(sanitized.as_str(), name.as_str()) {
                let mut m = String::new();
                push_str(&mut m, "Invalid stack name '");
                push_str(&mut m, name.as_str());
                push_str(&mut m, "'. Did you mean '");
                push_str(&mut m, sanitized.as_str());
                push_str(&mut m, "'?");
                return Err(GgError::Other(m));
            }
            match ensure_stack_name_available(config, source_stack.username.as_str(), sanitized.as_str(), local_branches) {
                Ok(_) => Ok(sanitized),
                Err(e) => Err(e),
            }
        },
        None => {
            let ghost name = source_stack.name@;
            let ghost user = source_stack.username@;
            let stacks = config.stacks.len();
            let bound: u64 = stacks as u64 + local_branches.len() as u64 + 2;
            proof {
                lemma_free_suffix_exists(*config, user, name, bs);
            }
            let mut n: u64 = 2;
            loop
                invariant
                    2 <= n <= bound,
                    requested_name is None,
                    bound == config.stacks.view().dom().len() + bs.len() + 2,
                    bound < u64::MAX,
                    name == source_stack.name@,
                    user == source_stack.username@,
                    bs == views(local_branches@),
                    stack_name_problem(suffixed(name, 2)) is None,
                    forall|m: nat| 2 <= m < n ==> name_taken(*config, user, #[trigger] suffixed(name, m), bs) is Some,
                    exists|k: nat| n <= k <= bound && name_taken(*config, user, suffixed(name, k), bs) is None,
                decreases bound - n,
            {
                let mut candidate = String::new();
                push_str(&mut candidate, source_stack.name.as_str());
                push_char(&mut candidate, '-');
                push_str(&mut candidate, dec_string(n).as_str());
                proof {
                    assert(candidate@ =~= name + seq!['-'] + dec(n as nat));
                    lemma_suffixed(name, 2);
                    lemma_suffixed(name, n as nat);
                    lemma_numbered_name_valid(spaces_to_hyphens(name), 2, n as nat);
                }
                match sanitize_stack_name(candidate.as_str()) {
                    Ok(s) => {
                        match ensure_stack_name_available(config, source_stack.username.as_str(), s.as_str(), local_branches) {
                            Ok(_) => {
                                proof {
                                    assert(s@ == suffixed(name, n as nat));
                                    assert(first_free_suffix(*config, user, name, bs, n as nat));
                                    assert(exists|k: nat| #![trigger suffixed(source_stack.name@, k)]
                                        first_free_suffix(*config, source_stack.username@, source_stack.name@, views(local_branches@), k)
                                            && s@ == suffixed(source_stack.name@, k));
                                }
                                return Ok(s);
                            },
                            Err(_) => {},
                        }
                    },
                    Err(_) => {},
                }
                proof {
                    let k = choose|k: nat| n <= k <= bound && name_taken(*config, user, suffixed(name, k), bs) is None;
                    assert(k != n);
                    assert forall|m: nat| 2 <= m < n + 1 implies name_taken(*config, user, #[trigger] suffixed(name, m), bs) is Some by {
                        if m < n {
                        }
                    }
                }
                n = n + 1;
            }
        },
    }
}

// ---------------------------------------------------------------------------
// The target
// ---------------------------------------------------------------------------

/// Where the new stack starts.
#[derive(Debug)]
pub enum UnstackTarget {
    /// At this position, named on the command line.
    Position(usize),
    /// Where the user picks, among these entries, in the picker.
    Pick(Vec<UnstackEntry>),
}

/// The message when no target is given and no picker can be shown.
pub open spec fn no_target_message() -> Seq<char> {
    "No unstack target specified. Use --target <position|SHA|GG-ID>."@
}

/// Where the new stack starts: the `--target`, resolved in the stack; else,
/// on a terminal (`is_tty`, stdin and stdout both) and without `--no-tui`,
/// the picker over the stack's entries; else an error.
pub fn resolve_unstack_target(stack: &Stack, options: &UnstackOptions, is_tty: bool) -> (r: Result<UnstackTarget, GgError>)
    ensures
        match options.target {
            Some(t) => match resolved_target(stack.entries@, t@) {
                Ok(p) => r matches Ok(UnstackTarget::Position(q)) && q == p,
                Err(m) => r matches Err(GgError::Other(msg)) && msg@ == m,
            },
            None => if options.no_tui || !is_tty {
                r matches Err(GgError::Other(msg)) && msg@ == no_target_message()
            } else {
                r matches Ok(UnstackTarget::Pick(es)) && es@.len() == stack.entries@.len() && forall|i: int|
                    0 <= i < es@.len() ==> (#[trigger] es@[i]).short_sha@ == stack.entries@[i].short_sha@
                        && es@[i].title@ == stack.entries@[i].title@
            },
        },
{
    match &options.target {
        Some(t) => {
            return match resolve_target(stack, t.as_str()) {
                Ok(p) => Ok(UnstackTarget::Position(p)),
                Err(e) => Err(e),
            };
        },
        None => {},
    }
    if options.no_tui || !is_tty {
        let m = copy_str("No unstack target specified. Use --target <position|SHA|GG-ID>.");
        return Err(GgError::Other(m));
    }
    let mut es: Vec<UnstackEntry> = Vec::new();
    let mut i: usize = 0;
    while i < stack.entries.len()
        invariant
            i <= stack.entries@.len(),
            es@.len() == i,
            forall|k: int| 0 <= k < i ==> (#[trigger] es@[k]).short_sha@ == stack.entries@[k].short_sha@
                && es@[k].title@ == stack.entries@[k].title@,
        decreases stack.entries.len() - i,
    {
        let e = &stack.entries[i];
        es.push(UnstackEntry { short_sha: copy(&e.short_sha), title: copy(&e.title) });
        i = i + 1;
    }
    Ok(UnstackTarget::Pick(es))
}

/// The message when the stack is too short to be split.
pub open spec fn too_short_message() -> Seq<char> {
    "Need at least 2 commits to unstack."@
}

/// The message when the split would leave the original stack empty.
pub open spec fn position_one_message() -> Seq<char> {
    "Cannot unstack at position 1 because no commits would remain in the original stack."@
}

/// A stack can be split only when it has at least two entries.
pub fn check_unstack_size(stack_len: usize) -> (r: Result<(), GgError>)
    ensures
        stack_len < 2 ==> (r matches Err(GgError::Other(m)) && m@ == too_short_message()),
        stack_len >= 2 ==> r is Ok,
{
    if stack_len < 2 {
        Err(GgError::Other(copy_str("Need at least 2 commits to unstack.")))
    } else {
        Ok(())
    }
}

/// How many entries each stack has after moving the entries from
/// `target_position` on: the original keeps those before it, the new one
/// takes the rest. Position 1 is refused, as it would empty the original.
pub fn unstack_counts(stack_len: usize, target_position: usize) -> (r: Result<(usize, usize), GgError>)
    requires
        1 <= target_position <= stack_len,
    ensures
        target_position == 1 ==> (r matches Err(GgError::Other(m)) && m@ == position_one_message()),
        target_position > 1 ==> r == Ok::<(usize, usize), GgError>(
            ((target_position - 1) as usize, (stack_len - target_position + 1) as usize),
        ),
{
    if target_position == 1 {
        return Err(
            GgError::Other(
                copy_str("Cannot unstack at position 1 because no commits would remain in the original stack."),
            ),
        );
    }
    let old_count = target_position - 1;
    Ok((old_count, stack_len - old_count))
}

/// The GG-IDs of the entries with index `a` up to (not including) `b`, in
/// order; entries without one are skipped.
pub open spec fn ids_between(es: Seq<StackEntry>, a: int, b: int) -> Seq<Seq<char>>
    decreases b - a,
{
    if b <= a {
        seq![]
    } else {
        ids_between(es, a, b - 1) + match es[b - 1].gg_id {
            Some(g) => seq![g@],
            None => Seq::<Seq<char>>::empty(),
        }
    }
}

/// The GG-IDs of the entries that move: those from `target_position` on.
pub fn moved_gg_ids(stack: &Stack, target_position: usize) -> (r: Vec<String>)
    requires
        1 <= target_position <= stack.entries@.len() + 1,
    ensures
        views(r@) == ids_between(stack.entries@, target_position - 1, stack.entries@.len() as int),
{
    let mut r: Vec<String> = Vec::new();
    let mut i: usize = target_position - 1;
    assert(ids_between(stack.entries@, target_position - 1, i as int) =~= Seq::<Seq<char>>::empty());
    while i < stack.entries.len()
        invariant
            1 <= target_position <= stack.entries@.len() + 1,
            target_position - 1 <= i <= stack.entries@.len(),
            views(r@) == ids_between(stack.entries@, target_position - 1, i as int),
        decreases stack.entries.len() - i,
    {
        let ghost before = views(r@);
        match &stack.entries[i].gg_id {
            Some(g) => {
                r.push(copy(g));
                assert(views(r@) =~= before + seq![g@]);
            },
            None => {
                assert(views(r@) =~= before + Seq::<Seq<char>>::empty());
            },
        }
        i = i + 1;
    }
    r
}

// ---------------------------------------------------------------------------
// Rewriting the branches
// ---------------------------------------------------------------------------

/// What moving the entries from a position on to a new stack works with:
/// the two stack branches and the commits involved, by id.
#[derive(Debug)]
pub struct UnstackPlan {
    /// The source stack's branch, shortened to the entry before the target.
    pub source_branch: String,
    /// The new stack's branch, made at the old tip and rebased onto the base.
    pub new_branch: String,
    /// The first moved entry's commit.
    pub target_oid: String,
    /// The commit of the entry just before it.
    pub previous_oid: String,
    /// The source stack's old tip.
    pub old_tip_oid: String,
}

/// The message naming a position of the stack that does not exist.
pub open spec fn out_of_range_message(pos: nat) -> Seq<char> {
    "Position "@ + dec(pos) + " out of range"@
}

fn out_of_range(pos: usize) -> (r: GgError)
    ensures
        r matches GgError::Other(m) && m@ == out_of_range_message(pos as nat),
{
    let mut m = String::new();
    push_str(&mut m, "Position ");
    push_str(&mut m, dec_string(pos as u64).as_str());
    push_str(&mut m, " out of range");
    GgError::Other(m)
}

/// The branches and commits that moving the entries from `target_position`
/// on to the new stack `new_stack_name` works with; a position without an
/// entry, or without one before it, is refused.
pub fn rewrite_branches(source_stack: &Stack, new_stack_name: &str, target_position: usize) -> (r: Result<UnstackPlan, GgError>)
    ensures
        match r {
            Ok(p) => {
                let es = source_stack.entries@;
                &&& 2 <= target_position <= es.len()
                &&& p.source_branch@ == source_stack.username@ + seq!['/'] + source_stack.name@
                &&& p.new_branch@ == source_stack.username@ + seq!['/'] + new_stack_name@
                &&& p.target_oid@ == es[target_position - 1].oid@
                &&& p.previous_oid@ == es[target_position - 2].oid@
                &&& p.old_tip_oid@ == es.last().oid@
            },
            Err(GgError::Other(m)) => if target_position == 0 || target_position > source_stack.entries@.len() {
                m@ == out_of_range_message(target_position as nat)
            } else {
                target_position == 1 && m@ == out_of_range_message(0)
            },
            Err(_) => false,
        },
{
    let source_branch = source_stack.branch_name();
    let new_branch = format_stack_branch(source_stack.username.as_str(), new_stack_name);
    let target = match source_stack.get_entry_by_position(target_position) {
        Some(e) => e,
        None => return Err(out_of_range(target_position)),
    };
    let previous = match source_stack.get_entry_by_position(target_position - 1) {
        Some(e) => e,
        None => return Err(out_of_range(target_position - 1)),
    };
    let old_tip = match source_stack.last() {
        Some(e) => e,
        None => return Err(GgError::Other(copy_str("Stack is empty"))),
    };
    Ok(UnstackPlan {
        source_branch,
        new_branch,
        target_oid: copy(&target.oid),
        previous_oid: copy(&previous.oid),
        old_tip_oid: copy(&old_tip.oid),
    })
}

/// The arguments of `git rebase --onto <base> <previous> <branch>`, which
/// moves the commits after `previous` onto the base.
pub fn rebase_onto_args(base_oid: &str, previous_oid: &str, new_branch: &str) -> (r: Vec<String>)
    ensures
        views(r@) == seq!["rebase"@, "--onto"@, base_oid@, previous_oid@, new_branch@],
{
    let mut r: Vec<String> = Vec::new();
    r.push(copy_str("rebase"));
    r.push(copy_str("--onto"));
    r.push(copy_str(base_oid));
    r.push(copy_str(previous_oid));
    r.push(copy_str(new_branch));
    assert(views(r@) =~= seq!["rebase"@, "--onto"@, base_oid@, previous_oid@, new_branch@]);
    r
}

/// What a finished `git rebase --onto` means: done when it succeeded; a
/// conflict when its error output mentions one; otherwise a failure that
/// quotes the trimmed error output.
pub fn run_rebase_onto_base(success: bool, stderr: &str) -> (r: Result<(), GgError>)
    ensures
        success ==> r is Ok,
        !success ==> (if contains(stderr@, "CONFLICT"@) || contains(stderr@, "conflict"@) {
            r matches Err(GgError::RebaseConflict)
        } else {
            r matches Err(GgError::Other(m)) && m@ == "Rebase failed: "@ + trim(stderr@)
        }),
{
    if success {
        return Ok(());
    }
    let v = chars_of(stderr);
    if contains_exec(&v, &chars_of("CONFLICT")) || contains_exec(&v, &chars_of("conflict")) {
        return Err(GgError::RebaseConflict);
    }
    let (a, b) = trim_bounds(&v);
    let mut m = String::new();
    push_str(&mut m, "Rebase failed: ");
    push_str(&mut m, string_of_range(&v, a, b).as_str());
    Err(GgError::Other(m))
}

/// The check after the rewrite: the new stack's branch must no longer point
/// at the first moved commit.
pub fn ensure_independent(new_branch_tip: &str, target_oid: &str) -> (r: Result<(), GgError>)
    ensures
        new_branch_tip@ == target_oid@ ==> (r matches Err(GgError::Other(m)) && m@
            == "Unstack failed to create an independent stack."@),
        new_branch_tip@ != target_oid@ ==> r is Ok,
{
    if str_eq(new_branch_tip, target_oid) {
        Err(GgError::Other(copy_str("Unstack failed to create an independent stack.")))
    } else {
        Ok(())
    }
}

} // verus!
