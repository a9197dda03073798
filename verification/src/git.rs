//! Branch naming, stack-name rules, GG-ID trailers and `git push` output.
//!
//! A stack lives on the branch `<username>/<stack>`; each entry of a synced
//! stack gets the branch `<username>/<stack>--<gg-id>`. Commits carry a
//! `GG-ID:` trailer (a stable identifier) and a `GG-Parent:` trailer (the
//! GG-ID of the entry below).
use vstd::prelude::*;
use crate::error::GgError;
use crate::text::{
    ascii_lower, ascii_lower_exec, ascii_lower_seq, chars_of, contains, contains_exec, ends_with, ends_with_exec, find, first_index, is_ctrl,
    is_ctrl_exec, is_ws, is_ws_exec, lemma_first_index, lines, lines_of, push_char, push_range, push_str, starts_with,
    skip_ws_backward, starts_with_exec, str_eq, string_of, string_of_range, trim, trim_bounds,
    trim_end, views, join, join_strings, first_occurrence, dec, dec_string, lemma_dec_digits, lemma_dec_len, occurs_at,
};

verus! {

/// Prefix of GG-ID trailers in commit messages.
pub const GG_ID_PREFIX: &'static str = "GG-ID:";

/// Prefix of GG-Parent trailers in commit messages.
pub const GG_PARENT_PREFIX: &'static str = "GG-Parent:";

/// How long to wait, in seconds, for git's `index.lock` to go away.
pub const INDEX_LOCK_TIMEOUT_SECS: u64 = 10;

/// How long to wait, in seconds, for another gg operation's lock.
pub const OPERATION_LOCK_TIMEOUT_SECS: u64 = 10;

/// Counts of trailer rewrites made while normalizing a stack's metadata.
#[derive(Debug, Clone, Copy, PartialEq, Eq)]
pub struct MetadataRewriteCounts {
    pub gg_ids_added: usize,
    pub gg_parents_updated: usize,
    pub gg_parents_removed: usize,
}

impl Default for MetadataRewriteCounts {
    fn default() -> (r: Self)
        ensures
            r.gg_ids_added == 0 && r.gg_parents_updated == 0 && r.gg_parents_removed == 0,
    {
        MetadataRewriteCounts { gg_ids_added: 0, gg_parents_updated: 0, gg_parents_removed: 0 }
    }
}

// ---------------------------------------------------------------------------
// Branch names
// ---------------------------------------------------------------------------

/// Number of occurrences of `c` in `s`.
pub open spec fn count_char(s: Seq<char>, c: char) -> nat
    decreases s.len(),
{
    if s.len() == 0 {
        0
    } else {
        count_char(s.drop_last(), c) + (if s.last() == c {
            1nat
        } else {
            0nat
        })
    }
}

/// Index of the first `c` in `s`, or `s.len()` when there is none.
pub open spec fn index_of_char(s: Seq<char>, c: char) -> int
    decreases s.len(),
{
    if s.len() == 0 {
        0
    } else if s[0] == c {
        0
    } else {
        1 + index_of_char(s.skip(1), c)
    }
}

proof fn lemma_index_of_char(s: Seq<char>, c: char, i: int)
    requires
        0 <= i <= s.len(),
        i == s.len() || s[i] == c,
        forall|j: int| 0 <= j < i ==> s[j] != c,
    ensures
        index_of_char(s, c) == i,
    decreases i,
{
    if i > 0 {
        assert(s[0] != c);
        lemma_index_of_char(s.skip(1), c, i - 1);
    }
}

proof fn lemma_count_char_take(s: Seq<char>, c: char, i: int)
    requires
        0 <= i < s.len(),
    ensures
        count_char(s.take(i + 1), c) == count_char(s.take(i), c) + (if s[i] == c {
            1nat
        } else {
            0nat
        }),
{
    assert(s.take(i + 1).drop_last() =~= s.take(i));
}

/// `(username, stack)` of a stack branch `username/stack`: exactly one `/`,
/// and no `--` in the stack part (that would be an entry branch).
pub open spec fn stack_branch_parts(name: Seq<char>) -> Option<(Seq<char>, Seq<char>)> {
    if count_char(name, '/') == 1 {
        let k = index_of_char(name, '/');
        let stack = name.skip(k + 1);
        if contains(stack, "--"@) {
            None
        } else {
            Some((name.take(k), stack))
        }
    } else {
        None
    }
}

/// `(username, stack, entry_id)` of an entry branch `username/stack--entry`:
/// exactly one `/`, and the part after it splits at `--` into exactly two.
pub open spec fn entry_branch_parts(name: Seq<char>) -> Option<(Seq<char>, Seq<char>, Seq<char>)> {
    if count_char(name, '/') == 1 {
        let k = index_of_char(name, '/');
        let rest = name.skip(k + 1);
        if contains(rest, "--"@) {
            let j = first_index(rest, "--"@);
            let tail = rest.skip(j + 2);
            if contains(tail, "--"@) {
                None
            } else {
                Some((name.take(k), rest.take(j), tail))
            }
        } else {
            None
        }
    } else {
        None
    }
}

proof fn lemma_count_char_concat(x: Seq<char>, y: Seq<char>, c: char)
    ensures
        count_char(x + y, c) == count_char(x, c) + count_char(y, c),
    decreases y.len(),
{
    if y.len() > 0 {
        assert((x + y).drop_last() =~= x + y.drop_last());
        lemma_count_char_concat(x, y.drop_last(), c);
    } else {
        assert(x + y =~= x);
    }
}

proof fn lemma_count_char_none(x: Seq<char>, c: char)
    requires
        !x.contains(c),
    ensures
        count_char(x, c) == 0,
    decreases x.len(),
{
    if x.len() > 0 {
        assert(!x.drop_last().contains(c)) by {
            if x.drop_last().contains(c) {
                let j = choose|j: int| 0 <= j < x.drop_last().len() && x.drop_last()[j] == c;
                assert(x[j] == c);
            }
        }
        lemma_count_char_none(x.drop_last(), c);
    }
}

/// `u/` followed by `rest` with no `/` in `u` or `rest`: one slash, at `u.len()`.
proof fn lemma_one_slash(u: Seq<char>, rest: Seq<char>)
    requires
        !u.contains('/'),
        !rest.contains('/'),
    ensures
        count_char(u + seq!['/'] + rest, '/') == 1,
        index_of_char(u + seq!['/'] + rest, '/') == u.len(),
        (u + seq!['/'] + rest).take(u.len() as int) == u,
        (u + seq!['/'] + rest).skip(u.len() as int + 1) == rest,
{
    let n = u + seq!['/'] + rest;
    lemma_count_char_concat(u + seq!['/'], rest, '/');
    lemma_count_char_concat(u, seq!['/'], '/');
    lemma_count_char_none(u, '/');
    lemma_count_char_none(rest, '/');
    assert(seq!['/'].drop_last() =~= Seq::<char>::empty());
    assert(count_char(seq!['/'].drop_last(), '/') == 0);
    assert(count_char(seq!['/'], '/') == 1);
    assert forall|j: int| 0 <= j < u.len() implies n[j] != '/' by {
        assert(n[j] == u[j]);
    }
    lemma_index_of_char(n, '/', u.len() as int);
    assert(n.take(u.len() as int) =~= u);
    assert(n.skip(u.len() as int + 1) =~= rest);
}

/// A sequence holding `c` counts it at least once.
proof fn lemma_count_char_some(x: Seq<char>, c: char, j: int)
    requires
        0 <= j < x.len(),
        x[j] == c,
    ensures
        count_char(x, c) >= 1,
    decreases x.len(),
{
    if j < x.len() - 1 {
        lemma_count_char_some(x.drop_last(), c, j);
    }
}

/// Parsing a stack branch gives back the username and stack name it was
/// made of, when neither holds a `/` and the stack name holds no `--` (as a
/// valid username and a sanitized stack name do); an entry branch of that
/// stack, whatever its entry id, is no stack branch.
pub proof fn lemma_stack_branch_round_trip(u: Seq<char>, st: Seq<char>, e: Seq<char>)
    requires
        !u.contains('/'),
        !st.contains('/'),
        !contains(st, "--"@),
    ensures
        stack_branch_parts(u + seq!['/'] + st) == Some((u, st)),
        stack_branch_parts(u + seq!['/'] + st + seq!['-', '-'] + e) is None,
{
    lemma_one_slash(u, st);
    let rest = st + seq!['-', '-'] + e;
    assert(u + seq!['/'] + st + seq!['-', '-'] + e =~= u + seq!['/'] + rest);
    if e.contains('/') {
        let j = choose|j: int| 0 <= j < e.len() && e[j] == '/';
        assert(rest[st.len() + 2 + j] == '/');
        lemma_count_char_some(rest, '/', st.len() + 2 + j);
        lemma_count_char_concat(u + seq!['/'], rest, '/');
        lemma_count_char_concat(u, seq!['/'], '/');
        assert(seq!['/'].drop_last() =~= Seq::<char>::empty());
        assert(count_char(seq!['/'].drop_last(), '/') == 0);
        assert(count_char(seq!['/'], '/') == 1);
    } else {
        lemma_joined_no_slash(st, e);
        lemma_one_slash(u, rest);
        reveal_strlit("--");
        assert(occurs_at(rest, "--"@, st.len() as int)) by {
            assert(rest.subrange(st.len() as int, st.len() as int + 2) =~= "--"@);
        }
    }
}

proof fn lemma_joined_no_slash(st: Seq<char>, e: Seq<char>)
    requires
        !st.contains('/'),
        !e.contains('/'),
    ensures
        !(st + seq!['-', '-'] + e).contains('/'),
{
    let rest = st + seq!['-', '-'] + e;
    if rest.contains('/') {
        let j = choose|j: int| 0 <= j < rest.len() && rest[j] == '/';
        if j < st.len() {
            assert(st[j] == '/');
        } else if j >= st.len() + 2 {
            assert(e[j - st.len() - 2] == '/');
        }
    }
}

proof fn lemma_first_dash_dash(st: Seq<char>, e: Seq<char>)
    requires
        !contains(st, "--"@),
        st.len() == 0 || st.last() != '-',
    ensures
        first_index(st + seq!['-', '-'] + e, "--"@) == st.len(),
{
    reveal_strlit("--");
    let rest = st + seq!['-', '-'] + e;
    let n = st.len() as int;
    assert(occurs_at(rest, "--"@, n)) by {
        assert(rest.subrange(n, n + 2) =~= "--"@);
    }
    assert forall|j: int| 0 <= j < n implies !occurs_at(rest, "--"@, j) by {
        if occurs_at(rest, "--"@, j) {
            assert(rest.subrange(j, j + 2)[0] == '-' && rest.subrange(j, j + 2)[1] == '-');
            assert(rest[j] == '-' && rest[j + 1] == '-');
            if j + 1 < n {
                assert(st.subrange(j, j + 2) =~= "--"@);
                assert(occurs_at(st, "--"@, j));
            } else {
                assert(st.last() == st[j]);
            }
        }
    }
    assert(first_occurrence(rest, "--"@, n));
    lemma_first_index(rest, "--"@, n);
}

/// Parsing an entry branch gives back its username, stack name and entry
/// id, when none holds a `/`, neither the stack name nor the id holds `--`,
/// and the stack name does not end with `-` (else the first `--` would
/// start inside it).
pub proof fn lemma_entry_branch_round_trip(u: Seq<char>, st: Seq<char>, e: Seq<char>)
    requires
        !u.contains('/'),
        !st.contains('/'),
        !e.contains('/'),
        !contains(st, "--"@),
        !contains(e, "--"@),
        st.len() == 0 || st.last() != '-',
    ensures
        entry_branch_parts(u + seq!['/'] + st + seq!['-', '-'] + e) == Some((u, st, e)),
{
    reveal_strlit("--");
    let rest = st + seq!['-', '-'] + e;
    lemma_joined_no_slash(st, e);
    lemma_one_slash(u, rest);
    assert(u + seq!['/'] + st + seq!['-', '-'] + e =~= u + seq!['/'] + rest);
    let n = st.len() as int;
    assert(occurs_at(rest, "--"@, n)) by {
        assert(rest.subrange(n, n + 2) =~= "--"@);
    }
    lemma_first_dash_dash(st, e);
    assert(rest.skip(n + 2) =~= e);
    assert(rest.take(n) =~= st);
}

/// Number of `c` in `v` and the index of the first one (`v.len()` if none).
fn scan_char(v: &Vec<char>, c: char) -> (r: (usize, usize))
    ensures
        r.0 == count_char(v@, c),
        r.1 == index_of_char(v@, c),
        r.1 <= v.len(),
        r.1 < v.len() ==> v@[r.1 as int] == c,
        r.0 > 0 ==> r.1 < v.len(),
        r.1 == v.len() ==> forall|j: int| 0 <= j < v.len() ==> v@[j] != c,
{
    let mut count: usize = 0;
    let mut first = v.len();
    let mut i: usize = 0;
    while i < v.len()
        invariant
            i <= v.len(),
            count == count_char(v@.take(i as int), c),
            count <= i,
            first == v.len() || (first < i && v@[first as int] == c),
            first == v.len() ==> forall|j: int| 0 <= j < i ==> v@[j] != c,
            first == v.len() ==> count == 0,
            first < v.len() ==> forall|j: int| 0 <= j < first ==> v@[j] != c,
        decreases v.len() - i,
    {
        proof {
            lemma_count_char_take(v@, c, i as int);
        }
        if v[i] == c {
            count = count + 1;
            if first == v.len() {
                first = i;
            }
        }
        i = i + 1;
    }
    assert(v@.take(v.len() as int) =~= v@);
    proof {
        lemma_index_of_char(v@, c, first as int);
    }
    (count, first)
}

/// Parses a stack branch name into `(username, stack_name)`. Entry branches
/// (`username/stack--entry`) are not stack branches.
pub fn parse_stack_branch(branch_name: &str) -> (r: Option<(String, String)>)
    ensures
        match r {
            Some((u, s)) => stack_branch_parts(branch_name@) == Some((u@, s@)),
            None => stack_branch_parts(branch_name@) is None,
        },
{
    let v = chars_of(branch_name);
    let (count, k) = scan_char(&v, '/');
    if count != 1 {
        return None;
    }
    proof {
        reveal_strlit("--");
    }
    let stack = string_of_range(&v, k + 1, v.len());
    let stack_v = chars_of(stack.as_str());
    if contains_exec(&stack_v, &chars_of("--")) {
        return None;
    }
    let user = string_of_range(&v, 0, k);
    assert(user@ =~= branch_name@.take(k as int));
    assert(stack@ =~= branch_name@.skip(k + 1));
    Some((user, stack))
}

/// Parses an entry branch name `username/stack_name--entry_id`.
pub fn parse_entry_branch(branch_name: &str) -> (r: Option<(String, String, String)>)
    ensures
        match r {
            Some((u, s, e)) => entry_branch_parts(branch_name@) == Some((u@, s@, e@)),
            None => entry_branch_parts(branch_name@) is None,
        },
{
    let v = chars_of(branch_name);
    let (count, k) = scan_char(&v, '/');
    if count != 1 {
        return None;
    }
    let rest = string_of_range(&v, k + 1, v.len());
    assert(rest@ =~= branch_name@.skip(k + 1));
    let rv = chars_of(rest.as_str());
    let sep = chars_of("--");
    proof {
        reveal_strlit("--");
    }
    let j = match find(&rv, &sep) {
        Some(j) => j,
        None => return None,
    };
    proof {
        lemma_first_index(rest@, "--"@, j as int);
    }
    let tail = string_of_range(&rv, j + 2, rv.len());
    let tv = chars_of(tail.as_str());
    if contains_exec(&tv, &sep) {
        return None;
    }
    let user = string_of_range(&v, 0, k);
    let stack = string_of_range(&rv, 0, j);
    assert(user@ =~= branch_name@.take(k as int));
    assert(stack@ =~= rest@.take(j as int));
    assert(tail@ =~= rest@.skip(j + 2));
    Some((user, stack, tail))
}

/// The stack branch `username/stack_name`.
pub fn format_stack_branch(username: &str, stack_name: &str) -> (r: String)
    ensures
        r@ == username@ + seq!['/'] + stack_name@,
{
    let mut s = String::new();
    push_str(&mut s, username);
    push_char(&mut s, '/');
    push_str(&mut s, stack_name);
    s
}

/// The entry branch `username/stack_name--entry_id`.
pub fn format_entry_branch(username: &str, stack_name: &str, entry_id: &str) -> (r: String)
    ensures
        r@ == username@ + seq!['/'] + stack_name@ + seq!['-', '-'] + entry_id@,
{
    let mut s = String::new();
    push_str(&mut s, username);
    push_char(&mut s, '/');
    push_str(&mut s, stack_name);
    push_char(&mut s, '-');
    push_char(&mut s, '-');
    push_str(&mut s, entry_id);
    s
}

/// The first of `names`, from `i` on, that is an entry branch of stack
/// `stack` of `username`.
pub open spec fn first_entry_branch(names: Seq<Seq<char>>, username: Seq<char>, stack: Seq<char>, i: int) -> Option<Seq<char>>
    decreases names.len() - i,
{
    if i < 0 || i >= names.len() {
        None
    } else if entry_branch_parts(names[i]) matches Some((u, s, _e)) && u == username && s == stack {
        Some(names[i])
    } else {
        first_entry_branch(names, username, stack, i + 1)
    }
}

/// The first of the local branches `branch_names` that is an entry branch
/// (`username/stack_name--<id>`) of the stack.
pub fn find_entry_branch_for_stack(branch_names: &Vec<String>, username: &str, stack_name: &str) -> (r: Option<String>)
    ensures
        opt_view(r) == first_entry_branch(views(branch_names@), username@, stack_name@, 0),
{
    let ghost names = views(branch_names@);
    let mut i: usize = 0;
    while i < branch_names.len()
        invariant
            i <= branch_names@.len(),
            names == views(branch_names@),
            first_entry_branch(names, username@, stack_name@, 0) == first_entry_branch(names, username@, stack_name@, i as int),
        decreases branch_names.len() - i,
    {
        let name = branch_names[i].as_str();
        proof {
            assert(names[i as int] == name@);
        }
        match parse_entry_branch(name) {
            Some((u, s, _e)) => {
                if str_eq(u.as_str(), username) && str_eq(s.as_str(), stack_name) {
                    return Some(string_of(&chars_of(name)));
                }
            },
            None => {},
        }
        i = i + 1;
    }
    None
}

// ---------------------------------------------------------------------------
// Stack names and branch usernames
// ---------------------------------------------------------------------------

/// Characters that git forbids in ref names (besides space and controls),
/// in the order in which they are checked.
pub open spec fn invalid_ref_chars() -> Seq<char> {
    seq!['~', '^', ':', '?', '*', '[', '\\', '@']
}

/// The first character of `invalid_ref_chars()[i..]` that occurs in `s`.
pub open spec fn first_invalid_char_from(s: Seq<char>, i: int) -> Option<char>
    decreases 8 - i,
{
    if i < 0 || i >= 8 {
        None
    } else if s.contains(invalid_ref_chars()[i]) {
        Some(invalid_ref_chars()[i])
    } else {
        first_invalid_char_from(s, i + 1)
    }
}

/// Whether some character of `s` is a control character.
pub open spec fn has_ctrl(s: Seq<char>) -> bool {
    exists|i: int| 0 <= i < s.len() && is_ctrl(#[trigger] s[i])
}

/// Whether some character of `s` is whitespace.
pub open spec fn has_ws(s: Seq<char>) -> bool {
    exists|i: int| 0 <= i < s.len() && is_ws(#[trigger] s[i])
}

/// Whether `s` starts or ends with a dot.
pub open spec fn dot_at_edge(s: Seq<char>) -> bool {
    s.len() > 0 && (s[0] == '.' || s.last() == '.')
}

/// `s` with every space turned into a hyphen.
pub open spec fn spaces_to_hyphens(s: Seq<char>) -> Seq<char> {
    s.map_values(|c: char| if c == ' ' { '-' } else { c })
}

/// The message `<subject> cannot contain '<c>'`.
pub open spec fn cannot_contain_msg(subject: Seq<char>, c: char) -> Seq<char> {
    subject + " cannot contain '"@ + seq![c] + seq!['\'']
}

/// Why a (space-converted) stack name is rejected, checked in order; `None`
/// when it is accepted.
pub open spec fn stack_name_problem(s: Seq<char>) -> Option<Seq<char>> {
    if s.contains('/') {
        Some("Stack name cannot contain '/' (conflicts with branch format)"@)
    } else if contains(s, "--"@) {
        Some("Stack name cannot contain '--' (conflicts with entry branch format)"@)
    } else if first_invalid_char_from(s, 0) is Some {
        Some(cannot_contain_msg("Stack name"@, first_invalid_char_from(s, 0)->0))
    } else if has_ctrl(s) {
        Some("Stack name cannot contain control characters"@)
    } else if contains(s, ".."@) {
        Some("Stack name cannot contain '..'"@)
    } else if dot_at_edge(s) {
        Some("Stack name cannot start or end with '.'"@)
    } else if ends_with(s, ".lock"@) {
        Some("Stack name cannot end with '.lock'"@)
    } else if forall|i: int| 0 <= i < s.len() ==> s[i] == '-' {
        Some("Stack name cannot be empty"@)
    } else {
        None
    }
}

/// Why a branch username is rejected, checked in order; `None` when valid.
pub open spec fn username_problem(u: Seq<char>) -> Option<Seq<char>> {
    if u.len() == 0 {
        Some("Branch username cannot be empty"@)
    } else if u.contains('/') {
        Some("Branch username cannot contain '/'"@)
    } else if has_ws(u) {
        Some("Branch username cannot contain whitespace"@)
    } else if first_invalid_char_from(u, 0) is Some {
        Some(cannot_contain_msg("Branch username"@, first_invalid_char_from(u, 0)->0))
    } else if has_ctrl(u) {
        Some("Branch username cannot contain control characters"@)
    } else if contains(u, ".."@) {
        Some("Branch username cannot contain '..'"@)
    } else if dot_at_edge(u) {
        Some("Branch username cannot start or end with '.'"@)
    } else if ends_with(u, ".lock"@) {
        Some("Branch username cannot end with '.lock'"@)
    } else {
        None
    }
}

/// Whether `c` occurs in `v`.
pub fn has_char(v: &Vec<char>, c: char) -> (b: bool)
    ensures
        b == v@.contains(c),
{
    let mut i: usize = 0;
    while i < v.len()
        invariant
            i <= v.len(),
            forall|j: int| 0 <= j < i ==> v@[j] != c,
        decreases v.len() - i,
    {
        if v[i] == c {
            return true;
        }
        i = i + 1;
    }
    false
}

fn any_ctrl(v: &Vec<char>) -> (b: bool)
    ensures
        b == has_ctrl(v@),
{
    let mut i: usize = 0;
    while i < v.len()
        invariant
            i <= v.len(),
            forall|j: int| 0 <= j < i ==> !is_ctrl(v@[j]),
        decreases v.len() - i,
    {
        if is_ctrl_exec(v[i]) {
            return true;
        }
        i = i + 1;
    }
    false
}

fn any_ws(v: &Vec<char>) -> (b: bool)
    ensures
        b == has_ws(v@),
{
    let mut i: usize = 0;
    while i < v.len()
        invariant
            i <= v.len(),
            forall|j: int| 0 <= j < i ==> !is_ws(v@[j]),
        decreases v.len() - i,
    {
        if is_ws_exec(v[i]) {
            return true;
        }
        i = i + 1;
    }
    false
}

fn all_hyphens(v: &Vec<char>) -> (b: bool)
    ensures
        b == forall|i: int| 0 <= i < v@.len() ==> v@[i] == '-',
{
    let mut i: usize = 0;
    while i < v.len()
        invariant
            i <= v.len(),
            forall|j: int| 0 <= j < i ==> v@[j] == '-',
        decreases v.len() - i,
    {
        if v[i] != '-' {
            return false;
        }
        i = i + 1;
    }
    true
}

fn first_invalid_char(v: &Vec<char>) -> (r: Option<char>)
    ensures
        r == first_invalid_char_from(v@, 0),
{
    let cs: Vec<char> = vec!['~', '^', ':', '?', '*', '[', '\\', '@'];
    assert(cs@ =~= invalid_ref_chars());
    let mut i: usize = 0;
    while i < cs.len()
        invariant
            cs@ == invalid_ref_chars(),
            i <= 8,
            first_invalid_char_from(v@, 0) == first_invalid_char_from(v@, i as int),
        decreases 8 - i,
    {
        if has_char(v, cs[i]) {
            return Some(cs[i]);
        }
        i = i + 1;
    }
    None
}

fn dot_at_edge_exec(v: &Vec<char>) -> (b: bool)
    ensures
        b == dot_at_edge(v@),
{
    v.len() > 0 && (v[0] == '.' || v[v.len() - 1] == '.')
}

fn cannot_contain_message(subject: &str, c: char) -> (r: String)
    ensures
        r@ == cannot_contain_msg(subject@, c),
{
    let mut s = String::new();
    push_str(&mut s, subject);
    push_str(&mut s, " cannot contain '");
    push_char(&mut s, c);
    push_char(&mut s, '\'');
    s
}

/// Sanitizes and validates a stack name: spaces become hyphens, and names
/// that would clash with the branch layout or with git's ref-name rules are
/// rejected with the reason.
pub fn sanitize_stack_name(name: &str) -> (r: Result<String, GgError>)
    ensures
        match r {
            Ok(s) => stack_name_problem(spaces_to_hyphens(name@)) is None && s@ == spaces_to_hyphens(
                name@,
            ),
            Err(e) => stack_name_problem(spaces_to_hyphens(name@)) matches Some(m) && e matches GgError::InvalidStackName(msg) && msg@ == m,
        },
{
    let v0 = chars_of(name);
    let mut v: Vec<char> = Vec::new();
    let mut i: usize = 0;
    while i < v0.len()
        invariant
            i <= v0.len(),
            v0@ == name@,
            v@ == spaces_to_hyphens(name@).take(i as int),
        decreases v0.len() - i,
    {
        let c = v0[i];
        v.push(if c == ' ' { '-' } else { c });
        i = i + 1;
        assert(v@ =~= spaces_to_hyphens(name@).take(i as int));
    }
    assert(v@ =~= spaces_to_hyphens(name@));
    proof {
        reveal_strlit("--");
        reveal_strlit("..");
        reveal_strlit(".lock");
    }
    if has_char(&v, '/') {
        return Err(
            GgError::InvalidStackName(
                String::from_str("Stack name cannot contain '/' (conflicts with branch format)"),
            ),
        );
    }
    if contains_exec(&v, &chars_of("--")) {
        return Err(
            GgError::InvalidStackName(
                String::from_str(
                    "Stack name cannot contain '--' (conflicts with entry branch format)",
                ),
            ),
        );
    }
    match first_invalid_char(&v) {
        Some(c) => {
            return Err(GgError::InvalidStackName(cannot_contain_message("Stack name", c)));
        },
        None => {},
    }
    if any_ctrl(&v) {
        return Err(
            GgError::InvalidStackName(
                String::from_str("Stack name cannot contain control characters"),
            ),
        );
    }
    if contains_exec(&v, &chars_of("..")) {
        return Err(GgError::InvalidStackName(String::from_str("Stack name cannot contain '..'")));
    }
    if dot_at_edge_exec(&v) {
        return Err(
            GgError::InvalidStackName(String::from_str("Stack name cannot start or end with '.'")),
        );
    }
    if ends_with_exec(&v, &chars_of(".lock")) {
        return Err(
            GgError::InvalidStackName(String::from_str("Stack name cannot end with '.lock'")),
        );
    }
    if all_hyphens(&v) {
        return Err(GgError::InvalidStackName(String::from_str("Stack name cannot be empty")));
    }
    Ok(string_of(&v))
}

proof fn lemma_no_invalid_char(s: Seq<char>, i: int)
    requires
        0 <= i <= 8,
    ensures
        first_invalid_char_from(s, i) is None <==> forall|j: int| i <= j < 8 ==> !s.contains(#[trigger] invalid_ref_chars()[j]),
    decreases 8 - i,
{
    if i < 8 {
        lemma_no_invalid_char(s, i + 1);
    }
}

/// A name followed by a hyphen and a number is an acceptable stack name for
/// every number as soon as it is for one: the checks see the name, the
/// hyphen and digits, and only the digits change.
pub proof fn lemma_numbered_name_valid(h: Seq<char>, a: nat, b: nat)
    requires
        stack_name_problem(h + seq!['-'] + dec(a)) is None,
    ensures
        stack_name_problem(h + seq!['-'] + dec(b)) is None,
{
    let sa = h + seq!['-'] + dec(a);
    let sb = h + seq!['-'] + dec(b);
    let k = h.len() + 1;
    lemma_dec_digits(a);
    lemma_dec_digits(b);
    lemma_dec_len(a);
    lemma_dec_len(b);
    reveal_strlit("--");
    reveal_strlit("..");
    reveal_strlit(".lock");
    assert forall|i: int| 0 <= i < k implies #[trigger] sb[i] == sa[i] by {
        if i < h.len() {
            assert(sb[i] == h[i] && sa[i] == h[i]);
        } else {
            assert(sb[i] == '-' && sa[i] == '-');
        }
    }
    assert forall|i: int| k <= i < sb.len() implies 48 <= (#[trigger] sb[i]) as int <= 57 by {
        assert(sb[i] == dec(b)[i - k]);
    }
    assert(sb.len() > k);
    assert(48 <= sb.last() as int <= 57) by {
        assert(sb.last() == sb[sb.len() - 1]);
    }
    // No '/', invalid character or control character: those are neither the
    // hyphen nor a digit, so they would stand in the name itself.
    assert forall|c: char| sb.contains(c) && (c as int) != 45 && !(48 <= (c as int) <= 57) implies sa.contains(c) by {
        let i = choose|i: int| 0 <= i < sb.len() && sb[i] == c;
        assert(i < k);
        assert(sa[i] == c);
    }
    assert(!sb.contains('/')) by {
        if sb.contains('/') {
            assert(sa.contains('/'));
        }
    }
    lemma_no_invalid_char(sa, 0);
    lemma_no_invalid_char(sb, 0);
    assert forall|j: int| 0 <= j < 8 implies !sb.contains(#[trigger] invalid_ref_chars()[j]) by {
        let c = invalid_ref_chars()[j];
        if sb.contains(c) {
            assert(sa.contains(c));
        }
    }
    assert(!has_ctrl(sb)) by {
        if has_ctrl(sb) {
            let i = choose|i: int| 0 <= i < sb.len() && is_ctrl(#[trigger] sb[i]);
            if i >= k {
                assert(48 <= sb[i] as int <= 57);
            }
            assert(sa[i] == sb[i]);
            assert(has_ctrl(sa));
        }
    }
    // No "--" or "..": a pair ending among the digits has a digit second.
    assert(!contains(sb, "--"@)) by {
        if contains(sb, "--"@) {
            let i = choose|i: int| occurs_at(sb, "--"@, i);
            assert(sb[i] == sb.subrange(i, i + 2)[0]);
            assert(sb[i + 1] == sb.subrange(i, i + 2)[1]);
            if i + 1 >= k {
                assert(48 <= sb[i + 1] as int <= 57);
            }
            assert(sa[i] == sb[i] && sa[i + 1] == sb[i + 1]);
            assert(sa.subrange(i, i + 2) =~= "--"@);
            assert(occurs_at(sa, "--"@, i));
        }
    }
    assert(!contains(sb, ".."@)) by {
        if contains(sb, ".."@) {
            let i = choose|i: int| occurs_at(sb, ".."@, i);
            assert(sb[i] == sb.subrange(i, i + 2)[0]);
            assert(sb[i + 1] == sb.subrange(i, i + 2)[1]);
            if i + 1 >= k {
                assert(48 <= sb[i + 1] as int <= 57);
            }
            assert(sa[i] == sb[i] && sa[i + 1] == sb[i + 1]);
            assert(sa.subrange(i, i + 2) =~= ".."@);
            assert(occurs_at(sa, ".."@, i));
        }
    }
    assert(!dot_at_edge(sb)) by {
        assert(sb[0] == sa[0]);
    }
    assert(!ends_with(sb, ".lock"@)) by {
        if ends_with(sb, ".lock"@) {
            assert(sb.subrange(sb.len() - 5, sb.len() as int)[4] == sb.last());
        }
    }
}

/// What to do next while taking the operation lock.
#[derive(Debug)]
pub enum LockStep {
    /// Try again after a short sleep.
    Wait,
    /// Go ahead: the lock is free (or taken).
    Acquire,
    /// Give up with this error.
    Fail(GgError),
}

/// The wait for git's `index.lock` (at `index_lock_path`): go ahead once it
/// is gone; while it exists, wait until `timeout_ms` have elapsed, then fail
/// with a git operation in progress.
pub fn index_lock_step(exists: bool, elapsed_ms: u64, timeout_ms: u64, index_lock_path: &str) -> (r: LockStep)
    ensures
        !exists ==> r is Acquire,
        exists && elapsed_ms < timeout_ms ==> r is Wait,
        exists && elapsed_ms >= timeout_ms ==> (r matches LockStep::Fail(GgError::GitOperationInProgress(a, b)) && a@
            == "git operation timed out"@ && b@ == index_lock_path@),
{
    if !exists {
        LockStep::Acquire
    } else if elapsed_ms >= timeout_ms {
        LockStep::Fail(GgError::GitOperationInProgress(owned("git operation timed out"), owned(index_lock_path)))
    } else {
        LockStep::Wait
    }
}

/// The message when another gg operation holds the lock for too long.
pub open spec fn lock_busy_message(lock_info: Seq<char>, lock_path: Seq<char>) -> Seq<char> {
    "Another gg operation is currently running.\nLock info:\n"@ + trim(lock_info)
        + "\nIf no other gg process is running, the lock may be stale.\nYou can manually remove: "@ + lock_path
}

/// The wait for gg's own `operation.lock` (at `lock_path`): go ahead when
/// it could be locked; while another process holds it, wait until
/// `timeout_ms` have elapsed, then fail quoting what the lock file says
/// (`lock_info`, "unknown operation" when it cannot be read).
pub fn operation_lock_step(would_block: bool, elapsed_ms: u64, timeout_ms: u64, lock_info: Option<&str>, lock_path: &str) -> (r: LockStep)
    ensures
        !would_block ==> r is Acquire,
        would_block && elapsed_ms < timeout_ms ==> r is Wait,
        would_block && elapsed_ms >= timeout_ms ==> (r matches LockStep::Fail(GgError::Other(m)) && m@
            == lock_busy_message(
            match lock_info {
                Some(i) => i@,
                None => "unknown operation"@,
            },
            lock_path@,
        )),
{
    if !would_block {
        return LockStep::Acquire;
    }
    if elapsed_ms < timeout_ms {
        return LockStep::Wait;
    }
    let info = match lock_info {
        Some(i) => trimmed(i),
        None => trimmed("unknown operation"),
    };
    let mut m = String::new();
    push_str(&mut m, "Another gg operation is currently running.\nLock info:\n");
    push_str(&mut m, info.as_str());
    push_str(&mut m, "\nIf no other gg process is running, the lock may be stale.\nYou can manually remove: ");
    push_str(&mut m, lock_path);
    LockStep::Fail(GgError::Other(m))
}

/// What the lock file records of the operation holding it.
pub fn lock_info_text(operation: &str, pid: u32) -> (r: String)
    ensures
        r@ == "operation: "@ + operation@ + seq!['\n'] + "pid: "@ + dec(pid as nat) + seq!['\n'],
{
    let mut m = String::new();
    push_str(&mut m, "operation: ");
    push_str(&mut m, operation);
    push_char(&mut m, '\n');
    push_str(&mut m, "pid: ");
    push_str(&mut m, dec_string(pid as u64).as_str());
    push_char(&mut m, '\n');
    m
}

/// Validates the username used as the first component of branch names.
pub fn validate_branch_username(username: &str) -> (r: Result<(), GgError>)
    ensures
        match r {
            Ok(_) => username_problem(username@) is None,
            Err(e) => username_problem(username@) matches Some(m) && e matches GgError::InvalidBranchUsername(msg) && msg@ == m,
        },
{
    let v = chars_of(username);
    proof {
        reveal_strlit("..");
        reveal_strlit(".lock");
    }
    if v.len() == 0 {
        return Err(
            GgError::InvalidBranchUsername(String::from_str("Branch username cannot be empty")),
        );
    }
    if has_char(&v, '/') {
        return Err(
            GgError::InvalidBranchUsername(String::from_str("Branch username cannot contain '/'")),
        );
    }
    if any_ws(&v) {
        return Err(
            GgError::InvalidBranchUsername(
                String::from_str("Branch username cannot contain whitespace"),
            ),
        );
    }
    match first_invalid_char(&v) {
        Some(c) => {
            return Err(
                GgError::InvalidBranchUsername(cannot_contain_message("Branch username", c)),
            );
        },
        None => {},
    }
    if any_ctrl(&v) {
        return Err(
            GgError::InvalidBranchUsername(
                String::from_str("Branch username cannot contain control characters"),
            ),
        );
    }
    if contains_exec(&v, &chars_of("..")) {
        return Err(
            GgError::InvalidBranchUsername(String::from_str("Branch username cannot contain '..'")),
        );
    }
    if dot_at_edge_exec(&v) {
        return Err(
            GgError::InvalidBranchUsername(
                String::from_str("Branch username cannot start or end with '.'"),
            ),
        );
    }
    if ends_with_exec(&v, &chars_of(".lock")) {
        return Err(
            GgError::InvalidBranchUsername(
                String::from_str("Branch username cannot end with '.lock'"),
            ),
        );
    }
    Ok(())
}

// ---------------------------------------------------------------------------
// GG-ID values
// ---------------------------------------------------------------------------

/// A hexadecimal digit, in either case.
pub open spec fn is_hex_ci(c: char) -> bool {
    ('0' <= c && c <= '9') || ('a' <= c && c <= 'f') || ('A' <= c && c <= 'F')
}

/// A lowercase hexadecimal digit.
pub open spec fn is_hex_lower(c: char) -> bool {
    ('0' <= c && c <= '9') || ('a' <= c && c <= 'f')
}

/// The shape of a GG-ID, ignoring case: `c-` and seven hex digits.
pub open spec fn is_gg_id_shape(s: Seq<char>) -> bool {
    &&& s.len() == 9
    &&& (s[0] == 'c' || s[0] == 'C')
    &&& s[1] == '-'
    &&& forall|i: int| 2 <= i < 9 ==> is_hex_ci(#[trigger] s[i])
}

/// A GG-ID in canonical (lowercase) form.
pub open spec fn is_canonical_gg_id(s: Seq<char>) -> bool {
    &&& s.len() == 9
    &&& s[0] == 'c'
    &&& s[1] == '-'
    &&& forall|i: int| 2 <= i < 9 ==> is_hex_lower(#[trigger] s[i])
}

/// The canonical form of a GG-ID, or `None` when `s` is not one.
pub open spec fn normalized_gg_id(s: Seq<char>) -> Option<Seq<char>> {
    if is_gg_id_shape(s) {
        Some(ascii_lower_seq(s))
    } else {
        None
    }
}

/// `Regex::is_match` with the pattern `(?i)^c-[0-9a-f]{7}$`: the whole text
/// is `c` or `C`, a hyphen, and seven hex digits of either case.
#[verifier::external_body]
fn matches_gg_id_pattern(s: &str) -> (b: bool)
    ensures
        b == is_gg_id_shape(s@),
{
    regex::Regex::new(r"(?i)^c-[0-9a-f]{7}$").unwrap().is_match(s)
}

/// Validates a GG-ID (`c-` and seven hex digits, any case) and returns it
/// in lowercase.
pub fn normalize_gg_id(gg_id: &str) -> (r: Option<String>)
    ensures
        match r {
            Some(x) => normalized_gg_id(gg_id@) == Some(x@),
            None => normalized_gg_id(gg_id@) is None,
        },
{
    if !matches_gg_id_pattern(gg_id) {
        return None;
    }
    let v = chars_of(gg_id);
    let mut out = String::new();
    let mut i: usize = 0;
    while i < v.len()
        invariant
            i <= v.len(),
            v@ == gg_id@,
            out@ == ascii_lower_seq(gg_id@).take(i as int),
        decreases v.len() - i,
    {
        push_char(&mut out, ascii_lower_exec(v[i]));
        i = i + 1;
        assert(out@ =~= ascii_lower_seq(gg_id@).take(i as int));
    }
    assert(out@ =~= ascii_lower_seq(gg_id@));
    Some(out)
}

/// A canonical GG-ID is its own normal form.
pub proof fn lemma_normalize_canonical(s: Seq<char>)
    requires
        is_canonical_gg_id(s),
    ensures
        normalized_gg_id(s) == Some(s),
{
    assert(ascii_lower_seq(s) =~= s);
}

/// Normalizing is idempotent: a normalized GG-ID normalizes to itself.
pub proof fn lemma_normalize_idempotent(s: Seq<char>)
    requires
        normalized_gg_id(s) is Some,
    ensures
        is_canonical_gg_id(normalized_gg_id(s)->0),
        normalized_gg_id(normalized_gg_id(s)->0) == normalized_gg_id(s),
{
    let t = ascii_lower_seq(s);
    assert forall|i: int| 2 <= i < 9 implies is_hex_lower(#[trigger] t[i]) by {
        assert(is_hex_ci(s[i]));
    }
    lemma_normalize_canonical(t);
}

/// A random UUID (version 4) in hyphenated form, as `Uuid::new_v4()` and its
/// `Display` give it: 36 characters, hyphens at 8, 13, 18 and 23, lowercase
/// hex digits elsewhere. Which digits come out is left open: they are random.
#[verifier::external_body]
fn new_uuid_v4_string() -> (r: String)
    ensures
        r@.len() == 36,
        forall|i: int|
            0 <= i < 36 ==> (if i == 8 || i == 13 || i == 18 || i == 23 {
                r@[i] == '-'
            } else {
                is_hex_lower(#[trigger] r@[i])
            }),
{
    uuid::Uuid::new_v4().to_string()
}

/// A fresh GG-ID: `c-` and the first seven hex digits of a random UUID.
pub fn generate_gg_id() -> (r: String)
    ensures
        is_canonical_gg_id(r@),
{
    let u = new_uuid_v4_string();
    let uv = chars_of(u.as_str());
    let mut out = String::new();
    push_char(&mut out, 'c');
    push_char(&mut out, '-');
    push_range(&mut out, &uv, 0, 7);
    proof {
        assert forall|i: int| 2 <= i < 9 implies is_hex_lower(#[trigger] out@[i]) by {
            assert(out@[i] == u@[i - 2]);
            assert(is_hex_lower(u@[i - 2]));
        }
    }
    out
}

// ---------------------------------------------------------------------------
// Trailers in commit messages
// ---------------------------------------------------------------------------

// The trailer patterns are fixed, so what they match is stated here. In
// them, `(?i)` folds the letters of `GG-ID` and `GG-Parent` to their ASCII
// other case only (the simple case folding of these letters), `\s` is a
// character with the Unicode `White_Space` property, `.` any character but
// `\n`, and the match is the leftmost one, with the greedy `\s*` giving
// back as little as it must, as the `regex` crate documents.

/// `prefix` (ASCII letters in either case) occurs in `s` at `i`.
pub open spec fn ci_at(s: Seq<char>, prefix: Seq<char>, i: int) -> bool {
    &&& 0 <= i && i + prefix.len() <= s.len()
    &&& forall|k: int| 0 <= k < prefix.len() ==> ascii_lower(#[trigger] s[i + k]) == ascii_lower(prefix[k])
}

/// `i` starts a line of `s` (multi-line `^`).
pub open spec fn line_start(s: Seq<char>, i: int) -> bool {
    i == 0 || (0 < i <= s.len() && s[i - 1] == '\n')
}

/// The end of the run of whitespace in `s` from `j` on.
pub open spec fn ws_end(s: Seq<char>, j: int) -> int
    decreases s.len() - j,
{
    if j < 0 || j >= s.len() || !is_ws(s[j]) {
        j
    } else {
        ws_end(s, j + 1)
    }
}

/// The last index in `[j, k]` whose character is not `\n`.
pub open spec fn last_non_nl(s: Seq<char>, j: int, k: int) -> Option<int>
    decreases k + 1 - j,
{
    if k < j {
        None
    } else if s[k] != '\n' {
        Some(k)
    } else {
        last_non_nl(s, j, k - 1)
    }
}

/// The first `\n` of `s` from `b` on, or the end.
pub open spec fn next_nl(s: Seq<char>, b: int) -> int
    decreases s.len() - b,
{
    if b < 0 || b >= s.len() || s[b] == '\n' {
        if b < 0 { 0 } else { b }
    } else {
        next_nl(s, b + 1)
    }
}

/// Where `.+` starts after `\s*` from `j`, in multi-line mode: after the
/// whitespace when something follows it, else at the last character of the
/// run that is not a newline.
pub open spec fn body_start(s: Seq<char>, j: int) -> Option<int> {
    let w = ws_end(s, j);
    if w < s.len() {
        Some(w)
    } else {
        last_non_nl(s, j, s.len() - 1)
    }
}

/// The end of the match of `^<prefix>\s*.+$` (multi-line) starting at `i`.
pub open spec fn trailer_end(s: Seq<char>, prefix: Seq<char>, i: int) -> Option<int> {
    if line_start(s, i) && ci_at(s, prefix, i) {
        match body_start(s, i + prefix.len()) {
            Some(b) => Some(next_nl(s, b)),
            None => None,
        }
    } else {
        None
    }
}

/// The start of the first match of `^<prefix>\s*.+$` (multi-line) from `i` on.
pub open spec fn first_trailer(s: Seq<char>, prefix: Seq<char>, i: int) -> Option<int>
    decreases s.len() + 1 - i,
{
    if i < 0 || i > s.len() {
        None
    } else if trailer_end(s, prefix, i) is Some {
        Some(i)
    } else {
        first_trailer(s, prefix, i + 1)
    }
}

/// Group 1 of `(?i)^<prefix>\s*(.+)$` on `line` (no multi-line: `^` and
/// `$` are the ends of the text, and `.+` runs to the end).
pub open spec fn line_capture(line: Seq<char>, prefix: Seq<char>) -> Option<Seq<char>> {
    if !ci_at(line, prefix, 0) {
        None
    } else {
        let w = ws_end(line, prefix.len() as int);
        let b = if w < line.len() { w } else { line.len() - 1 };
        if b >= prefix.len() && next_nl(line, b) == line.len() {
            Some(line.skip(b))
        } else {
            None
        }
    }
}

/// Everything from `i` on, with each match of `^<prefix>\s*.+\n?`
/// (multi-line) removed, scanning left to right.
pub open spec fn trailers_removed_from(s: Seq<char>, prefix: Seq<char>, i: int) -> Seq<char>
    decreases s.len() - i,
{
    if i < 0 || i >= s.len() {
        seq![]
    } else {
        match trailer_end(s, prefix, i) {
            Some(e) => {
                let e2 = if e < s.len() && s[e] == '\n' { e + 1 } else { e };
                if i < e2 <= s.len() {
                    trailers_removed_from(s, prefix, e2)
                } else {
                    seq![s[i]] + trailers_removed_from(s, prefix, i + 1)
                }
            },
            None => seq![s[i]] + trailers_removed_from(s, prefix, i + 1),
        }
    }
}

/// The group-1 capture of `(?i)^GG-ID:\s*(.+)$` on one line.
pub open spec fn gg_id_line_capture(line: Seq<char>) -> Option<Seq<char>> {
    line_capture(line, GG_ID_PREFIX@)
}

/// The group-1 capture of `(?i)^GG-Parent:\s*(.+)$` on one line.
pub open spec fn gg_parent_line_capture(line: Seq<char>) -> Option<Seq<char>> {
    line_capture(line, GG_PARENT_PREFIX@)
}

/// Whether `(?im)^GG-ID:\s*.+$` matches somewhere in the message.
pub open spec fn gg_id_trailer_present(message: Seq<char>) -> bool {
    first_trailer(message, GG_ID_PREFIX@, 0) is Some
}

/// The message with the first match of `(?im)^GG-ID:\s*.+$` replaced by
/// `replacement` taken literally (it holds no `$`, so nothing expands).
pub open spec fn first_trailer_replaced(message: Seq<char>, replacement: Seq<char>) -> Seq<char> {
    match first_trailer(message, GG_ID_PREFIX@, 0) {
        Some(i) => message.take(i) + replacement + message.skip(trailer_end(message, GG_ID_PREFIX@, i)->0),
        None => message,
    }
}

/// `Regex::replace` of the first match of `(?im)^GG-ID:\s*.+$` with a
/// replacement that holds `$`, whose group references are expanded.
pub uninterp spec fn gg_id_trailer_expanded(message: Seq<char>, replacement: Seq<char>) -> Seq<char>;

/// The message with the first match of `(?im)^GG-ID:\s*.+$` replaced by
/// the expansion of `replacement`.
pub open spec fn gg_id_trailer_replaced(message: Seq<char>, replacement: Seq<char>) -> Seq<char> {
    if replacement.contains('$') {
        gg_id_trailer_expanded(message, replacement)
    } else {
        first_trailer_replaced(message, replacement)
    }
}

/// The message with every match of `(?im)^GG-ID:\s*.+\n?` removed.
pub open spec fn gg_id_trailers_removed(message: Seq<char>) -> Seq<char> {
    trailers_removed_from(message, GG_ID_PREFIX@, 0)
}

/// The message with every match of `(?im)^GG-Parent:\s*.+\n?` removed.
pub open spec fn gg_parent_trailers_removed(message: Seq<char>) -> Seq<char> {
    trailers_removed_from(message, GG_PARENT_PREFIX@, 0)
}

/// Group 1 (the `.+`) of the match of `(?im)^<prefix>\s*(.+)$` at `i`.
pub open spec fn trailer_capture_at(s: Seq<char>, prefix: Seq<char>, i: int) -> Seq<char> {
    let b = body_start(s, i + prefix.len())->0;
    s.subrange(b, next_nl(s, b))
}

/// The group-1 capture of the first match of `(?im)^GG-Parent:\s*(.+)$`.
pub open spec fn first_gg_parent_capture(message: Seq<char>) -> Option<Seq<char>> {
    match first_trailer(message, GG_PARENT_PREFIX@, 0) {
        Some(i) => Some(trailer_capture_at(message, GG_PARENT_PREFIX@, i)),
        None => None,
    }
}

proof fn lemma_trim_end_prefix(s: Seq<char>)
    ensures
        trim_end(s).len() <= s.len(),
        trim_end(s) == s.take(trim_end(s).len() as int),
    decreases s.len(),
{
    if s.len() > 0 && is_ws(s.last()) {
        lemma_trim_end_prefix(s.drop_last());
        assert(s.drop_last().take(trim_end(s).len() as int) =~= s.take(trim_end(s).len() as int));
    } else {
        assert(s.take(s.len() as int) =~= s);
    }
}

proof fn lemma_ws_end(s: Seq<char>, j: int)
    requires
        0 <= j <= s.len(),
    ensures
        j <= ws_end(s, j) <= s.len(),
        forall|p: int| j <= p < ws_end(s, j) ==> is_ws(#[trigger] s[p]),
        ws_end(s, j) == s.len() || !is_ws(s[ws_end(s, j)]),
    decreases s.len() - j,
{
    if j < s.len() && is_ws(s[j]) {
        lemma_ws_end(s, j + 1);
    }
}

proof fn lemma_next_nl_is(s: Seq<char>, b: int, q: int)
    requires
        0 <= b <= q <= s.len(),
        forall|p: int| b <= p < q ==> #[trigger] s[p] != '\n',
        q == s.len() || s[q] == '\n',
    ensures
        next_nl(s, b) == q,
    decreases q - b,
{
    if b < q {
        lemma_next_nl_is(s, b + 1, q);
    }
}

proof fn lemma_next_nl(s: Seq<char>, b: int)
    requires
        0 <= b <= s.len(),
    ensures
        b <= next_nl(s, b) <= s.len(),
        next_nl(s, b) == s.len() || s[next_nl(s, b)] == '\n',
    decreases s.len() - b,
{
    if b < s.len() && s[b] != '\n' {
        lemma_next_nl(s, b + 1);
    }
}

proof fn lemma_first_trailer_none(s: Seq<char>, prefix: Seq<char>, i: int, k: int)
    requires
        0 <= i <= k <= s.len(),
        first_trailer(s, prefix, i) is None,
    ensures
        trailer_end(s, prefix, k) is None,
    decreases k - i,
{
    if i < k {
        lemma_first_trailer_none(s, prefix, i + 1, k);
    }
}

proof fn lemma_first_trailer_range(s: Seq<char>, prefix: Seq<char>, i: int)
    requires
        0 <= i,
    ensures
        first_trailer(s, prefix, i) matches Some(x) ==> i <= x <= s.len(),
    decreases s.len() + 1 - i,
{
    if i <= s.len() && trailer_end(s, prefix, i) is None {
        lemma_first_trailer_range(s, prefix, i + 1);
    }
}

proof fn lemma_first_trailer_some(s: Seq<char>, prefix: Seq<char>, i: int, k: int)
    requires
        0 <= i <= k <= s.len(),
        first_trailer(s, prefix, i) == Some(k),
    ensures
        trailer_end(s, prefix, k) is Some,
        forall|q: int| i <= q < k ==> trailer_end(s, prefix, q) is None,
    decreases k - i,
{
    lemma_first_trailer_range(s, prefix, i + 1);
    if i < k {
        lemma_first_trailer_some(s, prefix, i + 1, k);
    }
}

proof fn lemma_first_trailer_is(s: Seq<char>, prefix: Seq<char>, i: int, k: int)
    requires
        0 <= i <= k <= s.len(),
        trailer_end(s, prefix, k) is Some,
        forall|q: int| i <= q < k ==> trailer_end(s, prefix, q) is None,
    ensures
        first_trailer(s, prefix, i) == Some(k),
    decreases k - i,
{
    if i < k {
        lemma_first_trailer_is(s, prefix, i + 1, k);
    }
}

/// A prefix that starts a line and is followed by some non-space text
/// begins a trailer.
proof fn lemma_trailer_found(s: Seq<char>, prefix: Seq<char>, k: int, q: int)
    requires
        line_start(s, k),
        ci_at(s, prefix, k),
        k + prefix.len() <= q < s.len(),
        !is_ws(s[q]),
    ensures
        trailer_end(s, prefix, k) is Some,
{
    lemma_ws_end(s, k + prefix.len());
    if ws_end(s, k + prefix.len()) > q {
        assert(is_ws(s[q]));
    }
}

/// The value of the first GG-ID trailer of a message, by the pattern
/// `(?im)^GG-ID:\s*(.+)$`.
pub open spec fn first_gg_id_capture(message: Seq<char>) -> Option<Seq<char>> {
    match first_trailer(message, GG_ID_PREFIX@, 0) {
        Some(i) => Some(trailer_capture_at(message, GG_ID_PREFIX@, i)),
        None => None,
    }
}

/// Every `GG-ID:` (in any case) that starts a line of `m` is followed by
/// some text, so it is a trailer.
pub open spec fn id_prefixes_are_trailers(m: Seq<char>) -> bool {
    forall|k: int| line_start(m, k) && ci_at(m, GG_ID_PREFIX@, k) ==> (#[trigger] trailer_end(m, GG_ID_PREFIX@, k)) is Some
}

proof fn lemma_new_trailer_line(r: Seq<char>, i: int, id: Seq<char>)
    requires
        is_canonical_gg_id(id),
        0 <= i,
        i + 16 <= r.len(),
        line_start(r, i),
        r.subrange(i, i + 16) == GG_ID_PREFIX@ + seq![' '] + id,
        i + 16 == r.len() || r[i + 16] == '\n',
    ensures
        trailer_end(r, GG_ID_PREFIX@, i) is Some,
        trailer_capture_at(r, GG_ID_PREFIX@, i) == id,
{
    reveal_strlit("GG-ID:");
    let line = GG_ID_PREFIX@ + seq![' '] + id;
    assert forall|k: int| 0 <= k < 16 implies r[i + k] == #[trigger] line[k] by {
        assert(r.subrange(i, i + 16)[k] == r[i + k]);
    }
    assert(ci_at(r, GG_ID_PREFIX@, i)) by {
        assert forall|k: int| 0 <= k < 6 implies ascii_lower(#[trigger] r[i + k]) == ascii_lower(GG_ID_PREFIX@[k]) by {
            assert(line[k] == GG_ID_PREFIX@[k]);
        }
    }
    assert(line[6] == ' ');
    assert(line[7] == 'c');
    assert(r[i + 6] == ' ');
    assert(r[i + 7] == 'c');
    assert(is_ws(r[i + 6]));
    assert(!is_ws(r[i + 7]));
    assert(ws_end(r, i + 8) == i + 7 || ws_end(r, i + 7) == i + 7);
    assert(ws_end(r, i + 6) == i + 7);
    assert forall|p: int| i + 7 <= p < i + 16 implies #[trigger] r[p] != '\n' by {
        assert(r[p] == line[p - i]);
        assert(line[p - i] == id[p - i - 7]);
        if p - i - 7 >= 2 {
            assert(is_hex_lower(id[p - i - 7]));
        }
    }
    lemma_next_nl_is(r, i + 7, i + 16);
    assert(r.subrange(i + 7, i + 16) =~= id) by {
        assert forall|p: int| 0 <= p < 9 implies r.subrange(i + 7, i + 16)[p] == id[p] by {
            assert(r[i + 7 + p] == line[7 + p]);
        }
    }
}

proof fn lemma_line_no_dollar(id: Seq<char>)
    requires
        is_canonical_gg_id(id),
    ensures
        !trailer_line(GG_ID_PREFIX@, id).contains('$'),
{
    reveal_strlit("GG-ID:");
    let line = trailer_line(GG_ID_PREFIX@, id);
    if line.contains('$') {
        let k = choose|k: int| 0 <= k < line.len() && line[k] == '$';
        if k >= 7 && k - 7 >= 2 {
            assert(is_hex_lower(id[k - 7]));
        }
    }
}

/// A prefix at a line start of `r` before `limit` lies wholly before it
/// when `r[limit - 1]` is a newline.
proof fn lemma_prefix_before_newline(r: Seq<char>, k: int, limit: int)
    requires
        ci_at(r, GG_ID_PREFIX@, k),
        0 <= k < limit,
        r[limit - 1] == '\n',
        limit <= r.len(),
    ensures
        k + 6 < limit,
{
    reveal_strlit("GG-ID:");
    if k + 6 >= limit {
        assert(ascii_lower(r[k + (limit - 1 - k)]) == ascii_lower(GG_ID_PREFIX@[limit - 1 - k]));
    }
}

proof fn lemma_set_gg_id_replace(m: Seq<char>, id: Seq<char>)
    requires
        is_canonical_gg_id(id),
        gg_id_trailer_present(m),
    ensures
        first_gg_id_capture(with_gg_id(m, id)) == Some(id),
{
    reveal_strlit("GG-ID:");
    let p = GG_ID_PREFIX@;
    let line = trailer_line(p, id);
    lemma_line_no_dollar(id);
    let r = with_gg_id(m, id);
    lemma_first_trailer_range(m, p, 0);
    let i = first_trailer(m, p, 0)->0;
    lemma_first_trailer_some(m, p, 0, i);
    let e = trailer_end(m, p, i)->0;
    let b = body_start(m, i + 6)->0;
    lemma_ws_end(m, i + 6);
    assert(i + 6 <= b <= m.len()) by {
        if ws_end(m, i + 6) >= m.len() {
            lemma_last_non_nl(m, i + 6, m.len() - 1);
        }
    }
    lemma_next_nl(m, b);
    assert(r == m.take(i) + line + m.skip(e));
    assert(r.subrange(i, i + 16) =~= line);
    assert(line_start(r, i)) by {
        if i > 0 {
            assert(r[i - 1] == m[i - 1]);
        }
    }
    if i + 16 < r.len() {
        assert(r[i + 16] == m[e]);
    }
    lemma_new_trailer_line(r, i, id);
    assert forall|k: int| 0 <= k < i implies trailer_end(r, p, k) is None by {
        if line_start(r, k) && ci_at(r, p, k) {
            assert(r[i - 1] == m[i - 1]);
            lemma_prefix_before_newline(r, k, i);
            assert(line_start(m, k)) by {
                if k > 0 {
                    assert(r[k - 1] == m[k - 1]);
                }
            }
            assert(ci_at(m, p, k)) by {
                assert forall|q: int| 0 <= q < 6 implies ascii_lower(#[trigger] m[k + q]) == ascii_lower(p[q]) by {
                    assert(r[k + q] == m[k + q]);
                }
            }
            assert(ascii_lower(m[i + 0]) == ascii_lower(p[0]));
            lemma_trailer_found(m, p, k, i);
        }
    }
    lemma_first_trailer_is(r, p, 0, i);
}

proof fn lemma_set_gg_id_append(m: Seq<char>, id: Seq<char>)
    requires
        is_canonical_gg_id(id),
        !gg_id_trailer_present(m),
        id_prefixes_are_trailers(m),
    ensures
        first_gg_id_capture(with_gg_id(m, id)) == Some(id),
{
    reveal_strlit("GG-ID:");
    let p = GG_ID_PREFIX@;
    let line = trailer_line(p, id);
    let r = with_gg_id(m, id);
    let t = trim_end(m);
    lemma_trim_end_prefix(m);
    let i: int = t.len() as int + 2;
    assert(r == t + seq!['\n', '\n'] + line);
    assert(r.subrange(i, i + 16) =~= line);
    lemma_new_trailer_line(r, i, id);
    assert forall|k: int| 0 <= k < i implies trailer_end(r, p, k) is None by {
        if line_start(r, k) && ci_at(r, p, k) {
            if k <= t.len() {
                lemma_prefix_before_newline(r, k, t.len() as int + 1);
            } else {
                lemma_prefix_before_newline(r, k, t.len() as int + 2);
            }
            assert(line_start(m, k)) by {
                if k > 0 {
                    assert(r[k - 1] == t[k - 1]);
                    assert(t[k - 1] == m[k - 1]);
                }
            }
            assert(ci_at(m, p, k)) by {
                assert forall|q: int| 0 <= q < 6 implies ascii_lower(#[trigger] m[k + q]) == ascii_lower(p[q]) by {
                    assert(r[k + q] == t[k + q]);
                    assert(t[k + q] == m[k + q]);
                }
            }
            assert(trailer_end(m, p, k) is Some);
            lemma_first_trailer_none(m, p, 0, k);
        }
    }
    lemma_first_trailer_is(r, p, 0, i);
}

/// A fixed trailer prefix: no newline or whitespace in it.
pub open spec fn plain_prefix(prefix: Seq<char>) -> bool {
    prefix.len() > 0 && forall|k: int| 0 <= k < prefix.len() ==> !is_ws(ascii_lower(#[trigger] prefix[k]))
        && ascii_lower(prefix[k]) != '\n'
}

/// Every prefix that starts a line of `m` is followed by some text.
pub open spec fn prefixes_are_trailers(m: Seq<char>, prefix: Seq<char>) -> bool {
    forall|k: int| line_start(m, k) && ci_at(m, prefix, k) ==> (#[trigger] trailer_end(m, prefix, k)) is Some
}

/// `r` holds no prefix at a line start (its first index counting as one
/// when `first_is_start`).
pub open spec fn no_prefix_line(r: Seq<char>, prefix: Seq<char>, first_is_start: bool) -> bool {
    forall|k: int| ((k == 0 && first_is_start) || (0 < k <= r.len() && r[k - 1] == '\n')) ==> !#[trigger] ci_at(r, prefix, k)
}

proof fn lemma_removed_contiguous(s: Seq<char>, prefix: Seq<char>, i: int, j: int)
    requires
        0 <= i <= j <= s.len(),
        forall|q: int| i <= q < j ==> trailer_end(s, prefix, q) is None,
    ensures
        trailers_removed_from(s, prefix, i) == s.subrange(i, j) + trailers_removed_from(s, prefix, j),
    decreases j - i,
{
    if i < j {
        lemma_removed_contiguous(s, prefix, i + 1, j);
        assert(s.subrange(i, j) =~= seq![s[i]] + s.subrange(i + 1, j));
    } else {
        assert(s.subrange(i, j) =~= Seq::<char>::empty());
    }
}

proof fn lemma_trailer_end_after(s: Seq<char>, prefix: Seq<char>, i: int)
    requires
        0 <= i,
        prefix.len() > 0,
        trailer_end(s, prefix, i) is Some,
    ensures
        i < trailer_end(s, prefix, i)->0 <= s.len(),
        trailer_end(s, prefix, i)->0 == s.len() || s[trailer_end(s, prefix, i)->0] == '\n',
{
    let j = i + prefix.len();
    lemma_ws_end(s, j);
    let b = body_start(s, j)->0;
    assert(j <= b <= s.len()) by {
        if ws_end(s, j) >= s.len() {
            lemma_last_non_nl(s, j, s.len() - 1);
        }
    }
    lemma_next_nl(s, b);
}

/// Removing every trailer of `s` from `i` on leaves no prefix at a line
/// start, when every prefix at a line start of `s` is a trailer.
proof fn lemma_removed_no_prefix(s: Seq<char>, prefix: Seq<char>, i: int)
    requires
        0 <= i <= s.len(),
        plain_prefix(prefix),
        prefixes_are_trailers(s, prefix),
    ensures
        no_prefix_line(trailers_removed_from(s, prefix, i), prefix, line_start(s, i)),
    decreases s.len() - i,
{
    let r = trailers_removed_from(s, prefix, i);
    if i >= s.len() {
        return;
    }
    match trailer_end(s, prefix, i) {
        Some(e) => {
            lemma_trailer_end_after(s, prefix, i);
            let e2 = if e < s.len() && s[e] == '\n' { e + 1 } else { e };
            lemma_removed_no_prefix(s, prefix, e2);
            if e2 < s.len() {
                assert(line_start(s, e2));
            }
        },
        None => {
            lemma_removed_no_prefix(s, prefix, i + 1);
            let rest = trailers_removed_from(s, prefix, i + 1);
            assert(r == seq![s[i]] + rest);
            assert forall|k: int| ((k == 0 && line_start(s, i)) || (0 < k <= r.len() && r[k - 1] == '\n')) implies !#[trigger] ci_at(
                r,
                prefix,
                k,
            ) by {
                if ci_at(r, prefix, k) {
                    if k == 0 {
                        // The prefix would stand in `s` at `i`, unbroken: a
                        // trailer removed inside it would begin after a newline.
                        let n = prefix.len() as int;
                        let j = if i + n <= s.len() { i + n } else { s.len() as int };
                        if exists|q: int| i < q < j && trailer_end(s, prefix, q) is Some {
                            let q = choose|q: int| i < q < j && trailer_end(s, prefix, q) is Some;
                            lemma_first_hit(s, prefix, i, q);
                            let q0 = first_trailer(s, prefix, i)->0;
                            lemma_first_trailer_some(s, prefix, i, q0);
                            lemma_removed_contiguous(s, prefix, i, q0);
                            assert(r[q0 - 1 - i] == s[q0 - 1]);
                            assert(ascii_lower(r[0 + (q0 - 1 - i)]) == ascii_lower(prefix[q0 - 1 - i]));
                        } else {
                            assert(r.len() >= n);
                            if j < i + n {
                                lemma_removed_contiguous(s, prefix, i, j);
                                assert(trailers_removed_from(s, prefix, j) =~= Seq::<char>::empty());
                            } else {
                                lemma_removed_contiguous(s, prefix, i, j);
                            }
                            assert(ci_at(s, prefix, i)) by {
                                assert forall|q: int| 0 <= q < n implies ascii_lower(#[trigger] s[i + q]) == ascii_lower(prefix[q]) by {
                                    assert(r[0 + q] == s[i + q]);
                                }
                            }
                        }
                    } else if k == 1 {
                        assert(s[i] == '\n');
                        assert(line_start(s, i + 1));
                        assert(ci_at(rest, prefix, 0)) by {
                            assert forall|q: int| 0 <= q < prefix.len() implies ascii_lower(#[trigger] rest[0 + q]) == ascii_lower(prefix[q]) by {
                                assert(r[1 + q] == rest[q]);
                            }
                        }
                    } else {
                        assert(rest[k - 2] == '\n');
                        assert(ci_at(rest, prefix, k - 1)) by {
                            assert forall|q: int| 0 <= q < prefix.len() implies ascii_lower(#[trigger] rest[k - 1 + q]) == ascii_lower(prefix[q]) by {
                                assert(r[k + q] == rest[k - 1 + q]);
                            }
                        }
                    }
                }
            }
        },
    }
}

/// Some trailer in `(i, j)` means a first one from `i + 1` on, before `j`.
proof fn lemma_first_hit(s: Seq<char>, prefix: Seq<char>, i: int, q: int)
    requires
        0 <= i < q <= s.len(),
        trailer_end(s, prefix, i) is None,
        trailer_end(s, prefix, q) is Some,
    ensures
        first_trailer(s, prefix, i) matches Some(x) && i < x <= q,
    decreases q - i,
{
    lemma_first_trailer_range(s, prefix, i);
    if i + 1 < q && trailer_end(s, prefix, i + 1) is None {
        lemma_first_hit(s, prefix, i + 1, q);
    }
}

proof fn lemma_prefix_window(r: Seq<char>, prefix: Seq<char>, k: int, limit: int)
    requires
        plain_prefix(prefix),
        ci_at(r, prefix, k),
        0 <= k < limit <= r.len(),
        r[limit - 1] == '\n',
    ensures
        k + prefix.len() < limit,
{
    if k + prefix.len() >= limit {
        assert(ascii_lower(r[k + (limit - 1 - k)]) == ascii_lower(prefix[limit - 1 - k]));
    }
}

/// `prefix value` at `i`, on a line of its own, is a trailer whose value is
/// `value`, a GG-ID.
proof fn lemma_trailer_line_at(r: Seq<char>, prefix: Seq<char>, i: int, value: Seq<char>)
    requires
        plain_prefix(prefix),
        is_canonical_gg_id(value),
        0 <= i,
        i + prefix.len() + 10 <= r.len(),
        line_start(r, i),
        r.subrange(i, i + prefix.len() + 10) == prefix + seq![' '] + value,
        i + prefix.len() + 10 == r.len() || r[i + prefix.len() + 10] == '\n',
    ensures
        trailer_end(r, prefix, i) is Some,
        trailer_capture_at(r, prefix, i) == value,
{
    let n = prefix.len() as int;
    let line = prefix + seq![' '] + value;
    assert forall|k: int| 0 <= k < n + 10 implies r[i + k] == #[trigger] line[k] by {
        assert(r.subrange(i, i + n + 10)[k] == r[i + k]);
    }
    assert(ci_at(r, prefix, i)) by {
        assert forall|k: int| 0 <= k < n implies ascii_lower(#[trigger] r[i + k]) == ascii_lower(prefix[k]) by {
            assert(line[k] == prefix[k]);
        }
    }
    assert(line[n] == ' ');
    assert(line[n + 1] == 'c');
    assert(r[i + n] == ' ');
    assert(r[i + n + 1] == 'c');
    assert(is_ws(r[i + n]));
    assert(!is_ws(r[i + n + 1]));
    assert(ws_end(r, i + n + 1) == i + n + 1);
    assert(ws_end(r, i + n) == i + n + 1);
    assert forall|p: int| i + n + 1 <= p < i + n + 10 implies #[trigger] r[p] != '\n' by {
        assert(r[p] == line[p - i]);
        assert(line[p - i] == value[p - i - n - 1]);
        if p - i - n - 1 >= 2 {
            assert(is_hex_lower(value[p - i - n - 1]));
        }
    }
    lemma_next_nl_is(r, i + n + 1, i + n + 10);
    assert(r.subrange(i + n + 1, i + n + 10) =~= value) by {
        assert forall|p: int| 0 <= p < 9 implies r.subrange(i + n + 1, i + n + 10)[p] == value[p] by {
            assert(r[i + n + 1 + p] == line[n + 1 + p]);
        }
    }
}

/// A trailer line appended to text that holds no prefix at a line start is
/// the text's only trailer.
proof fn lemma_appended_trailer(t: Seq<char>, prefix: Seq<char>, value: Seq<char>, r: Seq<char>, pos: int)
    requires
        plain_prefix(prefix),
        no_prefix_line(t, prefix, true),
        is_canonical_gg_id(value),
        t.len() == 0 ==> r == prefix + seq![' '] + value && pos == 0,
        t.len() > 0 ==> r == t + seq!['\n', '\n'] + prefix + seq![' '] + value && pos == t.len() + 2,
    ensures
        first_trailer(r, prefix, 0) == Some(pos),
        trailer_capture_at(r, prefix, pos) == value,
        forall|k: int| k != pos ==> trailer_end(r, prefix, k) is None,
{
    let n = prefix.len() as int;
    let line = prefix + seq![' '] + value;
    assert(r.subrange(pos, pos + n + 10) =~= line);
    assert(r.len() == pos + n + 10);
    assert(line_start(r, pos));
    lemma_trailer_line_at(r, prefix, pos, value);
    assert forall|q: int| 0 <= q < n + 10 implies #[trigger] line[q] != '\n' by {
        if q < n {
            assert(line[q] == prefix[q]);
            assert(ascii_lower(prefix[q]) != '\n');
        } else if q >= n + 1 && q - n - 1 >= 2 {
            assert(is_hex_lower(value[q - n - 1]));
        }
    }
    assert forall|k: int| k != pos implies trailer_end(r, prefix, k) is None by {
        if line_start(r, k) && ci_at(r, prefix, k) {
            if k > pos {
                assert(r[k - 1] == line[k - 1 - pos]);
            } else {
                if k <= t.len() {
                    lemma_prefix_window(r, prefix, k, t.len() as int + 1);
                } else {
                    lemma_prefix_window(r, prefix, k, t.len() as int + 2);
                }
                assert(ci_at(t, prefix, k)) by {
                    assert forall|q: int| 0 <= q < n implies ascii_lower(#[trigger] t[k + q]) == ascii_lower(prefix[q]) by {
                        assert(r[k + q] == t[k + q]);
                    }
                }
                if k > 0 {
                    assert(r[k - 1] == t[k - 1]);
                }
                assert(!ci_at(t, prefix, k));
            }
        }
    }
    lemma_first_trailer_is(r, prefix, 0, pos);
}

/// Setting the GG-Parent of a message to `parent` leaves exactly one
/// GG-Parent trailer, and it reads `parent`: every earlier one is removed.
/// Every `GG-Parent:` at a line start of the message must be followed by
/// some text; otherwise it is not removed and `\s*` would run on into the
/// appended line.
pub proof fn lemma_set_gg_parent_then_read(m: Seq<char>, parent: Seq<char>)
    requires
        is_canonical_gg_id(parent),
        prefixes_are_trailers(m, GG_PARENT_PREFIX@),
    ensures
        first_gg_parent_capture(with_gg_parent(m, Some(parent))) == Some(parent),
        forall|k: int| #[trigger] trailer_end(with_gg_parent(m, Some(parent)), GG_PARENT_PREFIX@, k) is Some
            ==> Some(k) == first_trailer(with_gg_parent(m, Some(parent)), GG_PARENT_PREFIX@, 0),
{
    reveal_strlit("GG-Parent:");
    let p = GG_PARENT_PREFIX@;
    assert(plain_prefix(p)) by {
        assert forall|k: int| 0 <= k < p.len() implies !is_ws(ascii_lower(#[trigger] p[k])) && ascii_lower(p[k]) != '\n' by {
            assert(p[k] == "GG-Parent:"@[k]);
        }
    }
    let removed = gg_parent_trailers_removed(m);
    lemma_removed_no_prefix(m, p, 0);
    let t = trim_end(removed);
    lemma_trim_end_prefix(removed);
    assert(no_prefix_line(t, p, true)) by {
        assert forall|k: int| ((k == 0 && true) || (0 < k <= t.len() && t[k - 1] == '\n')) implies !#[trigger] ci_at(t, p, k) by {
            if ci_at(t, p, k) {
                assert(ci_at(removed, p, k)) by {
                    assert forall|q: int| 0 <= q < p.len() implies ascii_lower(#[trigger] removed[k + q]) == ascii_lower(p[q]) by {
                        assert(t[k + q] == removed[k + q]);
                    }
                }
                if k > 0 {
                    assert(t[k - 1] == removed[k - 1]);
                }
            }
        }
    }
    let r = with_gg_parent(m, Some(parent));
    let pos: int = if t.len() == 0 { 0 } else { t.len() as int + 2 };
    assert(t.len() > 0 ==> r =~= t + seq!['\n', '\n'] + p + seq![' '] + parent);
    assert(t.len() == 0 ==> r =~= p + seq![' '] + parent);
    lemma_appended_trailer(t, p, parent, r, pos);
}

/// Setting the GG-ID of a message makes its first GG-ID trailer read the new
/// GG-ID: an existing trailer is replaced where it stands, else one is
/// appended. When no trailer is there, every `GG-ID:` at a line start must
/// be followed by some text; otherwise `\s*` would run on into the appended
/// line.
pub proof fn lemma_set_gg_id_then_read(m: Seq<char>, id: Seq<char>)
    requires
        is_canonical_gg_id(id),
        id_prefixes_are_trailers(m),
    ensures
        first_gg_id_capture(with_gg_id(m, id)) == Some(id),
{
    if gg_id_trailer_present(m) {
        lemma_set_gg_id_replace(m, id);
    } else {
        lemma_set_gg_id_append(m, id);
    }
}

proof fn lemma_last_non_nl(s: Seq<char>, j: int, k: int)
    requires
        0 <= j,
        k < s.len(),
    ensures
        last_non_nl(s, j, k) matches Some(x) ==> j <= x <= k,
    decreases k + 1 - j,
{
    if k >= j && s[k] == '\n' {
        lemma_last_non_nl(s, j, k - 1);
    }
}

/// `Regex::captures` with `(?i)^GG-ID:\s*(.+)$` on one line, group 1.
#[verifier::external_body]
fn capture_gg_id_line(line: &str) -> (r: Option<String>)
    ensures
        match r {
            Some(x) => gg_id_line_capture(line@) == Some(x@),
            None => gg_id_line_capture(line@) is None,
        },
{
    let re = regex::Regex::new(r"(?i)^GG-ID:\s*(.+)$").unwrap();
    re.captures(line).and_then(|c| c.get(1)).map(|m| m.as_str().to_string())
}

/// `Regex::captures` with `(?i)^GG-Parent:\s*(.+)$` on one line, group 1.
#[verifier::external_body]
fn capture_gg_parent_line(line: &str) -> (r: Option<String>)
    ensures
        match r {
            Some(x) => gg_parent_line_capture(line@) == Some(x@),
            None => gg_parent_line_capture(line@) is None,
        },
{
    let re = regex::Regex::new(r"(?i)^GG-Parent:\s*(.+)$").unwrap();
    re.captures(line).and_then(|c| c.get(1)).map(|m| m.as_str().to_string())
}

/// `Regex::is_match` with `(?im)^GG-ID:\s*.+$`.
#[verifier::external_body]
fn has_gg_id_trailer(message: &str) -> (b: bool)
    ensures
        b == gg_id_trailer_present(message@),
{
    regex::Regex::new(r"(?im)^GG-ID:\s*.+$").unwrap().is_match(message)
}

/// `Regex::replace` (first match) with `(?im)^GG-ID:\s*.+$`: a replacement
/// without `$` is put in literally; one with `$` has its group references
/// expanded, which is only named here.
#[verifier::external_body]
fn replace_gg_id_trailer(message: &str, replacement: &str) -> (r: String)
    ensures
        !replacement@.contains('$') ==> r@ == first_trailer_replaced(message@, replacement@),
        replacement@.contains('$') ==> r@ == gg_id_trailer_expanded(message@, replacement@),
{
    let re = regex::Regex::new(r"(?im)^GG-ID:\s*.+$").unwrap();
    re.replace(message, replacement).to_string()
}

/// `Regex::replace_all` with `(?im)^GG-ID:\s*.+\n?` and an empty replacement.
#[verifier::external_body]
fn remove_gg_id_trailers(message: &str) -> (r: String)
    ensures
        r@ == gg_id_trailers_removed(message@),
{
    let re = regex::Regex::new(r"(?im)^GG-ID:\s*.+\n?").unwrap();
    re.replace_all(message, "").to_string()
}

/// `Regex::replace_all` with `(?im)^GG-Parent:\s*.+\n?` and an empty replacement.
#[verifier::external_body]
fn remove_gg_parent_trailers(message: &str) -> (r: String)
    ensures
        r@ == gg_parent_trailers_removed(message@),
{
    let re = regex::Regex::new(r"(?im)^GG-Parent:\s*.+\n?").unwrap();
    re.replace_all(message, "").to_string()
}

/// `Regex::captures_iter` with `(?im)^GG-Parent:\s*(.+)$`: group 1 of the first match.
#[verifier::external_body]
fn capture_first_gg_parent(message: &str) -> (r: Option<String>)
    ensures
        match r {
            Some(x) => first_gg_parent_capture(message@) == Some(x@),
            None => first_gg_parent_capture(message@) is None,
        },
{
    let re = regex::Regex::new(r"(?im)^GG-Parent:\s*(.+)$").unwrap();
    let first = re.captures_iter(message).next();
    first.and_then(|c| c.get(1).map(|m| m.as_str().to_string()))
}

/// Optional text as an optional character sequence.
pub open spec fn opt_view(o: Option<String>) -> Option<Seq<char>> {
    match o {
        Some(s) => Some(s@),
        None => None,
    }
}

/// The trailer value found by scanning `ls[i..]`: the first line whose
/// trimmed form the capture matches decides, and its trimmed capture is
/// normalized (an invalid value gives `None`).
pub open spec fn trailer_value_from(ls: Seq<Seq<char>>, i: int, parent: bool) -> Option<Seq<char>>
    decreases ls.len() - i,
{
    if i < 0 || i >= ls.len() {
        None
    } else {
        let cap = if parent {
            gg_parent_line_capture(trim(ls[i]))
        } else {
            gg_id_line_capture(trim(ls[i]))
        };
        match cap {
            Some(raw) => normalized_gg_id(trim(raw)),
            None => trailer_value_from(ls, i + 1, parent),
        }
    }
}

fn trimmed(s: &str) -> (r: String)
    ensures
        r@ == trim(s@),
{
    let v = chars_of(s);
    let (a, b) = trim_bounds(&v);
    string_of_range(&v, a, b)
}

fn trailer_value(message: &str, parent: bool) -> (r: Option<String>)
    ensures
        opt_view(r) == trailer_value_from(lines(message@), 0, parent),
{
    let ls = lines_of(message);
    let ghost lv = views(ls@);
    let mut i: usize = 0;
    while i < ls.len()
        invariant
            i <= ls.len(),
            lv == views(ls@),
            lv == lines(message@),
            trailer_value_from(lv, 0, parent) == trailer_value_from(lv, i as int, parent),
        decreases ls.len() - i,
    {
        let t = trimmed(ls[i].as_str());
        let cap = if parent {
            capture_gg_parent_line(t.as_str())
        } else {
            capture_gg_id_line(t.as_str())
        };
        match cap {
            Some(raw) => {
                let rt = trimmed(raw.as_str());
                return normalize_gg_id(rt.as_str());
            },
            None => {},
        }
        i = i + 1;
    }
    None
}

/// The GG-ID of a commit message: the first line (trimmed) that reads
/// `GG-ID: <value>`, ignoring case, decides; its value is normalized.
pub fn gg_id_from_message(message: &str) -> (r: Option<String>)
    ensures
        opt_view(r) == trailer_value_from(lines(message@), 0, false),
{
    trailer_value(message, false)
}

/// The GG-Parent of a commit message, found the same way as the GG-ID.
pub fn gg_parent_from_message(message: &str) -> (r: Option<String>)
    ensures
        opt_view(r) == trailer_value_from(lines(message@), 0, true),
{
    trailer_value(message, true)
}

/// The trailer line `<prefix> <value>`.
pub open spec fn trailer_line(prefix: Seq<char>, value: Seq<char>) -> Seq<char> {
    prefix + seq![' '] + value
}

/// The message with its GG-ID trailer set to `gg_id`: an existing trailer is
/// replaced, otherwise one is appended after a blank line.
pub open spec fn with_gg_id(message: Seq<char>, gg_id: Seq<char>) -> Seq<char> {
    if gg_id_trailer_present(message) {
        gg_id_trailer_replaced(message, trailer_line(GG_ID_PREFIX@, gg_id))
    } else {
        trim_end(message) + seq!['\n', '\n'] + trailer_line(GG_ID_PREFIX@, gg_id)
    }
}

/// The message with every GG-Parent trailer removed and, when `parent` is
/// given, one `GG-Parent:` trailer appended (after a blank line unless the
/// rest is empty).
pub open spec fn with_gg_parent(message: Seq<char>, parent: Option<Seq<char>>) -> Seq<char> {
    let t = trim_end(gg_parent_trailers_removed(message));
    match parent {
        Some(p) => if t.len() == 0 {
            trailer_line(GG_PARENT_PREFIX@, p)
        } else {
            t + seq!['\n', '\n'] + trailer_line(GG_PARENT_PREFIX@, p)
        },
        None => t,
    }
}

fn trimmed_end(s: &str) -> (r: String)
    ensures
        r@ == trim_end(s@),
{
    let v = chars_of(s);
    let e = skip_ws_backward(&v, 0, v.len());
    assert(v@.subrange(0, v.len() as int) =~= s@);
    string_of_range(&v, 0, e)
}

/// Adds or updates the GG-ID trailer of a message.
pub fn set_gg_id_in_message(message: &str, gg_id: &str) -> (r: String)
    ensures
        r@ == with_gg_id(message@, gg_id@),
{
    let mut line = String::from_str(GG_ID_PREFIX);
    push_char(&mut line, ' ');
    push_str(&mut line, gg_id);
    assert(line@ =~= trailer_line(GG_ID_PREFIX@, gg_id@));
    if has_gg_id_trailer(message) {
        replace_gg_id_trailer(message, line.as_str())
    } else {
        let mut out = trimmed_end(message);
        push_char(&mut out, '\n');
        push_char(&mut out, '\n');
        push_str(&mut out, line.as_str());
        assert(out@ =~= trim_end(message@) + seq!['\n', '\n'] + trailer_line(GG_ID_PREFIX@, gg_id@));
        out
    }
}

/// Adds, updates, or (with `None`) removes the GG-Parent trailer of a message.
pub fn set_gg_parent_in_message(message: &str, gg_parent: Option<&str>) -> (r: String)
    ensures
        r@ == with_gg_parent(
            message@,
            match gg_parent {
                Some(p) => Some(p@),
                None => None,
            },
        ),
{
    let without_parent = remove_gg_parent_trailers(message);
    let t = trimmed_end(without_parent.as_str());
    match gg_parent {
        Some(parent) => {
            let tv = chars_of(t.as_str());
            let mut out = String::new();
            if tv.len() > 0 {
                push_str(&mut out, t.as_str());
                push_char(&mut out, '\n');
                push_char(&mut out, '\n');
            }
            push_str(&mut out, GG_PARENT_PREFIX);
            push_char(&mut out, ' ');
            push_str(&mut out, parent);
            proof {
                if t@.len() == 0 {
                    assert(out@ =~= trailer_line(GG_PARENT_PREFIX@, parent@));
                } else {
                    assert(out@ =~= t@ + seq!['\n', '\n'] + trailer_line(GG_PARENT_PREFIX@, parent@));
                }
            }
            out
        },
        None => t,
    }
}

/// The message without GG-ID trailers and without trailing whitespace (for
/// PR/MR titles and descriptions).
pub fn strip_gg_id_from_message(message: &str) -> (r: String)
    ensures
        r@ == trim_end(gg_id_trailers_removed(message@)),
{
    let removed = remove_gg_id_trailers(message);
    trimmed_end(removed.as_str())
}

/// The message without GG-Parent trailers.
pub fn strip_gg_parent_from_message(message: &str) -> (r: String)
    ensures
        r@ == with_gg_parent(message@, None),
{
    set_gg_parent_in_message(message, None)
}

/// The GG-Parent value currently in a message: the first trailer's trimmed,
/// normalized value.
pub open spec fn current_parent(message: Seq<char>) -> Option<Seq<char>> {
    match first_gg_parent_capture(message) {
        Some(raw) => normalized_gg_id(trim(raw)),
        None => None,
    }
}

/// Sets both trailers of a message to the expected values and reports
/// `(new_message, id_added, parent_updated, parent_removed)`.
pub fn normalize_gg_metadata_in_message(
    message: &str,
    expected_gg_id: &str,
    expected_parent: Option<&str>,
) -> (r: (String, bool, bool, bool))
    ensures
        ({
            let ep: Option<Seq<char>> = match expected_parent {
                Some(p) => Some(p@),
                None => None,
            };
            &&& r.0@ == with_gg_parent(with_gg_id(message@, expected_gg_id@), ep)
            &&& r.1 == !gg_id_trailer_present(message@)
            &&& r.2 == (ep is Some && current_parent(message@) != ep)
            &&& r.3 == (ep is None && current_parent(message@) is Some)
        }),
{
    let had_gg_id = has_gg_id_trailer(message);
    let current: Option<String> = match capture_first_gg_parent(message) {
        Some(raw) => {
            let t = trimmed(raw.as_str());
            normalize_gg_id(t.as_str())
        },
        None => None,
    };
    let with_id = set_gg_id_in_message(message, expected_gg_id);
    let normalized = set_gg_parent_in_message(with_id.as_str(), expected_parent);
    let id_added = !had_gg_id;
    let parent_removed = expected_parent.is_none() && current.is_some();
    let parent_updated = match (expected_parent, &current) {
        (Some(p), Some(c)) => !str_eq(c.as_str(), p),
        (Some(_), None) => true,
        _ => false,
    };
    (normalized, id_added, parent_updated, parent_removed)
}

/// The GG-ID an entry keeps: the one its message carries, else `fresh`.
pub open spec fn effective_id(message: Seq<char>, fresh: Seq<char>) -> Seq<char> {
    match trailer_value_from(lines(message), 0, false) {
        Some(id) => id,
        None => fresh,
    }
}

/// The GG-Parent entry `i` of a stack should carry: the GG-ID of the entry
/// below it, none for the first.
pub open spec fn expected_parent_at(msgs: Seq<Seq<char>>, fresh: Seq<Seq<char>>, i: int) -> Option<Seq<char>> {
    if i <= 0 {
        None
    } else {
        Some(effective_id(msgs[i - 1], fresh[i - 1]))
    }
}

/// The normalized message of entry `i`.
pub open spec fn planned_message(msgs: Seq<Seq<char>>, fresh: Seq<Seq<char>>, i: int) -> Seq<char> {
    with_gg_parent(with_gg_id(msgs[i], effective_id(msgs[i], fresh[i])), expected_parent_at(msgs, fresh, i))
}

/// Entry `i` must be rewritten: its message changes, or the entry below it
/// was rewritten (each entry's first parent is the one below it).
pub open spec fn planned_rewrite(msgs: Seq<Seq<char>>, fresh: Seq<Seq<char>>, i: int) -> bool
    decreases i,
{
    if i < 0 {
        false
    } else if i == 0 {
        planned_message(msgs, fresh, 0) != msgs[0]
    } else {
        planned_message(msgs, fresh, i) != msgs[i] || planned_rewrite(msgs, fresh, i - 1)
    }
}

/// How many of the first `k` entries gain a GG-ID, get a new GG-Parent, and
/// lose a stray GG-Parent.
pub open spec fn planned_counts(msgs: Seq<Seq<char>>, fresh: Seq<Seq<char>>, k: int) -> (nat, nat, nat)
    decreases k,
{
    if k <= 0 {
        (0, 0, 0)
    } else {
        let (a, u, r) = planned_counts(msgs, fresh, k - 1);
        let i = k - 1;
        let ep = expected_parent_at(msgs, fresh, i);
        (
            a + if !gg_id_trailer_present(msgs[i]) { 1nat } else { 0nat },
            u + if ep is Some && current_parent(msgs[i]) != ep { 1nat } else { 0nat },
            r + if ep is None && current_parent(msgs[i]) is Some { 1nat } else { 0nat },
        )
    }
}

/// What normalizing a stack's metadata does to its entries (from the base
/// up): the new messages, which commits are rewritten, and the counts.
#[derive(Debug)]
pub struct MetadataPlan {
    pub messages: Vec<String>,
    pub rewritten: Vec<bool>,
    pub counts: MetadataRewriteCounts,
}

/// Plans the normalization of a stack's GG-ID and GG-Parent trailers:
/// every entry keeps its GG-ID (or takes `fresh_ids[i]` when it has none)
/// and names the GG-ID of the entry below as its parent; the first names
/// none.
pub fn plan_stack_metadata(messages: &Vec<String>, fresh_ids: &Vec<String>) -> (plan: MetadataPlan)
    requires
        fresh_ids@.len() == messages@.len(),
    ensures
        plan.messages@.len() == messages@.len(),
        plan.rewritten@.len() == messages@.len(),
        forall|i: int| 0 <= i < messages@.len() ==> (#[trigger] plan.messages@[i])@ == planned_message(
            views(messages@),
            views(fresh_ids@),
            i,
        ),
        forall|i: int| 0 <= i < messages@.len() ==> #[trigger] plan.rewritten@[i] == planned_rewrite(
            views(messages@),
            views(fresh_ids@),
            i,
        ),
        ({
            let (a, u, r) = planned_counts(views(messages@), views(fresh_ids@), messages@.len() as int);
            plan.counts.gg_ids_added == a && plan.counts.gg_parents_updated == u && plan.counts.gg_parents_removed == r
        }),
{
    let ghost msgs = views(messages@);
    let ghost fresh = views(fresh_ids@);
    let mut out: Vec<String> = Vec::new();
    let mut rewritten: Vec<bool> = Vec::new();
    let mut counts = MetadataRewriteCounts { gg_ids_added: 0, gg_parents_updated: 0, gg_parents_removed: 0 };
    let mut previous: Option<String> = None;
    let mut prev_rewritten = false;
    let mut i: usize = 0;
    while i < messages.len()
        invariant
            i <= messages@.len(),
            fresh_ids@.len() == messages@.len(),
            msgs == views(messages@),
            fresh == views(fresh_ids@),
            out@.len() == i,
            rewritten@.len() == i,
            forall|k: int| 0 <= k < i ==> (#[trigger] out@[k])@ == planned_message(msgs, fresh, k),
            forall|k: int| 0 <= k < i ==> #[trigger] rewritten@[k] == planned_rewrite(msgs, fresh, k),
            prev_rewritten == planned_rewrite(msgs, fresh, i - 1),
            opt_view(previous) == expected_parent_at(msgs, fresh, i as int),
            ({
                let (a, u, r) = planned_counts(msgs, fresh, i as int);
                counts.gg_ids_added == a && counts.gg_parents_updated == u && counts.gg_parents_removed == r
            }),
            counts.gg_ids_added <= i && counts.gg_parents_updated <= i && counts.gg_parents_removed <= i,
        decreases messages.len() - i,
    {
        let message = messages[i].as_str();
        let id = match gg_id_from_message(message) {
            Some(g) => g,
            None => string_of(&chars_of(fresh_ids[i].as_str())),
        };
        assert(id@ == effective_id(msgs[i as int], fresh[i as int]));
        let parent: Option<&str> = match &previous {
            Some(p) => Some(p.as_str()),
            None => None,
        };
        let (new_message, id_added, parent_updated, parent_removed) = normalize_gg_metadata_in_message(
            message,
            id.as_str(),
            parent,
        );
        if id_added {
            counts.gg_ids_added = counts.gg_ids_added + 1;
        }
        if parent_updated {
            counts.gg_parents_updated = counts.gg_parents_updated + 1;
        }
        if parent_removed {
            counts.gg_parents_removed = counts.gg_parents_removed + 1;
        }
        let changed = !str_eq(new_message.as_str(), message);
        let this_rewritten = changed || prev_rewritten;
        out.push(new_message);
        rewritten.push(this_rewritten);
        prev_rewritten = this_rewritten;
        previous = Some(id);
        i = i + 1;
    }
    MetadataPlan { messages: out, rewritten, counts }
}

/// The description of a commit message: what follows the first line once
/// GG-ID and GG-Parent trailers are removed, trimmed; `None` when empty.
pub open spec fn description_of(message: Seq<char>) -> Option<Seq<char>> {
    let stripped = with_gg_parent(trim_end(gg_id_trailers_removed(message)), None);
    if !stripped.contains('\n') {
        None
    } else {
        let d = trim(stripped.skip(index_of_char(stripped, '\n') + 1));
        if d.len() == 0 {
            None
        } else {
            Some(d)
        }
    }
}

/// The body of a commit message without its title and trailers.
pub fn extract_description_from_message(message: &str) -> (r: Option<String>)
    ensures
        opt_view(r) == description_of(message@),
{
    let no_id = strip_gg_id_from_message(message);
    let stripped = strip_gg_parent_from_message(no_id.as_str());
    let v = chars_of(stripped.as_str());
    let (count, k) = scan_char(&v, '\n');
    if k == v.len() {
        assert(!stripped@.contains('\n')) by {
            if stripped@.contains('\n') {
                let j = choose|j: int| 0 <= j < stripped@.len() && stripped@[j] == '\n';
                assert(v@[j] == '\n');
            }
        }
        return None;
    }
    let rest = string_of_range(&v, k + 1, v.len());
    assert(rest@ =~= stripped@.skip(k + 1));
    let d = trimmed(rest.as_str());
    let dv = chars_of(d.as_str());
    if dv.len() == 0 {
        None
    } else {
        Some(d)
    }
}

// ---------------------------------------------------------------------------
// `git push`
// ---------------------------------------------------------------------------

/// The arguments of `git push`, in the order
/// `push [--force | --force-with-lease] [--no-verify] origin <branch>`;
/// a hard force wins over force-with-lease.
pub open spec fn push_args(branch: Seq<char>, force_with_lease: bool, hard_force: bool, bypass_hooks: bool) -> Seq<Seq<char>> {
    let force: Seq<Seq<char>> = if hard_force {
        seq!["--force"@]
    } else if force_with_lease {
        seq!["--force-with-lease"@]
    } else {
        seq![]
    };
    let nv: Seq<Seq<char>> = if bypass_hooks {
        seq!["--no-verify"@]
    } else {
        seq![]
    };
    seq!["push"@] + force + nv + seq!["origin"@, branch]
}

/// Builds the argument vector passed to `git push`.
pub fn build_push_args<'a>(
    branch_name: &'a str,
    force_with_lease: bool,
    hard_force: bool,
    bypass_hooks: bool,
) -> (r: Vec<&'a str>)
    ensures
        r@.map_values(|a: &str| a@) == push_args(branch_name@, force_with_lease, hard_force, bypass_hooks),
{
    let mut args: Vec<&'a str> = Vec::new();
    args.push("push");
    if hard_force {
        args.push("--force");
    } else if force_with_lease {
        args.push("--force-with-lease");
    }
    if bypass_hooks {
        args.push("--no-verify");
    }
    args.push("origin");
    args.push(branch_name);
    assert(args@.map_values(|a: &str| a@) =~= push_args(
        branch_name@,
        force_with_lease,
        hard_force,
        bypass_hooks,
    ));
    args
}

/// Whether a trimmed stderr line comes from git itself.
pub open spec fn is_git_line(t: Seq<char>) -> bool {
    starts_with(t, "error:"@) || starts_with(t, "remote:"@)
}

/// The git error lines of `ls` (trimmed, non-empty, starting with `error:` or
/// `remote:`), without the generic "failed to push some refs" line.
pub open spec fn git_error_lines(ls: Seq<Seq<char>>) -> Seq<Seq<char>>
    decreases ls.len(),
{
    if ls.len() == 0 {
        seq![]
    } else {
        let rest = git_error_lines(ls.drop_last());
        let t = trim(ls.last());
        if t.len() > 0 && is_git_line(t) && !contains(t, "failed to push some refs"@) {
            rest.push(t)
        } else {
            rest
        }
    }
}

/// The hook output lines of `ls`: trimmed, non-empty, not from git.
pub open spec fn hook_error_lines(ls: Seq<Seq<char>>) -> Seq<Seq<char>>
    decreases ls.len(),
{
    if ls.len() == 0 {
        seq![]
    } else {
        let rest = hook_error_lines(ls.drop_last());
        let t = trim(ls.last());
        if t.len() > 0 && !is_git_line(t) {
            rest.push(t)
        } else {
            rest
        }
    }
}

/// The lines joined by newlines, or `None` when there are none.
pub open spec fn joined_or_none(ls: Seq<Seq<char>>) -> Option<Seq<char>> {
    if ls.len() == 0 {
        None
    } else {
        Some(join(ls, seq!['\n']))
    }
}

/// Splits `git push` stderr into hook output and git's own error lines.
pub fn parse_push_error(stderr: &str) -> (r: (Option<String>, Option<String>))
    ensures
        opt_view(r.0) == joined_or_none(hook_error_lines(lines(stderr@))),
        opt_view(r.1) == joined_or_none(git_error_lines(lines(stderr@))),
{
    let ls = lines_of(stderr);
    let ghost lv = views(ls@);
    let error_p = chars_of("error:");
    let remote_p = chars_of("remote:");
    let failed_p = chars_of("failed to push some refs");
    let mut hook: Vec<String> = Vec::new();
    let mut git: Vec<String> = Vec::new();
    let mut i: usize = 0;
    while i < ls.len()
        invariant
            i <= ls.len(),
            lv == views(ls@),
            error_p@ == "error:"@,
            remote_p@ == "remote:"@,
            failed_p@ == "failed to push some refs"@,
            views(hook@) == hook_error_lines(lv.take(i as int)),
            views(git@) == git_error_lines(lv.take(i as int)),
        decreases ls.len() - i,
    {
        let t = trimmed(ls[i].as_str());
        let tv = chars_of(t.as_str());
        let ghost hv = views(hook@);
        let ghost gv = views(git@);
        assert(lv.take(i + 1).drop_last() =~= lv.take(i as int));
        assert(lv.take(i + 1).last() == lv[i as int]);
        if tv.len() > 0 {
            if starts_with_exec(&tv, &error_p) || starts_with_exec(&tv, &remote_p) {
                if !contains_exec(&tv, &failed_p) {
                    git.push(t);
                    assert(views(git@) =~= gv.push(tv@));
                }
            } else {
                hook.push(t);
                assert(views(hook@) =~= hv.push(tv@));
            }
        }
        i = i + 1;
    }
    assert(lv.take(ls.len() as int) =~= lv);
    proof {
        reveal_strlit("\n");
    }
    let hook_error = if hook.len() == 0 {
        None
    } else {
        Some(join_strings(&hook, "\n"))
    };
    let git_error = if git.len() == 0 {
        None
    } else {
        Some(join_strings(&git, "\n"))
    };
    assert("\n"@ =~= seq!['\n']);
    (hook_error, git_error)
}

// ---------------------------------------------------------------------------
// Remote provider
// ---------------------------------------------------------------------------

/// The hosting provider of a remote.
#[derive(Debug, Clone, PartialEq, Eq)]
pub enum RemoteProvider {
    GitHub,
    GitLab,
}

/// The provider named by a remote URL: GitHub for `github.com`, GitLab for
/// `gitlab.com`; any other URL is reported as undetectable.
pub fn provider_for_url(url: &str) -> (r: Result<RemoteProvider, GgError>)
    ensures
        match r {
            Ok(RemoteProvider::GitHub) => contains(url@, "github.com"@),
            Ok(RemoteProvider::GitLab) => !contains(url@, "github.com"@) && contains(url@, "gitlab.com"@),
            Err(e) => {
                &&& !contains(url@, "github.com"@)
                &&& !contains(url@, "gitlab.com"@)
                &&& e matches GgError::Other(m)
                &&& m@ == "Could not detect remote provider from URL: "@ + url@
                    + ". Supported: github.com, gitlab.com"@
            },
        },
{
    let v = chars_of(url);
    if contains_exec(&v, &chars_of("github.com")) {
        Ok(RemoteProvider::GitHub)
    } else if contains_exec(&v, &chars_of("gitlab.com")) {
        Ok(RemoteProvider::GitLab)
    } else {
        let mut m = String::from_str("Could not detect remote provider from URL: ");
        push_str(&mut m, url);
        push_str(&mut m, ". Supported: github.com, gitlab.com");
        Err(GgError::Other(m))
    }
}


/// The outcome of a finished `git <args>` run: its trimmed output when it
/// succeeded, otherwise an error that names the command and gives its error
/// output.
pub fn git_command_result(args: &Vec<String>, success: bool, stdout: &str, stderr: &str) -> (r: Result<String, GgError>)
    ensures
        match r {
            Ok(o) => success && o@ == trim(stdout@),
            Err(GgError::Other(m)) => !success && m@ == "git "@ + join(views(args@), " "@) + " failed: "@ + stderr@,
            Err(_) => false,
        },
{
    if success {
        let v = chars_of(stdout);
        let (a, b) = trim_bounds(&v);
        Ok(string_of_range(&v, a, b))
    } else {
        let mut m = String::new();
        push_str(&mut m, "git ");
        push_str(&mut m, join_strings(args, " ").as_str());
        push_str(&mut m, " failed: ");
        push_str(&mut m, stderr);
        Err(GgError::Other(m))
    }
}

fn owned(s: &str) -> (r: String)
    ensures
        r@ == s@,
{
    string_of(&chars_of(s))
}

/// The arguments that force-remove a linked worktree.
pub fn remove_worktree_args(wt_name: &str) -> (r: Vec<String>)
    ensures
        views(r@) == seq!["worktree"@, "remove"@, wt_name@, "--force"@],
{
    let r = vec![owned("worktree"), owned("remove"), owned(wt_name), owned("--force")];
    assert(views(r@) =~= seq!["worktree"@, "remove"@, wt_name@, "--force"@]);
    r
}

/// The arguments that delete a branch on `origin`.
pub fn delete_remote_branch_args(branch_name: &str) -> (r: Vec<String>)
    ensures
        views(r@) == seq!["push"@, "origin"@, "--delete"@, branch_name@],
{
    let r = vec![owned("push"), owned("origin"), owned("--delete"), owned(branch_name)];
    assert(views(r@) =~= seq!["push"@, "origin"@, "--delete"@, branch_name@]);
    r
}

/// The arguments that abort a rebase.
pub fn rebase_abort_args() -> (r: Vec<String>)
    ensures
        views(r@) == seq!["rebase"@, "--abort"@],
{
    let r = vec![owned("rebase"), owned("--abort")];
    assert(views(r@) =~= seq!["rebase"@, "--abort"@]);
    r
}

/// The short form of a commit id: its first seven hex digits.
pub fn short_sha_of(oid_hex: &str) -> (r: String)
    requires
        oid_hex@.len() >= 7,
    ensures
        r@ == oid_hex@.take(7),
{
    let v = chars_of(oid_hex);
    let r = string_of_range(&v, 0, 7);
    assert(r@ =~= oid_hex@.take(7));
    r
}

/// A force-with-lease push was refused because the remote moved since the
/// last fetch (`stale info` in its trimmed error output); a hard force is
/// never refused this way.
pub fn is_stale_lease(force_with_lease: bool, hard_force: bool, stderr: &str) -> (b: bool)
    ensures
        b == (force_with_lease && !hard_force && contains(trim(stderr@), "stale info"@)),
{
    if !force_with_lease || hard_force {
        return false;
    }
    let v = chars_of(stderr);
    let (a, b) = trim_bounds(&v);
    let t = string_of_range(&v, a, b);
    crate::text::contains_exec(&chars_of(t.as_str()), &chars_of("stale info"))
}

/// The message for a refused force-with-lease push when nobody can be
/// asked whether to overwrite the remote.
pub open spec fn stale_lease_text(branch: Seq<char>) -> Seq<char> {
    "Remote branch '"@ + branch
        + "' has been updated since your last fetch.\nThis could mean someone else has pushed changes.\n\nTo proceed safely:\n1. Run 'git fetch origin'\n2. Review the changes\n3. Run 'gg sync' again\n\nIf you're certain you want to overwrite remote changes, run with --force flag."@
}

/// The error text for a refused force-with-lease push.
pub fn stale_lease_message(branch_name: &str) -> (r: String)
    ensures
        r@ == stale_lease_text(branch_name@),
{
    let mut s = String::new();
    push_str(&mut s, "Remote branch '");
    push_str(&mut s, branch_name);
    push_str(
        &mut s,
        "' has been updated since your last fetch.\nThis could mean someone else has pushed changes.\n\nTo proceed safely:\n1. Run 'git fetch origin'\n2. Review the changes\n3. Run 'gg sync' again\n\nIf you're certain you want to overwrite remote changes, run with --force flag.",
    );
    s
}

} // verus!
