//! Error type of the library and classification of CLI failure output.
use vstd::prelude::*;
use crate::text::{chars_of, contains, contains_exec, occurs_at, push_str};

verus! {

/// Errors reported by git-gud operations. Failures that originate outside
/// the library (git, the file system, JSON) carry their message as text.
#[derive(Debug)]
pub enum GgError {
    NetworkError(String),
    InvalidStackName(String),
    InvalidBranchUsername(String),
    NotInRepo,
    NoBaseBranch,
    NotOnStack,
    StackNotFound(String),
    DirtyWorkingDirectory,
    MergeCommitInStack,
    MissingGgId(String),
    GlabNotInstalled,
    GlabNotAuthenticated,
    GlabError(String),
    InvalidPrNumber(String),
    PushFailed { branch: String, hook_error: Option<String>, git_error: Option<String> },
    Command(String, String),
    RebaseConflict,
    NoRebaseInProgress,
    ImmutableTargets(String),
    Git(String),
    Config(String),
    Io(String),
    Json(String),
    OperationRecordNotFound(String),
    OperationNotUndoable { id: String, reason: String },
    StaleUndo { ref_name: String, expected: String, actual: String },
    RemoteUndoUnsupported { kind: String, hint: String },
    Other(String),
    GitOperationInProgress(String, String),
    NotOnStackBranch(String),
    Silenced,
}

/// The message of an error, as the command line prints it.
pub open spec fn error_text(e: GgError) -> Seq<char> {
    match e {
        GgError::NetworkError(m) => "Network error: "@ + m@,
        GgError::InvalidStackName(m) => "Invalid stack name: "@ + m@,
        GgError::InvalidBranchUsername(m) => "Invalid branch username: "@ + m@,
        GgError::NotInRepo => "Not in a git repository"@,
        GgError::NoBaseBranch => "Could not find base branch (tried main, master, trunk)"@,
        GgError::NotOnStack => "Not on a stack branch. Use `gg co <stack-name>` to create or switch to a stack."@,
        GgError::StackNotFound(m) => "Stack '"@ + m@ + "' not found"@,
        GgError::DirtyWorkingDirectory => "Dirty working directory. Please commit or stash your changes first."@,
        GgError::MergeCommitInStack => "Merge commits are not supported in stacks. Please rebase to a linear history."@,
        GgError::MissingGgId(m) => "Commit "@ + m@ + " is missing a GG-ID trailer. Run `gg sync` to add one."@,
        GgError::GlabNotInstalled => "glab is not installed. Please install it from https://gitlab.com/gitlab-org/cli"@,
        GgError::GlabNotAuthenticated => "Not authenticated with GitLab. Run `glab auth login` first."@,
        GgError::GlabError(m) => "glab command failed: "@ + m@,
        GgError::InvalidPrNumber(m) => "Invalid PR number: "@ + m@,
        GgError::PushFailed { branch, .. } => "Push failed for branch "@ + branch@,
        GgError::Command(c, m) => "Command '"@ + c@ + "' failed: "@ + m@,
        GgError::RebaseConflict => "Rebase conflict. Resolve conflicts and run `gg continue`, or `gg abort` to cancel."@,
        GgError::NoRebaseInProgress => "No rebase in progress"@,
        GgError::ImmutableTargets(m) => "cannot rewrite immutable commits (pass --force / --ignore-immutable to override):\n"@ + m@,
        GgError::Git(m) => "Git error: "@ + m@,
        GgError::Config(m) => "Config error: "@ + m@,
        GgError::Io(m) => "IO error: "@ + m@,
        GgError::Json(m) => "JSON error: "@ + m@,
        GgError::OperationRecordNotFound(m) => "No operation record found with id '"@ + m@ + "'"@,
        GgError::OperationNotUndoable { id, reason } => "Operation '"@ + id@ + "' is not undoable: "@ + reason@,
        GgError::StaleUndo { ref_name, expected, actual } => "Cannot undo: ref '"@ + ref_name@ + "' has moved since the operation (expected "@ + expected@ + ", actually "@ + actual@ + "). Run `gg undo --list` to see a safe candidate."@,
        GgError::RemoteUndoUnsupported { kind, hint } => "Cannot locally undo '"@ + kind@ + "': it touched a remote.\n"@ + hint@,
        GgError::Other(m) => m@,
        GgError::GitOperationInProgress(a, b) => "A git operation is currently in progress.\n"@ + a@ + "\nIf no other process is running, remove the stale lock:\n  rm "@ + b@,
        GgError::NotOnStackBranch(m) => m@,
        GgError::Silenced => seq![],
    }
}

impl GgError {
    /// The message of the error (what `Display` shows in the front end).
    pub fn message(&self) -> (r: String)
        ensures
            r@ == error_text(*self),
    {
        let mut s = String::new();
        match self {
            GgError::NetworkError(m) => {
                push_str(&mut s, "Network error: ");
                push_str(&mut s, m.as_str());
            },
            GgError::InvalidStackName(m) => {
                push_str(&mut s, "Invalid stack name: ");
                push_str(&mut s, m.as_str());
            },
            GgError::InvalidBranchUsername(m) => {
                push_str(&mut s, "Invalid branch username: ");
                push_str(&mut s, m.as_str());
            },
            GgError::NotInRepo => {
                push_str(&mut s, "Not in a git repository");
            },
            GgError::NoBaseBranch => {
                push_str(&mut s, "Could not find base branch (tried main, master, trunk)");
            },
            GgError::NotOnStack => {
                push_str(&mut s, "Not on a stack branch. Use `gg co <stack-name>` to create or switch to a stack.");
            },
            GgError::StackNotFound(m) => {
                push_str(&mut s, "Stack '");
                push_str(&mut s, m.as_str());
                push_str(&mut s, "' not found");
            },
            GgError::DirtyWorkingDirectory => {
                push_str(&mut s, "Dirty working directory. Please commit or stash your changes first.");
            },
            GgError::MergeCommitInStack => {
                push_str(&mut s, "Merge commits are not supported in stacks. Please rebase to a linear history.");
            },
            GgError::MissingGgId(m) => {
                push_str(&mut s, "Commit ");
                push_str(&mut s, m.as_str());
                push_str(&mut s, " is missing a GG-ID trailer. Run `gg sync` to add one.");
            },
            GgError::GlabNotInstalled => {
                push_str(&mut s, "glab is not installed. Please install it from https://gitlab.com/gitlab-org/cli");
            },
            GgError::GlabNotAuthenticated => {
                push_str(&mut s, "Not authenticated with GitLab. Run `glab auth login` first.");
            },
            GgError::GlabError(m) => {
                push_str(&mut s, "glab command failed: ");
                push_str(&mut s, m.as_str());
            },
            GgError::InvalidPrNumber(m) => {
                push_str(&mut s, "Invalid PR number: ");
                push_str(&mut s, m.as_str());
            },
            GgError::PushFailed { branch, .. } => {
                push_str(&mut s, "Push failed for branch ");
                push_str(&mut s, branch.as_str());
            },
            GgError::Command(c, m) => {
                push_str(&mut s, "Command '");
                push_str(&mut s, c.as_str());
                push_str(&mut s, "' failed: ");
                push_str(&mut s, m.as_str());
            },
            GgError::RebaseConflict => {
                push_str(&mut s, "Rebase conflict. Resolve conflicts and run `gg continue`, or `gg abort` to cancel.");
            },
            GgError::NoRebaseInProgress => {
                push_str(&mut s, "No rebase in progress");
            },
            GgError::ImmutableTargets(m) => {
                push_str(&mut s, "cannot rewrite immutable commits (pass --force / --ignore-immutable to override):\n");
                push_str(&mut s, m.as_str());
            },
            GgError::Git(m) => {
                push_str(&mut s, "Git error: ");
                push_str(&mut s, m.as_str());
            },
            GgError::Config(m) => {
                push_str(&mut s, "Config error: ");
                push_str(&mut s, m.as_str());
            },
            GgError::Io(m) => {
                push_str(&mut s, "IO error: ");
                push_str(&mut s, m.as_str());
            },
            GgError::Json(m) => {
                push_str(&mut s, "JSON error: ");
                push_str(&mut s, m.as_str());
            },
            GgError::OperationRecordNotFound(m) => {
                push_str(&mut s, "No operation record found with id '");
                push_str(&mut s, m.as_str());
                push_str(&mut s, "'");
            },
            GgError::OperationNotUndoable { id, reason } => {
                push_str(&mut s, "Operation '");
                push_str(&mut s, id.as_str());
                push_str(&mut s, "' is not undoable: ");
                push_str(&mut s, reason.as_str());
            },
            GgError::StaleUndo { ref_name, expected, actual } => {
                push_str(&mut s, "Cannot undo: ref '");
                push_str(&mut s, ref_name.as_str());
                push_str(&mut s, "' has moved since the operation (expected ");
                push_str(&mut s, expected.as_str());
                push_str(&mut s, ", actually ");
                push_str(&mut s, actual.as_str());
                push_str(&mut s, "). Run `gg undo --list` to see a safe candidate.");
            },
            GgError::RemoteUndoUnsupported { kind, hint } => {
                push_str(&mut s, "Cannot locally undo '");
                push_str(&mut s, kind.as_str());
                push_str(&mut s, "': it touched a remote.\n");
                push_str(&mut s, hint.as_str());
            },
            GgError::Other(m) => {
                push_str(&mut s, m.as_str());
            },
            GgError::GitOperationInProgress(a, b) => {
                push_str(&mut s, "A git operation is currently in progress.\n");
                push_str(&mut s, a.as_str());
                push_str(&mut s, "\nIf no other process is running, remove the stale lock:\n  rm ");
                push_str(&mut s, b.as_str());
            },
            GgError::NotOnStackBranch(m) => {
                push_str(&mut s, m.as_str());
            },
            GgError::Silenced => {},
        }
        s
    }
}

/// The lowercase form of `s` that `str::to_lowercase` returns.
pub uninterp spec fn lowercased(s: Seq<char>) -> Seq<char>;

/// A character of the ASCII range.
pub open spec fn is_ascii_char(c: char) -> bool {
    (c as int) < 128
}

/// Every character of `s` is ASCII.
pub open spec fn is_ascii_text(s: Seq<char>) -> bool {
    forall|i: int| 0 <= i < s.len() ==> is_ascii_char(#[trigger] s[i])
}

/// `A`..`Z` mapped to `a`..`z`; every other character kept.
pub open spec fn ascii_lower_char(c: char) -> char {
    if 65 <= (c as int) && (c as int) <= 90 {
        ((c as int) + 32) as char
    } else {
        c
    }
}

/// `a`..`z` mapped to `A`..`Z`; every other character kept.
pub open spec fn ascii_upper_char(c: char) -> char {
    if 97 <= (c as int) && (c as int) <= 122 {
        ((c as int) - 32) as char
    } else {
        c
    }
}

/// `s` with its ASCII capitals lowered.
pub open spec fn ascii_lowered(s: Seq<char>) -> Seq<char> {
    s.map_values(|c: char| ascii_lower_char(c))
}

/// `s` with its ASCII small letters raised (what `str::to_ascii_uppercase` gives).
pub open spec fn ascii_uppered(s: Seq<char>) -> Seq<char> {
    s.map_values(|c: char| ascii_upper_char(c))
}

/// `str::to_lowercase` (Unicode lowercase mapping of every character).
/// Claimed: the result is the named lowercase form of `s`, and on ASCII text,
/// where the Unicode lowercase mapping of `A`..`Z` is `a`..`z` and of every other
/// ASCII character is the character itself, it is that mapping taken character
/// by character. Nothing is claimed of other text beyond the name.
#[verifier::external_body]
pub(crate) fn to_lowercase(s: &str) -> (r: String)
    ensures
        r@ == lowercased(s@),
        is_ascii_text(s@) ==> r@ == ascii_lowered(s@),
{
    s.to_lowercase()
}

/// The lowercase fragments that mark output as a network failure.
pub open spec fn network_patterns() -> Seq<Seq<char>> {
    seq![
        "could not resolve host"@,
        "connection refused"@,
        "connection timed out"@,
        "connection reset"@,
        "network is unreachable"@,
        "no route to host"@,
        "tls handshake timeout"@,
        "ssl connection"@,
        "ssl handshake"@,
        "ssl certificate"@,
        "ssl error"@,
        "ssl_connect"@,
        "timed out"@,
        "request timeout"@,
        "dns resolution"@,
        "dns lookup"@,
        "dns error"@,
        "getaddrinfo"@,
        "econnrefused"@,
        "econnreset"@,
        "etimedout"@,
        "enetunreach"@,
        "ehostunreach"@,
        "name or service not known"@,
        "temporary failure in name resolution"@,
        "failed to connect"@,
        "unable to access"@,
    ]
}

/// Whether `lower` contains one of the network-failure fragments.
pub open spec fn has_network_pattern(lower: Seq<char>) -> bool {
    exists|i: int| 0 <= i < network_patterns().len() && contains(lower, #[trigger] network_patterns()[i])
}

/// Whether already-lowercased output names a network failure.
pub fn matches_network_pattern(lower: &str) -> (b: bool)
    ensures
        b == has_network_pattern(lower@),
{
    let patterns: Vec<&str> = vec![
        "could not resolve host",
        "connection refused",
        "connection timed out",
        "connection reset",
        "network is unreachable",
        "no route to host",
        "tls handshake timeout",
        "ssl connection",
        "ssl handshake",
        "ssl certificate",
        "ssl error",
        "ssl_connect",
        "timed out",
        "request timeout",
        "dns resolution",
        "dns lookup",
        "dns error",
        "getaddrinfo",
        "econnrefused",
        "econnreset",
        "etimedout",
        "enetunreach",
        "ehostunreach",
        "name or service not known",
        "temporary failure in name resolution",
        "failed to connect",
        "unable to access",
    ];
    let ghost pv = patterns@.map_values(|p: &str| p@);
    assert(pv =~= network_patterns());
    let text = chars_of(lower);
    let mut i: usize = 0;
    while i < patterns.len()
        invariant
            i <= patterns.len(),
            pv == patterns@.map_values(|p: &str| p@),
            pv == network_patterns(),
            text@ == lower@,
            forall|j: int| 0 <= j < i ==> !contains(lower@, #[trigger] network_patterns()[j]),
        decreases patterns.len() - i,
    {
        let p = chars_of(patterns[i]);
        assert(p@ == pv[i as int]);
        if contains_exec(&text, &p) {
            return true;
        }
        i = i + 1;
    }
    false
}

/// Whether CLI error output names a network problem (DNS, connection, TLS,
/// timeouts) rather than an authentication failure. Matching ignores case.
pub fn is_network_error(output: &str) -> (b: bool)
    ensures
        b == has_network_pattern(lowercased(output@)),
        is_ascii_text(output@) ==> b == has_network_pattern(ascii_lowered(output@)),
{
    let lower = to_lowercase(output);
    matches_network_pattern(lower.as_str())
}

/// Lowering the letters of a concatenation lowers each part.
proof fn lemma_ascii_lowered_concat(x: Seq<char>, y: Seq<char>)
    ensures
        ascii_lowered(x + y) == ascii_lowered(x) + ascii_lowered(y),
{
    assert(ascii_lowered(x + y) =~= ascii_lowered(x) + ascii_lowered(y));
}

/// Text around a network failure does not hide it: when `a` names one, so does
/// `b + a + c` (for ASCII text, `is_network_error` decides by `ascii_lowered`).
pub proof fn lemma_network_error_in_context(a: Seq<char>, b: Seq<char>, c: Seq<char>)
    requires
        has_network_pattern(ascii_lowered(a)),
    ensures
        has_network_pattern(ascii_lowered(b + a + c)),
{
    let la = ascii_lowered(a);
    let k = choose|k: int| 0 <= k < network_patterns().len() && contains(la, #[trigger] network_patterns()[k]);
    let p = network_patterns()[k];
    let i = choose|i: int| occurs_at(la, p, i);
    lemma_ascii_lowered_concat(b, a);
    lemma_ascii_lowered_concat(b + a, c);
    let whole = ascii_lowered(b + a + c);
    assert(whole == ascii_lowered(b) + la + ascii_lowered(c));
    let j = b.len() + i;
    assert(whole.subrange(j, j + p.len()) =~= la.subrange(i, i + p.len()));
    assert(occurs_at(whole, p, j));
    assert(contains(whole, network_patterns()[k]));
}

/// Matching ignores ASCII case: raising the small letters of `s` to capitals
/// leaves the decision unchanged, and keeps ASCII text ASCII.
pub proof fn lemma_network_error_ignores_case(s: Seq<char>)
    ensures
        has_network_pattern(ascii_lowered(ascii_uppered(s))) == has_network_pattern(ascii_lowered(s)),
        is_ascii_text(s) ==> is_ascii_text(ascii_uppered(s)),
{
    assert forall|i: int| 0 <= i < s.len() implies ascii_lower_char(ascii_upper_char(#[trigger] s[i]))
        == ascii_lower_char(s[i]) by {
        let c = s[i];
        if 97 <= (c as int) && (c as int) <= 122 {
            let u = ((c as int) - 32) as char;
            assert((u as int) == (c as int) - 32);
            assert(((u as int) + 32) as char == c);
        } else if 65 <= (c as int) && (c as int) <= 90 {
        }
    }
    assert(ascii_lowered(ascii_uppered(s)) =~= ascii_lowered(s));
    if is_ascii_text(s) {
        assert forall|i: int| 0 <= i < ascii_uppered(s).len() implies is_ascii_char(
            #[trigger] ascii_uppered(s)[i],
        ) by {
            let c = s[i];
            assert(is_ascii_char(c));
            if 97 <= (c as int) && (c as int) <= 122 {
                let u = ((c as int) - 32) as char;
                assert((u as int) == (c as int) - 32);
            }
        }
    }
}

} // verus!
