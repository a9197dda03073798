//! The operation log behind `gg undo`: what a record holds, when a record
//! can be undone, which refs a snapshot covers, and what to tell the user
//! about effects on a remote that undo cannot reverse. Reading and writing
//! the records is the front end's business.
use vstd::prelude::*;
use crate::paths::{join_path, path_join};
use crate::commands::unstack::entry_branch_of;
use crate::config::Config;
use crate::git::opt_view;
use crate::error::GgError;
use crate::stack::Stack;
use crate::text::{
    chars_of, dec, dec_string, digit, lemma_dec_len, push_char, push_str, starts_with, starts_with_exec, str_eq, string_of,
    views,
};

verus! {

/// Version of the record format.
pub const SCHEMA_VERSION: u32 = 1;

/// How many finished records the log keeps.
pub const OPERATION_LOG_CAP: usize = 100;

/// How long a pending record may live before it counts as interrupted.
pub const PENDING_STALENESS_MS: u64 = 30000;

/// The free-form annotation a record may carry (`serde_json::Value`).
#[verifier::external_type_specification]
#[verifier::external_body]
pub struct ExJsonValue(serde_json::Value);

/// The kind of operation a record represents.
#[derive(Debug, Clone, Copy, PartialEq, Eq, Structural)]
pub enum OperationKind {
    Drop,
    Squash,
    Split,
    Rebase,
    Reorder,
    Absorb,
    Checkout,
    Nav,
    Sync,
    Land,
    Clean,
    Reconcile,
    Run,
    Undo,
    Unstack,
}

/// Lifecycle of a record.
#[derive(Debug, Clone, Copy, PartialEq, Eq, Structural)]
pub enum OperationStatus {
    /// Started and not finalized: in flight, or crashed.
    Pending,
    /// Finished and finalized.
    Committed,
    /// A stale pending record, as the sweep marks it.
    Interrupted,
}

/// The snake-case name of a kind, as stored.
pub open spec fn kind_name(k: OperationKind) -> Seq<char> {
    match k {
        OperationKind::Drop => "drop"@,
        OperationKind::Squash => "squash"@,
        OperationKind::Split => "split"@,
        OperationKind::Rebase => "rebase"@,
        OperationKind::Reorder => "reorder"@,
        OperationKind::Absorb => "absorb"@,
        OperationKind::Checkout => "checkout"@,
        OperationKind::Nav => "nav"@,
        OperationKind::Sync => "sync"@,
        OperationKind::Land => "land"@,
        OperationKind::Clean => "clean"@,
        OperationKind::Reconcile => "reconcile"@,
        OperationKind::Run => "run"@,
        OperationKind::Undo => "undo"@,
        OperationKind::Unstack => "unstack"@,
    }
}

/// The snake-case name of a status, as stored.
pub open spec fn status_name(s: OperationStatus) -> Seq<char> {
    match s {
        OperationStatus::Pending => "pending"@,
        OperationStatus::Committed => "committed"@,
        OperationStatus::Interrupted => "interrupted"@,
    }
}

/// The stored name of a kind.
pub fn kind_to_snake(k: &OperationKind) -> (r: &'static str)
    ensures
        r@ == kind_name(*k),
{
    match k {
        OperationKind::Drop => "drop",
        OperationKind::Squash => "squash",
        OperationKind::Split => "split",
        OperationKind::Rebase => "rebase",
        OperationKind::Reorder => "reorder",
        OperationKind::Absorb => "absorb",
        OperationKind::Checkout => "checkout",
        OperationKind::Nav => "nav",
        OperationKind::Sync => "sync",
        OperationKind::Land => "land",
        OperationKind::Clean => "clean",
        OperationKind::Reconcile => "reconcile",
        OperationKind::Run => "run",
        OperationKind::Undo => "undo",
        OperationKind::Unstack => "unstack",
    }
}

/// The stored name of a status.
pub fn status_to_snake(s: &OperationStatus) -> (r: &'static str)
    ensures
        r@ == status_name(*s),
{
    match s {
        OperationStatus::Pending => "pending",
        OperationStatus::Committed => "committed",
        OperationStatus::Interrupted => "interrupted",
    }
}

/// A ref's target at some moment.
#[derive(Debug, Clone, PartialEq, Eq)]
pub struct RefSnapshot {
    /// Full ref name (`refs/heads/...`) or `HEAD`.
    pub name: String,
    /// Target commit id in hex; `None` when the ref did not exist.
    pub target: Option<String>,
    /// Whether this is the snapshot of `HEAD`.
    pub is_head: bool,
    /// For `HEAD`: the branch it pointed at, if any.
    pub head_symbolic: Option<String>,
}

/// An effect on a remote that undo cannot reverse.
#[derive(Debug, Clone, PartialEq, Eq)]
pub enum RemoteEffect {
    Pushed { remote: String, branch: String, force: bool },
    PrCreated { number: u64, url: String },
    PrMerged { number: u64, url: String },
    PrClosed { number: u64, url: String },
    PrQueued { number: u64, url: String },
}

/// A record of the log.
#[derive(Debug, Clone)]
pub struct OperationRecord {
    /// `op_<13-digit ms>_<32 hex>`: sorts by time.
    pub id: String,
    pub schema_version: u32,
    pub kind: OperationKind,
    pub status: OperationStatus,
    pub created_at_ms: u64,
    /// The command's arguments.
    pub args: Vec<String>,
    pub stack_name: Option<String>,
    pub refs_before: Vec<RefSnapshot>,
    pub refs_after: Vec<RefSnapshot>,
    pub remote_effects: Vec<RemoteEffect>,
    /// Whether anything visible on a remote changed.
    pub touched_remote: bool,
    /// For undo records: the id of the operation undone.
    pub undoes: Option<String>,
    /// Free-form annotation, reserved.
    pub pending_plan: Option<serde_json::Value>,
}

/// A record can be undone locally: finished, no remote effect, and a
/// format this version understands.
pub open spec fn undoable(r: OperationRecord) -> bool {
    r.status == OperationStatus::Committed && !r.touched_remote && r.schema_version <= SCHEMA_VERSION
}

impl OperationRecord {
    /// Whether `gg undo` can reverse this record locally.
    pub fn is_undoable_locally(&self) -> (b: bool)
        ensures
            b == undoable(*self),
    {
        self.status == OperationStatus::Committed && !self.touched_remote && self.schema_version <= SCHEMA_VERSION
    }
}

/// Milliseconds since the Unix epoch, by the wall clock (0 if the clock is
/// before the epoch). Nothing is stated of the value: it is the time.
#[verifier::external_body]
pub fn now_ms() -> (r: u64) {
    std::time::SystemTime::now().duration_since(std::time::UNIX_EPOCH).map(|d| d.as_millis() as u64).unwrap_or(0)
}

/// `n` in decimal, padded with zeros on the left to `w` digits.
pub open spec fn zero_padded(n: nat, w: nat) -> Seq<char> {
    let d = dec(n);
    if d.len() < w {
        Seq::new((w - d.len()) as nat, |i: int| '0') + d
    } else {
        d
    }
}

/// The id `op_<ms padded to 13 digits>_<uuid>`.
pub open spec fn operation_id(ms: nat, uuid: Seq<char>) -> Seq<char> {
    "op_"@ + zero_padded(ms, 13) + "_"@ + uuid
}

/// The id of an operation started at `ms` with the random part `uuid`.
pub fn format_operation_id(ms: u64, uuid: &str) -> (r: String)
    ensures
        r@ == operation_id(ms as nat, uuid@),
{
    let d = dec_string(ms);
    let dv = chars_of(d.as_str());
    let mut s = String::new();
    push_str(&mut s, "op_");
    let ghost start = s@;
    let mut k: usize = dv.len();
    while k < 13
        invariant
            dv.len() <= k <= 13 || (k == dv.len() && k >= 13),
            s@ == start + Seq::new((k - dv.len()) as nat, |i: int| '0'),
        decreases 13 - k,
    {
        push_char(&mut s, '0');
        k = k + 1;
        assert(s@ =~= start + Seq::new((k - dv.len()) as nat, |i: int| '0'));
    }
    proof {
        if dv.len() >= 13 {
            assert(s@ =~= start);
        }
    }
    push_str(&mut s, d.as_str());
    push_str(&mut s, "_");
    push_str(&mut s, uuid);
    proof {
        if dv@.len() < 13 {
            assert(s@ =~= "op_"@ + (Seq::new((13 - dv@.len()) as nat, |i: int| '0') + d@) + "_"@ + uuid@);
        } else {
            assert(s@ =~= "op_"@ + d@ + "_"@ + uuid@);
        }
    }
    s
}

/// `10^w`.
pub open spec fn pow10(w: nat) -> nat
    decreases w,
{
    if w == 0 {
        1
    } else {
        10 * pow10((w - 1) as nat)
    }
}

/// The last `w` decimal digits of `n`, most significant first.
pub open spec fn low_digits(n: nat, w: nat) -> Seq<char>
    decreases w,
{
    if w == 0 {
        seq![]
    } else {
        low_digits(n / 10, (w - 1) as nat) + seq![digit(n % 10)]
    }
}

/// `a` comes before `b` in lexicographic (string) order.
pub open spec fn lex_less(a: Seq<char>, b: Seq<char>) -> bool {
    exists|k: int|
        0 <= k <= a.len() && k <= b.len() && #[trigger] a.take(k) == b.take(k) && ((k < a.len() && k < b.len() && (
        a[k] as u32) < (b[k] as u32)) || (k == a.len() && k < b.len()))
}

proof fn lemma_low_digits_zero(w: nat)
    ensures
        low_digits(0, w) == Seq::new(w, |i: int| '0'),
    decreases w,
{
    if w > 0 {
        lemma_low_digits_zero((w - 1) as nat);
        assert(digit(0) == '0');
        assert(low_digits(0, w) =~= Seq::new(w, |i: int| '0'));
    }
}

proof fn lemma_low_digits_len(n: nat, w: nat)
    ensures
        low_digits(n, w).len() == w,
    decreases w,
{
    if w > 0 {
        lemma_low_digits_len(n / 10, (w - 1) as nat);
    }
}

/// Below `10^w`, zero padding to `w` digits gives the last `w` digits.
proof fn lemma_padded_is_low_digits(n: nat, w: nat)
    requires
        n < pow10(w),
        w > 0,
    ensures
        zero_padded(n, w) == low_digits(n, w),
        dec(n).len() <= w,
    decreases n,
{
    lemma_dec_len(n);
    let w1 = (w - 1) as nat;
    if n < 10 {
        lemma_low_digits_zero(w1);
        assert(n / 10 == 0);
        assert(low_digits(n, w) =~= Seq::new(w1, |i: int| '0') + seq![digit(n)]);
        assert(zero_padded(n, w) =~= low_digits(n, w));
    } else {
        assert(n / 10 < pow10(w1)) by (nonlinear_arith)
            requires
                n < pow10(w),
                pow10(w) == 10 * pow10(w1),
        ;
        assert(w1 > 0) by {
            if w1 == 0 {
                assert(pow10(0) == 1);
            }
        }
        lemma_padded_is_low_digits(n / 10, w1);
        let d = dec(n / 10);
        assert(dec(n) == d + seq![digit(n % 10)]);
        if d.len() < w1 {
            assert(zero_padded(n / 10, w1) == Seq::new((w1 - d.len()) as nat, |i: int| '0') + d);
            assert(zero_padded(n, w) =~= low_digits(n, w));
        } else {
            assert(zero_padded(n / 10, w1) == d);
            assert(zero_padded(n, w) =~= low_digits(n, w));
        }
    }
}

/// For equal widths, the digits of the smaller number come first.
proof fn lemma_low_digits_order(a: nat, b: nat, w: nat)
    requires
        a < b < pow10(w),
    ensures
        exists|k: int|
            0 <= k < w && #[trigger] low_digits(a, w).take(k) == low_digits(b, w).take(k) && (low_digits(a, w)[k] as u32)
                < (low_digits(b, w)[k] as u32),
    decreases w,
{
    let w1 = (w - 1) as nat;
    if w == 0 {
        assert(false);
    }
    lemma_low_digits_len(a, w);
    lemma_low_digits_len(b, w);
    lemma_low_digits_len(a / 10, w1);
    lemma_low_digits_len(b / 10, w1);
    let la = low_digits(a, w);
    let lb = low_digits(b, w);
    assert(a / 10 <= b / 10) by (nonlinear_arith)
        requires
            a < b,
    ;
    if a / 10 == b / 10 {
        assert(a % 10 < b % 10) by (nonlinear_arith)
            requires
                a < b,
                a / 10 == b / 10,
        ;
        assert(la.take(w1 as int) =~= low_digits(a / 10, w1));
        assert(lb.take(w1 as int) =~= low_digits(b / 10, w1));
        assert(la[w1 as int] == digit(a % 10));
        assert(lb[w1 as int] == digit(b % 10));
        assert(la.take(w1 as int) == lb.take(w1 as int));
    } else {
        assert(b / 10 < pow10(w1)) by (nonlinear_arith)
            requires
                b < pow10(w),
                pow10(w) == 10 * pow10(w1),
        ;
        lemma_low_digits_order(a / 10, b / 10, w1);
        let k = choose|k: int|
            0 <= k < w1 && #[trigger] low_digits(a / 10, w1).take(k) == low_digits(b / 10, w1).take(k) && (low_digits(
                a / 10,
                w1,
            )[k] as u32) < (low_digits(b / 10, w1)[k] as u32);
        assert(la.take(k) =~= low_digits(a / 10, w1).take(k));
        assert(lb.take(k) =~= low_digits(b / 10, w1).take(k));
        assert(la[k] == low_digits(a / 10, w1)[k]);
        assert(lb[k] == low_digits(b / 10, w1)[k]);
        assert(la.take(k) == lb.take(k));
    }
}

/// Operation ids sort by time: an operation started earlier has the
/// smaller id in string order, whatever the random parts (for times below
/// `10^13` ms, the width the id gives them).
pub proof fn lemma_ids_sort_by_time(ms1: nat, ms2: nat, u1: Seq<char>, u2: Seq<char>)
    requires
        ms1 < ms2 < pow10(13),
    ensures
        lex_less(operation_id(ms1, u1), operation_id(ms2, u2)),
{
    lemma_padded_is_low_digits(ms1, 13);
    lemma_padded_is_low_digits(ms2, 13);
    lemma_low_digits_len(ms1, 13);
    lemma_low_digits_len(ms2, 13);
    lemma_low_digits_order(ms1, ms2, 13);
    let p1 = low_digits(ms1, 13);
    let p2 = low_digits(ms2, 13);
    let k = choose|k: int| 0 <= k < 13 && #[trigger] p1.take(k) == p2.take(k) && (p1[k] as u32) < (p2[k] as u32);
    let a = operation_id(ms1, u1);
    let b = operation_id(ms2, u2);
    reveal_strlit("op_");
    reveal_strlit("_");
    assert(a =~= seq!['o', 'p', '_'] + p1 + seq!['_'] + u1);
    assert(b =~= seq!['o', 'p', '_'] + p2 + seq!['_'] + u2);
    assert(a.take(3 + k) =~= seq!['o', 'p', '_'] + p1.take(k));
    assert(b.take(3 + k) =~= seq!['o', 'p', '_'] + p2.take(k));
    assert(a[3 + k] == p1[k]);
    assert(b[3 + k] == p2[k]);
    assert(a.take(3 + k) == b.take(3 + k));
}

/// `c` is a lowercase hexadecimal digit.
pub open spec fn is_lower_hex(c: char) -> bool {
    ('0' <= c && c <= '9') || ('a' <= c && c <= 'f')
}

/// A fresh random UUID (v4) in its simple form (`uuid::Uuid::new_v4` then
/// `simple()`): 32 lowercase hexadecimal digits, no hyphens.
#[verifier::external_body]
fn new_uuid_simple() -> (r: String)
    ensures
        r@.len() == 32,
        forall|i: int| 0 <= i < 32 ==> is_lower_hex(#[trigger] r@[i]),
{
    uuid::Uuid::new_v4().simple().to_string()
}

/// A fresh operation id: the current time and a random UUID.
pub fn new_id() -> (r: String)
    ensures
        exists|ms: nat, u: Seq<char>| u.len() == 32 && r@ == operation_id(ms, u),
{
    let ms = now_ms();
    let u = new_uuid_simple();
    format_operation_id(ms, u.as_str())
}

/// Where the records of a repository live.
#[derive(Debug, Clone)]
pub struct OperationStore {
    operations_dir: String,
}

impl OperationStore {
    /// The store under `gg_dir` (`<gg_dir>/operations`).
    pub fn new(gg_dir: &str) -> (r: Self)
        ensures
            r.dir() == path_join(gg_dir@, "operations"@),
    {
        OperationStore { operations_dir: join_path(gg_dir, "operations") }
    }

    /// The directory of the records.
    pub closed spec fn dir(&self) -> Seq<char> {
        self.operations_dir@
    }

    /// The directory of the records.
    pub fn operations_dir(&self) -> (r: &str)
        ensures
            r@ == self.dir(),
    {
        self.operations_dir.as_str()
    }

    /// The file of the record `id`: `<dir>/<id>.json`.
    pub fn path_for(&self, id: &str) -> (r: String)
        ensures
            r@ == path_join(self.dir(), id@ + ".json"@),
    {
        let mut name = String::new();
        push_str(&mut name, id);
        push_str(&mut name, ".json");
        join_path(self.operations_dir.as_str(), name.as_str())
    }
}

/// The record of an operation under way, with the store it belongs to. The
/// record starts out pending; on success the caller finalizes it and saves
/// it. Dropped unfinalized, it stays pending in the store, and the next
/// sweep marks it interrupted.
#[derive(Debug)]
pub struct OperationGuard {
    pub record: OperationRecord,
    pub store: OperationStore,
    pub finalized: bool,
}

/// `r` is the pending record `id` of an operation just begun.
pub open spec fn pending_record(
    r: OperationRecord,
    id: Seq<char>,
    created_at_ms: u64,
    kind: OperationKind,
    args: Seq<Seq<char>>,
    stack_name: Option<Seq<char>>,
    refs_before: Seq<RefSnapshot>,
) -> bool {
    &&& r.id@ == id && r.schema_version == SCHEMA_VERSION && r.kind == kind
    &&& r.status == OperationStatus::Pending && r.created_at_ms == created_at_ms
    &&& views(r.args@) == args && opt_view(r.stack_name) == stack_name && r.refs_before@ == refs_before
    &&& r.refs_after@.len() == 0 && r.remote_effects@.len() == 0 && !r.touched_remote
    &&& r.undoes is None && r.pending_plan is None
}

impl OperationGuard {
    /// The guard of an operation begun at `created_at_ms` with the refs as
    /// they were (`refs_before`); its pending record is the one to save.
    pub fn begin(
        store: OperationStore,
        id: String,
        created_at_ms: u64,
        kind: OperationKind,
        args: Vec<String>,
        stack_name: Option<String>,
        refs_before: Vec<RefSnapshot>,
    ) -> (g: Self)
        ensures
            pending_record(g.record, id@, created_at_ms, kind, views(args@), opt_view(stack_name), refs_before@),
            g.store == store,
            !g.finalized,
    {
        let record = OperationRecord {
            id,
            schema_version: SCHEMA_VERSION,
            kind,
            status: OperationStatus::Pending,
            created_at_ms,
            args,
            stack_name,
            refs_before,
            refs_after: Vec::new(),
            remote_effects: Vec::new(),
            touched_remote: false,
            undoes: None,
            pending_plan: None,
        };
        OperationGuard { record, store, finalized: false }
    }

    /// The record's id.
    pub fn id(&self) -> (r: &str)
        ensures
            r@ == self.record.id@,
    {
        self.record.id.as_str()
    }

    /// Marks the operation committed, with the refs as they are now and its
    /// effects on remotes; the record is then the one to save.
    pub fn finalize(&mut self, refs_after: Vec<RefSnapshot>, remote_effects: Vec<RemoteEffect>, touched_remote: bool)
        ensures
            final(self).record.status == OperationStatus::Committed,
            final(self).record.refs_after@ == refs_after@,
            final(self).record.remote_effects@ == remote_effects@,
            final(self).record.touched_remote == touched_remote,
            final(self).record.id == old(self).record.id,
            final(self).record.kind == old(self).record.kind,
            final(self).record.created_at_ms == old(self).record.created_at_ms,
            final(self).record.refs_before == old(self).record.refs_before,
            final(self).record.undoes == old(self).record.undoes,
            final(self).store == old(self).store,
            final(self).finalized,
    {
        self.record.status = OperationStatus::Committed;
        self.record.refs_after = refs_after;
        self.record.remote_effects = remote_effects;
        self.record.touched_remote = touched_remote;
        self.finalized = true;
    }

    /// Marks an undo committed, with the refs as they are now and the id of
    /// the operation it undid; the record is then the one to save.
    pub fn finalize_as_undo(&mut self, refs_after: Vec<RefSnapshot>, target_id: String)
        ensures
            final(self).record.status == OperationStatus::Committed,
            final(self).record.refs_after@ == refs_after@,
            opt_view(final(self).record.undoes) == Some(target_id@),
            final(self).record.id == old(self).record.id,
            final(self).record.kind == old(self).record.kind,
            final(self).record.created_at_ms == old(self).record.created_at_ms,
            final(self).record.refs_before == old(self).record.refs_before,
            final(self).record.remote_effects == old(self).record.remote_effects,
            final(self).record.touched_remote == old(self).record.touched_remote,
            final(self).store == old(self).store,
            final(self).finalized,
    {
        self.record.status = OperationStatus::Committed;
        self.record.refs_after = refs_after;
        self.record.undoes = Some(target_id);
        self.finalized = true;
    }
}

/// A pending record older than the staleness window counts as interrupted.
pub open spec fn stale_pending(r: OperationRecord, now: nat) -> bool {
    r.status == OperationStatus::Pending && (if r.created_at_ms + PENDING_STALENESS_MS > u64::MAX {
        u64::MAX as nat
    } else {
        (r.created_at_ms + PENDING_STALENESS_MS) as nat
    }) < now
}

/// Whether the sweep should mark this record as interrupted at time `now_ms_value`.
pub fn should_interrupt(record: &OperationRecord, now_ms_value: u64) -> (b: bool)
    ensures
        b == stale_pending(*record, now_ms_value as nat),
{
    record.status == OperationStatus::Pending && record.created_at_ms.saturating_add(PENDING_STALENESS_MS) < now_ms_value
}

/// A branch name reserved for the trunk.
pub open spec fn is_trunk_name(n: Seq<char>) -> bool {
    n == "main"@ || n == "master"@ || n == "trunk"@
}

/// A branch that belongs to `username`'s namespace and is not a trunk.
pub open spec fn is_user_branch(name: Seq<char>, username: Seq<char>) -> bool {
    !is_trunk_name(name) && starts_with(name, username + seq!['/'])
}

/// Whether a snapshot of all the user's branches covers this branch.
pub fn covers_branch(name: &str, username: &str) -> (b: bool)
    ensures
        b == is_user_branch(name@, username@),
{
    if str_eq(name, "main") || str_eq(name, "master") || str_eq(name, "trunk") {
        return false;
    }
    let mut prefix = String::new();
    push_str(&mut prefix, username);
    push_char(&mut prefix, '/');
    assert(prefix@ =~= username@ + seq!['/']);
    proof {
        reveal_strlit("main");
        reveal_strlit("master");
        reveal_strlit("trunk");
    }
    starts_with_exec(&chars_of(name), &chars_of(prefix.as_str()))
}

/// Which refs a snapshot covers: those of one stack, or every branch of the
/// configured user.
pub enum SnapshotScope<'a> {
    ActiveStack(&'a Stack),
    AllUserBranches,
}

/// The full name of local branch `b`.
pub open spec fn head_ref(b: Seq<char>) -> Seq<char> {
    "refs/heads/"@ + b
}

/// The refs of a stack: its branch, then the entry branches of its first
/// `n` entries, for those that have one.
pub open spec fn stack_refs(stack: Stack, n: int) -> Seq<Seq<char>>
    decreases n,
{
    if n <= 0 {
        seq![head_ref(stack.username@ + seq!['/'] + stack.name@)]
    } else {
        let r = stack_refs(stack, n - 1);
        match entry_branch_of(stack, stack.entries@[n - 1]) {
            Some(b) => r.push(head_ref(b)),
            None => r,
        }
    }
}

/// The refs of the first `n` local branches that belong to `username`.
pub open spec fn user_refs(branches: Seq<Seq<char>>, username: Seq<char>, n: int) -> Seq<Seq<char>>
    decreases n,
{
    if n <= 0 {
        seq![]
    } else {
        let r = user_refs(branches, username, n - 1);
        if is_user_branch(branches[n - 1], username) {
            r.push(head_ref(branches[n - 1]))
        } else {
            r
        }
    }
}

/// `r` is the ref of a branch of `username`'s namespace that is no trunk.
pub open spec fn is_user_ref(r: Seq<char>, username: Seq<char>) -> bool {
    exists|b: Seq<char>| #[trigger] is_user_branch(b, username) && r == head_ref(b)
}

/// A snapshot of the user's branches covers only branches of the user's
/// namespace, and never a trunk (`main`, `master`, `trunk`), whatever the
/// local branches are.
pub proof fn lemma_user_refs_skip_trunks(branches: Seq<Seq<char>>, username: Seq<char>, n: int)
    ensures
        forall|k: int| 0 <= k < user_refs(branches, username, n).len() ==> is_user_ref(
            #[trigger] user_refs(branches, username, n)[k],
            username,
        ),
        forall|t: Seq<char>| is_trunk_name(t) ==> !user_refs(branches, username, n).contains(#[trigger] head_ref(t)),
    decreases n,
{
    let s = user_refs(branches, username, n);
    if n > 0 {
        lemma_user_refs_skip_trunks(branches, username, n - 1);
        let r = user_refs(branches, username, n - 1);
        assert forall|k: int| 0 <= k < s.len() implies is_user_ref(#[trigger] s[k], username) by {
            if k < r.len() {
                assert(s[k] == r[k]);
                assert(is_user_ref(r[k], username));
            } else {
                let b = branches[n - 1];
                assert(is_user_branch(b, username) && s[k] == head_ref(b));
            }
        }
    }
    reveal_strlit("refs/heads/");
    assert forall|t: Seq<char>| is_trunk_name(t) implies !s.contains(#[trigger] head_ref(t)) by {
        if s.contains(head_ref(t)) {
            let k = choose|k: int| 0 <= k < s.len() && s[k] == head_ref(t);
            assert(is_user_ref(s[k], username));
            let b = choose|b: Seq<char>| #[trigger] is_user_branch(b, username) && s[k] == head_ref(b);
            assert(head_ref(b).skip(11) =~= b);
            assert(head_ref(t).skip(11) =~= t);
        }
    }
}

fn head_ref_of(b: &str) -> (r: String)
    ensures
        r@ == head_ref(b@),
{
    let mut r = String::new();
    push_str(&mut r, "refs/heads/");
    push_str(&mut r, b);
    r
}

/// The refs, by full name and in order, that a snapshot of `scope` covers
/// (`HEAD` aside, which every snapshot adds): a stack's branch and entry
/// branches; or, of the local branches `local_branches`, those of the
/// configured user other than the trunk names, none without a user.
pub fn snapshot_ref_names(config: &Config, scope: &SnapshotScope, local_branches: &Vec<String>) -> (r: Vec<String>)
    ensures
        views(r@) == match scope {
            SnapshotScope::ActiveStack(stack) => stack_refs(**stack, stack.entries@.len() as int),
            SnapshotScope::AllUserBranches => match opt_view(config.defaults.branch_username) {
                Some(u) => user_refs(views(local_branches@), u, local_branches@.len() as int),
                None => seq![],
            },
        },
{
    let mut out: Vec<String> = Vec::new();
    match scope {
        SnapshotScope::ActiveStack(stack) => {
            let b = stack.branch_name();
            out.push(head_ref_of(b.as_str()));
            let mut i: usize = 0;
            while i < stack.entries.len()
                invariant
                    i <= stack.entries@.len(),
                    views(out@) == stack_refs(**stack, i as int),
                decreases stack.entries.len() - i,
            {
                match stack.entry_branch_name(&stack.entries[i]) {
                    Some(n) => {
                        out.push(head_ref_of(n.as_str()));
                        assert(views(out@) =~= stack_refs(**stack, i as int).push(head_ref(n@)));
                    },
                    None => {},
                }
                i = i + 1;
            }
        },
        SnapshotScope::AllUserBranches => match &config.defaults.branch_username {
            Some(u) => {
                let ghost bs = views(local_branches@);
                let mut i: usize = 0;
                while i < local_branches.len()
                    invariant
                        i <= local_branches@.len(),
                        bs == views(local_branches@),
                        views(out@) == user_refs(bs, u@, i as int),
                    decreases local_branches.len() - i,
                {
                    let name = local_branches[i].as_str();
                    proof {
                        assert(bs[i as int] == name@);
                    }
                    if covers_branch(name, u.as_str()) {
                        out.push(head_ref_of(name));
                        assert(views(out@) =~= user_refs(bs, u@, i as int).push(head_ref(name@)));
                    }
                    i = i + 1;
                }
            },
            None => {},
        },
    }
    out
}

/// Options of an undo.
#[derive(Debug, Clone)]
pub struct UndoOptions {
    /// The record to undo (the most recent undoable one when `None`).
    pub operation_id: Option<String>,
}

impl Default for UndoOptions {
    fn default() -> (r: Self)
        ensures
            r.operation_id is None,
    {
        UndoOptions { operation_id: None }
    }
}

/// How an undo ended.
#[derive(Debug)]
pub enum UndoOutcome {
    Succeeded(OperationRecord),
    RefusedRemote { target: OperationRecord, hints: Vec<String> },
    RefusedInterrupted(OperationRecord),
    RefusedStale { target: OperationRecord, ref_name: String, expected: String, actual: String },
    RefusedUnsupportedSchema(OperationRecord),
}

/// The index of the first undoable record of a newest-first list.
pub fn first_undoable(records: &Vec<OperationRecord>) -> (r: Option<usize>)
    ensures
        match r {
            Some(i) => i < records@.len() && undoable(records@[i as int])
                && forall|j: int| 0 <= j < i ==> !undoable(#[trigger] records@[j]),
            None => forall|j: int| 0 <= j < records@.len() ==> !undoable(#[trigger] records@[j]),
        },
{
    let mut i: usize = 0;
    while i < records.len()
        invariant
            i <= records@.len(),
            forall|j: int| 0 <= j < i ==> !undoable(#[trigger] records@[j]),
        decreases records.len() - i,
    {
        if records[i].is_undoable_locally() {
            return Some(i);
        }
        i = i + 1;
    }
    None
}

/// The first gates of an undo, in order: a newer format, an interrupted
/// operation, then an operation that touched a remote are refused;
/// otherwise the record goes on to the staleness check.
pub fn undo_gate(target: OperationRecord) -> (r: Result<OperationRecord, UndoOutcome>)
    ensures
        target.schema_version > SCHEMA_VERSION ==> (r matches Err(UndoOutcome::RefusedUnsupportedSchema(t)) && t == target),
        target.schema_version <= SCHEMA_VERSION && target.status == OperationStatus::Interrupted ==> (r matches Err(
            UndoOutcome::RefusedInterrupted(t),
        ) && t == target),
        target.schema_version <= SCHEMA_VERSION && target.status != OperationStatus::Interrupted && target.touched_remote
            ==> (r matches Err(UndoOutcome::RefusedRemote { target: t, hints: h }) && t == target && views(h@)
            == remote_hints(target)),
        target.schema_version <= SCHEMA_VERSION && target.status != OperationStatus::Interrupted && !target.touched_remote
            ==> r == Ok::<OperationRecord, UndoOutcome>(target),
{
    if target.schema_version > SCHEMA_VERSION {
        return Err(UndoOutcome::RefusedUnsupportedSchema(target));
    }
    if target.status == OperationStatus::Interrupted {
        return Err(UndoOutcome::RefusedInterrupted(target));
    }
    if target.touched_remote {
        let hints = build_remote_hints(&target);
        return Err(UndoOutcome::RefusedRemote { target, hints });
    }
    Ok(target)
}

/// The text for a missing ref.
pub open spec fn or_absent(t: Option<Seq<char>>) -> Seq<char> {
    match t {
        Some(x) => x,
        None => "<absent>"@,
    }
}

/// The first non-`HEAD` ref, from index `i` on, whose current target
/// differs from the one recorded after the operation.
pub open spec fn first_moved(after: Seq<RefSnapshot>, current: Seq<Option<Seq<char>>>, i: int) -> Option<int>
    decreases after.len() - i,
{
    if i < 0 || i >= after.len() {
        None
    } else if after[i].name@ != "HEAD"@ && current[i] != crate::git::opt_view(after[i].target) {
        Some(i)
    } else {
        first_moved(after, current, i + 1)
    }
}

/// The staleness gate: an undo is refused when a ref the operation left
/// behind (other than `HEAD`) has moved since. `current[i]` is the present
/// target of `target.refs_after[i]`.
pub fn stale_check(target: OperationRecord, current: &Vec<Option<String>>) -> (r: Result<OperationRecord, UndoOutcome>)
    requires
        current@.len() == target.refs_after@.len(),
    ensures
        ({
            let cur = current@.map_values(|c: Option<String>| crate::git::opt_view(c));
            match first_moved(target.refs_after@, cur, 0) {
                Some(i) => r matches Err(UndoOutcome::RefusedStale { target: t, ref_name: n, expected: e, actual: a })
                    && t == target && n@ == target.refs_after@[i].name@ && e@ == or_absent(
                    crate::git::opt_view(target.refs_after@[i].target),
                ) && a@ == or_absent(cur[i]),
                None => r == Ok::<OperationRecord, UndoOutcome>(target),
            }
        }),
{
    let ghost cur = current@.map_values(|c: Option<String>| crate::git::opt_view(c));
    let mut i: usize = 0;
    while i < target.refs_after.len()
        invariant
            i <= target.refs_after@.len(),
            current@.len() == target.refs_after@.len(),
            cur == current@.map_values(|c: Option<String>| crate::git::opt_view(c)),
            first_moved(target.refs_after@, cur, 0) == first_moved(target.refs_after@, cur, i as int),
        decreases target.refs_after.len() - i,
    {
        let snap = &target.refs_after[i];
        if !str_eq(snap.name.as_str(), "HEAD") {
            let same = match (&current[i], &snap.target) {
                (Some(a), Some(b)) => str_eq(a.as_str(), b.as_str()),
                (None, None) => true,
                _ => false,
            };
            assert(cur[i as int] == crate::git::opt_view(current@[i as int]));
            if !same {
                let ref_name = string_of(&chars_of(snap.name.as_str()));
                let expected = match &snap.target {
                    Some(t) => string_of(&chars_of(t.as_str())),
                    None => string_of(&chars_of("<absent>")),
                };
                let actual = match &current[i] {
                    Some(t) => string_of(&chars_of(t.as_str())),
                    None => string_of(&chars_of("<absent>")),
                };
                return Err(UndoOutcome::RefusedStale { target, ref_name, expected, actual });
            }
        }
        i = i + 1;
    }
    Ok(target)
}

/// The current target, in a table of (full ref name, target), of the ref
/// `name`: the first row that names it, none when no row does (the ref does
/// not exist).
pub open spec fn lookup_ref(table: Seq<(String, Option<String>)>, name: Seq<char>, i: int) -> Option<Seq<char>>
    decreases table.len() - i,
{
    if i < 0 || i >= table.len() {
        None
    } else if table[i].0@ == name {
        crate::git::opt_view(table[i].1)
    } else {
        lookup_ref(table, name, i + 1)
    }
}

/// The record an undo works on: the one with the requested id (the first
/// such), or else the newest undoable one; none when there is no such record.
pub open spec fn chosen_record(records: Seq<OperationRecord>, requested: Option<Seq<char>>, i: int) -> Option<int>
    decreases records.len() - i,
{
    if i < 0 || i >= records.len() {
        None
    } else if match requested {
        Some(id) => records[i].id@ == id,
        None => undoable(records[i]),
    } {
        Some(i)
    } else {
        chosen_record(records, requested, i + 1)
    }
}

fn lookup_current(table: &Vec<(String, Option<String>)>, name: &str) -> (r: Option<String>)
    ensures
        crate::git::opt_view(r) == lookup_ref(table@, name@, 0),
{
    let mut i: usize = 0;
    while i < table.len()
        invariant
            i <= table@.len(),
            lookup_ref(table@, name@, 0) == lookup_ref(table@, name@, i as int),
        decreases table.len() - i,
    {
        if str_eq(table[i].0.as_str(), name) {
            return match &table[i].1 {
                Some(t) => Some(string_of(&chars_of(t.as_str()))),
                None => None,
            };
        }
        i = i + 1;
    }
    None
}

/// What an undo decides before touching any ref. The records are the log,
/// newest first; `requested_id` names the record to undo (the newest
/// undoable one when `None`); `current_refs` gives the present target of
/// each existing ref. An unknown id, or no undoable record, is an error.
/// Otherwise the gates run in order (newer format, interrupted, touched a
/// remote), and only then the staleness check against the present refs;
/// a record that passes them all is the one to restore.
pub fn undo_decision(
    records: Vec<OperationRecord>,
    requested_id: Option<&str>,
    current_refs: &Vec<(String, Option<String>)>,
) -> (r: Result<Result<OperationRecord, UndoOutcome>, GgError>)
    ensures
        ({
            let req = match requested_id {
                Some(i) => Some(i@),
                None => None::<Seq<char>>,
            };
            match chosen_record(records@, req, 0) {
                None => match requested_id {
                    Some(id) => r matches Err(GgError::OperationRecordNotFound(m)) && m@ == id@,
                    None => r matches Err(GgError::OperationNotUndoable { id, reason }) && id@ == "<none>"@
                        && reason@ == "no undoable operation in the log"@,
                },
                Some(k) => {
                    let t = records@[k];
                    let cur = Seq::new(t.refs_after@.len(), |i: int| lookup_ref(current_refs@, t.refs_after@[i].name@, 0));
                    &&& t.schema_version > SCHEMA_VERSION ==> (r matches Ok(Err(UndoOutcome::RefusedUnsupportedSchema(x))) && x == t)
                    &&& t.schema_version <= SCHEMA_VERSION && t.status == OperationStatus::Interrupted ==> (r matches Ok(
                        Err(UndoOutcome::RefusedInterrupted(x)),
                    ) && x == t)
                    &&& t.schema_version <= SCHEMA_VERSION && t.status != OperationStatus::Interrupted && t.touched_remote
                        ==> (r matches Ok(Err(UndoOutcome::RefusedRemote { target: x, hints: h })) && x == t && views(h@)
                        == remote_hints(t))
                    &&& t.schema_version <= SCHEMA_VERSION && t.status != OperationStatus::Interrupted && !t.touched_remote
                        ==> match first_moved(t.refs_after@, cur, 0) {
                        Some(i) => r matches Ok(Err(UndoOutcome::RefusedStale { target: x, ref_name: n, expected: e, actual: a }))
                            && x == t && n@ == t.refs_after@[i].name@ && e@ == or_absent(
                            crate::git::opt_view(t.refs_after@[i].target),
                        ) && a@ == or_absent(cur[i]),
                        None => r == Ok::<Result<OperationRecord, UndoOutcome>, GgError>(Ok(t)),
                    }
                },
            }
        }),
{
    let ghost req = match requested_id {
        Some(i) => Some(i@),
        None => None::<Seq<char>>,
    };
    let mut records = records;
    let ghost recs = records@;
    let mut k: usize = 0;
    let mut found = false;
    while !found && k < records.len()
        invariant
            k <= records@.len(),
            records@ == recs,
            found ==> k < records@.len() && chosen_record(recs, req, 0) == Some(k as int),
            !found ==> chosen_record(recs, req, 0) == chosen_record(recs, req, k as int),
            req == match requested_id {
                Some(i) => Some(i@),
                None => None::<Seq<char>>,
            },
        decreases records.len() - k + if found { 0int } else { 1int },
    {
        let hit = match requested_id {
            Some(id) => str_eq(records[k].id.as_str(), id),
            None => records[k].is_undoable_locally(),
        };
        if hit {
            found = true;
        } else {
            k = k + 1;
        }
    }
    if !found {
        return match requested_id {
            Some(id) => Err(GgError::OperationRecordNotFound(string_of(&chars_of(id)))),
            None => Err(GgError::OperationNotUndoable {
                id: string_of(&chars_of("<none>")),
                reason: string_of(&chars_of("no undoable operation in the log")),
            }),
        };
    }
    let target = records.remove(k);
    let target = match undo_gate(target) {
        Ok(t) => t,
        Err(o) => return Ok(Err(o)),
    };
    let mut cur: Vec<Option<String>> = Vec::new();
    let mut i: usize = 0;
    while i < target.refs_after.len()
        invariant
            i <= target.refs_after@.len(),
            cur@.len() == i,
            forall|j: int| 0 <= j < i ==> crate::git::opt_view(#[trigger] cur@[j]) == lookup_ref(
                current_refs@,
                target.refs_after@[j].name@,
                0,
            ),
        decreases target.refs_after.len() - i,
    {
        cur.push(lookup_current(current_refs, target.refs_after[i].name.as_str()));
        i = i + 1;
    }
    let ghost t = target;
    proof {
        assert(cur@.map_values(|c: Option<String>| crate::git::opt_view(c)) =~= Seq::new(
            t.refs_after@.len(),
            |j: int| lookup_ref(current_refs@, t.refs_after@[j].name@, 0),
        ));
    }
    Ok(stale_check(target, &cur))
}

/// A change to a ref that restoring a snapshot makes.
#[derive(Debug, Clone, PartialEq, Eq)]
pub enum RefUpdate {
    /// Point HEAD at this branch ref.
    HeadToBranch(String),
    /// Detach HEAD at this commit.
    HeadDetached(String),
    /// Point the ref at this commit.
    SetRef { name: String, target: String },
    /// Delete the ref, if it exists.
    Delete(String),
}

/// A ref change by its texts: the kind (0 HEAD to a branch, 1 HEAD
/// detached, 2 set, 3 delete), the ref or branch name, and the commit.
pub open spec fn update_model(u: RefUpdate) -> (u8, Seq<char>, Seq<char>) {
    match u {
        RefUpdate::HeadToBranch(b) => (0u8, b@, seq![]),
        RefUpdate::HeadDetached(t) => (1u8, seq![], t@),
        RefUpdate::SetRef { name, target } => (2u8, name@, target@),
        RefUpdate::Delete(n) => (3u8, n@, seq![]),
    }
}

/// The change that restores one snapshot, if any (a HEAD snapshot with
/// neither a branch nor a commit changes nothing).
pub open spec fn restore_of(s: RefSnapshot) -> Option<(u8, Seq<char>, Seq<char>)> {
    if s.name@ == "HEAD"@ {
        match s.head_symbolic {
            Some(b) => Some((0u8, b@, seq![])),
            None => match s.target {
                Some(t) => Some((1u8, seq![], t@)),
                None => None,
            },
        }
    } else {
        match s.target {
            Some(t) => Some((2u8, s.name@, t@)),
            None => Some((3u8, s.name@, seq![])),
        }
    }
}

/// The changes, in order, that restoring snapshots `snaps[..n]` makes.
pub open spec fn restore_seq(snaps: Seq<RefSnapshot>, n: int) -> Seq<(u8, Seq<char>, Seq<char>)>
    decreases n,
{
    if n <= 0 {
        seq![]
    } else {
        match restore_of(snaps[n - 1]) {
            Some(u) => restore_seq(snaps, n - 1).push(u),
            None => restore_seq(snaps, n - 1),
        }
    }
}

/// What a successful undo does to the refs: each ref back to its target
/// before the operation (deleted when it did not exist), HEAD back on its
/// branch or commit, in the order of `refs_before`.
pub fn restore_steps(target: &OperationRecord) -> (r: Vec<RefUpdate>)
    ensures
        r@.map_values(|u: RefUpdate| update_model(u)) == restore_seq(target.refs_before@, target.refs_before@.len() as int),
{
    let mut out: Vec<RefUpdate> = Vec::new();
    let mut i: usize = 0;
    while i < target.refs_before.len()
        invariant
            i <= target.refs_before@.len(),
            out@.map_values(|u: RefUpdate| update_model(u)) == restore_seq(target.refs_before@, i as int),
        decreases target.refs_before.len() - i,
    {
        let s = &target.refs_before[i];
        let step: Option<RefUpdate> = if str_eq(s.name.as_str(), "HEAD") {
            match &s.head_symbolic {
                Some(b) => Some(RefUpdate::HeadToBranch(string_of(&chars_of(b.as_str())))),
                None => match &s.target {
                    Some(t) => Some(RefUpdate::HeadDetached(string_of(&chars_of(t.as_str())))),
                    None => None,
                },
            }
        } else {
            match &s.target {
                Some(t) => Some(RefUpdate::SetRef {
                    name: string_of(&chars_of(s.name.as_str())),
                    target: string_of(&chars_of(t.as_str())),
                }),
                None => Some(RefUpdate::Delete(string_of(&chars_of(s.name.as_str())))),
            }
        };
        proof {
            reveal_strlit("HEAD");
        }
        match step {
            Some(u) => {
                let ghost before = out@;
                out.push(u);
                assert(out@.map_values(|u: RefUpdate| update_model(u)) =~= before.map_values(|u: RefUpdate| update_model(u)).push(
                    update_model(u),
                ));
            },
            None => {},
        }
        i = i + 1;
    }
    out
}

/// What to tell the user about one remote effect of the record `id`.
pub open spec fn hint_for(e: RemoteEffect, id: Seq<char>) -> Seq<char> {
    match e {
        RemoteEffect::Pushed { remote, branch, .. } => "This operation pushed `"@ + branch@ + "` to `"@ + remote@
            + "`. To revert a pushed branch manually, run: `git push --force-with-lease "@ + remote@ + " <prior_sha>:refs/heads/"@
            + branch@ + "` where <prior_sha> is the pre-op SHA (see refs_before via `gg undo --json "@ + id + "`)."@,
        RemoteEffect::PrCreated { number, url } => "This operation opened "@ + url@ + ". Close it manually: `gh pr close "@
            + dec(number as nat) + "` / `glab mr close "@ + dec(number as nat) + "`."@,
        RemoteEffect::PrMerged { number, url } => "This operation merged "@ + url@
            + ". Reversing a merged PR requires a manual revert on the base branch and optional reopen: `gh pr reopen "@ + dec(
            number as nat,
        ) + "` / `glab mr reopen "@ + dec(number as nat) + "`."@,
        RemoteEffect::PrClosed { number, url } => "Reopen "@ + url@ + " with `gh pr reopen "@ + dec(number as nat)
            + "` / `glab mr reopen "@ + dec(number as nat) + "`."@,
        RemoteEffect::PrQueued { number, url } => "This operation queued "@ + (if url@.len() == 0 {
            "PR #"@ + dec(number as nat)
        } else {
            url@
        }) + " for auto-merge. To cancel before it merges: `gh pr merge --disable-auto "@ + dec(number as nat)
            + "` / `glab mr update "@ + dec(number as nat) + " --remove-auto-merge`."@,
    }
}

/// The hints for every remote effect of a record, in order.
pub open spec fn remote_hints(r: OperationRecord) -> Seq<Seq<char>> {
    r.remote_effects@.map_values(|e: RemoteEffect| hint_for(e, r.id@))
}

fn hint(e: &RemoteEffect, id: &str) -> (r: String)
    ensures
        r@ == hint_for(*e, id@),
{
    let mut s = String::new();
    match e {
        RemoteEffect::Pushed { remote, branch, .. } => {
            push_str(&mut s, "This operation pushed `");
            push_str(&mut s, branch.as_str());
            push_str(&mut s, "` to `");
            push_str(&mut s, remote.as_str());
            push_str(&mut s, "`. To revert a pushed branch manually, run: `git push --force-with-lease ");
            push_str(&mut s, remote.as_str());
            push_str(&mut s, " <prior_sha>:refs/heads/");
            push_str(&mut s, branch.as_str());
            push_str(&mut s, "` where <prior_sha> is the pre-op SHA (see refs_before via `gg undo --json ");
            push_str(&mut s, id);
            push_str(&mut s, "`).");
        },
        RemoteEffect::PrCreated { number, url } => {
            let n = dec_string(*number);
            push_str(&mut s, "This operation opened ");
            push_str(&mut s, url.as_str());
            push_str(&mut s, ". Close it manually: `gh pr close ");
            push_str(&mut s, n.as_str());
            push_str(&mut s, "` / `glab mr close ");
            push_str(&mut s, n.as_str());
            push_str(&mut s, "`.");
        },
        RemoteEffect::PrMerged { number, url } => {
            let n = dec_string(*number);
            push_str(&mut s, "This operation merged ");
            push_str(&mut s, url.as_str());
            push_str(
                &mut s,
                ". Reversing a merged PR requires a manual revert on the base branch and optional reopen: `gh pr reopen ",
            );
            push_str(&mut s, n.as_str());
            push_str(&mut s, "` / `glab mr reopen ");
            push_str(&mut s, n.as_str());
            push_str(&mut s, "`.");
        },
        RemoteEffect::PrClosed { number, url } => {
            let n = dec_string(*number);
            push_str(&mut s, "Reopen ");
            push_str(&mut s, url.as_str());
            push_str(&mut s, " with `gh pr reopen ");
            push_str(&mut s, n.as_str());
            push_str(&mut s, "` / `glab mr reopen ");
            push_str(&mut s, n.as_str());
            push_str(&mut s, "`.");
        },
        RemoteEffect::PrQueued { number, url } => {
            let n = dec_string(*number);
            push_str(&mut s, "This operation queued ");
            if chars_of(url.as_str()).len() == 0 {
                push_str(&mut s, "PR #");
                push_str(&mut s, n.as_str());
            } else {
                push_str(&mut s, url.as_str());
            }
            push_str(&mut s, " for auto-merge. To cancel before it merges: `gh pr merge --disable-auto ");
            push_str(&mut s, n.as_str());
            push_str(&mut s, "` / `glab mr update ");
            push_str(&mut s, n.as_str());
            push_str(&mut s, " --remove-auto-merge`.");
        },
    }
    s
}

/// One hint per remote effect of the record, in order.
pub fn build_remote_hints(record: &OperationRecord) -> (r: Vec<String>)
    ensures
        views(r@) == remote_hints(*record),
{
    let mut out: Vec<String> = Vec::new();
    let mut i: usize = 0;
    while i < record.remote_effects.len()
        invariant
            i <= record.remote_effects@.len(),
            views(out@) == record.remote_effects@.take(i as int).map_values(|e: RemoteEffect| hint_for(e, record.id@)),
        decreases record.remote_effects.len() - i,
    {
        let h = hint(&record.remote_effects[i], record.id.as_str());
        let ghost before = out@;
        out.push(h);
        proof {
            assert(views(out@) =~= views(before).push(h@));
            assert(record.remote_effects@.take(i + 1) =~= record.remote_effects@.take(i as int).push(record.remote_effects@[i as int]));
            assert(record.remote_effects@.take(i + 1).map_values(|e: RemoteEffect| hint_for(e, record.id@))
                =~= record.remote_effects@.take(i as int).map_values(|e: RemoteEffect| hint_for(e, record.id@)).push(
                hint_for(record.remote_effects@[i as int], record.id@),
            ));
        }
        i = i + 1;
    }
    assert(record.remote_effects@.take(record.remote_effects.len() as int) =~= record.remote_effects@);
    out
}

/// Record `a` comes before record `b` when ordering by time: by creation
/// time (newest first when `newest_first`), ties in list order.
pub open spec fn comes_before(times: Seq<u64>, a: int, b: int, newest_first: bool) -> bool {
    if newest_first {
        times[a] > times[b] || (times[a] == times[b] && a < b)
    } else {
        times[a] < times[b] || (times[a] == times[b] && a < b)
    }
}

/// `order` lists every index of `times` once, ordered by time (a stable
/// sort by creation time).
pub open spec fn is_time_order(times: Seq<u64>, order: Seq<usize>, newest_first: bool) -> bool {
    &&& order.len() == times.len()
    &&& forall|i: int| 0 <= i < order.len() ==> #[trigger] order[i] < times.len()
    &&& forall|i: int, j: int|
        0 <= i < j < order.len() ==> comes_before(times, #[trigger] order[i] as int, #[trigger] order[j] as int, newest_first)
}

fn before_index(times: &Vec<u64>, a: usize, b: usize, newest_first: bool) -> (r: bool)
    requires
        a < times@.len(),
        b < times@.len(),
    ensures
        r == comes_before(times@, a as int, b as int, newest_first),
{
    if newest_first {
        times[a] > times[b] || (times[a] == times[b] && a < b)
    } else {
        times[a] < times[b] || (times[a] == times[b] && a < b)
    }
}

/// The indices of `times` in time order: a stable sort by creation time,
/// newest or oldest first.
pub fn order_by_time(times: &Vec<u64>, newest_first: bool) -> (order: Vec<usize>)
    ensures
        is_time_order(times@, order@, newest_first),
{
    let mut order: Vec<usize> = Vec::new();
    let mut k: usize = 0;
    while k < times.len()
        invariant
            k <= times@.len(),
            order@.len() == k,
            forall|i: int| 0 <= i < order@.len() ==> #[trigger] order@[i] < k,
            forall|i: int, j: int|
                0 <= i < j < order@.len() ==> comes_before(times@, #[trigger] order@[i] as int, #[trigger] order@[j] as int, newest_first),
        decreases times.len() - k,
    {
        let mut p: usize = order.len();
        while p > 0 && !before_index(times, order[p - 1], k, newest_first)
            invariant
                p <= order@.len(),
                k < times@.len(),
                order@.len() == k,
                forall|i: int| 0 <= i < order@.len() ==> #[trigger] order@[i] < k,
                forall|i: int| p <= i < order@.len() ==> comes_before(times@, k as int, #[trigger] order@[i] as int, newest_first),
            decreases p,
        {
            p = p - 1;
        }
        let ghost old_order = order@;
        proof {
            if p > 0 {
                assert(comes_before(times@, old_order[p - 1] as int, k as int, newest_first));
                assert forall|i: int| 0 <= i < p implies comes_before(times@, #[trigger] old_order[i] as int, k as int, newest_first) by {
                    if i < p - 1 {
                        assert(comes_before(times@, old_order[i] as int, old_order[p - 1] as int, newest_first));
                    }
                }
            }
        }
        order.insert(p, k);
        proof {
            assert forall|i: int| 0 <= i < order@.len() implies #[trigger] order@[i] < k + 1 by {
                if i < p {
                    assert(order@[i] == old_order[i]);
                } else if i > p {
                    assert(order@[i] == old_order[i - 1]);
                }
            }
            assert forall|i: int, j: int| 0 <= i < j < order@.len() implies comes_before(
                times@,
                #[trigger] order@[i] as int,
                #[trigger] order@[j] as int,
                newest_first,
            ) by {
                if j < p {
                    assert(order@[i] == old_order[i] && order@[j] == old_order[j]);
                } else if j == p {
                    assert(order@[i] == old_order[i]);
                } else if i < p {
                    assert(order@[i] == old_order[i] && order@[j] == old_order[j - 1]);
                    assert(comes_before(times@, old_order[i] as int, k as int, newest_first));
                    assert(comes_before(times@, k as int, old_order[j - 1] as int, newest_first));
                } else if i == p {
                    assert(order@[j] == old_order[j - 1]);
                } else {
                    assert(order@[i] == old_order[i - 1] && order@[j] == old_order[j - 1]);
                }
            }
        }
        k = k + 1;
    }
    order
}

/// The creation times of records.
pub open spec fn times_of(recs: Seq<OperationRecord>) -> Seq<u64> {
    recs.map_values(|r: OperationRecord| r.created_at_ms)
}

/// The ids pruned along `order` (oldest first): finished records, until
/// `excess` are chosen. Pending records are never pruned.
pub open spec fn victims_upto(recs: Seq<OperationRecord>, order: Seq<usize>, excess: nat, i: int) -> Seq<Seq<char>>
    decreases i,
{
    if i <= 0 {
        seq![]
    } else {
        let prev = victims_upto(recs, order, excess, i - 1);
        let r = recs[order[i - 1] as int];
        if prev.len() < excess && r.status != OperationStatus::Pending {
            prev.push(r.id@)
        } else {
            prev
        }
    }
}

fn creation_times(records: &Vec<OperationRecord>) -> (t: Vec<u64>)
    ensures
        t@ == times_of(records@),
{
    let mut t: Vec<u64> = Vec::new();
    let mut i: usize = 0;
    while i < records.len()
        invariant
            i <= records@.len(),
            t@ == times_of(records@).take(i as int),
        decreases records.len() - i,
    {
        t.push(records[i].created_at_ms);
        assert(times_of(records@).take(i + 1) =~= times_of(records@).take(i as int).push(records@[i as int].created_at_ms));
        i = i + 1;
    }
    assert(times_of(records@).take(records.len() as int) =~= times_of(records@));
    t
}

/// The ids of the records to delete so that the log keeps at most
/// `OPERATION_LOG_CAP` of them: the oldest finished ones, as many as are
/// over the cap (fewer when pending records are among the oldest).
pub fn prune_victims(records: &Vec<OperationRecord>) -> (ids: Vec<String>)
    ensures
        records@.len() <= OPERATION_LOG_CAP ==> ids@.len() == 0,
        records@.len() > OPERATION_LOG_CAP ==> exists|order: Seq<usize>|
            is_time_order(times_of(records@), order, false) && views(ids@) == victims_upto(
                records@,
                order,
                (records@.len() - OPERATION_LOG_CAP) as nat,
                records@.len() as int,
            ),
{
    let mut ids: Vec<String> = Vec::new();
    if records.len() <= OPERATION_LOG_CAP {
        return ids;
    }
    let excess = records.len() - OPERATION_LOG_CAP;
    let times = creation_times(records);
    let order = order_by_time(&times, false);
    let mut i: usize = 0;
    while i < order.len()
        invariant
            i <= order@.len(),
            is_time_order(times_of(records@), order@, false),
            times@ == times_of(records@),
            excess == records@.len() - OPERATION_LOG_CAP,
            views(ids@) == victims_upto(records@, order@, excess as nat, i as int),
            ids@.len() <= excess,
        decreases order.len() - i,
    {
        let r = &records[order[i]];
        if ids.len() < excess && r.status != OperationStatus::Pending {
            let ghost before = ids@;
            ids.push(crate::text::copy_str(r.id.as_str()));
            assert(views(ids@) =~= views(before).push(r.id@));
        }
        i = i + 1;
    }
    ids
}

/// `id` is the id of a finished record met in the first `i` steps of `order`.
pub open spec fn finished_before(recs: Seq<OperationRecord>, order: Seq<usize>, i: int, id: Seq<char>) -> bool {
    exists|j: int|
        0 <= j < i && (#[trigger] recs[order[j] as int]).status != OperationStatus::Pending && recs[order[j] as int].id@ == id
}

/// Pruning never deletes a pending record, and deletes no more than the
/// excess: every id chosen along an order belongs to a finished record met
/// along it, and at most `excess` are chosen.
pub proof fn lemma_prune_spares_pending(recs: Seq<OperationRecord>, order: Seq<usize>, excess: nat, i: int)
    requires
        0 <= i <= order.len(),
    ensures
        victims_upto(recs, order, excess, i).len() <= excess,
        forall|k: int|
            0 <= k < victims_upto(recs, order, excess, i).len() ==> finished_before(
                recs,
                order,
                i,
                #[trigger] victims_upto(recs, order, excess, i)[k],
            ),
    decreases i,
{
    if i > 0 {
        lemma_prune_spares_pending(recs, order, excess, i - 1);
        let prev = victims_upto(recs, order, excess, i - 1);
        let cur = victims_upto(recs, order, excess, i);
        assert forall|k: int| 0 <= k < cur.len() implies finished_before(recs, order, i, #[trigger] cur[k]) by {
            if k < prev.len() {
                assert(cur[k] == prev[k]);
                assert(finished_before(recs, order, i - 1, prev[k]));
                let j = choose|j: int|
                    0 <= j < i - 1 && (#[trigger] recs[order[j] as int]).status != OperationStatus::Pending
                        && recs[order[j] as int].id@ == prev[k];
                assert(0 <= j < i && recs[order[j] as int].status != OperationStatus::Pending);
            } else {
                assert(recs[order[i - 1] as int].id@ == cur[k]);
                assert(recs[order[i - 1] as int].status != OperationStatus::Pending);
            }
        }
    }
}

} // verus!
