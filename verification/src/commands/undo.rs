//! What `gg undo` reports: the compact forms of ids and arguments, the
//! table of `--list`, the human messages and the JSON responses.
use vstd::prelude::*;
use crate::error::GgError;
use crate::git::opt_view;
use crate::line_edit::{char_at_byte, is_boundary, str_byte_len};
use crate::operations::{
    kind_name, kind_to_snake, status_name, status_to_snake, undoable, OperationKind, OperationRecord, RemoteEffect,
    UndoOutcome, SCHEMA_VERSION,
};
use crate::output::{
    OperationSummaryJson, RemoteEffectJson, UndoJsonStatus, UndoListResponse, UndoRefusalJson, UndoRefusalReason,
    UndoResponse, OUTPUT_VERSION,
};
use crate::text::{
    chars_of, copy_opt_string, copy_str, copy_strings, dec, dec_string, join, join_strings, pad_right, push_char,
    push_padded, push_range, push_str, string_of, utf8_len, views,
};

verus! {

/// Options of the undo command.
#[derive(Debug)]
pub struct UndoCliOptions {
    /// List recent operations instead of undoing.
    pub list: bool,
    /// The operation to undo (the most recent undoable one when `None`).
    pub operation_id: Option<String>,
    /// Emit machine-readable JSON.
    pub json: bool,
    /// Limit for `--list` (100 when 0).
    pub limit: usize,
}

impl Default for UndoCliOptions {
    fn default() -> (r: Self)
        ensures
            !r.list && r.operation_id is None && !r.json && r.limit == 0,
    {
        UndoCliOptions { list: false, operation_id: None, json: false, limit: 0 }
    }
}

/// How many operations `--list` shows for a requested limit.
pub fn list_limit(options: &UndoCliOptions) -> (r: usize)
    ensures
        r == (if options.limit == 0 { 100 } else { options.limit as int }),
{
    if options.limit == 0 {
        100
    } else {
        options.limit
    }
}

/// An id shortened for display: ids of at most 10 bytes stay whole, longer
/// ones keep their last 8 bytes.
pub open spec fn shortened_id(id: Seq<char>) -> Seq<char> {
    if utf8_len(id) <= 10 {
        id
    } else {
        id.skip(char_at_byte(id, utf8_len(id) - 8))
    }
}

/// The compact form of an operation id.
pub fn short_id(id: &str) -> (r: String)
    requires
        utf8_len(id@) <= 10 || is_boundary(id@, utf8_len(id@) - 8),
    ensures
        r@ == shortened_id(id@),
{
    let n = str_byte_len(id);
    if n <= 10 {
        return string_of(&chars_of(id));
    }
    crate::line_edit::clear_before(id, n - 8)
}

/// The length, in characters, of the longest prefix of `t` that fits in
/// `limit` bytes.
pub open spec fn prefix_within(t: Seq<char>, limit: int) -> int
    decreases t.len(),
{
    if t.len() == 0 || utf8_len(t) <= limit {
        t.len() as int
    } else {
        prefix_within(t.drop_last(), limit)
    }
}

/// Arguments joined by spaces, capped at 80 bytes: a longer line keeps what
/// fits in 77 bytes, cut at a character boundary, followed by `...`.
pub open spec fn shortened_args(args: Seq<Seq<char>>) -> Seq<char> {
    let joined = join(args, " "@);
    if utf8_len(joined) <= 80 {
        joined
    } else {
        joined.take(prefix_within(joined, 77)) + "..."@
    }
}

/// The compact form of an operation's arguments.
pub fn short_args(args: &Vec<String>) -> (r: String)
    ensures
        r@ == shortened_args(views(args@)),
{
    let joined = join_strings(args, " ");
    let n = str_byte_len(joined.as_str());
    if n <= 80 {
        return joined;
    }
    let v = chars_of(joined.as_str());
    let mut k: usize = v.len();
    let mut bytes: usize = n;
    proof {
        assert(v@.take(k as int) =~= v@);
    }
    while k > 0 && bytes > 77
        invariant
            k <= v.len(),
            bytes == utf8_len(v@.take(k as int)),
            prefix_within(v@, 77) == prefix_within(v@.take(k as int), 77),
        decreases k,
    {
        let ghost t = v@.take(k as int);
        proof {
            assert(t.drop_last() =~= v@.take(k - 1));
        }
        let w = crate::text::char_utf8_len_exec(v[k - 1]);
        bytes = bytes - w;
        k = k - 1;
    }
    proof {
        let t = v@.take(k as int);
        if k == 0 {
            assert(t.len() == 0);
        }
    }
    let mut out = String::new();
    push_range(&mut out, &v, 0, k);
    push_str(&mut out, "...");
    assert(v@.subrange(0, k as int) =~= v@.take(k as int));
    out
}

/// An id `short_id` can shorten: at most 10 bytes, or with a character
/// boundary 8 bytes before its end.
pub open spec fn shortenable(id: Seq<char>) -> bool {
    utf8_len(id) <= 10 || is_boundary(id, utf8_len(id) - 8)
}

/// A remote effect, by its content.
pub enum EffectModel {
    Pushed(Seq<char>, Seq<char>, bool),
    PrCreated(u64, Seq<char>),
    PrMerged(u64, Seq<char>),
    PrClosed(u64, Seq<char>),
    PrQueued(u64, Seq<char>),
}

/// The content of a remote effect.
pub open spec fn effect_model(e: RemoteEffect) -> EffectModel {
    match e {
        RemoteEffect::Pushed { remote, branch, force } => EffectModel::Pushed(remote@, branch@, force),
        RemoteEffect::PrCreated { number, url } => EffectModel::PrCreated(number, url@),
        RemoteEffect::PrMerged { number, url } => EffectModel::PrMerged(number, url@),
        RemoteEffect::PrClosed { number, url } => EffectModel::PrClosed(number, url@),
        RemoteEffect::PrQueued { number, url } => EffectModel::PrQueued(number, url@),
    }
}

/// The name a remote effect is tagged with in JSON.
pub open spec fn effect_kind_name(e: RemoteEffect) -> Seq<char> {
    match e {
        RemoteEffect::Pushed { .. } => "pushed"@,
        RemoteEffect::PrCreated { .. } => "pr_created"@,
        RemoteEffect::PrMerged { .. } => "pr_merged"@,
        RemoteEffect::PrClosed { .. } => "pr_closed"@,
        RemoteEffect::PrQueued { .. } => "pr_queued"@,
    }
}

/// `j` is the JSON form of `e`.
pub open spec fn effect_json_of(j: RemoteEffectJson, e: RemoteEffect) -> bool {
    j.kind@ == effect_kind_name(e) && effect_model(j.data) == effect_model(e)
}

fn copy_effect(e: &RemoteEffect) -> (r: RemoteEffect)
    ensures
        effect_model(r) == effect_model(*e),
{
    match e {
        RemoteEffect::Pushed { remote, branch, force } => RemoteEffect::Pushed {
            remote: copy_str(remote.as_str()),
            branch: copy_str(branch.as_str()),
            force: *force,
        },
        RemoteEffect::PrCreated { number, url } => RemoteEffect::PrCreated { number: *number, url: copy_str(url.as_str()) },
        RemoteEffect::PrMerged { number, url } => RemoteEffect::PrMerged { number: *number, url: copy_str(url.as_str()) },
        RemoteEffect::PrClosed { number, url } => RemoteEffect::PrClosed { number: *number, url: copy_str(url.as_str()) },
        RemoteEffect::PrQueued { number, url } => RemoteEffect::PrQueued { number: *number, url: copy_str(url.as_str()) },
    }
}

impl RemoteEffectJson {
    /// The JSON form of a remote effect.
    pub fn from_effect(e: &RemoteEffect) -> (r: Self)
        ensures
            effect_json_of(r, *e),
    {
        let kind: &str = match e {
            RemoteEffect::Pushed { .. } => "pushed",
            RemoteEffect::PrCreated { .. } => "pr_created",
            RemoteEffect::PrMerged { .. } => "pr_merged",
            RemoteEffect::PrClosed { .. } => "pr_closed",
            RemoteEffect::PrQueued { .. } => "pr_queued",
        };
        RemoteEffectJson { kind: copy_str(kind), data: copy_effect(e) }
    }
}

/// `j` shows the record `r`.
pub open spec fn summary_of(j: OperationSummaryJson, r: OperationRecord) -> bool {
    &&& j.id@ == r.id@
    &&& j.kind@ == kind_name(r.kind)
    &&& j.status@ == status_name(r.status)
    &&& j.created_at_ms == r.created_at_ms
    &&& views(j.args@) == views(r.args@)
    &&& opt_view(j.stack_name) == opt_view(r.stack_name)
    &&& j.touched_remote == r.touched_remote
    &&& j.is_undoable == undoable(r)
    &&& j.is_undo == (r.kind == OperationKind::Undo)
    &&& opt_view(j.undoes) == opt_view(r.undoes)
    &&& j.remote_effects@.len() == r.remote_effects@.len()
    &&& forall|i: int| 0 <= i < j.remote_effects@.len() ==> effect_json_of(#[trigger] j.remote_effects@[i], r.remote_effects@[i])
}

fn copy_opt(s: &Option<String>) -> (r: Option<String>)
    ensures
        opt_view(r) == opt_view(*s),
{
    copy_opt_string(s)
}

impl OperationSummaryJson {
    /// The JSON summary of a record.
    pub fn from_record(r: &OperationRecord) -> (j: Self)
        ensures
            summary_of(j, *r),
    {
        let mut effects: Vec<RemoteEffectJson> = Vec::new();
        let mut i: usize = 0;
        while i < r.remote_effects.len()
            invariant
                i <= r.remote_effects@.len(),
                effects@.len() == i,
                forall|k: int| 0 <= k < i ==> effect_json_of(#[trigger] effects@[k], r.remote_effects@[k]),
            decreases r.remote_effects.len() - i,
        {
            effects.push(RemoteEffectJson::from_effect(&r.remote_effects[i]));
            i = i + 1;
        }
        OperationSummaryJson {
            id: copy_str(r.id.as_str()),
            kind: copy_str(kind_to_snake(&r.kind)),
            status: copy_str(status_to_snake(&r.status)),
            created_at_ms: r.created_at_ms,
            args: copy_strings(&r.args),
            stack_name: copy_opt(&r.stack_name),
            touched_remote: r.touched_remote,
            is_undoable: r.is_undoable_locally(),
            is_undo: r.kind == OperationKind::Undo,
            undoes: copy_opt(&r.undoes),
            remote_effects: effects,
        }
    }
}

/// `f` is a refusal for `reason` with `message`, the summary of `target`
/// and `hints`.
pub open spec fn refusal_is(
    f: UndoRefusalJson,
    reason: UndoRefusalReason,
    message: Seq<char>,
    target: OperationRecord,
    hints: Seq<Seq<char>>,
) -> bool {
    &&& f.reason == reason
    &&& f.message@ == message
    &&& f.target matches Some(t) && summary_of(t, target)
    &&& views(f.hints@) == hints
}

/// The message of a stale refusal.
pub open spec fn stale_message(ref_name: Seq<char>, expected: Seq<char>, actual: Seq<char>) -> Seq<char> {
    "ref `"@ + ref_name + "` moved since the operation (expected `"@ + expected + "`, now `"@ + actual + "`)"@
}

/// `resp` is the JSON response for `outcome`.
pub open spec fn response_for(resp: UndoResponse, outcome: UndoOutcome) -> bool {
    &&& resp.version == OUTPUT_VERSION
    &&& match outcome {
        UndoOutcome::Succeeded(t) => {
            &&& resp.status == UndoJsonStatus::Succeeded
            &&& resp.undone matches Some(u) && summary_of(u, t)
            &&& resp.refusal is None
        },
        UndoOutcome::RefusedRemote { target, hints } => {
            &&& resp.status == UndoJsonStatus::Refused
            &&& resp.undone is None
            &&& resp.refusal matches Some(f) && refusal_is(
                f,
                UndoRefusalReason::Remote,
                "operation touched a remote"@,
                target,
                views(hints@),
            )
        },
        UndoOutcome::RefusedInterrupted(t) => {
            &&& resp.status == UndoJsonStatus::Refused
            &&& resp.undone is None
            &&& resp.refusal matches Some(f) && refusal_is(
                f,
                UndoRefusalReason::Interrupted,
                "operation was interrupted"@,
                t,
                seq![],
            )
        },
        UndoOutcome::RefusedStale { target, ref_name, expected, actual } => {
            &&& resp.status == UndoJsonStatus::Refused
            &&& resp.undone is None
            &&& resp.refusal matches Some(f) && refusal_is(
                f,
                UndoRefusalReason::Stale,
                stale_message(ref_name@, expected@, actual@),
                target,
                seq![],
            )
        },
        UndoOutcome::RefusedUnsupportedSchema(t) => {
            &&& resp.status == UndoJsonStatus::Refused
            &&& resp.undone is None
            &&& resp.refusal matches Some(f) && refusal_is(
                f,
                UndoRefusalReason::UnsupportedSchema,
                "schema version "@ + dec(t.schema_version as nat) + " newer than this gg"@,
                t,
                seq![],
            )
        },
    }
}

fn refusal(reason: UndoRefusalReason, message: String, target: &OperationRecord, hints: Vec<String>) -> (f: UndoRefusalJson)
    ensures
        refusal_is(f, reason, message@, *target, views(hints@)),
{
    UndoRefusalJson { reason, message, target: Some(OperationSummaryJson::from_record(target)), hints }
}

/// The JSON response for how an undo ended.
pub fn build_json_response(outcome: &UndoOutcome) -> (resp: UndoResponse)
    ensures
        response_for(resp, *outcome),
{
    match outcome {
        UndoOutcome::Succeeded(target) => UndoResponse {
            version: OUTPUT_VERSION,
            status: UndoJsonStatus::Succeeded,
            undone: Some(OperationSummaryJson::from_record(target)),
            refusal: None,
        },
        UndoOutcome::RefusedRemote { target, hints } => UndoResponse {
            version: OUTPUT_VERSION,
            status: UndoJsonStatus::Refused,
            undone: None,
            refusal: Some(
                refusal(UndoRefusalReason::Remote, copy_str("operation touched a remote"), target, copy_strings(hints)),
            ),
        },
        UndoOutcome::RefusedInterrupted(target) => {
            let no_hints: Vec<String> = Vec::new();
            proof {
                assert(views(no_hints@) =~= seq![]);
            }
            UndoResponse {
                version: OUTPUT_VERSION,
                status: UndoJsonStatus::Refused,
                undone: None,
                refusal: Some(
                    refusal(UndoRefusalReason::Interrupted, copy_str("operation was interrupted"), target, no_hints),
                ),
            }
        },
        UndoOutcome::RefusedStale { target, ref_name, expected, actual } => {
            let mut m = String::new();
            push_str(&mut m, "ref `");
            push_str(&mut m, ref_name.as_str());
            push_str(&mut m, "` moved since the operation (expected `");
            push_str(&mut m, expected.as_str());
            push_str(&mut m, "`, now `");
            push_str(&mut m, actual.as_str());
            push_str(&mut m, "`)");
            let no_hints: Vec<String> = Vec::new();
            proof {
                assert(views(no_hints@) =~= seq![]);
            }
            UndoResponse {
                version: OUTPUT_VERSION,
                status: UndoJsonStatus::Refused,
                undone: None,
                refusal: Some(refusal(UndoRefusalReason::Stale, m, target, no_hints)),
            }
        },
        UndoOutcome::RefusedUnsupportedSchema(target) => {
            let mut m = String::new();
            push_str(&mut m, "schema version ");
            push_str(&mut m, dec_string(target.schema_version as u64).as_str());
            push_str(&mut m, " newer than this gg");
            let no_hints: Vec<String> = Vec::new();
            proof {
                assert(views(no_hints@) =~= seq![]);
            }
            UndoResponse {
                version: OUTPUT_VERSION,
                status: UndoJsonStatus::Refused,
                undone: None,
                refusal: Some(refusal(UndoRefusalReason::UnsupportedSchema, m, target, no_hints)),
            }
        },
    }
}

/// The JSON response of `--list`: every record summarized, in order.
pub fn list_response(records: &Vec<OperationRecord>) -> (resp: UndoListResponse)
    ensures
        resp.version == OUTPUT_VERSION,
        resp.operations@.len() == records@.len(),
        forall|i: int| 0 <= i < records@.len() ==> summary_of(#[trigger] resp.operations@[i], records@[i]),
{
    let mut ops: Vec<OperationSummaryJson> = Vec::new();
    let mut i: usize = 0;
    while i < records.len()
        invariant
            i <= records@.len(),
            ops@.len() == i,
            forall|k: int| 0 <= k < i ==> summary_of(#[trigger] ops@[k], records@[k]),
        decreases records.len() - i,
    {
        ops.push(OperationSummaryJson::from_record(&records[i]));
        i = i + 1;
    }
    UndoListResponse { version: OUTPUT_VERSION, operations: ops }
}

/// The result of the undo command for how the undo ended: success, or the
/// marker error for a refusal already reported to the user.
pub fn outcome_result(outcome: &UndoOutcome) -> (r: Result<(), GgError>)
    ensures
        (outcome is Succeeded) ==> r is Ok,
        !(outcome is Succeeded) ==> (r matches Err(GgError::Silenced)),
{
    match outcome {
        UndoOutcome::Succeeded(_) => Ok(()),
        _ => Err(GgError::Silenced),
    }
}

/// `r` is `s` as `console` renders it with the style whose escape codes are
/// `code`: the plain text when colours are off, else the codes, the text and
/// a reset.
pub open spec fn painted(r: Seq<char>, code: Seq<char>, s: Seq<char>) -> bool {
    r == s || r == code + s + "\x1b[0m"@
}

/// The escape code of a green foreground.
pub open spec fn green_code() -> Seq<char> {
    "\x1b[32m"@
}

/// The escape code of a red foreground.
pub open spec fn red_code() -> Seq<char> {
    "\x1b[31m"@
}

/// The escape code of the dim attribute.
pub open spec fn dim_code() -> Seq<char> {
    "\x1b[2m"@
}

/// `console::style(s).green()`, rendered. Claimed, from the `Display` impl of
/// `StyledObject`: with colours on, `ESC[32m`, the text and `ESC[0m`; with
/// colours off (which depends on the terminal and environment), the text.
#[verifier::external_body]
fn paint_green(s: &str) -> (r: String)
    ensures
        painted(r@, green_code(), s@),
{
    console::style(s).green().to_string()
}

/// `console::style(s).red()`, rendered: `ESC[31m`, the text and `ESC[0m`, or
/// the text alone when colours are off.
#[verifier::external_body]
fn paint_red(s: &str) -> (r: String)
    ensures
        painted(r@, red_code(), s@),
{
    console::style(s).red().to_string()
}

/// `console::style(s).dim()`, rendered: `ESC[2m`, the text and `ESC[0m`, or
/// the text alone when colours are off.
#[verifier::external_body]
fn paint_dim(s: &str) -> (r: String)
    ensures
        painted(r@, dim_code(), s@),
{
    console::style(s).dim().to_string()
}

/// The word of the UNDOABLE column.
pub open spec fn undoable_word(r: OperationRecord) -> Seq<char> {
    if undoable(r) {
        "yes"@
    } else if r.touched_remote {
        "remote"@
    } else {
        "no"@
    }
}

/// The header of the `--list` table.
pub open spec fn list_header() -> Seq<char> {
    pad_right("ID"@, 10) + "  "@ + pad_right("KIND"@, 12) + "  "@ + pad_right("STATUS"@, 10) + "  "@ + pad_right(
        "UNDOABLE"@,
        8,
    ) + "  ARGS\n"@
}

/// The row of a record, with `cell` in the UNDOABLE column.
pub open spec fn list_row(r: OperationRecord, cell: Seq<char>) -> Seq<char> {
    pad_right(shortened_id(r.id@), 10) + "  "@ + pad_right(kind_name(r.kind), 12) + "  "@ + pad_right(
        status_name(r.status),
        10,
    ) + "  "@ + cell + "  "@ + shortened_args(views(r.args@)) + "\n"@
}

/// The rows of the first records, each with the plain UNDOABLE word.
pub open spec fn plain_rows(rs: Seq<OperationRecord>) -> Seq<char>
    decreases rs.len(),
{
    if rs.len() == 0 {
        seq![]
    } else {
        plain_rows(rs.drop_last()) + list_row(rs.last(), pad_right(undoable_word(rs.last()), 8))
    }
}

/// The escape code that colours the UNDOABLE cell of a record.
pub open spec fn undoable_code(r: OperationRecord) -> Seq<char> {
    if undoable(r) {
        green_code()
    } else if r.touched_remote {
        red_code()
    } else {
        dim_code()
    }
}

/// `cell` is the UNDOABLE cell of `r`: the padded word, painted when `color`.
pub open spec fn undoable_cell(r: OperationRecord, cell: Seq<char>, color: bool) -> bool {
    if color {
        painted(cell, undoable_code(r), pad_right(undoable_word(r), 8))
    } else {
        cell == pad_right(undoable_word(r), 8)
    }
}

/// The rows of the records, with the given UNDOABLE cells.
pub open spec fn rows_with(rs: Seq<OperationRecord>, cells: Seq<Seq<char>>) -> Seq<char>
    decreases rs.len(),
{
    if rs.len() == 0 {
        seq![]
    } else {
        rows_with(rs.drop_last(), cells.drop_last()) + list_row(rs.last(), cells.last())
    }
}

/// One row of the `--list` table; with `color` the UNDOABLE cell is styled.
fn format_row(r: &OperationRecord, color: bool) -> (row: String)
    requires
        shortenable(r.id@),
    ensures
        exists|cell: Seq<char>| undoable_cell(*r, cell, color) && row@ == list_row(*r, cell),
        !color ==> row@ == list_row(*r, pad_right(undoable_word(*r), 8)),
{
    let word: &str = if r.is_undoable_locally() {
        "yes"
    } else if r.touched_remote {
        "remote"
    } else {
        "no"
    };
    let mut padded = String::new();
    push_padded(&mut padded, word, 8);
    proof {
        reveal_strlit("yes");
        reveal_strlit("remote");
        reveal_strlit("no");
    }
    assert(padded@ == pad_right(undoable_word(*r), 8));
    let cell = if color {
        if r.is_undoable_locally() {
            paint_green(padded.as_str())
        } else if r.touched_remote {
            paint_red(padded.as_str())
        } else {
            paint_dim(padded.as_str())
        }
    } else {
        padded
    };
    assert(undoable_cell(*r, cell@, color));
    let sid = short_id(r.id.as_str());
    let sargs = short_args(&r.args);
    let mut out = String::new();
    push_padded(&mut out, sid.as_str(), 10);
    push_str(&mut out, "  ");
    push_padded(&mut out, kind_to_snake(&r.kind), 12);
    push_str(&mut out, "  ");
    push_padded(&mut out, status_to_snake(&r.status), 10);
    push_str(&mut out, "  ");
    push_str(&mut out, cell.as_str());
    push_str(&mut out, "  ");
    push_str(&mut out, sargs.as_str());
    push_char(&mut out, '\n');
    proof {
        reveal_strlit("\n");
        assert(out@ =~= list_row(*r, cell@));
    }
    out
}

/// The human table of `--list`: a header and one row per record, in order,
/// each with its UNDOABLE cell, painted green, red or dim with `color`.
/// Without records, a (dimmed) notice.
pub fn format_list_human(records: &Vec<OperationRecord>, color: bool) -> (out: String)
    requires
        forall|i: int| 0 <= i < records@.len() ==> shortenable(#[trigger] records@[i].id@),
    ensures
        records@.len() == 0 ==> exists|t: Seq<char>| #![auto] out@ == t + "\n"@ && painted(t, dim_code(), "No operations recorded yet."@),
        records@.len() > 0 ==> exists|cells: Seq<Seq<char>>| #![auto] {
            &&& cells.len() == records@.len()
            &&& forall|i: int| 0 <= i < records@.len() ==> undoable_cell(records@[i], #[trigger] cells[i], color)
            &&& out@ == list_header() + rows_with(records@, cells)
        },
        records@.len() > 0 && !color ==> out@ == list_header() + plain_rows(records@),
{
    if records.len() == 0 {
        let t = paint_dim("No operations recorded yet.");
        let mut out = copy_str(t.as_str());
        push_char(&mut out, '\n');
        proof {
            reveal_strlit("\n");
            assert(out@ =~= t@ + "\n"@);
        }
        return out;
    }
    let mut out = String::new();
    push_padded(&mut out, "ID", 10);
    push_str(&mut out, "  ");
    push_padded(&mut out, "KIND", 12);
    push_str(&mut out, "  ");
    push_padded(&mut out, "STATUS", 10);
    push_str(&mut out, "  ");
    push_padded(&mut out, "UNDOABLE", 8);
    push_str(&mut out, "  ARGS\n");
    proof {
        reveal_strlit("ID");
        reveal_strlit("KIND");
        reveal_strlit("STATUS");
        reveal_strlit("UNDOABLE");
        assert(out@ =~= list_header());
        assert(rows_with(records@.take(0), Seq::<Seq<char>>::empty()) =~= Seq::<char>::empty());
    }
    let ghost mut cells: Seq<Seq<char>> = Seq::empty();
    let mut i: usize = 0;
    while i < records.len()
        invariant
            i <= records@.len(),
            forall|j: int| 0 <= j < records@.len() ==> shortenable(#[trigger] records@[j].id@),
            !color ==> out@ == list_header() + plain_rows(records@.take(i as int)),
            cells.len() == i,
            forall|j: int| 0 <= j < i ==> undoable_cell(records@[j], #[trigger] cells[j], color),
            out@ == list_header() + rows_with(records@.take(i as int), cells),
        decreases records.len() - i,
    {
        let row = format_row(&records[i], color);
        let ghost cell = choose|cell: Seq<char>| undoable_cell(records@[i as int], cell, color) && row@ == list_row(
            records@[i as int],
            cell,
        );
        let ghost old_cells = cells;
        push_str(&mut out, row.as_str());
        proof {
            cells = cells.push(cell);
            assert(records@.take(i + 1).drop_last() =~= records@.take(i as int));
            assert(records@.take(i + 1).last() == records@[i as int]);
            assert(cells.drop_last() =~= old_cells);
            assert(out@ =~= list_header() + rows_with(records@.take(i + 1), cells));
            if !color {
                assert(out@ =~= list_header() + plain_rows(records@.take(i + 1)));
            }
        }
        i = i + 1;
    }
    assert(records@.take(records.len() as int) =~= records@);
    out
}


/// The human report of how an undo ended, after its label (`OK` for a
/// success, `Refused` otherwise): one line, then for a remote refusal each
/// hint indented by two spaces.
pub open spec fn outcome_text(o: UndoOutcome) -> Seq<Seq<char>> {
    match o {
        UndoOutcome::Succeeded(t) => seq![
            "Undid "@ + shortened_id(t.id@) + " ("@ + shortened_args(views(t.args@)) + ")"@,
        ],
        UndoOutcome::RefusedRemote { target, hints } => seq![
            "Refusing to undo "@ + shortened_id(target.id@) + ": operation touched a remote."@,
        ] + views(hints@).map_values(|h: Seq<char>| "  "@ + h),
        UndoOutcome::RefusedInterrupted(t) => seq![
            "Refusing to undo "@ + shortened_id(t.id@) + ": operation did not finish cleanly."@,
        ],
        UndoOutcome::RefusedStale { target, ref_name, expected, actual } => seq![
            "Refusing to undo "@ + shortened_id(target.id@) + ": "@ + stale_message(ref_name@, expected@, actual@) + "."@,
        ],
        UndoOutcome::RefusedUnsupportedSchema(t) => seq![
            "Refusing to undo "@ + shortened_id(t.id@) + ": schema version "@ + dec(t.schema_version as nat)
                + " is newer than this gg ("@ + dec(SCHEMA_VERSION as nat) + ")."@,
        ],
    }
}

/// The record an outcome is about.
pub open spec fn outcome_target(o: UndoOutcome) -> OperationRecord {
    match o {
        UndoOutcome::Succeeded(t) => t,
        UndoOutcome::RefusedRemote { target, .. } => target,
        UndoOutcome::RefusedInterrupted(t) => t,
        UndoOutcome::RefusedStale { target, .. } => target,
        UndoOutcome::RefusedUnsupportedSchema(t) => t,
    }
}

/// The lines that report how an undo ended.
pub fn outcome_lines(outcome: &UndoOutcome) -> (lines: Vec<String>)
    requires
        shortenable(outcome_target(*outcome).id@),
    ensures
        views(lines@) == outcome_text(*outcome),
{
    let mut first = String::new();
    let mut lines: Vec<String> = Vec::new();
    match outcome {
        UndoOutcome::Succeeded(t) => {
            push_str(&mut first, "Undid ");
            push_str(&mut first, short_id(t.id.as_str()).as_str());
            push_str(&mut first, " (");
            push_str(&mut first, short_args(&t.args).as_str());
            push_str(&mut first, ")");
            lines.push(first);
            proof {
                assert(views(lines@) =~= outcome_text(*outcome));
            }
        },
        UndoOutcome::RefusedRemote { target, hints } => {
            push_str(&mut first, "Refusing to undo ");
            push_str(&mut first, short_id(target.id.as_str()).as_str());
            push_str(&mut first, ": operation touched a remote.");
            lines.push(first);
            let ghost hv = views(hints@).map_values(|h: Seq<char>| "  "@ + h);
            let mut i: usize = 0;
            while i < hints.len()
                invariant
                    i <= hints@.len(),
                    hv == views(hints@).map_values(|h: Seq<char>| "  "@ + h),
                    lines@.len() == i + 1,
                    lines@[0]@ == outcome_text(*outcome)[0],
                    forall|k: int| 0 <= k < i ==> (#[trigger] lines@[k + 1])@ == hv[k],
                decreases hints.len() - i,
            {
                let mut l = String::new();
                push_str(&mut l, "  ");
                push_str(&mut l, hints[i].as_str());
                lines.push(l);
                i = i + 1;
            }
            proof {
                assert forall|k: int| 0 <= k < lines@.len() implies views(lines@)[k] == outcome_text(*outcome)[k] by {
                    if k > 0 {
                        assert(lines@[(k - 1) + 1]@ == hv[k - 1]);
                    }
                }
                assert(views(lines@) =~= outcome_text(*outcome));
            }
        },
        UndoOutcome::RefusedInterrupted(t) => {
            push_str(&mut first, "Refusing to undo ");
            push_str(&mut first, short_id(t.id.as_str()).as_str());
            push_str(&mut first, ": operation did not finish cleanly.");
            lines.push(first);
            proof {
                assert(views(lines@) =~= outcome_text(*outcome));
            }
        },
        UndoOutcome::RefusedStale { target, ref_name, expected, actual } => {
            push_str(&mut first, "Refusing to undo ");
            push_str(&mut first, short_id(target.id.as_str()).as_str());
            push_str(&mut first, ": ref `");
            push_str(&mut first, ref_name.as_str());
            push_str(&mut first, "` moved since the operation (expected `");
            push_str(&mut first, expected.as_str());
            push_str(&mut first, "`, now `");
            push_str(&mut first, actual.as_str());
            push_str(&mut first, "`).");
            lines.push(first);
            proof {
                reveal_strlit(": ref `");
                reveal_strlit("`, now `");
                reveal_strlit("`).");
                reveal_strlit(": ");
                reveal_strlit("ref `");
                reveal_strlit("`)");
                reveal_strlit(".");
                assert(lines@[0]@ =~= outcome_text(*outcome)[0]);
                assert(views(lines@) =~= outcome_text(*outcome));
            }
        },
        UndoOutcome::RefusedUnsupportedSchema(t) => {
            push_str(&mut first, "Refusing to undo ");
            push_str(&mut first, short_id(t.id.as_str()).as_str());
            push_str(&mut first, ": schema version ");
            push_str(&mut first, dec_string(t.schema_version as u64).as_str());
            push_str(&mut first, " is newer than this gg (");
            push_str(&mut first, dec_string(SCHEMA_VERSION as u64).as_str());
            push_str(&mut first, ").");
            lines.push(first);
            proof {
                assert(views(lines@) =~= outcome_text(*outcome));
            }
        },
    }
    lines
}

} // verus!
