//! The shapes of the structured (JSON) output of the commands. Rendering
//! them as JSON is the front end's business.
use vstd::prelude::*;
use crate::operations::RemoteEffect;

verus! {

/// Version of the output format.
pub const OUTPUT_VERSION: u32 = 1;

/// The error object printed in JSON mode.
#[derive(Debug)]
pub struct ErrorJson<'a> {
    pub version: u32,
    pub error: &'a str,
}

/// The error object for a message.
pub fn error_json<'a>(message: &'a str) -> (r: ErrorJson<'a>)
    ensures
        r.version == OUTPUT_VERSION,
        r.error@ == message@,
{
    ErrorJson { version: OUTPUT_VERSION, error: message }
}

#[derive(Debug)]
pub struct SingleStackResponse {
    pub version: u32,
    pub stack: StackJson,
}

#[derive(Debug)]
pub struct StackJson {
    pub name: String,
    pub base: String,
    pub total_commits: usize,
    pub synced_commits: usize,
    pub current_position: Option<usize>,
    pub behind_base: Option<usize>,
    pub entries: Vec<StackEntryJson>,
}

#[derive(Debug)]
pub struct StackEntryJson {
    pub position: usize,
    pub sha: String,
    pub title: String,
    pub gg_id: Option<String>,
    pub gg_parent: Option<String>,
    pub pr_number: Option<u64>,
    pub pr_state: Option<String>,
    pub approved: bool,
    pub ci_status: Option<String>,
    pub is_current: bool,
    pub in_merge_train: bool,
    pub merge_train_position: Option<usize>,
}

#[derive(Debug)]
pub struct AllStacksResponse {
    pub version: u32,
    pub current_stack: Option<String>,
    pub stacks: Vec<StackSummaryJson>,
}

#[derive(Debug)]
pub struct StackSummaryJson {
    pub name: String,
    pub base: String,
    pub commit_count: usize,
    pub is_current: bool,
    pub has_worktree: bool,
    pub behind_base: Option<usize>,
    pub commits: Vec<StackCommitJson>,
}

#[derive(Debug)]
pub struct StackCommitJson {
    pub position: usize,
    pub sha: String,
    pub title: String,
}

#[derive(Debug)]
pub struct RemoteStacksResponse {
    pub version: u32,
    pub stacks: Vec<RemoteStackJson>,
}

#[derive(Debug)]
pub struct RemoteStackJson {
    pub name: String,
    pub commit_count: usize,
    pub pr_numbers: Vec<u64>,
}

#[derive(Debug)]
pub struct SyncResponse {
    pub version: u32,
    pub sync: SyncResultJson,
}

#[derive(Debug)]
pub struct SyncResultJson {
    pub stack: String,
    pub base: String,
    pub rebased_before_sync: bool,
    pub warnings: Vec<String>,
    pub metadata: SyncMetadataJson,
    pub entries: Vec<SyncEntryResultJson>,
}

#[derive(Debug)]
pub struct SyncMetadataJson {
    pub gg_ids_added: usize,
    pub gg_parents_updated: usize,
    pub gg_parents_removed: usize,
}

#[derive(Debug)]
pub struct SyncEntryResultJson {
    pub position: usize,
    pub sha: String,
    pub title: String,
    pub gg_id: String,
    pub branch: String,
    pub action: String,
    pub pr_number: Option<u64>,
    pub pr_url: Option<String>,
    pub draft: bool,
    pub pushed: bool,
    pub error: Option<String>,
    /// Optional: action taken on the managed nav comment for this entry's PR.
    /// One of "created", "updated", "unchanged", "deleted", or "error".
    /// Omitted when the feature is disabled and no cleanup was required.
    pub nav_comment_action: Option<String>,
}

#[derive(Debug)]
pub struct LintResponse {
    pub version: u32,
    pub lint: LintResultJson,
}

#[derive(Debug)]
pub struct LintResultJson {
    pub results: Vec<LintCommitResult>,
    pub all_passed: bool,
}

#[derive(Debug)]
pub struct LintCommitResult {
    pub position: usize,
    pub sha: String,
    pub title: String,
    pub passed: bool,
    pub commands: Vec<LintCommandResult>,
}

#[derive(Debug)]
pub struct LintCommandResult {
    pub command: String,
    pub passed: bool,
    pub output: Option<String>,
}

#[derive(Debug)]
pub struct RunResponse {
    pub version: u32,
    pub run: RunResultJson,
}

#[derive(Debug)]
pub struct RunResultJson {
    pub results: Vec<RunCommitResult>,
    pub all_passed: bool,
}

#[derive(Debug)]
pub struct RunCommitResult {
    pub position: usize,
    pub sha: String,
    pub title: String,
    pub passed: bool,
    pub commands: Vec<RunCommandResult>,
}

#[derive(Debug)]
pub struct RunCommandResult {
    pub command: String,
    pub passed: bool,
    pub output: Option<String>,
}

#[derive(Debug)]
pub struct LandResponse {
    pub version: u32,
    pub land: LandResultJson,
}

#[derive(Debug)]
pub struct LandResultJson {
    pub stack: String,
    pub base: String,
    pub landed: Vec<LandedEntryJson>,
    pub remaining: usize,
    pub cleaned: bool,
    pub warnings: Vec<String>,
    pub error: Option<String>,
}

#[derive(Debug)]
pub struct LandedEntryJson {
    pub position: usize,
    pub sha: String,
    pub title: String,
    pub gg_id: String,
    pub pr_number: u64,
    pub action: String,
    pub error: Option<String>,
}

#[derive(Debug)]
pub struct InboxResponse {
    pub version: u32,
    pub total_items: usize,
    pub buckets: InboxBucketsJson,
    pub stack_errors: Vec<InboxStackErrorJson>,
}

#[derive(Debug)]
pub struct InboxBucketsJson {
    pub ready_to_land: Vec<InboxEntryJson>,
    pub changes_requested: Vec<InboxEntryJson>,
    pub blocked_on_ci: Vec<InboxEntryJson>,
    pub awaiting_review: Vec<InboxEntryJson>,
    pub behind_base: Vec<InboxEntryJson>,
    pub draft: Vec<InboxEntryJson>,
    pub merged: Vec<InboxEntryJson>,
}

#[derive(Debug)]
pub struct InboxEntryJson {
    pub stack_name: String,
    pub position: usize,
    pub sha: String,
    pub title: String,
    pub pr_number: u64,
    pub pr_url: String,
    pub ci_status: Option<String>,
    pub behind_base: Option<usize>,
}

#[derive(Debug)]
pub struct InboxStackErrorJson {
    pub stack_name: String,
    pub error: String,
}

#[derive(Debug)]
pub struct CleanResponse {
    pub version: u32,
    pub clean: CleanResultJson,
}

#[derive(Debug)]
pub struct CleanResultJson {
    pub cleaned: Vec<String>,
    pub skipped: Vec<String>,
}

#[derive(Debug)]
pub struct DropResponse {
    pub version: u32,
    pub drop: DropResultJson,
}

#[derive(Debug)]
pub struct DropResultJson {
    pub dropped: Vec<DroppedEntryJson>,
    pub remaining: usize,
}

#[derive(Debug)]
pub struct DroppedEntryJson {
    pub position: usize,
    pub sha: String,
    pub title: String,
}

#[derive(Debug)]
pub struct UnstackResponse {
    pub version: u32,
    pub unstack: UnstackResultJson,
}

#[derive(Debug)]
pub struct UnstackResultJson {
    pub old_stack: String,
    pub new_stack: String,
    pub target_position: usize,
    pub moved: Vec<UnstackMovedEntryJson>,
    pub old_stack_count: usize,
    pub new_stack_count: usize,
}

#[derive(Debug)]
pub struct UnstackMovedEntryJson {
    pub old_position: usize,
    pub sha: String,
    pub gg_id: Option<String>,
    pub title: String,
}

#[derive(Debug)]
pub struct RestackResponse {
    pub version: u32,
    pub restack: RestackResultJson,
}

#[derive(Debug)]
pub struct RestackResultJson {
    pub stack_name: String,
    pub total_entries: usize,
    pub entries_restacked: usize,
    pub entries_ok: usize,
    pub dry_run: bool,
    pub steps: Vec<RestackStepJson>,
}

#[derive(Debug)]
pub struct RestackStepJson {
    pub position: usize,
    pub gg_id: String,
    pub title: String,
    pub action: String,
    pub current_parent: Option<String>,
    pub expected_parent: Option<String>,
}

#[derive(Debug)]
pub struct LogResponse {
    pub version: u32,
    pub log: LogJson,
}

#[derive(Debug)]
pub struct LogJson {
    pub stack: String,
    pub base: String,
    pub current_position: Option<usize>,
    pub entries: Vec<StackEntryJson>,
}

#[derive(Debug, Clone, Copy, PartialEq, Eq, Structural)]
pub enum UndoJsonStatus {
    Succeeded,
    Refused,
}

#[derive(Debug, Clone, Copy, PartialEq, Eq, Structural)]
pub enum UndoRefusalReason {
    Remote,
    Interrupted,
    Stale,
    UnsupportedSchema,
}

/// The JSON form of an undo.
#[derive(Debug)]
pub struct UndoResponse {
    pub version: u32,
    pub status: UndoJsonStatus,
    /// The operation undone, on success.
    pub undone: Option<OperationSummaryJson>,
    /// Why the undo was refused, on refusal.
    pub refusal: Option<UndoRefusalJson>,
}

/// Why an undo was refused, in JSON form.
#[derive(Debug)]
pub struct UndoRefusalJson {
    pub reason: UndoRefusalReason,
    pub message: String,
    pub target: Option<OperationSummaryJson>,
    /// Manual steps for effects on a remote.
    pub hints: Vec<String>,
}

/// The JSON form of `gg undo --list`.
#[derive(Debug)]
pub struct UndoListResponse {
    pub version: u32,
    pub operations: Vec<OperationSummaryJson>,
}

/// An operation record as the JSON output shows it.
#[derive(Debug)]
pub struct OperationSummaryJson {
    pub id: String,
    pub kind: String,
    pub status: String,
    pub created_at_ms: u64,
    pub args: Vec<String>,
    pub stack_name: Option<String>,
    pub touched_remote: bool,
    pub is_undoable: bool,
    pub is_undo: bool,
    pub undoes: Option<String>,
    pub remote_effects: Vec<RemoteEffectJson>,
}

/// A remote effect as the JSON output shows it: its kind name next to its
/// fields (the front end writes the fields of `data` beside `kind`).
#[derive(Debug)]
pub struct RemoteEffectJson {
    pub kind: String,
    pub data: RemoteEffect,
}

impl Default for SyncMetadataJson {
    fn default() -> (r: Self)
        ensures
            r.gg_ids_added == 0 && r.gg_parents_updated == 0 && r.gg_parents_removed == 0,
    {
        SyncMetadataJson { gg_ids_added: 0, gg_parents_updated: 0, gg_parents_removed: 0 }
    }
}

} // verus!
