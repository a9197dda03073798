use gg_core::config::Config;
use gg_core::stack::{Stack, StackEntry};
use gg_core::error::GgError;
use gg_core::operations::{
    restore_steps, undo_decision, RefUpdate,
    snapshot_ref_names, OperationGuard, SnapshotScope,
    build_remote_hints, covers_branch, order_by_time, prune_victims, OPERATION_LOG_CAP, first_undoable, format_operation_id, new_id, now_ms, should_interrupt,
    stale_check, undo_gate, kind_to_snake, OperationKind, OperationRecord, OperationStatus, OperationStore, RefSnapshot,
    RemoteEffect, UndoOutcome, SCHEMA_VERSION,
};

fn make_record(kind: OperationKind, created_at_ms: u64) -> OperationRecord {
    OperationRecord {
        id: format_operation_id(created_at_ms, "0123456789abcdef0123456789abcdef"),
        schema_version: SCHEMA_VERSION,
        kind,
        status: OperationStatus::Committed,
        created_at_ms,
        args: vec![],
        stack_name: None,
        refs_before: vec![],
        refs_after: vec![],
        remote_effects: vec![],
        touched_remote: false,
        undoes: None,
        pending_plan: None,
    }
}

fn snap(name: &str, target: Option<&str>) -> RefSnapshot {
    RefSnapshot { name: name.to_string(), target: target.map(str::to_string), is_head: false, head_symbolic: None }
}

#[test]
fn new_id_is_sortable_by_time() {
    let a = new_id();
    let mut b = new_id();
    while b[3..16] == a[3..16] {
        b = new_id();
    }
    assert!(a < b, "ids must sort chronologically: {a} !< {b}");
    assert!(a.starts_with("op_"));
    assert_eq!(a.len(), 3 + 13 + 1 + 32);
}

#[test]
fn operation_ids_pad_the_time_and_sort_by_it() {
    let early = format_operation_id(999, "ffffffffffffffffffffffffffffffff");
    let late = format_operation_id(1000, "00000000000000000000000000000000");
    assert_eq!(early, "op_0000000000999_ffffffffffffffffffffffffffffffff");
    assert!(early < late);
    assert!(now_ms() > 1_600_000_000_000);
}

#[test]
fn all_user_branches_filters_by_username_prefix() {
    assert!(covers_branch("nacho/x/1", "nacho"));
    assert!(covers_branch("nacho/x/2", "nacho"));
    assert!(!covers_branch("main", "nacho"));
    assert!(!covers_branch("other/mine", "nacho"));
    assert!(!covers_branch("nachos/x", "nacho"));
}

#[test]
fn all_user_branches_excludes_main_master_trunk() {
    assert!(!covers_branch("main", "main"));
    assert!(!covers_branch("master", ""));
    assert!(!covers_branch("trunk", "trunk"));
}

#[test]
fn sweep_promotes_stale_pending_to_interrupted() {
    let mut stale = make_record(OperationKind::Nav, 1_000);
    stale.status = OperationStatus::Pending;
    let mut fresh = make_record(OperationKind::Nav, 100_000_000);
    fresh.status = OperationStatus::Pending;
    let now = 100_000_000 + 5_000;
    assert!(should_interrupt(&stale, now));
    assert!(!should_interrupt(&fresh, now));
    let done = make_record(OperationKind::Nav, 1_000);
    assert!(!should_interrupt(&done, now));
    let mut edge = make_record(OperationKind::Nav, u64::MAX - 10);
    edge.status = OperationStatus::Pending;
    assert!(!should_interrupt(&edge, u64::MAX));
}

#[test]
fn run_undo_refuses_remote_touched_op() {
    let mut rec = make_record(OperationKind::Sync, 5);
    rec.touched_remote = true;
    rec.remote_effects = vec![RemoteEffect::Pushed { remote: "origin".into(), branch: "nacho/x/1".into(), force: false }];
    match undo_gate(rec) {
        Err(UndoOutcome::RefusedRemote { hints, .. }) => {
            assert_eq!(hints.len(), 1);
            assert!(hints[0].contains("git push --force-with-lease origin <prior_sha>:refs/heads/nacho/x/1"));
        }
        other => panic!("unexpected: {:?}", other),
    }
}

#[test]
fn run_undo_refuses_interrupted_op() {
    let mut rec = make_record(OperationKind::Drop, 5);
    rec.status = OperationStatus::Interrupted;
    assert!(matches!(undo_gate(rec), Err(UndoOutcome::RefusedInterrupted(_))));
}

#[test]
fn undo_refuses_newer_schema_first() {
    let mut rec = make_record(OperationKind::Drop, 5);
    rec.schema_version = SCHEMA_VERSION + 1;
    rec.status = OperationStatus::Interrupted;
    assert!(matches!(undo_gate(rec), Err(UndoOutcome::RefusedUnsupportedSchema(_))));
    let ok = make_record(OperationKind::Drop, 5);
    assert!(undo_gate(ok).is_ok());
}

#[test]
fn run_undo_refuses_when_ref_moved_since_operation() {
    let mut rec = make_record(OperationKind::Squash, 5);
    rec.refs_after = vec![snap("HEAD", Some("aaaa")), snap("refs/heads/nacho/feat/2", Some("c2"))];
    let current = vec![Some("zzzz".to_string()), Some("c1".to_string())];
    match stale_check(rec.clone(), &current) {
        Err(UndoOutcome::RefusedStale { ref_name, expected, actual, .. }) => {
            assert_eq!(ref_name, "refs/heads/nacho/feat/2");
            assert_eq!(expected, "c2");
            assert_eq!(actual, "c1");
        }
        other => panic!("unexpected: {:?}", other),
    }
    let unchanged = vec![Some("zzzz".to_string()), Some("c2".to_string())];
    assert!(stale_check(rec.clone(), &unchanged).is_ok());
    let deleted = vec![None, None];
    match stale_check(rec, &deleted) {
        Err(UndoOutcome::RefusedStale { actual, .. }) => assert_eq!(actual, "<absent>"),
        other => panic!("unexpected: {:?}", other),
    }
}

#[test]
fn first_undoable_skips_remote_and_pending() {
    let mut a = make_record(OperationKind::Sync, 3);
    a.touched_remote = true;
    let mut b = make_record(OperationKind::Nav, 2);
    b.status = OperationStatus::Pending;
    let c = make_record(OperationKind::Drop, 1);
    assert_eq!(first_undoable(&vec![a.clone(), b.clone(), c]), Some(2));
    assert_eq!(first_undoable(&vec![a, b]), None);
}

#[test]
fn remote_hints_name_the_manual_steps() {
    let mut rec = make_record(OperationKind::Land, 5);
    rec.remote_effects = vec![
        RemoteEffect::PrMerged { number: 12, url: "https://x/pull/12".into() },
        RemoteEffect::PrQueued { number: 13, url: String::new() },
    ];
    let hints = build_remote_hints(&rec);
    assert_eq!(hints.len(), 2);
    assert!(hints[0].contains("gh pr reopen 12"));
    assert!(hints[1].starts_with("This operation queued PR #13 for auto-merge."));
}

#[test]
fn store_paths_live_under_operations() {
    let store = OperationStore::new("/repo/.git/gg");
    assert_eq!(store.operations_dir(), "/repo/.git/gg/operations");
    assert_eq!(store.path_for("op_1"), "/repo/.git/gg/operations/op_1.json");
}

#[test]
fn order_by_time_is_a_stable_sort() {
    let times = vec![3_000u64, 1_000, 2_000, 1_000];
    assert_eq!(order_by_time(&times, true), vec![0, 2, 1, 3]);
    assert_eq!(order_by_time(&times, false), vec![1, 3, 2, 0]);
    assert_eq!(order_by_time(&vec![], false), Vec::<usize>::new());
}

#[test]
fn store_prunes_to_cap_skipping_pending() {
    let mut records: Vec<OperationRecord> = (0..(OPERATION_LOG_CAP as u64 + 3))
        .map(|i| {
            let mut r = make_record(OperationKind::Nav, 1_000 + i);
            r.id = format!("op_{i}");
            r
        })
        .collect();
    records[0].status = OperationStatus::Pending;
    records.reverse();
    let victims = prune_victims(&records);
    assert_eq!(victims, vec!["op_1".to_string(), "op_2".to_string(), "op_3".to_string()]);
    let few: Vec<OperationRecord> = records.into_iter().take(OPERATION_LOG_CAP).collect();
    assert!(prune_victims(&few).is_empty());
}

fn snap_entry(pos: usize, gg_id: Option<&str>) -> StackEntry {
    StackEntry {
        oid: "a".repeat(40),
        short_sha: "aaaaaaa".to_string(),
        title: "t".to_string(),
        gg_id: gg_id.map(|g| g.to_string()),
        gg_parent: None,
        mr_number: None,
        mr_state: None,
        approved: false,
        changes_requested: false,
        mergeable: false,
        ci_status: None,
        position: pos,
        in_merge_train: false,
        merge_train_position: None,
    }
}

#[test]
fn snapshot_covers_stack_refs() {
    let stack = Stack {
        name: "feat".to_string(),
        username: "me".to_string(),
        base: "main".to_string(),
        entries: vec![snap_entry(1, Some("c-abc1234")), snap_entry(2, None), snap_entry(3, Some("c-def5678"))],
        current_position: None,
    };
    let names = snapshot_ref_names(&Config::default(), &SnapshotScope::ActiveStack(&stack), &Vec::new());
    assert_eq!(
        names,
        vec!["refs/heads/me/feat", "refs/heads/me/feat--c-abc1234", "refs/heads/me/feat--c-def5678"]
    );
}

#[test]
fn snapshot_covers_user_branches_only() {
    let branches = vec![
        "main".to_string(),
        "me/feat".to_string(),
        "you/feat".to_string(),
        "me/feat--c-abc1234".to_string(),
        "master".to_string(),
    ];
    let mut config = Config::default();
    assert!(snapshot_ref_names(&config, &SnapshotScope::AllUserBranches, &branches).is_empty());
    config.defaults.branch_username = Some("me".to_string());
    assert_eq!(
        snapshot_ref_names(&config, &SnapshotScope::AllUserBranches, &branches),
        vec!["refs/heads/me/feat", "refs/heads/me/feat--c-abc1234"]
    );
}

#[test]
fn guard_records_pending_then_committed() {
    let store = OperationStore::new("/repo/.git/gg");
    let before = vec![RefSnapshot { name: "HEAD".to_string(), target: Some("a".repeat(40)), is_head: true, head_symbolic: None }];
    let mut guard = OperationGuard::begin(
        store,
        "op_0000000000001_x".to_string(),
        1,
        OperationKind::Undo,
        vec!["undo".to_string()],
        None,
        before.clone(),
    );
    assert_eq!(guard.id(), "op_0000000000001_x");
    assert_eq!(guard.record.status, OperationStatus::Pending);
    assert_eq!(guard.record.schema_version, SCHEMA_VERSION);
    assert!(guard.record.refs_after.is_empty() && !guard.record.touched_remote && !guard.finalized);

    let after = vec![RefSnapshot { name: "HEAD".to_string(), target: Some("b".repeat(40)), is_head: true, head_symbolic: None }];
    guard.finalize_as_undo(after.clone(), "op_0000000000000_y".to_string());
    assert_eq!(guard.record.status, OperationStatus::Committed);
    assert_eq!(guard.record.refs_after, after);
    assert_eq!(guard.record.refs_before, before);
    assert_eq!(guard.record.undoes.as_deref(), Some("op_0000000000000_y"));
    assert!(guard.finalized);

    let mut other = OperationGuard::begin(
        OperationStore::new("/g"),
        "id".to_string(),
        2,
        OperationKind::Undo,
        vec![],
        Some("s".to_string()),
        vec![],
    );
    other.finalize(vec![], vec![RemoteEffect::PrCreated { number: 4, url: "u".to_string() }], true);
    assert_eq!(other.record.status, OperationStatus::Committed);
    assert!(other.record.touched_remote);
    assert_eq!(other.record.remote_effects.len(), 1);
}

#[test]
fn undo_decision_orders_the_gates() {
    let mut old = make_record(OperationKind::Undo, 1);
    old.refs_before = vec![snap("refs/heads/me/a", Some("aaa")), snap("refs/heads/me/gone", None)];
    old.refs_after = vec![snap("refs/heads/me/a", Some("bbb")), snap("HEAD", Some("zzz"))];
    let old_id = old.id.clone();
    let mut newest = make_record(OperationKind::Undo, 2);
    newest.touched_remote = true;
    let records = vec![newest.clone(), old.clone()];

    // The newest undoable one is picked: the remote one is skipped.
    let current = vec![("refs/heads/me/a".to_string(), Some("bbb".to_string()))];
    match undo_decision(records.clone(), None, &current) {
        Ok(Ok(t)) => assert_eq!(t.id, old_id),
        other => panic!("unexpected: {:?}", other.map(|r| r.map(|t| t.id))),
    }
    // A moved ref refuses, naming the ref.
    let moved = vec![("refs/heads/me/a".to_string(), Some("ccc".to_string()))];
    match undo_decision(records.clone(), Some(&old_id), &moved) {
        Ok(Err(UndoOutcome::RefusedStale { ref_name, expected, actual, .. })) => {
            assert_eq!((ref_name.as_str(), expected.as_str(), actual.as_str()), ("refs/heads/me/a", "bbb", "ccc"))
        }
        other => panic!("unexpected: {:?}", other.is_ok()),
    }
    // The remote gate comes before the staleness check.
    match undo_decision(records.clone(), Some(&newest.id), &Vec::new()) {
        Ok(Err(UndoOutcome::RefusedRemote { .. })) => {}
        other => panic!("unexpected: {:?}", other.is_ok()),
    }
    // An unknown id, and an empty log.
    assert!(matches!(undo_decision(records, Some("op_nope"), &current), Err(GgError::OperationRecordNotFound(m)) if m == "op_nope"));
    assert!(matches!(undo_decision(vec![newest], None, &current), Err(GgError::OperationNotUndoable { .. })));

    let mut head = snap("HEAD", Some("aaa"));
    head.is_head = true;
    head.head_symbolic = Some("refs/heads/me/a".to_string());
    old.refs_before.push(head);
    assert_eq!(
        restore_steps(&old),
        vec![
            RefUpdate::SetRef { name: "refs/heads/me/a".to_string(), target: "aaa".to_string() },
            RefUpdate::Delete("refs/heads/me/gone".to_string()),
            RefUpdate::HeadToBranch("refs/heads/me/a".to_string()),
        ]
    );
}

#[test]
fn operation_kinds_have_snake_case_names() {
    assert_eq!(kind_to_snake(&OperationKind::Unstack), "unstack");
    assert_eq!(kind_to_snake(&OperationKind::Undo), "undo");
    assert_eq!(kind_to_snake(&OperationKind::Reconcile), "reconcile");
}
