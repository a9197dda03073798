use gg_core::commands::undo::{
    build_json_response, format_list_human, list_limit, list_response, outcome_lines, outcome_result, short_args,
    short_id, UndoCliOptions,
};
use gg_core::error::GgError;
use gg_core::operations::{OperationKind, OperationRecord, OperationStatus, RemoteEffect, UndoOutcome, SCHEMA_VERSION};
use gg_core::output::{UndoJsonStatus, UndoRefusalReason, OUTPUT_VERSION};

#[test]
fn short_id_truncates_long_ids() {
    let id = "1700000000000_abcdef0123";
    assert_eq!(short_id(id), "cdef0123");
}

#[test]
fn short_id_keeps_short_ids() {
    assert_eq!(short_id("abc"), "abc");
}

#[test]
fn short_args_truncates_long_strings() {
    let long: Vec<String> = (0..30).map(|i| format!("arg{i}")).collect();
    let s = short_args(&long);
    assert!(s.len() <= 80, "expected <= 80 bytes, got {}", s.len());
    assert!(s.ends_with("..."));
}

#[test]
fn short_args_short_roundtrip() {
    let args = vec!["sync".to_string(), "main".to_string()];
    assert_eq!(short_args(&args), "sync main");
}

#[test]
fn short_args_keeps_exactly_eighty_bytes() {
    let args = vec!["a".repeat(80)];
    assert_eq!(short_args(&args), "a".repeat(80));
    let args = vec!["a".repeat(81)];
    assert_eq!(short_args(&args), format!("{}...", "a".repeat(77)));
}

#[test]
fn short_args_cuts_on_a_char_boundary() {
    // 76 ASCII bytes then a two-byte char spanning bytes 76..78.
    let args = vec![format!("{}é{}", "a".repeat(76), "b".repeat(10))];
    assert_eq!(short_args(&args), format!("{}...", "a".repeat(76)));
}

#[test]
fn short_id_boundary_lengths() {
    assert_eq!(short_id("0123456789"), "0123456789");
    assert_eq!(short_id("0123456789a"), "3456789a");
}

#[test]
fn list_limit_defaults_to_cap() {
    let opts = UndoCliOptions::default();
    assert_eq!(list_limit(&opts), 100);
    let opts = UndoCliOptions { limit: 5, ..UndoCliOptions::default() };
    assert_eq!(list_limit(&opts), 5);
}

fn make_record(id: &str, kind: OperationKind, touched_remote: bool, args: Vec<String>) -> OperationRecord {
    OperationRecord {
        id: id.to_string(),
        schema_version: SCHEMA_VERSION,
        kind,
        status: OperationStatus::Committed,
        created_at_ms: 0,
        args,
        stack_name: None,
        refs_before: vec![],
        refs_after: vec![],
        remote_effects: vec![],
        touched_remote,
        undoes: None,
        pending_plan: None,
    }
}

/// The byte offset where the ARGS value starts in a data row: after four
/// column groups, each followed by two spaces.
fn find_args_column(line: &str) -> usize {
    let mut pos = 0;
    for _ in 0..4 {
        while pos < line.len() && !line[pos..].starts_with("  ") {
            pos += 1;
        }
        while pos < line.len() && line.as_bytes()[pos] == b' ' {
            pos += 1;
        }
    }
    pos
}

#[test]
fn list_table_args_column_alignment() {
    let records = vec![
        make_record("op_0000000000000_aaaa1111bbbb2222", OperationKind::Checkout, false, vec!["co".into(), "fix-LAUNCHER-v2-11W".into()]),
        make_record("op_0000000000001_cccc3333dddd4444", OperationKind::Undo, false, vec!["undo".into()]),
        make_record("op_0000000000002_eeee5555ffff6666", OperationKind::Checkout, false, vec!["co".into(), "ktfmt".into()]),
    ];
    let output = format_list_human(&records, false);
    let lines: Vec<&str> = output.lines().collect();
    assert!(lines.len() >= 4, "expected header + 3 rows, got {}", lines.len());

    let header_args_col = lines[0].find("ARGS").expect("header must contain ARGS");
    for (i, line) in lines[1..].iter().enumerate() {
        let args_col = find_args_column(line);
        assert_eq!(args_col, header_args_col, "row {} ARGS column at {} but header at {}: {:?}", i, args_col, header_args_col, line);
    }
}

#[test]
fn list_table_remote_alignment() {
    let records = vec![
        make_record("op_0000000000000_aaaa1111bbbb2222", OperationKind::Checkout, false, vec!["co".into(), "main".into()]),
        make_record("op_0000000000001_cccc3333dddd4444", OperationKind::Land, true, vec!["land".into()]),
    ];
    let output = format_list_human(&records, false);
    let lines: Vec<&str> = output.lines().collect();
    assert!(lines.len() >= 3);

    let header_args_col = lines[0].find("ARGS").expect("header must contain ARGS");
    for (i, line) in lines[1..].iter().enumerate() {
        let args_col = find_args_column(line);
        assert_eq!(args_col, header_args_col, "row {} ARGS column at {} but header at {}: {:?}", i, args_col, header_args_col, line);
    }
}

#[test]
fn list_table_exact_rows() {
    let records = vec![
        make_record("op_0000000000001_cccc3333dddd4444", OperationKind::Land, true, vec!["land".into()]),
        make_record("abc", OperationKind::Sync, false, vec!["sync".into()]),
    ];
    let output = format_list_human(&records, false);
    assert_eq!(
        output,
        "ID          KIND          STATUS      UNDOABLE  ARGS\n\
         dddd4444    land          committed   remote    land\n\
         abc         sync          committed   yes       sync\n"
    );
}

#[test]
fn list_table_colored_keeps_header() {
    let records = vec![make_record("abc", OperationKind::Sync, false, vec!["sync".into()])];
    let output = format_list_human(&records, true);
    assert!(output.starts_with("ID          KIND          STATUS      UNDOABLE  ARGS\n"));
    assert!(output.contains("yes"));
    let empty = format_list_human(&[].to_vec(), false);
    assert!(empty.contains("No operations recorded yet."));
    assert!(empty.ends_with('\n'));
}

#[test]
fn json_response_for_success_and_refusals() {
    let rec = make_record("op_1_a", OperationKind::Undo, false, vec!["undo".into()]);
    let resp = build_json_response(&UndoOutcome::Succeeded(rec.clone()));
    assert_eq!(resp.version, OUTPUT_VERSION);
    assert_eq!(resp.status, UndoJsonStatus::Succeeded);
    let undone = resp.undone.expect("summary");
    assert_eq!(undone.id, "op_1_a");
    assert_eq!(undone.kind, "undo");
    assert_eq!(undone.status, "committed");
    assert!(undone.is_undo);
    assert!(undone.is_undoable);
    assert!(resp.refusal.is_none());

    let mut remote = make_record("op_2_b", OperationKind::Sync, true, vec!["sync".into()]);
    remote.remote_effects = vec![RemoteEffect::PrCreated { number: 7, url: "https://x/7".into() }];
    let resp = build_json_response(&UndoOutcome::RefusedRemote { target: remote, hints: vec!["h1".into()] });
    assert_eq!(resp.status, UndoJsonStatus::Refused);
    assert!(resp.undone.is_none());
    let refusal = resp.refusal.expect("refusal");
    assert_eq!(refusal.reason, UndoRefusalReason::Remote);
    assert_eq!(refusal.message, "operation touched a remote");
    assert_eq!(refusal.hints, vec!["h1".to_string()]);
    let target = refusal.target.expect("target");
    assert!(!target.is_undoable);
    assert_eq!(target.remote_effects.len(), 1);
    assert_eq!(target.remote_effects[0].kind, "pr_created");

    let resp = build_json_response(&UndoOutcome::RefusedStale {
        target: rec.clone(),
        ref_name: "refs/heads/u/s".into(),
        expected: "aaa".into(),
        actual: "<absent>".into(),
    });
    let refusal = resp.refusal.expect("refusal");
    assert_eq!(refusal.reason, UndoRefusalReason::Stale);
    assert_eq!(refusal.message, "ref `refs/heads/u/s` moved since the operation (expected `aaa`, now `<absent>`)");

    let mut newer = rec.clone();
    newer.schema_version = 9;
    let resp = build_json_response(&UndoOutcome::RefusedUnsupportedSchema(newer));
    let refusal = resp.refusal.expect("refusal");
    assert_eq!(refusal.reason, UndoRefusalReason::UnsupportedSchema);
    assert_eq!(refusal.message, "schema version 9 newer than this gg");

    let resp = build_json_response(&UndoOutcome::RefusedInterrupted(rec));
    assert_eq!(resp.refusal.expect("refusal").message, "operation was interrupted");
}

#[test]
fn list_response_summarizes_in_order() {
    let records = vec![
        make_record("op_2", OperationKind::Sync, false, vec![]),
        make_record("op_1", OperationKind::Checkout, false, vec![]),
    ];
    let resp = list_response(&records);
    assert_eq!(resp.version, OUTPUT_VERSION);
    assert_eq!(resp.operations.len(), 2);
    assert_eq!(resp.operations[0].id, "op_2");
    assert_eq!(resp.operations[1].kind, "checkout");
}

#[test]
fn human_lines_for_outcomes() {
    let rec = make_record("1700000000000_abcdef0123", OperationKind::Sync, true, vec!["sync".into(), "main".into()]);
    assert_eq!(outcome_lines(&UndoOutcome::Succeeded(rec.clone())), vec!["Undid cdef0123 (sync main)".to_string()]);
    assert_eq!(
        outcome_lines(&UndoOutcome::RefusedRemote { target: rec.clone(), hints: vec!["do this".into()] }),
        vec!["Refusing to undo cdef0123: operation touched a remote.".to_string(), "  do this".to_string()]
    );
    assert_eq!(
        outcome_lines(&UndoOutcome::RefusedStale {
            target: rec.clone(),
            ref_name: "refs/heads/x".into(),
            expected: "a".into(),
            actual: "b".into()
        }),
        vec!["Refusing to undo cdef0123: ref `refs/heads/x` moved since the operation (expected `a`, now `b`).".to_string()]
    );
    let mut newer = rec.clone();
    newer.schema_version = 2;
    assert_eq!(
        outcome_lines(&UndoOutcome::RefusedUnsupportedSchema(newer)),
        vec!["Refusing to undo cdef0123: schema version 2 is newer than this gg (1).".to_string()]
    );
    assert!(outcome_result(&UndoOutcome::Succeeded(rec.clone())).is_ok());
    assert!(matches!(outcome_result(&UndoOutcome::RefusedInterrupted(rec)), Err(GgError::Silenced)));
}

#[test]
fn coloured_list_has_every_row() {
    let records = vec![
        make_record("op_0000000000000_aaaa1111bbbb2222", OperationKind::Checkout, false, vec!["co".into(), "main".into()]),
        make_record("op_0000000000001_cccc3333dddd4444", OperationKind::Land, true, vec!["land".into()]),
    ];
    let plain = format_list_human(&records, false);
    let coloured = format_list_human(&records, true);
    let stripped = coloured
        .replace("\x1b[32m", "")
        .replace("\x1b[31m", "")
        .replace("\x1b[2m", "")
        .replace("\x1b[0m", "");
    assert_eq!(stripped, plain);
    assert_eq!(coloured.lines().count(), 3);
}
