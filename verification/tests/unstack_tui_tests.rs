use gg_core::commands::split_tui::Key;
use gg_core::commands::unstack_tui::{handle_key, UnstackEntry, UnstackTuiState};

fn make_entries(n: usize) -> Vec<UnstackEntry> {
    (0..n).map(|i| UnstackEntry { short_sha: format!("abc{i:04}"), title: format!("commit {i}") }).collect()
}

#[test]
fn unstack_tui_test_state_initialization() {
    let state = UnstackTuiState::new(make_entries(4), 2);
    assert_eq!(state.cursor, 2);
    assert!(!state.confirmed);
    assert!(!state.aborted);
}

#[test]
fn test_initial_clamped_to_max() {
    let state = UnstackTuiState::new(make_entries(3), 10);
    assert_eq!(state.cursor, 2);
}

#[test]
fn test_cursor_cannot_go_below_index_1() {
    let mut state = UnstackTuiState::new(make_entries(4), 1);
    state.cursor_up();
    assert_eq!(state.cursor, 1);
}

#[test]
fn test_cursor_down_stops_at_end() {
    let mut state = UnstackTuiState::new(make_entries(3), 2);
    state.cursor_down();
    assert_eq!(state.cursor, 2);
}

#[test]
fn test_cursor_navigation() {
    let mut state = UnstackTuiState::new(make_entries(5), 2);
    assert_eq!(state.cursor, 2);
    state.cursor_down();
    assert_eq!(state.cursor, 3);
    state.cursor_down();
    assert_eq!(state.cursor, 4);
    state.cursor_down();
    assert_eq!(state.cursor, 4);
    state.cursor_up();
    assert_eq!(state.cursor, 3);
}

#[test]
fn test_split_position_is_1_indexed() {
    let state = UnstackTuiState::new(make_entries(4), 2);
    assert_eq!(state.split_position(), 3);
}

#[test]
fn test_key_navigation() {
    let mut state = UnstackTuiState::new(make_entries(5), 2);
    handle_key(&mut state, Key::Char('j'), false);
    assert_eq!(state.cursor, 3);
    handle_key(&mut state, Key::Char('k'), false);
    assert_eq!(state.cursor, 2);
    handle_key(&mut state, Key::Down, false);
    assert_eq!(state.cursor, 3);
    handle_key(&mut state, Key::Up, false);
    assert_eq!(state.cursor, 2);
}

#[test]
fn test_key_confirm_enter() {
    let mut state = UnstackTuiState::new(make_entries(3), 1);
    assert!(!state.confirmed);
    handle_key(&mut state, Key::Enter, false);
    assert!(state.confirmed);
}

#[test]
fn test_key_confirm_s() {
    let mut state = UnstackTuiState::new(make_entries(3), 1);
    handle_key(&mut state, Key::Char('s'), false);
    assert!(state.confirmed);
}

#[test]
fn test_key_cancel_q() {
    let mut state = UnstackTuiState::new(make_entries(3), 1);
    handle_key(&mut state, Key::Char('q'), false);
    assert!(state.aborted);
}

#[test]
fn test_key_cancel_esc() {
    let mut state = UnstackTuiState::new(make_entries(3), 1);
    handle_key(&mut state, Key::Esc, false);
    assert!(state.aborted);
}

#[test]
fn unstack_tui_test_ctrl_c_aborts() {
    let mut state = UnstackTuiState::new(make_entries(3), 1);
    handle_key(&mut state, Key::Char('c'), true);
    assert!(state.aborted);
}

#[test]
fn empty_entries_keep_cursor_at_zero() {
    let state = UnstackTuiState::new(Vec::new(), 5);
    assert_eq!(state.cursor, 0);
}

#[test]
fn entry_rows_mark_moving_entries() {
    let state = UnstackTuiState::new(make_entries(3), 1);
    let rows = state.entry_rows();
    assert_eq!(rows.len(), 3);
    assert_eq!(rows[0].text, "[stay] 1  abc0000 commit 0");
    assert!(!rows[0].moves);
    assert!(rows[1].cursor);
    assert!(rows[1].moves);
    assert_eq!(rows[2].text, "[MOVE] 3  abc0002 commit 2");
    assert_eq!(state.list_title(), " Unstack — 1 remain, 2 move to new stack ");
}
