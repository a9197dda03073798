use gg_core::commands::split::{DiffHunk, DiffLine};
use gg_core::commands::split_tui::{display_path, handle_key, DiffPanelLine, FileMark, Key, Panel, SplitTuiState, TuiMode};

fn make_test_hunk(file: &str, header: &str) -> DiffHunk {
    DiffHunk {
        file_path: file.to_string(),
        header: header.to_string(),
        lines: vec![
            DiffLine { origin: ' ', content: "context line\n".to_string() },
            DiffLine { origin: '+', content: "added line\n".to_string() },
            DiffLine { origin: '-', content: "removed line\n".to_string() },
        ],
        old_start: 1,
        old_lines: 2,
        new_start: 1,
        new_lines: 2,
    }
}

fn state_with(hunks: Vec<DiffHunk>) -> SplitTuiState {
    SplitTuiState::new(hunks, "Split from: test commit".to_string(), "test commit".to_string(), false)
}

#[test]
fn split_tui_test_state_initialization() {
    let hunks = vec![
        make_test_hunk("file1.rs", "@@ -1,2 +1,2 @@"),
        make_test_hunk("file1.rs", "@@ -10,2 +10,2 @@"),
        make_test_hunk("file2.rs", "@@ -1,2 +1,2 @@"),
    ];
    let state = state_with(hunks);
    assert_eq!(state.files.len(), 2);
    assert_eq!(state.files[0].path, "file1.rs");
    assert_eq!(state.files[0].hunk_indices, vec![0, 1]);
    assert_eq!(state.files[1].path, "file2.rs");
    assert_eq!(state.files[1].hunk_indices, vec![2]);
    assert_eq!(state.selected, vec![false, false, false]);
    assert_eq!(state.active_panel, Panel::Files);
}

#[test]
fn test_toggle_file() {
    let hunks = vec![
        make_test_hunk("file1.rs", "@@ -1,2 +1,2 @@"),
        make_test_hunk("file1.rs", "@@ -10,2 +10,2 @@"),
        make_test_hunk("file2.rs", "@@ -1,2 +1,2 @@"),
    ];
    let mut state = state_with(hunks);
    state.toggle_selection();
    assert_eq!(state.selected, vec![true, true, false]);
    state.toggle_selection();
    assert_eq!(state.selected, vec![false, false, false]);
}

#[test]
fn test_toggle_hunk_in_diff_panel() {
    let hunks = vec![make_test_hunk("file1.rs", "@@ -1,2 +1,2 @@"), make_test_hunk("file1.rs", "@@ -10,2 +10,2 @@")];
    let mut state = state_with(hunks);
    state.active_panel = Panel::Diff;
    state.toggle_selection();
    assert_eq!(state.selected, vec![true, false]);
    state.move_down();
    state.toggle_selection();
    assert_eq!(state.selected, vec![true, true]);
}

#[test]
fn test_navigation() {
    let hunks = vec![
        make_test_hunk("file1.rs", "@@ -1,2 +1,2 @@"),
        make_test_hunk("file2.rs", "@@ -1,2 +1,2 @@"),
        make_test_hunk("file3.rs", "@@ -1,2 +1,2 @@"),
    ];
    let mut state = state_with(hunks);
    assert_eq!(state.file_cursor, 0);
    state.move_down();
    assert_eq!(state.file_cursor, 1);
    state.move_down();
    assert_eq!(state.file_cursor, 2);
    state.move_down();
    assert_eq!(state.file_cursor, 2);
    state.move_up();
    assert_eq!(state.file_cursor, 1);
    state.move_up();
    assert_eq!(state.file_cursor, 0);
    state.move_up();
    assert_eq!(state.file_cursor, 0);
}

#[test]
fn test_select_all_deselect_all() {
    let hunks = vec![
        make_test_hunk("file1.rs", "@@ -1,2 +1,2 @@"),
        make_test_hunk("file1.rs", "@@ -10,2 +10,2 @@"),
        make_test_hunk("file2.rs", "@@ -1,2 +1,2 @@"),
    ];
    let mut state = state_with(hunks);
    state.select_all();
    assert_eq!(state.selected, vec![true, true, true]);
    state.deselect_all();
    assert_eq!(state.selected, vec![false, false, false]);
    state.active_panel = Panel::Diff;
    state.select_all();
    assert_eq!(state.selected, vec![true, true, false]);
    state.deselect_all();
    assert_eq!(state.selected, vec![false, false, false]);
}

#[test]
fn test_panel_switching() {
    let hunks = vec![make_test_hunk("file1.rs", "@@ -1,2 +1,2 @@")];
    let mut state = state_with(hunks);
    assert_eq!(state.active_panel, Panel::Files);
    state.switch_panel();
    assert_eq!(state.active_panel, Panel::Diff);
    state.switch_panel();
    assert_eq!(state.active_panel, Panel::Files);
}

#[test]
fn test_selected_count_for_file() {
    let hunks = vec![
        make_test_hunk("file1.rs", "@@ -1,2 +1,2 @@"),
        make_test_hunk("file1.rs", "@@ -10,2 +10,2 @@"),
        make_test_hunk("file2.rs", "@@ -1,2 +1,2 @@"),
    ];
    let mut state = state_with(hunks);
    assert_eq!(state.selected_count_for_file(0), (0, 2));
    assert_eq!(state.selected_count_for_file(1), (0, 1));
    state.selected[0] = true;
    assert_eq!(state.selected_count_for_file(0), (1, 2));
    state.selected[1] = true;
    assert_eq!(state.selected_count_for_file(0), (2, 2));
}

#[test]
fn test_get_selected_indices() {
    let hunks = vec![
        make_test_hunk("file1.rs", "@@ -1,2 +1,2 @@"),
        make_test_hunk("file1.rs", "@@ -10,2 +10,2 @@"),
        make_test_hunk("file2.rs", "@@ -1,2 +1,2 @@"),
    ];
    let mut state = state_with(hunks);
    state.selected[0] = true;
    state.selected[2] = true;
    let indices = state.get_selected_indices();
    assert_eq!(indices, vec![0, 2]);
}

#[test]
fn test_total_selected() {
    let hunks = vec![
        make_test_hunk("file1.rs", "@@ -1,2 +1,2 @@"),
        make_test_hunk("file2.rs", "@@ -1,2 +1,2 @@"),
        make_test_hunk("file3.rs", "@@ -1,2 +1,2 @@"),
    ];
    let mut state = state_with(hunks);
    assert_eq!(state.total_selected(), 0);
    state.selected[1] = true;
    assert_eq!(state.total_selected(), 1);
    state.selected[0] = true;
    state.selected[2] = true;
    assert_eq!(state.total_selected(), 3);
}

#[test]
fn split_tui_test_ctrl_c_aborts() {
    let hunks = vec![make_test_hunk("file1.rs", "@@ -1,2 +1,2 @@")];
    let mut state = state_with(hunks);
    assert!(!state.aborted);
    handle_key(&mut state, Key::Char('c'), true);
    assert!(state.aborted);
}

#[test]
fn test_ctrl_c_does_not_trigger_without_modifier() {
    let hunks = vec![make_test_hunk("file1.rs", "@@ -1,2 +1,2 @@")];
    let mut state = state_with(hunks);
    handle_key(&mut state, Key::Char('c'), false);
    assert!(!state.aborted);
}

#[test]
fn test_diff_scroll_adjusts_when_cursor_moves_past_visible_area() {
    let hunks: Vec<DiffHunk> =
        (0..20).map(|i| make_test_hunk("file1.rs", &format!("@@ -{},2 +{},2 @@", i * 10, i * 10))).collect();
    let mut state = state_with(hunks);
    state.active_panel = Panel::Diff;
    let visible_height = 10u16;
    for _ in 0..15 {
        state.move_down();
        state.adjust_diff_scroll(visible_height);
    }
    assert!(state.diff_scroll > 0, "diff_scroll should be adjusted when cursor moves past visible area");
    for _ in 0..15 {
        state.move_up();
        state.adjust_diff_scroll(visible_height);
    }
    assert_eq!(state.diff_scroll, 3, "diff_scroll should return to first hunk position when cursor is at top");
}

#[test]
fn test_diff_scroll_zero_height() {
    let hunks = vec![make_test_hunk("file1.rs", "@@ -1,2 +1,2 @@")];
    let mut state = state_with(hunks);
    state.active_panel = Panel::Diff;
    state.adjust_diff_scroll(0);
    assert_eq!(state.diff_scroll, 0);
}

#[test]
fn test_enter_message_mode() {
    let hunks = vec![make_test_hunk("file1.rs", "@@ -1,2 +1,2 @@")];
    let mut state = state_with(hunks);
    assert_eq!(state.mode, TuiMode::HunkSelection);
    state.enter_message_mode();
    assert_eq!(state.mode, TuiMode::MessageInput);
    assert_eq!(state.message_text, "Split from: test commit");
    assert_eq!(state.message_cursor, "Split from: test commit".len());
}

#[test]
fn test_exit_message_mode() {
    let hunks = vec![make_test_hunk("file1.rs", "@@ -1,2 +1,2 @@")];
    let mut state = state_with(hunks);
    state.enter_message_mode();
    assert_eq!(state.mode, TuiMode::MessageInput);
    state.exit_message_mode();
    assert_eq!(state.mode, TuiMode::HunkSelection);
}

#[test]
fn test_enter_in_hunk_selection_switches_to_message_input() {
    let hunks = vec![make_test_hunk("file1.rs", "@@ -1,2 +1,2 @@")];
    let mut state = state_with(hunks);
    handle_key(&mut state, Key::Enter, false);
    assert_eq!(state.mode, TuiMode::MessageInput);
    assert!(!state.confirmed);
}

#[test]
fn test_esc_in_message_input_returns_to_hunk_selection() {
    let hunks = vec![make_test_hunk("file1.rs", "@@ -1,2 +1,2 @@")];
    let mut state = state_with(hunks);
    state.enter_message_mode();
    handle_key(&mut state, Key::Esc, false);
    assert_eq!(state.mode, TuiMode::HunkSelection);
    assert!(!state.aborted);
}

#[test]
fn test_enter_in_message_input_confirms() {
    let hunks = vec![make_test_hunk("file1.rs", "@@ -1,2 +1,2 @@")];
    let mut state = state_with(hunks);
    state.enter_message_mode();
    handle_key(&mut state, Key::Enter, false);
    assert_eq!(state.mode, TuiMode::RemainderInput);
    assert!(!state.confirmed);
    handle_key(&mut state, Key::Enter, false);
    assert!(state.confirmed);
    assert_eq!(state.message_text, "Split from: test commit");
}

#[test]
fn test_enter_with_empty_message_does_not_confirm() {
    let hunks = vec![make_test_hunk("file1.rs", "@@ -1,2 +1,2 @@")];
    let mut state = SplitTuiState::new(hunks, String::new(), "test commit".to_string(), false);
    state.enter_message_mode();
    handle_key(&mut state, Key::Enter, false);
    assert!(!state.confirmed);
    assert_eq!(state.mode, TuiMode::MessageInput);
}

#[test]
fn test_message_insert_char() {
    let hunks = vec![make_test_hunk("file1.rs", "@@ -1,2 +1,2 @@")];
    let mut state = SplitTuiState::new(hunks, String::new(), "test commit".to_string(), false);
    state.enter_message_mode();
    state.message_insert_char('H');
    state.message_insert_char('i');
    assert_eq!(state.message_text, "Hi");
    assert_eq!(state.message_cursor, 2);
}

#[test]
fn test_message_backspace() {
    let hunks = vec![make_test_hunk("file1.rs", "@@ -1,2 +1,2 @@")];
    let mut state = SplitTuiState::new(hunks, "Hello".to_string(), "test commit".to_string(), false);
    state.enter_message_mode();
    assert_eq!(state.message_cursor, 5);
    state.message_backspace();
    assert_eq!(state.message_text, "Hell");
    assert_eq!(state.message_cursor, 4);
    state.message_cursor_home();
    state.message_backspace();
    assert_eq!(state.message_text, "Hell");
    assert_eq!(state.message_cursor, 0);
}

#[test]
fn test_message_delete() {
    let hunks = vec![make_test_hunk("file1.rs", "@@ -1,2 +1,2 @@")];
    let mut state = SplitTuiState::new(hunks, "Hello".to_string(), "test commit".to_string(), false);
    state.enter_message_mode();
    state.message_cursor_home();
    state.message_delete();
    assert_eq!(state.message_text, "ello");
    assert_eq!(state.message_cursor, 0);
    state.message_cursor_end();
    state.message_delete();
    assert_eq!(state.message_text, "ello");
}

#[test]
fn test_message_cursor_movement() {
    let hunks = vec![make_test_hunk("file1.rs", "@@ -1,2 +1,2 @@")];
    let mut state = SplitTuiState::new(hunks, "Hello".to_string(), "test commit".to_string(), false);
    state.enter_message_mode();
    assert_eq!(state.message_cursor, 5);
    state.message_cursor_left();
    assert_eq!(state.message_cursor, 4);
    state.message_cursor_left();
    assert_eq!(state.message_cursor, 3);
    state.message_cursor_right();
    assert_eq!(state.message_cursor, 4);
    state.message_cursor_home();
    assert_eq!(state.message_cursor, 0);
    state.message_cursor_end();
    assert_eq!(state.message_cursor, 5);
    state.message_cursor_right();
    assert_eq!(state.message_cursor, 5);
    state.message_cursor_home();
    state.message_cursor_left();
    assert_eq!(state.message_cursor, 0);
}

#[test]
fn test_message_insert_at_middle() {
    let hunks = vec![make_test_hunk("file1.rs", "@@ -1,2 +1,2 @@")];
    let mut state = SplitTuiState::new(hunks, "Helo".to_string(), "test commit".to_string(), false);
    state.enter_message_mode();
    state.message_cursor = 3;
    state.message_insert_char('l');
    assert_eq!(state.message_text, "Hello");
    assert_eq!(state.message_cursor, 4);
}

#[test]
fn test_message_ctrl_u_clears_to_beginning() {
    let hunks = vec![make_test_hunk("file1.rs", "@@ -1,2 +1,2 @@")];
    let mut state = SplitTuiState::new(hunks, "Hello World".to_string(), "test commit".to_string(), false);
    state.enter_message_mode();
    state.message_cursor = 5;
    handle_key(&mut state, Key::Char('u'), true);
    assert_eq!(state.message_text, " World");
    assert_eq!(state.message_cursor, 0);
}

#[test]
fn test_message_ctrl_k_clears_to_end() {
    let hunks = vec![make_test_hunk("file1.rs", "@@ -1,2 +1,2 @@")];
    let mut state = SplitTuiState::new(hunks, "Hello World".to_string(), "test commit".to_string(), false);
    state.enter_message_mode();
    state.message_cursor = 5;
    handle_key(&mut state, Key::Char('k'), true);
    assert_eq!(state.message_text, "Hello");
    assert_eq!(state.message_cursor, 5);
}

#[test]
fn test_ctrl_c_aborts_from_message_input() {
    let hunks = vec![make_test_hunk("file1.rs", "@@ -1,2 +1,2 @@")];
    let mut state = SplitTuiState::new(hunks, "test".to_string(), "test commit".to_string(), false);
    state.enter_message_mode();
    handle_key(&mut state, Key::Char('c'), true);
    assert!(state.aborted);
}

#[test]
fn test_message_typing_via_handle_key() {
    let hunks = vec![make_test_hunk("file1.rs", "@@ -1,2 +1,2 @@")];
    let mut state = SplitTuiState::new(hunks, String::new(), "test commit".to_string(), false);
    state.enter_message_mode();
    handle_key(&mut state, Key::Char('H'), false);
    handle_key(&mut state, Key::Char('i'), false);
    assert_eq!(state.message_text, "Hi");
    assert!(!state.confirmed);
    handle_key(&mut state, Key::Enter, false);
    assert_eq!(state.mode, TuiMode::RemainderInput);
    assert!(!state.confirmed);
    handle_key(&mut state, Key::Enter, false);
    assert!(state.confirmed);
}

#[test]
fn test_full_flow_hunk_selection_to_message_to_confirm() {
    let hunks = vec![make_test_hunk("file1.rs", "@@ -1,2 +1,2 @@"), make_test_hunk("file2.rs", "@@ -1,2 +1,2 @@")];
    let mut state = SplitTuiState::new(hunks, "Split from: original".to_string(), "test commit".to_string(), false);
    handle_key(&mut state, Key::Char(' '), false);
    assert_eq!(state.selected, vec![true, false]);
    handle_key(&mut state, Key::Enter, false);
    assert_eq!(state.mode, TuiMode::MessageInput);
    handle_key(&mut state, Key::Enter, false);
    assert_eq!(state.mode, TuiMode::RemainderInput);
    assert!(!state.confirmed);
    handle_key(&mut state, Key::Enter, false);
    assert!(state.confirmed);
    assert_eq!(state.message_text, "Split from: original");
}

#[test]
fn test_full_flow_message_edit_and_go_back() {
    let hunks = vec![make_test_hunk("file1.rs", "@@ -1,2 +1,2 @@")];
    let mut state = SplitTuiState::new(hunks, "Split from: original".to_string(), "test commit".to_string(), false);
    handle_key(&mut state, Key::Enter, false);
    assert_eq!(state.mode, TuiMode::MessageInput);
    handle_key(&mut state, Key::Esc, false);
    assert_eq!(state.mode, TuiMode::HunkSelection);
    assert!(!state.aborted);
    handle_key(&mut state, Key::Char(' '), false);
    assert_eq!(state.selected, vec![true]);
}

#[test]
fn test_message_unicode_handling() {
    let hunks = vec![make_test_hunk("file1.rs", "@@ -1,2 +1,2 @@")];
    let mut state = SplitTuiState::new(hunks, String::new(), "test commit".to_string(), false);
    state.enter_message_mode();
    state.message_insert_char('é');
    state.message_insert_char('ñ');
    assert_eq!(state.message_text, "éñ");
    assert_eq!(state.message_cursor, "éñ".len());
    state.message_backspace();
    assert_eq!(state.message_text, "é");
    state.message_cursor_left();
    assert_eq!(state.message_cursor, 0);
}

#[test]
fn test_enter_remainder_mode() {
    let hunks = vec![make_test_hunk("file1.rs", "@@ -1,2 +1,2 @@")];
    let mut state =
        SplitTuiState::new(hunks, "Split from: test".to_string(), "original commit message".to_string(), false);
    state.enter_message_mode();
    handle_key(&mut state, Key::Enter, false);
    assert_eq!(state.mode, TuiMode::RemainderInput);
    assert_eq!(state.remainder_text, "original commit message");
    assert_eq!(state.remainder_cursor, "original commit message".len());
    assert!(!state.confirmed);
}

#[test]
fn test_esc_from_remainder_goes_to_message_input() {
    let hunks = vec![make_test_hunk("file1.rs", "@@ -1,2 +1,2 @@")];
    let mut state = SplitTuiState::new(hunks, "Split from: test".to_string(), "original".to_string(), false);
    state.enter_message_mode();
    handle_key(&mut state, Key::Enter, false);
    assert_eq!(state.mode, TuiMode::RemainderInput);
    handle_key(&mut state, Key::Esc, false);
    assert_eq!(state.mode, TuiMode::MessageInput);
    assert!(!state.aborted);
}

#[test]
fn test_esc_navigation_remainder_to_message_to_hunk() {
    let hunks = vec![make_test_hunk("file1.rs", "@@ -1,2 +1,2 @@")];
    let mut state = SplitTuiState::new(hunks, "Split from: test".to_string(), "original".to_string(), false);
    state.enter_message_mode();
    handle_key(&mut state, Key::Enter, false);
    assert_eq!(state.mode, TuiMode::RemainderInput);
    handle_key(&mut state, Key::Esc, false);
    assert_eq!(state.mode, TuiMode::MessageInput);
    handle_key(&mut state, Key::Esc, false);
    assert_eq!(state.mode, TuiMode::HunkSelection);
    assert!(!state.aborted);
}

#[test]
fn test_no_edit_skips_remainder_input() {
    let hunks = vec![make_test_hunk("file1.rs", "@@ -1,2 +1,2 @@")];
    let mut state = SplitTuiState::new(hunks, "Split from: test".to_string(), "original".to_string(), true);
    state.enter_message_mode();
    handle_key(&mut state, Key::Enter, false);
    assert!(state.confirmed);
    assert_eq!(state.mode, TuiMode::MessageInput);
}

#[test]
fn test_remainder_enter_confirms() {
    let hunks = vec![make_test_hunk("file1.rs", "@@ -1,2 +1,2 @@")];
    let mut state = SplitTuiState::new(hunks, "Split from: test".to_string(), "original message".to_string(), false);
    state.enter_message_mode();
    handle_key(&mut state, Key::Enter, false);
    assert_eq!(state.mode, TuiMode::RemainderInput);
    handle_key(&mut state, Key::Enter, false);
    assert!(state.confirmed);
    assert_eq!(state.remainder_text, "original message");
}

#[test]
fn test_remainder_empty_message_does_not_confirm() {
    let hunks = vec![make_test_hunk("file1.rs", "@@ -1,2 +1,2 @@")];
    let mut state = SplitTuiState::new(hunks, "Split from: test".to_string(), String::new(), false);
    state.enter_message_mode();
    handle_key(&mut state, Key::Char('x'), false);
    handle_key(&mut state, Key::Enter, false);
    handle_key(&mut state, Key::Enter, false);
    assert!(!state.confirmed);
    assert_eq!(state.mode, TuiMode::RemainderInput);
}

#[test]
fn test_remainder_typing_and_editing() {
    let hunks = vec![make_test_hunk("file1.rs", "@@ -1,2 +1,2 @@")];
    let mut state = SplitTuiState::new(hunks, "Split from: test".to_string(), "original".to_string(), false);
    state.enter_message_mode();
    handle_key(&mut state, Key::Enter, false);
    assert_eq!(state.mode, TuiMode::RemainderInput);
    handle_key(&mut state, Key::Char('u'), true);
    state.remainder_text.clear();
    state.remainder_cursor = 0;
    handle_key(&mut state, Key::Char('n'), false);
    handle_key(&mut state, Key::Char('e'), false);
    handle_key(&mut state, Key::Char('w'), false);
    assert_eq!(state.remainder_text, "new");
}

#[test]
fn test_full_flow_with_both_messages() {
    let hunks = vec![make_test_hunk("file1.rs", "@@ -1,2 +1,2 @@"), make_test_hunk("file2.rs", "@@ -1,2 +1,2 @@")];
    let mut state =
        SplitTuiState::new(hunks, "Split from: original".to_string(), "original commit msg".to_string(), false);
    handle_key(&mut state, Key::Char(' '), false);
    assert_eq!(state.selected, vec![true, false]);
    handle_key(&mut state, Key::Enter, false);
    assert_eq!(state.mode, TuiMode::MessageInput);
    handle_key(&mut state, Key::Enter, false);
    assert_eq!(state.mode, TuiMode::RemainderInput);
    assert_eq!(state.remainder_text, "original commit msg");
    handle_key(&mut state, Key::Enter, false);
    assert!(state.confirmed);
    assert_eq!(state.message_text, "Split from: original");
    assert_eq!(state.remainder_text, "original commit msg");
}

#[test]
fn test_ctrl_c_aborts_from_remainder_input() {
    let hunks = vec![make_test_hunk("file1.rs", "@@ -1,2 +1,2 @@")];
    let mut state = SplitTuiState::new(hunks, "Split from: test".to_string(), "original".to_string(), false);
    state.enter_message_mode();
    handle_key(&mut state, Key::Enter, false);
    handle_key(&mut state, Key::Char('c'), true);
    assert!(state.aborted);
}

#[test]
fn test_remainder_cursor_movement() {
    let hunks = vec![make_test_hunk("file1.rs", "@@ -1,2 +1,2 @@")];
    let mut state = SplitTuiState::new(hunks, "Split from: test".to_string(), "Hello".to_string(), false);
    state.enter_remainder_mode();
    assert_eq!(state.remainder_cursor, 5);
    state.message_cursor_left();
    assert_eq!(state.remainder_cursor, 4);
    state.message_cursor_home();
    assert_eq!(state.remainder_cursor, 0);
    state.message_cursor_end();
    assert_eq!(state.remainder_cursor, 5);
}

#[test]
fn test_remainder_backspace() {
    let hunks = vec![make_test_hunk("file1.rs", "@@ -1,2 +1,2 @@")];
    let mut state = SplitTuiState::new(hunks, "Split from: test".to_string(), "Hello".to_string(), false);
    state.enter_remainder_mode();
    state.message_backspace();
    assert_eq!(state.remainder_text, "Hell");
    assert_eq!(state.remainder_cursor, 4);
}

#[test]
fn unicode_cursor_moves_by_whole_characters() {
    let hunks = vec![make_test_hunk("file1.rs", "@@ -1,2 +1,2 @@")];
    let mut state = SplitTuiState::new(hunks, "aé日b".to_string(), "x".to_string(), false);
    state.enter_message_mode();
    assert_eq!(state.message_cursor, 7);
    state.message_cursor_left();
    assert_eq!(state.message_cursor, 6);
    state.message_cursor_left();
    assert_eq!(state.message_cursor, 3);
    state.message_cursor_right();
    assert_eq!(state.message_cursor, 6);
    state.message_delete();
    assert_eq!(state.message_text, "aé日");
    state.message_cursor_home();
    state.message_cursor_right();
    state.message_insert_char('ß');
    assert_eq!(state.message_text, "aßé日");
    assert_eq!(state.message_cursor, 3);
}

#[test]
fn test_path_truncation_narrow_terminal() {
    let path = "src/very/long/path/to/file.rs";
    let display = display_path(path, 10);
    assert_eq!(display, "");
}

#[test]
fn test_path_truncation_non_ascii() {
    let path = "src/日本語/ファイル.rs";
    let display = display_path(path, 25);
    assert!(display.starts_with('…'));
    assert!(display.len() <= path.len());
    assert_eq!(display.chars().count(), 13);
    assert_eq!(display, "…/日本語/ファイル.rs");
}

#[test]
fn path_fits_without_truncation() {
    assert_eq!(display_path("a.rs", 40), "a.rs");
}

#[test]
fn file_rows_show_selection_marks() {
    let hunks = vec![
        make_test_hunk("file1.rs", "@@ -1,2 +1,2 @@"),
        make_test_hunk("file1.rs", "@@ -10,2 +10,2 @@"),
        make_test_hunk("file2.rs", "@@ -1,2 +1,2 @@"),
    ];
    let mut state = state_with(hunks);
    state.selected = vec![true, false, true];
    let rows = state.file_rows(40);
    assert_eq!(rows.len(), 2);
    assert_eq!(rows[0].mark, FileMark::Partial);
    assert_eq!(rows[0].total, 2);
    assert!(rows[0].current);
    assert_eq!(rows[1].mark, FileMark::All);
    assert_eq!(rows[1].path, "file2.rs");
    state.selected = vec![false, false, false];
    assert_eq!(state.file_rows(40)[1].mark, FileMark::Empty);
}

#[test]
fn diff_panel_lists_current_file_hunks() {
    let hunks = vec![make_test_hunk("file1.rs", "@@ -1,2 +1,2 @@"), make_test_hunk("file2.rs", "@@ -5 +5 @@")];
    let mut state = state_with(hunks);
    state.active_panel = Panel::Diff;
    state.selected = vec![true, false];
    let lines = state.diff_panel_lines();
    assert_eq!(lines.len(), 3 + 1 + 3 + 1);
    assert!(matches!(&lines[0], DiffPanelLine::FileHeader(t) if t == "--- a/file1.rs"));
    assert!(matches!(&lines[1], DiffPanelLine::FileHeader(t) if t == "+++ b/file1.rs"));
    assert!(matches!(lines[2], DiffPanelLine::Blank));
    assert!(matches!(&lines[3], DiffPanelLine::HunkHeader { current: true, selected: true, header } if header == "@@ -1,2 +1,2 @@"));
    assert!(matches!(&lines[5], DiffPanelLine::Line { origin: '+', text } if text == "    +added line"));
    assert!(matches!(lines[7], DiffPanelLine::Blank));
    state.file_cursor = 5;
    let none = state.diff_panel_lines();
    assert_eq!(none.len(), 1);
    assert!(matches!(none[0], DiffPanelLine::NoFile));
}

#[test]
fn split_current_hunk_renumbers_files_and_keeps_selection() {
    let hunks = vec![
        make_test_hunk("file1.rs", "@@ -1,2 +1,2 @@"),
        make_test_hunk("file1.rs", "@@ -10,2 +10,2 @@"),
        make_test_hunk("file2.rs", "@@ -1,2 +1,2 @@"),
    ];
    let mut state = state_with(hunks);
    state.active_panel = Panel::Diff;
    state.toggle_selection();
    assert_eq!(state.selected, vec![true, false, false]);

    let pieces = vec![make_test_hunk("file1.rs", "@@ -1,1 +1,1 @@"), make_test_hunk("file1.rs", "@@ -2,1 +2,1 @@")];
    assert!(state.try_split_current_hunk(pieces));
    assert_eq!(state.hunks.len(), 4);
    assert_eq!(state.hunks[0].header, "@@ -1,1 +1,1 @@");
    assert_eq!(state.hunks[1].header, "@@ -2,1 +2,1 @@");
    assert_eq!(state.hunks[2].header, "@@ -10,2 +10,2 @@");
    assert_eq!(state.hunks[3].file_path, "file2.rs");
    assert_eq!(state.selected, vec![true, true, false, false]);
    assert_eq!(state.files[0].hunk_indices, vec![0, 1, 2]);
    assert_eq!(state.files[1].hunk_indices, vec![3]);
}

#[test]
fn split_current_hunk_needs_the_diff_panel() {
    let hunks = vec![make_test_hunk("file1.rs", "@@ -1,2 +1,2 @@")];
    let mut state = state_with(hunks);
    let pieces = vec![make_test_hunk("file1.rs", "@@ -1,1 +1,1 @@"), make_test_hunk("file1.rs", "@@ -2,1 +2,1 @@")];
    assert!(!state.try_split_current_hunk(pieces));
    assert_eq!(state.hunks.len(), 1);
    assert_eq!(state.files[0].hunk_indices, vec![0]);
}

#[test]
fn status_text_counts_selected_hunks() {
    let hunks = vec![make_test_hunk("file1.rs", "@@ -1,2 +1,2 @@"), make_test_hunk("file2.rs", "@@ -1,2 +1,2 @@")];
    let mut state = state_with(hunks);
    state.toggle_selection();
    assert_eq!(
        state.status_text(),
        " 1/2 hunks selected │ [Space] toggle · [Tab] switch panel · [a]ll · [n]one · [s]plit · [Enter] confirm · [q]uit "
    );
}

#[test]
fn input_line_splits_around_the_cursor() {
    let hunks = vec![make_test_hunk("file1.rs", "@@ -1,2 +1,2 @@")];
    let mut state = SplitTuiState::new(hunks, "Héllo".to_string(), "rest".to_string(), false);
    assert!(state.input_line().is_none());
    state.enter_message_mode();
    let line = state.input_line().unwrap();
    assert_eq!(line.label, " New commit message: ");
    assert_eq!((line.before.as_str(), line.cursor.as_str(), line.after.as_str()), ("Héllo", " ", ""));
    state.message_cursor_left();
    state.message_cursor_left();
    state.message_cursor_left();
    state.message_cursor_left();
    let line = state.input_line().unwrap();
    assert_eq!((line.before.as_str(), line.cursor.as_str(), line.after.as_str()), ("H", "é", "llo"));
    state.enter_remainder_mode();
    let line = state.input_line().unwrap();
    assert_eq!(line.label, " Remainder commit message: ");
    assert_eq!((line.before.as_str(), line.cursor.as_str(), line.after.as_str()), ("rest", " ", ""));
}
