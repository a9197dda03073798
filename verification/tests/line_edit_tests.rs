use gg_core::line_edit::{backspace_at, delete_at, insert_at, left_of, right_of};

#[test]
fn backspace_undoes_insert() {
    let (t, c) = insert_at("héllo", 3, 'ü');
    assert_eq!(t, "héüllo");
    assert_eq!(c, 5);
    let (back, c2) = backspace_at(&t, c);
    assert_eq!(back, "héllo");
    assert_eq!(c2, 3);
}

#[test]
fn cursor_moves_by_whole_characters() {
    assert_eq!(right_of("héllo", 1), 3);
    assert_eq!(left_of("héllo", 3), 1);
    assert_eq!(left_of("héllo", 0), 0);
    assert_eq!(right_of("héllo", 6), 6);
    assert_eq!(delete_at("héllo", 1), "hllo");
    assert_eq!(backspace_at("abc", 0), ("abc".to_string(), 0));
}
