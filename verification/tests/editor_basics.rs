use soup_ui::text_editor::{Pos, TextEditor};

fn editor_with(text: &str) -> TextEditor {
    let mut ed = TextEditor::empty();
    ed.set_text(text);
    ed
}

#[test]
fn empty_editor_has_one_empty_line() {
    let ed = TextEditor::empty();
    assert_eq!(ed.line_count(), 1);
    assert_eq!(ed.text(), "");
    assert_eq!(ed.cursor(), Pos::new(0, 0));
    assert_eq!(ed.anchor(), None);
    assert!(!ed.dirty);
    assert_eq!(ed.tab_width, 2);
    assert!(ed.syntax);
    assert!(!ed.can_undo());
    assert!(!ed.can_redo());
}

#[test]
fn pos_default_is_origin() {
    let p = Pos::default();
    assert_eq!(p, Pos::new(0, 0));
    assert!(Pos::new(0, 5) < Pos::new(1, 0));
}

#[test]
fn set_text_then_text_round_trips() {
    let ed = editor_with("{\n  \"a\": 1\n}");
    assert_eq!(ed.line_count(), 3);
    assert_eq!(ed.text(), "{\n  \"a\": 1\n}");
}

#[test]
fn set_text_widens_tabs_and_trims_carriage_returns() {
    let ed = editor_with("\ta\r\nb\r\r\nc\rd");
    assert_eq!(ed.line_count(), 3);
    assert_eq!(ed.line(0), "  a");
    assert_eq!(ed.line(1), "b");
    assert_eq!(ed.line(2), "c\rd");
    assert_eq!(ed.text(), "  a\nb\nc\rd");
}

#[test]
fn set_text_of_empty_and_newline_only() {
    let ed = editor_with("");
    assert_eq!(ed.line_count(), 1);
    assert_eq!(ed.text(), "");
    let ed = editor_with("\n");
    assert_eq!(ed.line_count(), 2);
    assert_eq!(ed.text(), "\n");
}

#[test]
fn set_text_resets_caret_history_but_not_dirty() {
    let mut ed = editor_with("abc");
    ed.move_end(false);
    ed.insert_str("x");
    assert!(ed.dirty);
    assert!(ed.can_undo());
    ed.set_text("new");
    assert!(ed.dirty);
    assert!(!ed.can_undo());
    assert_eq!(ed.cursor(), Pos::new(0, 0));
    assert_eq!(ed.text(), "new");
}

#[test]
fn cursor_line_col_is_one_based() {
    let mut ed = editor_with("ab\ncd");
    ed.move_down(false);
    ed.move_right(false);
    assert_eq!(ed.cursor_line_col(), (2, 2));
}

#[test]
fn line_accessors() {
    let ed = editor_with("héllo\nxy");
    assert_eq!(ed.line_len(0), 5);
    assert_eq!(ed.line_chars(1).len(), 2);
    assert_eq!(ed.max_line_chars(), 5);
}

#[test]
fn is_dirty_reports_the_dirty_field_and_positions_order_row_first() {
    let mut ed = TextEditor::empty();
    assert!(!ed.is_dirty());
    ed.insert_str("a");
    assert!(ed.is_dirty());
    assert_eq!(ed.is_dirty(), ed.dirty);
    assert!(Pos::new(0, 9) < Pos::new(1, 0));
    assert!(Pos::new(2, 1) < Pos::new(2, 3));
    assert!(Pos::new(2, 3) <= Pos::new(2, 3));
    assert!(!(Pos::new(3, 0) < Pos::new(2, 7)));
}
