use soup_ui::text_editor::{Pos, TextEditor, Viewport};

fn editor_with(text: &str) -> TextEditor {
    let mut ed = TextEditor::empty();
    ed.set_text(text);
    ed
}

#[test]
fn left_and_right_wrap_across_lines() {
    let mut ed = editor_with("ab\ncd");
    ed.move_end(false);
    ed.move_right(false);
    assert_eq!(ed.cursor(), Pos::new(1, 0));
    ed.move_left(false);
    assert_eq!(ed.cursor(), Pos::new(0, 2));
    ed.move_file_start(false);
    ed.move_left(false);
    assert_eq!(ed.cursor(), Pos::new(0, 0));
    ed.move_file_end(false);
    ed.move_right(false);
    assert_eq!(ed.cursor(), Pos::new(1, 2));
}

#[test]
fn up_and_down_clamp_the_column() {
    let mut ed = editor_with("long line\nab\nlonger line");
    ed.move_end(false);
    ed.move_down(false);
    assert_eq!(ed.cursor(), Pos::new(1, 2));
    ed.move_down(false);
    assert_eq!(ed.cursor(), Pos::new(2, 2));
    ed.move_down(false);
    assert_eq!(ed.cursor(), Pos::new(2, 2));
    ed.move_up(false);
    ed.move_up(false);
    ed.move_up(false);
    assert_eq!(ed.cursor(), Pos::new(0, 2));
}

#[test]
fn home_toggles_between_indent_and_line_start() {
    let mut ed = editor_with("   abc");
    ed.move_end(false);
    ed.move_home(false);
    assert_eq!(ed.cursor().col, 3);
    ed.move_home(false);
    assert_eq!(ed.cursor().col, 0);
    ed.move_home(false);
    assert_eq!(ed.cursor().col, 3);
}

#[test]
fn page_down_and_up_move_by_page() {
    let text: String = (0..50).map(|i| format!("l{}", i)).collect::<Vec<_>>().join("\n");
    let mut ed = editor_with(&text);
    ed.page_down(false);
    assert_eq!(ed.cursor().row, 18);
    ed.set_viewport(10, 80, false);
    ed.page_down(false);
    assert_eq!(ed.cursor().row, 26);
    ed.page_up(false);
    ed.page_up(false);
    ed.page_up(false);
    ed.page_up(false);
    assert_eq!(ed.cursor().row, 0);
    ed.move_file_end(false);
    ed.page_down(false);
    assert_eq!(ed.cursor().row, 49);
}

#[test]
fn word_motion() {
    let mut ed = editor_with("foo  bar baz\nnext");
    ed.move_word_right(false);
    assert_eq!(ed.cursor().col, 5);
    ed.move_word_right(false);
    assert_eq!(ed.cursor().col, 9);
    ed.move_word_right(false);
    assert_eq!(ed.cursor().col, 12);
    ed.move_word_right(false);
    assert_eq!(ed.cursor(), Pos::new(1, 0));
    ed.move_word_left(false);
    assert_eq!(ed.cursor(), Pos::new(0, 12));
    ed.move_word_left(false);
    assert_eq!(ed.cursor().col, 9);
    ed.move_word_left(false);
    assert_eq!(ed.cursor().col, 5);
    ed.move_word_left(false);
    assert_eq!(ed.cursor().col, 0);
}

#[test]
fn extending_motion_keeps_anchor() {
    let mut ed = editor_with("abc");
    ed.move_right(true);
    ed.move_right(true);
    assert_eq!(ed.anchor(), Some(Pos::new(0, 0)));
    assert_eq!(ed.selection_range(), Some((Pos::new(0, 0), Pos::new(0, 2))));
    ed.move_left(false);
    assert_eq!(ed.anchor(), None);
    assert!(!ed.has_selection());
}

#[test]
fn selection_range_is_ordered() {
    let mut ed = editor_with("abc\ndef");
    ed.move_file_end(false);
    ed.move_up(true);
    assert_eq!(ed.selection_range(), Some((Pos::new(0, 3), Pos::new(1, 3))));
}

#[test]
fn select_all_selects_whole_text() {
    let mut ed = editor_with("ab\ncd\nef");
    ed.select_all();
    assert_eq!(ed.selected_text(), ed.text());
    let mut one = editor_with("");
    one.select_all();
    assert_eq!(one.selected_text(), "");
}

#[test]
fn select_line_includes_newline_except_on_last_line() {
    let mut ed = editor_with("ab\ncd");
    ed.select_line(0);
    assert_eq!(ed.selected_text(), "ab\n");
    ed.select_line(7);
    assert_eq!(ed.selected_text(), "cd");
}

#[test]
fn clicks_place_caret_and_select_word_and_line() {
    let mut ed = editor_with("foo_bar baz\nx");
    ed.click(Some(Pos::new(0, 2)), false, false);
    assert_eq!(ed.cursor(), Pos::new(0, 2));
    assert_eq!(ed.click_count(), 1);
    ed.click(Some(Pos::new(0, 2)), true, false);
    assert_eq!(ed.click_count(), 2);
    assert_eq!(ed.selected_text(), "foo_bar");
    ed.click(Some(Pos::new(0, 2)), true, false);
    assert_eq!(ed.click_count(), 3);
    assert_eq!(ed.selected_text(), "foo_bar baz");
    ed.click(Some(Pos::new(0, 7)), false, false);
    ed.click(Some(Pos::new(0, 7)), true, false);
    assert_eq!(ed.selected_text(), " ");
}

#[test]
fn shift_click_and_drag_extend_selection() {
    let mut ed = editor_with("hello world");
    ed.click(Some(Pos::new(0, 0)), false, false);
    ed.click(Some(Pos::new(0, 5)), false, true);
    assert_eq!(ed.selected_text(), "hello");
    ed.click(Some(Pos::new(0, 6)), false, false);
    ed.drag_to(Some(Pos::new(0, 11)));
    assert_eq!(ed.selected_text(), "world");
    ed.drag_to(None);
    assert_eq!(ed.selected_text(), "world");
}

#[test]
fn undo_restores_text_and_caret_and_redo_reapplies() {
    let mut ed = editor_with("abc");
    ed.move_end(false);
    ed.insert_str("d");
    assert_eq!(ed.text(), "abcd");
    ed.undo();
    assert_eq!(ed.text(), "abc");
    assert_eq!(ed.cursor(), Pos::new(0, 3));
    ed.redo();
    assert_eq!(ed.text(), "abcd");
    assert_eq!(ed.cursor(), Pos::new(0, 4));
    ed.undo();
    ed.undo();
    assert_eq!(ed.text(), "abc");
}

#[test]
fn undo_after_each_kind_of_edit() {
    let mut ed = editor_with("ab\ncd");
    ed.move_down(false);
    ed.backspace();
    ed.undo();
    assert_eq!(ed.text(), "ab\ncd");
    assert_eq!(ed.cursor(), Pos::new(1, 0));
    ed.delete_forward();
    ed.undo();
    assert_eq!(ed.text(), "ab\ncd");
    ed.duplicate_line();
    ed.undo();
    assert_eq!(ed.text(), "ab\ncd");
    ed.toggle_line_comment();
    ed.undo();
    assert_eq!(ed.text(), "ab\ncd");
    ed.select_all();
    ed.cut();
    assert_eq!(ed.text(), "");
    ed.undo();
    assert_eq!(ed.text(), "ab\ncd");
}

#[test]
fn new_edit_clears_redo() {
    let mut ed = editor_with("a");
    ed.insert_str("x");
    ed.undo();
    assert!(ed.can_redo());
    ed.insert_str("y");
    assert!(!ed.can_redo());
}

#[test]
fn undo_history_keeps_at_most_two_hundred_snapshots() {
    let mut ed = editor_with("");
    for _ in 0..210 {
        ed.insert_char('x');
    }
    let mut n = 0;
    while ed.can_undo() {
        ed.undo();
        n += 1;
    }
    assert_eq!(n, 200);
    assert_eq!(ed.text(), "x".repeat(10));
}

#[test]
fn move_line_up_then_down_restores() {
    let mut ed = editor_with("a\nb\nc");
    ed.move_down(false);
    ed.move_line_up();
    ed.move_line_down();
    assert_eq!(ed.text(), "a\nb\nc");
    assert_eq!(ed.cursor().row, 1);
}

#[test]
fn scrolling_by_rows_and_cols_is_clamped() {
    let mut ed = editor_with("abcdef\nx\ny");
    ed.scroll_by_rows(5);
    assert_eq!(ed.scroll_row(), 2);
    ed.scroll_by_rows(-1);
    assert_eq!(ed.scroll_row(), 1);
    ed.scroll_by_rows(-9);
    assert_eq!(ed.scroll_row(), 0);
    ed.scroll_by_rows(i32::MIN);
    assert_eq!(ed.scroll_row(), 0);
    ed.scroll_by_cols(4);
    assert_eq!(ed.scroll_col(), 4);
    ed.scroll_by_cols(10);
    assert_eq!(ed.scroll_col(), 6);
    ed.scroll_by_cols(-2);
    assert_eq!(ed.scroll_col(), 4);
    ed.scroll_to_row(99);
    assert_eq!(ed.scroll_row(), 2);
    ed.scroll_to_row(1);
    assert_eq!(ed.scroll_row(), 1);
}

#[test]
fn viewport_clamps_and_caret_stays_visible() {
    let text: String = (0..30).map(|i| format!("{}", i)).collect::<Vec<_>>().join("\n");
    let mut ed = editor_with(&text);
    ed.scroll_by_rows(100);
    assert_eq!(ed.scroll_row(), 29);
    ed.scroll_by_cols(1);
    assert_eq!(ed.scroll_col(), 1);
    ed.set_viewport(10, 40, false);
    assert_eq!(ed.viewport(), Some(Viewport { visible_rows: 10, visible_cols: 40 }));
    assert_eq!(ed.scroll_col(), 0);
    ed.move_file_start(false);
    assert_eq!(ed.scroll_row(), 0);
    for _ in 0..12 {
        ed.move_down(false);
    }
    // caret row 12, margin 3, 10 rows visible: top row becomes 12 + 3 + 1 - 10
    assert_eq!(ed.scroll_row(), 6);
    ed.move_up(false);
    ed.move_up(false);
    ed.move_up(false);
    ed.move_up(false);
    ed.move_up(false);
    ed.move_up(false);
    ed.move_up(false);
    // caret row 5 is above top row 6 plus the margin: scrolls to 5 - 3
    assert_eq!(ed.scroll_row(), 2);
}

#[test]
fn horizontal_scroll_follows_caret() {
    let mut ed = editor_with(&"x".repeat(100));
    ed.set_viewport(5, 20, true);
    ed.move_end(false);
    assert_eq!(ed.scroll_col(), 100 + 4 + 1 - 20);
    ed.move_home(false);
    assert_eq!(ed.scroll_col(), 0);
}

#[test]
fn pos_from_cell_clamps_to_text() {
    let mut ed = editor_with("abc\nde");
    assert_eq!(ed.pos_from_cell(0, 1), Pos::new(0, 1));
    assert_eq!(ed.pos_from_cell(0, 9), Pos::new(0, 3));
    assert_eq!(ed.pos_from_cell(5, 9), Pos::new(1, 2));
    ed.scroll_by_rows(1);
    assert_eq!(ed.pos_from_cell(0, 0), Pos::new(1, 0));
}

#[test]
fn drawing_helpers() {
    let mut ed = editor_with("ab\ncde\nf");
    assert_eq!(ed.visible_row_end(2), 2);
    assert_eq!(ed.visible_row_end(10), 3);
    ed.move_right(false);
    ed.move_down(true);
    ed.move_down(true);
    assert_eq!(ed.row_selection(0), Some((1, 3)));
    assert_eq!(ed.row_selection(1), Some((0, 4)));
    assert_eq!(ed.row_selection(2), Some((0, 1)));
    ed.move_left(false);
    assert_eq!(ed.row_selection(1), None);
}

#[test]
fn right_then_left_and_left_then_right_return() {
    let mut ed = editor_with("abc\nde");
    ed.move_right(false);
    ed.move_right(false);
    ed.move_left(false);
    assert_eq!(ed.cursor(), Pos::new(0, 1));
    ed.move_end(false);
    ed.move_right(false);
    ed.move_left(false);
    assert_eq!(ed.cursor(), Pos::new(0, 3));
    ed.move_down(false);
    ed.move_home(false);
    ed.move_left(false);
    ed.move_right(false);
    assert_eq!(ed.cursor(), Pos::new(1, 0));
}
