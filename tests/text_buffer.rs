use kiro_core::{CursorDir, Error, Language, TextBuffer};

fn buf(lines: &[&str]) -> TextBuffer {
    let v: Vec<String> = lines.iter().map(|s| s.to_string()).collect();
    TextBuffer::with_lines(&v).unwrap()
}

#[test]
fn line_break_at_end_of_line_then_undo() {
    let mut b = buf(&["hello", "world"]);
    b.set_cursor(5, 0);
    b.insert_line();
    assert_eq!(b.lines(), vec!["hello", "", "world"]);
    assert_eq!(b.cursor(), (0, 1));
    assert!(b.undo());
    assert_eq!(b.lines(), vec!["hello", "world"]);
    assert_eq!(b.cursor(), (5, 0));
}

#[test]
fn backspace_at_line_start_merges() {
    let mut b = buf(&["abc", "def"]);
    b.set_cursor(0, 1);
    b.delete_char();
    assert_eq!(b.lines(), vec!["abcdef"]);
    assert_eq!(b.cursor(), (3, 0));
}

#[test]
fn word_left_stops_at_word_starts() {
    let mut b = buf(&["  foo bar"]);
    b.set_cursor(9, 0);
    b.move_cursor_by_word(CursorDir::Left);
    assert_eq!(b.cursor(), (6, 0));
    b.move_cursor_by_word(CursorDir::Left);
    assert_eq!(b.cursor(), (2, 0));
    b.move_cursor_by_word(CursorDir::Left);
    assert_eq!(b.cursor(), (0, 0));
}

#[test]
fn word_right_stops_at_word_starts() {
    let mut b = buf(&["foo.bar baz"]);
    b.move_cursor_by_word(CursorDir::Right);
    assert_eq!(b.cursor(), (3, 0));
    b.move_cursor_by_word(CursorDir::Right);
    assert_eq!(b.cursor(), (8, 0));
    b.move_cursor_by_word(CursorDir::Right);
    assert_eq!(b.cursor(), (0, 1));
}

#[test]
fn typed_characters_undo_as_one_step() {
    let mut b = TextBuffer::empty();
    b.insert_char('a');
    b.insert_char('b');
    b.insert_char('c');
    assert_eq!(b.lines(), vec!["abc"]);
    assert!(b.undo());
    assert_eq!(b.lines(), vec![""]);
    assert_eq!(b.cursor(), (0, 0));
    assert!(!b.undo());
    assert_eq!(b.lines(), vec![""]);
}

#[test]
fn undo_and_redo_on_empty_history_do_nothing() {
    let mut b = TextBuffer::empty();
    assert!(!b.undo());
    assert!(!b.redo());
    assert_eq!(b.lines(), vec![""]);
    assert_eq!(b.cursor(), (0, 0));
    assert!(!b.modified());
}

#[test]
fn redo_after_undo_restores_edit() {
    let mut b = buf(&["abc"]);
    b.set_cursor(3, 0);
    b.insert_char('d');
    b.finish_edit();
    b.insert_line();
    b.finish_edit();
    assert_eq!(b.lines(), vec!["abcd", ""]);
    assert!(b.undo());
    assert_eq!(b.lines(), vec!["abcd"]);
    assert!(b.undo());
    assert_eq!(b.lines(), vec!["abc"]);
    assert!(!b.modified());
    assert!(b.redo());
    assert_eq!(b.lines(), vec!["abcd"]);
    assert_eq!(b.cursor(), (4, 0));
    assert!(b.modified());
    assert!(b.redo());
    assert_eq!(b.lines(), vec!["abcd", ""]);
    assert!(!b.redo());
}

#[test]
fn new_edit_after_undo_drops_redo() {
    let mut b = buf(&["ab"]);
    b.set_cursor(2, 0);
    b.delete_char();
    b.finish_edit();
    assert!(b.undo());
    b.insert_char('x');
    b.finish_edit();
    b.insert_line();
    assert!(!b.redo());
    assert_eq!(b.lines(), vec!["abx", ""]);
}

#[test]
fn save_resets_modified() {
    let mut b = buf(&["one", "two"]);
    b.set_file("notes.txt".to_string());
    b.set_cursor(3, 1);
    b.insert_char('!');
    assert!(b.modified());
    let (name, text) = b.contents_for_save().unwrap();
    assert_eq!(name, "notes.txt");
    assert_eq!(text, "one\ntwo!\n");
    b.mark_saved();
    assert!(!b.modified());
    assert_eq!(b.lines(), vec!["one", "two!"]);
}

#[test]
fn save_without_file_gives_nothing() {
    let b = buf(&["x"]);
    assert!(b.contents_for_save().is_none());
}

#[test]
fn delete_word_backward() {
    let mut b = buf(&["let foo  "]);
    b.set_cursor(9, 0);
    b.delete_word();
    assert_eq!(b.lines(), vec!["let "]);
    assert_eq!(b.cursor(), (4, 0));
    b.delete_word();
    assert_eq!(b.lines(), vec![""]);
    assert_eq!(b.cursor(), (0, 0));
}

#[test]
fn delete_until_end_of_line_truncates_then_joins() {
    let mut b = buf(&["hello", "world"]);
    b.set_cursor(2, 0);
    b.delete_until_end_of_line();
    assert_eq!(b.lines(), vec!["he", "world"]);
    assert_eq!(b.cursor(), (2, 0));
    b.finish_edit();
    b.delete_until_end_of_line();
    assert_eq!(b.lines(), vec!["heworld"]);
    b.finish_edit();
    b.set_cursor(7, 0);
    b.delete_until_end_of_line();
    assert_eq!(b.lines(), vec!["heworld"]);
}

#[test]
fn delete_until_head_of_line_removes_prefix() {
    let mut b = buf(&["ab", "cdef"]);
    b.set_cursor(2, 1);
    b.delete_until_head_of_line();
    assert_eq!(b.lines(), vec!["ab", "ef"]);
    assert_eq!(b.cursor(), (0, 1));
    b.finish_edit();
    b.delete_until_head_of_line();
    assert_eq!(b.lines(), vec!["abef"]);
    assert_eq!(b.cursor(), (2, 0));
}

#[test]
fn delete_right_char_and_join() {
    let mut b = buf(&["ab", "c"]);
    b.delete_right_char();
    assert_eq!(b.lines(), vec!["b", "c"]);
    assert_eq!(b.cursor(), (0, 0));
    b.finish_edit();
    b.set_cursor(1, 0);
    b.delete_right_char();
    assert_eq!(b.lines(), vec!["bc"]);
    assert_eq!(b.cursor(), (1, 0));
    b.finish_edit();
    b.set_cursor(2, 0);
    b.delete_right_char();
    assert_eq!(b.lines(), vec!["bc"]);
    assert_eq!(b.cursor(), (2, 0));
}

#[test]
fn split_line_in_middle() {
    let mut b = buf(&["héllo"]);
    b.set_cursor(2, 0);
    b.insert_line();
    assert_eq!(b.lines(), vec!["hé", "llo"]);
    assert_eq!(b.cursor(), (0, 1));
    assert!(b.undo());
    assert_eq!(b.lines(), vec!["héllo"]);
    assert_eq!(b.cursor(), (2, 0));
}

#[test]
fn typing_past_last_line_adds_line() {
    let mut b = buf(&["a"]);
    b.set_cursor(0, 1);
    b.insert_char('z');
    assert_eq!(b.lines(), vec!["a", "z"]);
    assert_eq!(b.cursor(), (1, 1));
    b.set_cursor(0, 2);
    b.insert_line();
    assert_eq!(b.lines(), vec!["a", "z", ""]);
    assert_eq!(b.cursor(), (0, 2));
}

#[test]
fn cursor_wraps_between_lines() {
    let mut b = buf(&["ab", "c"]);
    b.set_cursor(2, 0);
    b.move_cursor_one(CursorDir::Right);
    assert_eq!(b.cursor(), (0, 1));
    b.move_cursor_one(CursorDir::Left);
    assert_eq!(b.cursor(), (2, 0));
    b.move_cursor_one(CursorDir::Down);
    assert_eq!(b.cursor(), (1, 1));
    b.move_cursor_one(CursorDir::Down);
    assert_eq!(b.cursor(), (0, 2));
    b.move_cursor_one(CursorDir::Down);
    assert_eq!(b.cursor(), (0, 2));
    b.set_cursor(0, 0);
    b.move_cursor_one(CursorDir::Up);
    assert_eq!(b.cursor(), (0, 0));
    b.move_cursor_one(CursorDir::Left);
    assert_eq!(b.cursor(), (0, 0));
}

#[test]
fn page_and_edge_moves() {
    let mut b = buf(&["a", "bb", "ccc", "dddd", "e"]);
    b.move_cursor_page(CursorDir::Down, 0, 2);
    assert_eq!(b.cursor(), (0, 3));
    b.move_cursor_page(CursorDir::Up, 2, 2);
    assert_eq!(b.cursor(), (0, 0));
    b.move_cursor_to_buffer_edge(CursorDir::Down);
    assert_eq!(b.cursor(), (0, 5));
    b.set_cursor(1, 2);
    b.move_cursor_to_buffer_edge(CursorDir::Right);
    assert_eq!(b.cursor(), (3, 2));
    b.move_cursor_to_buffer_edge(CursorDir::Left);
    assert_eq!(b.cursor(), (0, 2));
    b.move_cursor_to_buffer_edge(CursorDir::Up);
    assert_eq!(b.cursor(), (0, 0));
}

#[test]
fn paragraph_moves() {
    let mut b = buf(&["a", "b", "", "c", "d", "", "", "e"]);
    b.move_cursor_paragraph(CursorDir::Down);
    assert_eq!(b.cy(), 3);
    b.move_cursor_paragraph(CursorDir::Down);
    assert_eq!(b.cy(), 7);
    b.move_cursor_paragraph(CursorDir::Down);
    assert_eq!(b.cy(), 8);
    b.move_cursor_paragraph(CursorDir::Up);
    assert_eq!(b.cy(), 7);
    b.move_cursor_paragraph(CursorDir::Up);
    assert_eq!(b.cy(), 3);
    b.move_cursor_paragraph(CursorDir::Up);
    assert_eq!(b.cy(), 0);
}

#[test]
fn tab_follows_language_indent() {
    let mut b = TextBuffer::empty();
    b.insert_tab();
    assert_eq!(b.lines(), vec!["\t"]);
    assert_eq!(b.cursor(), (1, 0));
    let mut b = TextBuffer::empty();
    b.set_file("main.rs".to_string());
    assert_eq!(b.lang(), Language::Rust);
    b.insert_tab();
    assert_eq!(b.lines(), vec!["    "]);
    assert_eq!(b.cursor(), (4, 0));
    let mut b = TextBuffer::empty();
    b.set_lang(Language::JavaScript);
    b.insert_tab();
    assert_eq!(b.lines(), vec!["  "]);
}

#[test]
fn language_detection() {
    assert_eq!(Language::detect("a/b/c.go"), Language::Go);
    assert_eq!(Language::detect("x.h"), Language::C);
    assert_eq!(Language::detect("x.cpp"), Language::Cpp);
    assert_eq!(Language::detect("x.js"), Language::JavaScript);
    assert_eq!(Language::detect("README"), Language::Plain);
}

#[test]
fn file_association_and_scratch() {
    let mut b = TextBuffer::empty();
    assert!(b.is_scratch());
    assert!(!b.has_file());
    assert_eq!(b.filename(), "[No Name]");
    b.set_file("a.c".to_string());
    assert!(b.has_file());
    assert_eq!(b.filename(), "a.c");
    assert_eq!(b.lang(), Language::C);
    assert!(!b.is_scratch());
    b.set_unnamed();
    assert!(b.is_scratch());
}

#[test]
fn dirty_marker_tracks_lowest_line() {
    let mut b = buf(&["a", "b", "c"]);
    assert_eq!(b.finish_edit(), Some(0));
    assert_eq!(b.finish_edit(), None);
    b.set_cursor(1, 2);
    b.insert_char('x');
    b.set_cursor(1, 1);
    b.insert_char('y');
    assert_eq!(b.finish_edit(), Some(1));
    assert_eq!(b.finish_edit(), None);
}

#[test]
fn with_lines_rejects_control_characters() {
    let v = vec!["ok".to_string(), "bad\u{7}".to_string()];
    match TextBuffer::with_lines(&v) {
        Err(Error::ControlCharInText(c)) => assert_eq!(c, '\u{7}'),
        Ok(_) => panic!("control character accepted"),
    }
    let empty: Vec<String> = Vec::new();
    let b = TextBuffer::with_lines(&empty).unwrap();
    assert_eq!(b.lines(), vec![""]);
    assert_eq!(b.rows().len(), 1);
}

#[test]
fn redo_with_edit_under_way_changes_nothing() {
    let mut b = buf(&["abc"]);
    b.set_file("f.txt".to_string());
    b.set_cursor(3, 0);
    b.insert_char('d');
    b.mark_saved();
    assert!(!b.modified());
    assert!(b.undo());
    b.finish_edit();
    b.insert_char('x');
    assert!(b.modified());
    assert!(!b.redo());
    assert!(b.modified());
    assert_eq!(b.lines(), vec!["abcx"]);
    assert_eq!(b.cursor(), (4, 0));
}

#[test]
fn undo_back_to_saved_state_clears_modified() {
    let mut b = buf(&["ab"]);
    b.set_cursor(2, 0);
    b.insert_line();
    b.finish_edit();
    assert!(b.modified());
    assert!(b.undo());
    assert!(!b.modified());
    assert!(b.redo());
    assert!(b.modified());
    assert_eq!(b.cursor(), (0, 1));
}

#[test]
fn undo_of_joined_line_restores_both() {
    let mut b = buf(&["ab", "cd"]);
    b.set_cursor(2, 0);
    b.delete_until_end_of_line();
    assert_eq!(b.lines(), vec!["abcd"]);
    b.finish_edit();
    assert!(b.undo());
    assert_eq!(b.lines(), vec!["ab", "cd"]);
    assert_eq!(b.cursor(), (0, 1));
}

#[test]
fn page_up_with_no_rows_snaps_column() {
    let mut b = buf(&["abcdef", "x"]);
    b.set_cursor(5, 0);
    b.move_cursor_page(CursorDir::Up, 1, 0);
    assert_eq!(b.cursor(), (1, 1));
}

#[test]
fn failed_save_leaves_state() {
    let mut b = buf(&["a"]);
    b.set_file("x".to_string());
    b.insert_char('z');
    let before = b.modified();
    let _ = b.contents_for_save();
    assert_eq!(b.modified(), before);
    assert_eq!(b.finish_edit(), Some(0));
    assert!(b.undo());
    assert_eq!(b.lines(), vec!["a"]);
}
