use kiro_core::{EditDiff, Row, UndoRedo};

fn rows(lines: &[&str]) -> Vec<Row> {
    lines.iter().map(|l| Row::new(l).unwrap()).collect()
}

fn text(rows: &Vec<Row>) -> Vec<String> {
    rows.iter().map(|r| r.buffer()).collect()
}

#[test]
fn every_diff_round_trips() {
    let cases: Vec<(EditDiff, (usize, usize))> = vec![
        (EditDiff::InsertChar(1, 0, 'x'), (1, 0)),
        (EditDiff::DeleteChar(2, 1, 'e'), (2, 1)),
        (EditDiff::Insert(0, 1, "  ".to_string()), (0, 1)),
        (EditDiff::Remove(3, 0, "abc".to_string()), (3, 0)),
        (EditDiff::Append(0, "zz".to_string()), (3, 0)),
        (EditDiff::Truncate(1, "ef".to_string()), (1, 1)),
        (EditDiff::Newline, (0, 2)),
        (EditDiff::InsertLine(1, "new".to_string()), (3, 0)),
        (EditDiff::DeleteLine(1, "def".to_string()), (0, 1)),
    ];
    for (diff, origin) in cases {
        let mut r = rows(&["abc", "def"]);
        diff.apply(&mut r, UndoRedo::Redo);
        let back = diff.apply(&mut r, UndoRedo::Undo);
        assert_eq!(text(&r), vec!["abc", "def"]);
        assert_eq!(back, origin);
    }
}

#[test]
fn forward_results() {
    let mut r = rows(&["abc", "def"]);
    assert_eq!(EditDiff::InsertChar(3, 0, 'd').apply(&mut r, UndoRedo::Redo), (4, 0));
    assert_eq!(EditDiff::Remove(2, 1, "de".to_string()).apply(&mut r, UndoRedo::Redo), (0, 1));
    assert_eq!(EditDiff::Newline.apply(&mut r, UndoRedo::Redo), (0, 2));
    assert_eq!(text(&r), vec!["abcd", "f", ""]);
    assert_eq!(EditDiff::DeleteLine(1, "f".to_string()).apply(&mut r, UndoRedo::Redo), (4, 0));
    assert_eq!(text(&r), vec!["abcd", ""]);
}
