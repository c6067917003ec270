use kiro_core::{Error, Row};

#[test]
fn ascii_row_has_identity_indices() {
    let row = Row::new("abc").unwrap();
    assert_eq!(row.len(), 3);
    for i in 0..=3 {
        assert_eq!(row.byte_idx_of(i), i);
        assert_eq!(row.char_idx_of(i), i);
    }
    assert_eq!(row.buffer(), "abc");
}

#[test]
fn multibyte_row_translates_indices() {
    let row = Row::new("aあb🐶").unwrap();
    assert_eq!(row.len(), 4);
    assert_eq!(row.byte_idx_of(0), 0);
    assert_eq!(row.byte_idx_of(1), 1);
    assert_eq!(row.byte_idx_of(2), 4);
    assert_eq!(row.byte_idx_of(3), 5);
    assert_eq!(row.byte_idx_of(4), 9);
    assert_eq!(row.char_idx_of(4), 2);
    assert_eq!(row.char_idx_of(9), 4);
    for i in 0..=4 {
        assert_eq!(row.char_idx_of(row.byte_idx_of(i)), i);
    }
}

#[test]
fn indices_stay_consistent_after_mutations() {
    let mut row = Row::new("xyz").unwrap();
    row.insert_char(1, 'é');
    row.insert_str(0, "日本");
    row.append("ü!");
    row.delete_char(3);
    row.truncate(6);
    row.remove(0, 1);
    assert_eq!(row.buffer(), "本xyzü");
    let s = row.buffer();
    for (i, (b, _)) in s.char_indices().enumerate() {
        assert_eq!(row.byte_idx_of(i), b);
        assert_eq!(row.char_idx_of(b), i);
    }
    assert_eq!(row.byte_idx_of(row.len()), s.len());
}

#[test]
fn control_character_is_rejected() {
    match Row::new("a\u{1}b") {
        Err(Error::ControlCharInText(c)) => assert_eq!(c, '\u{1}'),
        Ok(_) => panic!("control character accepted"),
    }
}

#[test]
fn rx_after_full_width_and_tab() {
    let row = Row::new("あ\tx").unwrap();
    assert_eq!(row.rx_from_cx(0), 0);
    assert_eq!(row.rx_from_cx(1), 2);
    assert_eq!(row.rx_from_cx(2), 8);
    assert_eq!(row.rx_from_cx(3), 9);
}

#[test]
fn render_expands_tabs() {
    let row = Row::new("a\tb").unwrap();
    assert_eq!(row.render_text(), "a       b");
    let row = Row::new("\t").unwrap();
    assert_eq!(row.render_text(), "        ");
}

#[test]
fn char_access() {
    let row = Row::new("héllo").unwrap();
    assert_eq!(row.char_at(1), 'é');
    assert_eq!(row.char_at_checked(4), Some('o'));
    assert_eq!(row.char_at_checked(5), None);
    assert_eq!(row.slice(1, 3), "él");
}

#[test]
fn empty_row() {
    let row = Row::empty();
    assert_eq!(row.len(), 0);
    assert_eq!(row.buffer(), "");
    assert_eq!(row.render_text(), "");
    assert_eq!(row.byte_idx_of(0), 0);
}

#[test]
fn insert_past_end_appends() {
    let mut row = Row::new("ab").unwrap();
    row.insert_char(10, 'c');
    row.insert_str(10, "de");
    assert_eq!(row.buffer(), "abcde");
    row.delete_char(10);
    row.truncate(10);
    assert_eq!(row.buffer(), "abcde");
    row.remove_char(0);
    assert_eq!(row.buffer(), "bcde");
}

#[test]
fn remove_with_empty_range_is_no_op() {
    let mut row = Row::new("ab").unwrap();
    row.remove(5, 3);
    row.remove(1, 1);
    assert_eq!(row.buffer(), "ab");
}

#[test]
fn first_control_character_is_reported() {
    match Row::new("a\u{2}\u{1}") {
        Err(Error::ControlCharInText(c)) => assert_eq!(c, '\u{2}'),
        Ok(_) => panic!("control character accepted"),
    }
}
