use crate::row::{chars_of, is_text, is_text_char, lemma_text_sub, splice, Row, ROW_CAP};
use vstd::prelude::*;

verus! {

/// Direction in which a diff is applied.
#[derive(Clone, Copy, Debug, PartialEq, Eq, Structural)]
pub enum UndoRedo {
    Undo,
    Redo,
}

/// One invertible change of the row sequence. Positions are `(column, line)` in
/// characters; each variant carries what applying it in the other direction needs.
#[derive(Debug)]
pub enum EditDiff {
    /// Character inserted at `(x, y)`.
    InsertChar(usize, usize, char),
    /// Character deleted left of `(x, y)`.
    DeleteChar(usize, usize, char),
    /// String inserted at `(x, y)`.
    Insert(usize, usize, String),
    /// String appended to line `y`.
    Append(usize, String),
    /// String cut from the end of line `y`.
    Truncate(usize, String),
    /// String removed left of `(x, y)`.
    Remove(usize, usize, String),
    /// Empty line added after the last one.
    Newline,
    /// Line inserted at index `y`.
    InsertLine(usize, String),
    /// Line deleted at index `y`.
    DeleteLine(usize, String),
}

/// Characters of each row.
pub open spec fn rows_view(rows: Seq<Row>) -> Seq<Seq<char>> {
    Seq::new(rows.len(), |i: int| rows[i]@)
}

pub open spec fn rows_wf(rows: Seq<Row>) -> bool {
    forall|i: int| 0 <= i < rows.len() ==> (#[trigger] rows[i]).wf()
}

/// Every line holds only text characters and fits in a row.
pub open spec fn lines_ok(rows: Seq<Seq<char>>) -> bool {
    forall|i: int| 0 <= i < rows.len() ==> is_text(#[trigger] rows[i]) && rows[i].len() <= ROW_CAP
}

/// `(x, y)` is a cursor position of `rows`: within a line, or column 0 of the line
/// one past the last.
pub open spec fn valid_cursor(rows: Seq<Seq<char>>, x: int, y: int) -> bool {
    &&& 0 <= y <= rows.len()
    &&& y < rows.len() ==> 0 <= x <= rows[y].len()
    &&& y == rows.len() ==> x == 0
}

impl EditDiff {
    /// The diff can be applied forward to `rows`.
    pub open spec fn can_redo(&self, rows: Seq<Seq<char>>) -> bool {
        let n = rows.len();
        match *self {
            EditDiff::InsertChar(x, y, c) => y < n && x <= rows[y as int].len() && is_text_char(c)
                && rows[y as int].len() < ROW_CAP,
            EditDiff::DeleteChar(x, y, c) => y < n && 0 < x <= rows[y as int].len()
                && rows[y as int][x - 1] == c,
            EditDiff::Insert(x, y, s) => y < n && x <= rows[y as int].len() && is_text(s@)
                && rows[y as int].len() + s@.len() <= ROW_CAP,
            EditDiff::Remove(x, y, s) => y < n && s@.len() <= x <= rows[y as int].len()
                && rows[y as int].subrange(x - s@.len(), x as int) == s@,
            EditDiff::Append(y, s) => y < n && is_text(s@) && rows[y as int].len() + s@.len()
                <= ROW_CAP,
            EditDiff::Truncate(y, s) => y < n && s@.len() <= rows[y as int].len() && rows[y as int].skip(
                rows[y as int].len() - s@.len(),
            ) == s@,
            EditDiff::Newline => true,
            EditDiff::InsertLine(y, s) => 1 <= y <= n && is_text(s@) && s@.len() <= ROW_CAP,
            EditDiff::DeleteLine(y, s) => 1 <= y < n && rows[y as int] == s@,
        }
    }

    /// Rows after applying the diff forward.
    pub open spec fn redone(&self, rows: Seq<Seq<char>>) -> Seq<Seq<char>> {
        match *self {
            EditDiff::InsertChar(x, y, c) => rows.update(
                y as int,
                rows[y as int].insert(x as int, c),
            ),
            EditDiff::DeleteChar(x, y, c) => rows.update(
                y as int,
                rows[y as int].remove(x - 1),
            ),
            EditDiff::Insert(x, y, s) => rows.update(
                y as int,
                splice(rows[y as int], x as int, x as int, s@),
            ),
            EditDiff::Remove(x, y, s) => rows.update(
                y as int,
                splice(rows[y as int], x - s@.len(), x as int, Seq::empty()),
            ),
            EditDiff::Append(y, s) => rows.update(y as int, rows[y as int] + s@),
            EditDiff::Truncate(y, s) => rows.update(
                y as int,
                rows[y as int].take(rows[y as int].len() - s@.len()),
            ),
            EditDiff::Newline => rows.push(Seq::empty()),
            EditDiff::InsertLine(y, s) => rows.insert(y as int, s@),
            EditDiff::DeleteLine(y, s) => rows.remove(y as int),
        }
    }

    /// Cursor after applying the diff forward to `rows`.
    pub open spec fn redo_cursor(&self, rows: Seq<Seq<char>>) -> (int, int) {
        match *self {
            EditDiff::InsertChar(x, y, c) => (x + 1, y as int),
            EditDiff::DeleteChar(x, y, c) => (x - 1, y as int),
            EditDiff::Insert(x, y, s) => (x + s@.len(), y as int),
            EditDiff::Remove(x, y, s) => (x - s@.len(), y as int),
            EditDiff::Append(y, s) => (rows[y as int].len() as int, y as int),
            EditDiff::Truncate(y, s) => (rows[y as int].len() - s@.len(), y as int),
            EditDiff::Newline => (0, rows.len() as int),
            EditDiff::InsertLine(y, s) => (0, y as int),
            EditDiff::DeleteLine(y, s) => (rows[y - 1].len() as int, y - 1),
        }
    }

    /// The diff can be applied backward to `rows`.
    pub open spec fn can_undo(&self, rows: Seq<Seq<char>>) -> bool {
        let n = rows.len();
        match *self {
            EditDiff::InsertChar(x, y, c) => y < n && x < rows[y as int].len() && rows[y as int][x as int]
                == c,
            EditDiff::DeleteChar(x, y, c) => y < n && 1 <= x && x - 1 <= rows[y as int].len()
                && is_text_char(c) && rows[y as int].len() < ROW_CAP,
            EditDiff::Insert(x, y, s) => y < n && x + s@.len() <= rows[y as int].len()
                && rows[y as int].subrange(x as int, x + s@.len()) == s@,
            EditDiff::Remove(x, y, s) => y < n && s@.len() <= x && x - s@.len() <= rows[y as int].len()
                && is_text(s@) && rows[y as int].len() + s@.len() <= ROW_CAP,
            EditDiff::Append(y, s) => y < n && s@.len() <= rows[y as int].len() && rows[y as int].skip(
                rows[y as int].len() - s@.len(),
            ) == s@,
            EditDiff::Truncate(y, s) => y < n && is_text(s@) && rows[y as int].len() + s@.len()
                <= ROW_CAP,
            EditDiff::Newline => n > 0 && rows.last().len() == 0,
            EditDiff::InsertLine(y, s) => 1 <= y < n && rows[y as int] == s@,
            EditDiff::DeleteLine(y, s) => 1 <= y <= n && is_text(s@) && s@.len() <= ROW_CAP,
        }
    }

    /// Rows after applying the diff backward.
    pub open spec fn undone(&self, rows: Seq<Seq<char>>) -> Seq<Seq<char>> {
        match *self {
            EditDiff::InsertChar(x, y, c) => rows.update(y as int, rows[y as int].remove(x as int)),
            EditDiff::DeleteChar(x, y, c) => rows.update(
                y as int,
                rows[y as int].insert(x - 1, c),
            ),
            EditDiff::Insert(x, y, s) => rows.update(
                y as int,
                splice(rows[y as int], x as int, x + s@.len(), Seq::empty()),
            ),
            EditDiff::Remove(x, y, s) => rows.update(
                y as int,
                splice(rows[y as int], x - s@.len(), x - s@.len(), s@),
            ),
            EditDiff::Append(y, s) => rows.update(
                y as int,
                rows[y as int].take(rows[y as int].len() - s@.len()),
            ),
            EditDiff::Truncate(y, s) => rows.update(y as int, rows[y as int] + s@),
            EditDiff::Newline => rows.drop_last(),
            EditDiff::InsertLine(y, s) => rows.remove(y as int),
            EditDiff::DeleteLine(y, s) => rows.insert(y as int, s@),
        }
    }

    /// Cursor after applying the diff backward to `rows`.
    pub open spec fn undo_cursor(&self, rows: Seq<Seq<char>>) -> (int, int) {
        match *self {
            EditDiff::InsertChar(x, y, c) => (x as int, y as int),
            EditDiff::DeleteChar(x, y, c) => (x as int, y as int),
            EditDiff::Insert(x, y, s) => (x as int, y as int),
            EditDiff::Remove(x, y, s) => (x as int, y as int),
            EditDiff::Append(y, s) => (rows[y as int].len() - s@.len(), y as int),
            EditDiff::Truncate(y, s) => (rows[y as int].len() as int, y as int),
            EditDiff::Newline => (0, rows.len() - 1),
            EditDiff::InsertLine(y, s) => (rows[y - 1].len() as int, y - 1),
            EditDiff::DeleteLine(y, s) => (0, y as int),
        }
    }

    /// Cursor from which the diff is made, when applied forward to `rows`.
    pub open spec fn origin(&self, rows: Seq<Seq<char>>) -> (int, int) {
        match *self {
            EditDiff::InsertChar(x, y, c) => (x as int, y as int),
            EditDiff::DeleteChar(x, y, c) => (x as int, y as int),
            EditDiff::Insert(x, y, s) => (x as int, y as int),
            EditDiff::Remove(x, y, s) => (x as int, y as int),
            EditDiff::Append(y, s) => (rows[y as int].len() as int, y as int),
            EditDiff::Truncate(y, s) => (rows[y as int].len() - s@.len(), y as int),
            EditDiff::Newline => (0, rows.len() as int),
            EditDiff::InsertLine(y, s) => (rows[y - 1].len() as int, y - 1),
            EditDiff::DeleteLine(y, s) => (0, y as int),
        }
    }

    /// Applies the diff in direction `which` and returns the cursor to move to.
    pub fn apply(&self, rows: &mut Vec<Row>, which: UndoRedo) -> (r: (usize, usize))
        requires
            rows_wf(old(rows)@),
            which == UndoRedo::Redo ==> self.can_redo(rows_view(old(rows)@)),
            which == UndoRedo::Undo ==> self.can_undo(rows_view(old(rows)@)),
        ensures
            rows_wf(final(rows)@),
            valid_cursor(rows_view(final(rows)@), r.0 as int, r.1 as int),
            which == UndoRedo::Redo ==> rows_view(final(rows)@) == self.redone(
                rows_view(old(rows)@),
            ) && (r.0 as int, r.1 as int) == self.redo_cursor(rows_view(old(rows)@)),
            which == UndoRedo::Undo ==> rows_view(final(rows)@) == self.undone(
                rows_view(old(rows)@),
            ) && (r.0 as int, r.1 as int) == self.undo_cursor(rows_view(old(rows)@)),
    {
        let ghost v = rows_view(rows@);
        match (self, which) {
            (EditDiff::InsertChar(x, y, c), UndoRedo::Redo) => {
                let mut row = take_row(rows, *y);
                row.insert_char(*x, *c);
                put_row(rows, *y, row);
                assert(v[*y as int].insert(*x as int, *c) =~= if *x < v[*y as int].len() {
                    v[*y as int].insert(*x as int, *c)
                } else {
                    v[*y as int].push(*c)
                });
                assert(rows_view(rows@) =~= self.redone(v));
                (*x + 1, *y)
            },
            (EditDiff::InsertChar(x, y, c), UndoRedo::Undo) => {
                let mut row = take_row(rows, *y);
                row.remove_char(*x);
                put_row(rows, *y, row);
                assert(rows_view(rows@) =~= self.undone(v));
                (*x, *y)
            },
            (EditDiff::DeleteChar(x, y, c), UndoRedo::Redo) => {
                let mut row = take_row(rows, *y);
                row.remove_char(*x - 1);
                put_row(rows, *y, row);
                assert(rows_view(rows@) =~= self.redone(v));
                (*x - 1, *y)
            },
            (EditDiff::DeleteChar(x, y, c), UndoRedo::Undo) => {
                let mut row = take_row(rows, *y);
                row.insert_char(*x - 1, *c);
                put_row(rows, *y, row);
                assert(v[*y as int].insert(*x - 1, *c) =~= if *x - 1 < v[*y as int].len() {
                    v[*y as int].insert(*x - 1, *c)
                } else {
                    v[*y as int].push(*c)
                });
                assert(rows_view(rows@) =~= self.undone(v));
                (*x, *y)
            },
            (EditDiff::Insert(x, y, s), UndoRedo::Redo) => {
                let k = chars_of(s.as_str()).len();
                let mut row = take_row(rows, *y);
                row.insert_str(*x, s.as_str());
                put_row(rows, *y, row);
                assert(splice(v[*y as int], *x as int, *x as int, s@) =~= if *x < v[*y as int].len() {
                    splice(v[*y as int], *x as int, *x as int, s@)
                } else {
                    v[*y as int] + s@
                });
                assert(rows_view(rows@) =~= self.redone(v));
                (*x + k, *y)
            },
            (EditDiff::Insert(x, y, s), UndoRedo::Undo) => {
                let k = chars_of(s.as_str()).len();
                let mut row = take_row(rows, *y);
                proof {
                    row.lemma_wf_facts();
                    assert(row@ == v[*y as int]);
                }
                row.remove(*x, *x + k);
                put_row(rows, *y, row);
                assert(splice(v[*y as int], *x as int, *x + k, Seq::empty()) =~= if *x < *x + k {
                    splice(v[*y as int], *x as int, *x + k, Seq::empty())
                } else {
                    v[*y as int]
                });
                assert(rows_view(rows@) =~= self.undone(v));
                (*x, *y)
            },
            (EditDiff::Remove(x, y, s), UndoRedo::Redo) => {
                let k = chars_of(s.as_str()).len();
                let mut row = take_row(rows, *y);
                row.remove(*x - k, *x);
                put_row(rows, *y, row);
                assert(splice(v[*y as int], *x - k, *x as int, Seq::empty()) =~= if *x - k < *x {
                    splice(v[*y as int], *x - k, *x as int, Seq::empty())
                } else {
                    v[*y as int]
                });
                assert(rows_view(rows@) =~= self.redone(v));
                (*x - k, *y)
            },
            (EditDiff::Remove(x, y, s), UndoRedo::Undo) => {
                let k = chars_of(s.as_str()).len();
                let mut row = take_row(rows, *y);
                row.insert_str(*x - k, s.as_str());
                put_row(rows, *y, row);
                assert(splice(v[*y as int], *x - k, *x - k, s@) =~= if *x - k < v[*y as int].len() {
                    splice(v[*y as int], *x - k, *x - k, s@)
                } else {
                    v[*y as int] + s@
                });
                assert(rows_view(rows@) =~= self.undone(v));
                (*x, *y)
            },
            (EditDiff::Append(y, s), UndoRedo::Redo) => {
                let mut row = take_row(rows, *y);
                let len = row.len();
                row.append(s.as_str());
                put_row(rows, *y, row);
                assert(rows_view(rows@) =~= self.redone(v));
                (len, *y)
            },
            (EditDiff::Append(y, s), UndoRedo::Undo) | (EditDiff::Truncate(y, s), UndoRedo::Redo) => {
                let k = chars_of(s.as_str()).len();
                let mut row = take_row(rows, *y);
                let len = row.len();
                row.truncate(len - k);
                put_row(rows, *y, row);
                assert(v[*y as int].take(len - k) =~= if len - k < len {
                    v[*y as int].take(len - k)
                } else {
                    v[*y as int]
                });
                assert(which == UndoRedo::Redo ==> rows_view(rows@) =~= self.redone(v));
                assert(which == UndoRedo::Undo ==> rows_view(rows@) =~= self.undone(v));
                (len - k, *y)
            },
            (EditDiff::Truncate(y, s), UndoRedo::Undo) => {
                let mut row = take_row(rows, *y);
                let len = row.len();
                row.append(s.as_str());
                put_row(rows, *y, row);
                assert(rows_view(rows@) =~= self.undone(v));
                (len, *y)
            },
            (EditDiff::Newline, UndoRedo::Redo) => {
                let n = rows.len();
                rows.push(Row::empty());
                assert(rows_view(rows@) =~= self.redone(v));
                (0, n)
            },
            (EditDiff::Newline, UndoRedo::Undo) => {
                rows.pop();
                assert(rows_view(rows@) =~= self.undone(v));
                (0, rows.len())
            },
            (EditDiff::InsertLine(y, s), UndoRedo::Redo) | (EditDiff::DeleteLine(y, s), UndoRedo::Undo) => {
                let row = new_text_row(s);
                rows.insert(*y, row);
                assert(rows_view(rows@) =~= v.insert(*y as int, s@));
                (0, *y)
            },
            (EditDiff::InsertLine(y, s), UndoRedo::Undo) | (EditDiff::DeleteLine(y, s), UndoRedo::Redo) => {
                rows.remove(*y);
                assert(rows_view(rows@) =~= v.remove(*y as int));
                (rows[*y - 1].len(), *y - 1)
            },
        }
    }
}

/// Applying a diff forward and then backward gives the rows back, and the backward
/// application reports the cursor from which the diff was made.
pub proof fn lemma_redo_then_undo(d: EditDiff, rows: Seq<Seq<char>>)
    requires
        lines_ok(rows),
        d.can_redo(rows),
    ensures
        d.can_undo(d.redone(rows)),
        d.undone(d.redone(rows)) == rows,
        d.undo_cursor(d.redone(rows)) == d.origin(rows),
{
    let r = d.redone(rows);
    match d {
        EditDiff::InsertChar(x, y, c) => {
            assert(r[y as int].remove(x as int) =~= rows[y as int]);
            assert(d.undone(r) =~= rows);
        },
        EditDiff::DeleteChar(x, y, c) => {
            assert(is_text_char(rows[y as int][x - 1]));
            assert(r[y as int].insert(x - 1, c) =~= rows[y as int]);
            assert(d.undone(r) =~= rows);
        },
        EditDiff::Insert(x, y, s) => {
            assert(r[y as int].subrange(x as int, x + s@.len()) =~= s@);
            assert(splice(r[y as int], x as int, x + s@.len(), Seq::empty()) =~= rows[y as int]);
            assert(d.undone(r) =~= rows);
        },
        EditDiff::Remove(x, y, s) => {
            lemma_text_sub(rows[y as int], x - s@.len(), x as int);
            assert(splice(r[y as int], x - s@.len(), x - s@.len(), s@) =~= rows[y as int]);
            assert(d.undone(r) =~= rows);
        },
        EditDiff::Append(y, s) => {
            assert(r[y as int].skip(r[y as int].len() - s@.len()) =~= s@);
            assert(r[y as int].take(r[y as int].len() - s@.len()) =~= rows[y as int]);
            assert(d.undone(r) =~= rows);
        },
        EditDiff::Truncate(y, s) => {
            lemma_text_sub(rows[y as int], rows[y as int].len() - s@.len(), rows[y as int].len() as int);
            assert(rows[y as int].skip(rows[y as int].len() - s@.len()) =~= rows[y as int].subrange(
                rows[y as int].len() - s@.len(),
                rows[y as int].len() as int,
            ));
            assert(r[y as int] + s@ =~= rows[y as int]);
            assert(d.undone(r) =~= rows);
        },
        EditDiff::Newline => {
            assert(d.undone(r) =~= rows);
        },
        EditDiff::InsertLine(y, s) => {
            assert(d.undone(r) =~= rows);
        },
        EditDiff::DeleteLine(y, s) => {
            assert(d.undone(r) =~= rows);
        },
    }
}

/// Applying a diff backward and then forward gives the rows back.
pub proof fn lemma_undo_then_redo(d: EditDiff, rows: Seq<Seq<char>>)
    requires
        lines_ok(rows),
        d.can_undo(rows),
    ensures
        d.can_redo(d.undone(rows)),
        d.redone(d.undone(rows)) == rows,
{
    let r = d.undone(rows);
    match d {
        EditDiff::InsertChar(x, y, c) => {
            assert(is_text_char(rows[y as int][x as int]));
            assert(r[y as int].insert(x as int, c) =~= rows[y as int]);
            assert(d.redone(r) =~= rows);
        },
        EditDiff::DeleteChar(x, y, c) => {
            assert(r[y as int].remove(x - 1) =~= rows[y as int]);
            assert(d.redone(r) =~= rows);
        },
        EditDiff::Insert(x, y, s) => {
            lemma_text_sub(rows[y as int], x as int, x + s@.len());
            assert(splice(r[y as int], x as int, x as int, s@) =~= rows[y as int]);
            assert(d.redone(r) =~= rows);
        },
        EditDiff::Remove(x, y, s) => {
            assert(r[y as int].subrange(x - s@.len(), x as int) =~= s@);
            assert(splice(r[y as int], x - s@.len(), x as int, Seq::empty()) =~= rows[y as int]);
            assert(d.redone(r) =~= rows);
        },
        EditDiff::Append(y, s) => {
            lemma_text_sub(rows[y as int], rows[y as int].len() - s@.len(), rows[y as int].len() as int);
            assert(rows[y as int].skip(rows[y as int].len() - s@.len()) =~= rows[y as int].subrange(
                rows[y as int].len() - s@.len(),
                rows[y as int].len() as int,
            ));
            assert(r[y as int] + s@ =~= rows[y as int]);
            assert(d.redone(r) =~= rows);
        },
        EditDiff::Truncate(y, s) => {
            assert(r[y as int].skip(r[y as int].len() - s@.len()) =~= s@);
            assert(r[y as int].take(r[y as int].len() - s@.len()) =~= rows[y as int]);
            assert(d.redone(r) =~= rows);
        },
        EditDiff::Newline => {
            assert(rows.last() =~= Seq::<char>::empty());
            assert(d.redone(r) =~= rows);
        },
        EditDiff::InsertLine(y, s) => {
            assert(d.redone(r) =~= rows);
        },
        EditDiff::DeleteLine(y, s) => {
            assert(d.redone(r) =~= rows);
        },
    }
}

/// Row holding `s`, which is known to be text.
fn new_text_row(s: &String) -> (r: Row)
    requires
        is_text(s@),
        s@.len() <= ROW_CAP,
    ensures
        r.wf(),
        r@ == s@,
{
    match Row::new(s.as_str()) {
        Ok(r) => r,
        Err(_) => Row::empty(),
    }
}

/// Takes row `y` out of `rows`, leaving an empty row in its place.
fn take_row(rows: &mut Vec<Row>, y: usize) -> (r: Row)
    requires
        rows_wf(old(rows)@),
        y < old(rows)@.len(),
    ensures
        r == old(rows)@[y as int],
        final(rows)@.len() == old(rows)@.len(),
        forall|i: int| 0 <= i < final(rows)@.len() && i != y ==> final(rows)@[i] == old(rows)@[i],
        rows_wf(final(rows)@.update(y as int, r)),
        r.wf(),
{
    let r = rows.remove(y);
    rows.insert(y, Row::empty());
    r
}

/// Puts `row` back at index `y`.
fn put_row(rows: &mut Vec<Row>, y: usize, row: Row)
    requires
        y < old(rows)@.len(),
        row.wf(),
        forall|i: int| 0 <= i < old(rows)@.len() && i != y ==> (#[trigger] old(rows)@[i]).wf(),
    ensures
        final(rows)@ == old(rows)@.update(y as int, row),
        rows_wf(final(rows)@),
{
    rows.remove(y);
    rows.insert(y, row);
    assert(rows@ =~= old(rows)@.update(y as int, row));
}

} // verus!
