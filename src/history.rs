use crate::edit_diff::{
    lemma_redo_then_undo, lemma_undo_then_redo, lines_ok, rows_view, rows_wf, valid_cursor, EditDiff, UndoRedo,
};
use crate::row::Row;
use vstd::prelude::*;

verus! {

/// Rows after applying the diffs of `g` backward, last first; `None` where one of
/// them does not apply.
pub open spec fn undo_group(g: Seq<EditDiff>, rows: Seq<Seq<char>>) -> Option<Seq<Seq<char>>>
    decreases g.len(),
{
    if g.len() == 0 {
        Some(rows)
    } else if g.last().can_undo(rows) {
        undo_group(g.drop_last(), g.last().undone(rows))
    } else {
        None
    }
}

/// Rows after applying the diffs of `g` forward, first first; `None` where one of
/// them does not apply.
pub open spec fn redo_group(g: Seq<EditDiff>, rows: Seq<Seq<char>>) -> Option<Seq<Seq<char>>>
    decreases g.len(),
{
    if g.len() == 0 {
        Some(rows)
    } else {
        match redo_group(g.drop_last(), rows) {
            Some(r) => if g.last().can_redo(r) {
                Some(g.last().redone(r))
            } else {
                None
            },
            None => None,
        }
    }
}

proof fn lemma_redo_prefix(g: Seq<EditDiff>, s: Seq<Seq<char>>, i: int)
    requires
        redo_group(g, s) is Some,
        0 <= i <= g.len(),
    ensures
        redo_group(g.take(i), s) is Some,
    decreases g.len(),
{
    if i == g.len() {
        assert(g.take(i) =~= g);
    } else {
        assert(g.drop_last().take(i) =~= g.take(i));
        lemma_redo_prefix(g.drop_last(), s, i);
    }
}

/// Linear undo history: committed groups of diffs, the position that separates undo
/// from redo, and the group of the edit under way.
pub struct History {
    index: usize,
    ongoing: Vec<EditDiff>,
    entries: Vec<Vec<EditDiff>>,
    // Row contents at each boundary between committed groups.
    states: Ghost<Seq<Seq<Seq<char>>>>,
}

impl History {
    /// The history agrees with the current rows `rows`.
    pub closed spec fn consistent(&self, rows: Seq<Seq<char>>) -> bool {
        let st = self.states@;
        &&& self.index <= self.entries@.len()
        &&& st.len() == self.entries@.len() + 1
        &&& forall|i: int|
            0 <= i < self.entries@.len() ==> {
                &&& (#[trigger] self.entries@[i])@.len() > 0
                &&& redo_group(self.entries@[i]@, st[i]) == Some(st[i + 1])
                &&& undo_group(self.entries@[i]@, st[i + 1]) == Some(st[i])
            }
        &&& forall|i: int| 0 <= i < st.len() ==> lines_ok(#[trigger] st[i]) && st[i].len() > 0
        &&& undo_group(self.ongoing@, rows) == Some(st[self.index as int])
        &&& redo_group(self.ongoing@, st[self.index as int]) == Some(rows)
    }

    /// An edit has been recorded since the last undo point.
    pub closed spec fn pending(&self) -> bool {
        self.ongoing@.len() > 0
    }

    /// Rows that an undo goes back to.
    pub closed spec fn undo_state(&self) -> Option<Seq<Seq<char>>> {
        if self.ongoing@.len() > 0 {
            Some(self.states@[self.index as int])
        } else if self.index > 0 {
            Some(self.states@[self.index - 1])
        } else {
            None
        }
    }

    /// Rows that a redo goes forward to.
    pub closed spec fn redo_state(&self) -> Option<Seq<Seq<char>>> {
        if self.ongoing@.len() == 0 && self.index < self.entries@.len() {
            Some(self.states@[self.index + 1])
        } else {
            None
        }
    }

    /// Cursor that an undo leaves: where the first diff of the group undone was made.
    pub closed spec fn undo_cursor_state(&self) -> (int, int) {
        if self.ongoing@.len() > 0 {
            self.ongoing@[0].origin(self.states@[self.index as int])
        } else if self.index > 0 {
            self.entries@[self.index - 1]@[0].origin(self.states@[self.index - 1])
        } else {
            (0, 0)
        }
    }

    /// Cursor that a redo leaves: the one the last diff of the group redone reports.
    pub closed spec fn redo_cursor_state(&self) -> (int, int) {
        let g = self.entries@[self.index as int]@;
        g.last().redo_cursor(redo_group(g.drop_last(), self.states@[self.index as int])->0)
    }

    /// Number of undo steps available: committed groups before the position, and the
    /// ongoing group.
    pub closed spec fn undo_depth(&self) -> nat {
        self.index as nat + if self.ongoing@.len() > 0 {
            1nat
        } else {
            0nat
        }
    }

    /// There is something to undo exactly when the undo depth is positive.
    pub proof fn lemma_depth(&self)
        ensures
            self.undo_state() is None <==> self.undo_depth() == 0,
    {
    }

    pub fn has_pending(&self) -> (r: bool)
        ensures
            r == self.pending(),
    {
        self.ongoing.len() > 0
    }

    /// Empty history for the rows `rows`.
    pub fn new(rows: &Vec<Row>) -> (h: History)
        requires
            rows_wf(rows@),
            rows@.len() > 0,
        ensures
            h.consistent(rows_view(rows@)),
            h.undo_state() is None,
            h.redo_state() is None,
            !h.pending(),
            h.undo_depth() == 0,
    {
        proof {
            lemma_rows_lines_ok(rows@);
        }
        let ghost st = seq![rows_view(rows@)];
        History {
            index: 0,
            ongoing: Vec::new(),
            entries: Vec::new(),
            states: Ghost(st),
        }
    }

    /// Applies `diff` forward to `rows` and records it in the ongoing group.
    pub fn push(&mut self, diff: EditDiff, rows: &mut Vec<Row>) -> (r: (usize, usize))
        requires
            old(self).consistent(rows_view(old(rows)@)),
            rows_wf(old(rows)@),
            diff.can_redo(rows_view(old(rows)@)),
        ensures
            final(self).consistent(rows_view(final(rows)@)),
            rows_wf(final(rows)@),
            rows_view(final(rows)@) == diff.redone(rows_view(old(rows)@)),
            (r.0 as int, r.1 as int) == diff.redo_cursor(rows_view(old(rows)@)),
            valid_cursor(rows_view(final(rows)@), r.0 as int, r.1 as int),
            final(self).pending(),
            final(self).undo_state() == if old(self).pending() {
                old(self).undo_state()
            } else {
                Some(rows_view(old(rows)@))
            },
            final(self).redo_state() is None,
            final(self).undo_cursor_state() == if old(self).pending() {
                old(self).undo_cursor_state()
            } else {
                diff.origin(rows_view(old(rows)@))
            },
            final(self).undo_depth() == if old(self).pending() {
                old(self).undo_depth()
            } else {
                old(self).undo_depth() + 1
            },
    {
        let ghost before = rows_view(rows@);
        let r = diff.apply(rows, UndoRedo::Redo);
        proof {
            lemma_rows_lines_ok(old(rows)@);
            lemma_redo_then_undo(diff, before);
        }
        self.ongoing.push(diff);
        proof {
            let g = self.ongoing@;
            assert(g.drop_last() =~= old(self).ongoing@);
        }
        r
    }

    /// Turns the ongoing group into a committed undo step. Returns whether there was
    /// one to commit.
    pub fn finish_ongoing_edit(&mut self, rows: &Vec<Row>) -> (r: bool)
        requires
            old(self).consistent(rows_view(rows@)),
            rows_wf(rows@),
        ensures
            final(self).consistent(rows_view(rows@)),
            r == old(self).pending(),
            !final(self).pending(),
            r ==> final(self).undo_state() == old(self).undo_state() && final(self).redo_state() is None
                && final(self).undo_cursor_state() == old(self).undo_cursor_state()
                && final(self).undo_depth() == old(self).undo_depth(),
            !r ==> *final(self) == *old(self),
    {
        if self.ongoing.len() == 0 {
            return false;
        }
        let ghost st = self.states@;
        let ghost idx = self.index as int;
        proof {
            lemma_rows_lines_ok(rows@);
        }
        let mut diffs: Vec<EditDiff> = Vec::new();
        std::mem::swap(&mut diffs, &mut self.ongoing);
        self.entries.truncate(self.index);
        self.entries.push(diffs);
        self.index = self.entries.len();
        let ghost new_states = st.take(idx + 1).push(rows_view(rows@));
        self.states = Ghost(new_states);
        proof {
            assert forall|i: int| 0 <= i < self.entries@.len() implies {
                &&& (#[trigger] self.entries@[i])@.len() > 0
                &&& redo_group(self.entries@[i]@, self.states@[i]) == Some(self.states@[i + 1])
                &&& undo_group(self.entries@[i]@, self.states@[i + 1]) == Some(self.states@[i])
            } by {
                if i < idx {
                    assert(self.entries@[i] == old(self).entries@[i]);
                }
            }
        }
        true
    }

    /// Applies the diffs of `g` backward to `rows`, last first.
    fn undo_diffs(g: &Vec<EditDiff>, rows: &mut Vec<Row>, Ghost(target): Ghost<Seq<Seq<char>>>) -> (r: (usize, usize, usize))
        requires
            g@.len() > 0,
            rows_wf(old(rows)@),
            undo_group(g@, rows_view(old(rows)@)) == Some(target),
        ensures
            rows_wf(final(rows)@),
            rows_view(final(rows)@) == target,
            valid_cursor(target, r.0 as int, r.1 as int),
            (r.0 as int, r.1 as int) == g@[0].origin(target),
            r.2 <= r.1,
    {
        let ghost mut before = rows_view(rows@);
        let mut i = g.len();
        let mut x: usize = 0;
        let mut y: usize = 0;
        let mut dirty: usize = usize::MAX;
        assert(g@.take(i as int) =~= g@);
        while i > 0
            invariant
                i <= g@.len(),
                rows_wf(rows@),
                undo_group(g@.take(i as int), rows_view(rows@)) == Some(target),
                i < g@.len() ==> valid_cursor(rows_view(rows@), x as int, y as int) && dirty <= y,
                i < g@.len() ==> {
                    &&& g@[i as int].can_undo(before)
                    &&& g@[i as int].undone(before) == rows_view(rows@)
                    &&& lines_ok(before)
                    &&& (x as int, y as int) == g@[i as int].undo_cursor(before)
                },
            decreases i,
        {
            assert(g@.take(i as int).drop_last() =~= g@.take(i - 1));
            assert(g@.take(i as int).last() == g@[i - 1]);
            proof {
                before = rows_view(rows@);
                lemma_rows_lines_ok(rows@);
            }
            let (nx, ny) = g[i - 1].apply(rows, UndoRedo::Undo);
            x = nx;
            y = ny;
            if y < dirty {
                dirty = y;
            }
            i -= 1;
        }
        assert(g@.take(0) =~= Seq::<EditDiff>::empty());
        proof {
            lemma_rows_lines_ok(rows@);
            lemma_undo_then_redo(g@[0], before);
            lemma_redo_then_undo(g@[0], target);
        }
        (x, y, dirty)
    }

    /// Applies the diffs of `g` forward to `rows`, first first.
    fn redo_diffs(g: &Vec<EditDiff>, rows: &mut Vec<Row>, Ghost(target): Ghost<Seq<Seq<char>>>) -> (r: (usize, usize, usize))
        requires
            g@.len() > 0,
            rows_wf(old(rows)@),
            redo_group(g@, rows_view(old(rows)@)) == Some(target),
        ensures
            rows_wf(final(rows)@),
            rows_view(final(rows)@) == target,
            valid_cursor(target, r.0 as int, r.1 as int),
            (r.0 as int, r.1 as int) == g@.last().redo_cursor(
                redo_group(g@.drop_last(), rows_view(old(rows)@))->0,
            ),
            r.2 <= r.1,
    {
        let ghost start = rows_view(rows@);
        let ghost mut before = start;
        let mut i: usize = 0;
        let mut x: usize = 0;
        let mut y: usize = 0;
        let mut dirty: usize = usize::MAX;
        while i < g.len()
            invariant
                i <= g@.len(),
                rows_wf(rows@),
                redo_group(g@, start) == Some(target),
                redo_group(g@.take(i as int), start) == Some(rows_view(rows@)),
                i > 0 ==> valid_cursor(rows_view(rows@), x as int, y as int) && dirty <= y,
                i > 0 ==> redo_group(g@.take(i - 1), start) == Some(before) && (x as int, y as int)
                    == g@[i - 1].redo_cursor(before),
            decreases g@.len() - i,
        {
            proof {
                lemma_redo_prefix(g@, start, i + 1);
                assert(g@.take(i + 1).drop_last() =~= g@.take(i as int));
                assert(g@.take(i + 1).last() == g@[i as int]);
                before = rows_view(rows@);
            }
            let (nx, ny) = g[i].apply(rows, UndoRedo::Redo);
            x = nx;
            y = ny;
            if y < dirty {
                dirty = y;
            }
            i += 1;
        }
        assert(g@.take(i as int) =~= g@);
        assert(g@.take(i - 1) =~= g@.drop_last());
        (x, y, dirty)
    }

    /// Undoes the ongoing group, or else the last committed one. Returns the cursor,
    /// the lowest line touched, and whether the ongoing group was the one undone.
    pub fn undo(&mut self, rows: &mut Vec<Row>) -> (r: Option<(usize, usize, usize, bool)>)
        requires
            old(self).consistent(rows_view(old(rows)@)),
            rows_wf(old(rows)@),
        ensures
            final(self).consistent(rows_view(final(rows)@)),
            rows_wf(final(rows)@),
            r is Some <==> old(self).undo_state() is Some,
            r is None ==> final(rows)@ == old(rows)@ && *final(self) == *old(self),
            r is Some ==> final(rows)@.len() > 0,
            r matches Some((x, y, s, edited)) ==> {
                &&& Some(rows_view(final(rows)@)) == old(self).undo_state()
                &&& edited == old(self).pending()
                &&& valid_cursor(rows_view(final(rows)@), x as int, y as int)
                &&& s <= y
                &&& final(self).redo_state() == Some(rows_view(old(rows)@))
                &&& !final(self).pending()
                &&& (x as int, y as int) == old(self).undo_cursor_state()
                &&& final(self).undo_depth() + 1 == old(self).undo_depth()
            },
    {
        let edited = self.finish_ongoing_edit(rows);
        if self.index == 0 {
            return None;
        }
        self.index = self.index - 1;
        let ghost target = self.states@[self.index as int];
        let (x, y, s) = Self::undo_diffs(&self.entries[self.index], rows, Ghost(target));
        Some((x, y, s, edited))
    }

    /// Redoes the next committed group. While an edit is under way there is nothing
    /// to redo. Returns the cursor and the lowest line touched.
    pub fn redo(&mut self, rows: &mut Vec<Row>) -> (r: Option<(usize, usize, usize)>)
        requires
            old(self).consistent(rows_view(old(rows)@)),
            rows_wf(old(rows)@),
        ensures
            final(self).consistent(rows_view(final(rows)@)),
            rows_wf(final(rows)@),
            r is Some <==> old(self).redo_state() is Some,
            r is None ==> final(rows)@ == old(rows)@ && *final(self) == *old(self),
            r is Some ==> final(rows)@.len() > 0,
            r matches Some((x, y, s)) ==> {
                &&& Some(rows_view(final(rows)@)) == old(self).redo_state()
                &&& valid_cursor(rows_view(final(rows)@), x as int, y as int)
                &&& (x as int, y as int) == old(self).redo_cursor_state()
                &&& s <= y
                &&& final(self).undo_state() == Some(rows_view(old(rows)@))
                &&& !final(self).pending()
                &&& final(self).undo_depth() == old(self).undo_depth() + 1
            },
    {
        if self.ongoing.len() > 0 || self.index == self.entries.len() {
            return None;
        }
        let ghost target = self.states@[self.index + 1];
        let (x, y, s) = Self::redo_diffs(&self.entries[self.index], rows, Ghost(target));
        self.index = self.index + 1;
        Some((x, y, s))
    }
}

pub proof fn lemma_rows_lines_ok(rows: Seq<Row>)
    requires
        rows_wf(rows),
    ensures
        lines_ok(rows_view(rows)),
{
    assert forall|i: int| 0 <= i < rows.len() implies crate::row::is_text(
        #[trigger] rows_view(rows)[i],
    ) && rows_view(rows)[i].len() <= crate::row::ROW_CAP by {
        rows[i].lemma_wf_facts();
    }
}

} // verus!
