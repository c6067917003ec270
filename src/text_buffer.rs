use crate::edit_diff::{rows_view, rows_wf, valid_cursor, EditDiff};
use crate::error::Error;
use crate::history::{lemma_rows_lines_ok, History};
use crate::language::{detected, indent_of, Indent, Language};
use crate::row::{chars_of, is_text, is_text_char, string_of, Row, ROW_CAP};
use vstd::prelude::*;

verus! {

/// Name of the file a buffer is associated with.
pub struct FilePath {
    pub display: String,
}

impl FilePath {
    pub fn from(path: &str) -> (r: FilePath)
        ensures
            r.display@ == path@,
    {
        FilePath { display: path.to_owned() }
    }

    pub fn from_string(s: String) -> (r: FilePath)
        ensures
            r.display@ == s@,
    {
        FilePath { display: s }
    }
}

#[derive(Clone, Copy, Debug, PartialEq, Eq, Structural)]
pub enum CursorDir {
    Left,
    Right,
    Up,
    Down,
}

pub open spec fn spaces(k: nat) -> Seq<char> {
    Seq::new(k, |i: int| ' ')
}

/// What one press of the tab key inserts in a buffer of language `lang`.
pub open spec fn indent_text(lang: Language) -> Seq<char> {
    match indent_of(lang) {
        Indent::AsIs => seq!['\t'],
        Indent::Fixed(k) => spaces(k as nat),
    }
}

/// Rows with a line break at `(x, y)`: the line is split there, or, past the last
/// line, an empty line is added.
pub open spec fn broken_at(rows: Seq<Seq<char>>, x: int, y: int) -> Seq<Seq<char>> {
    if y >= rows.len() {
        rows.push(Seq::empty())
    } else {
        rows.update(y, rows[y].take(x)).insert(y + 1, rows[y].skip(x))
    }
}

/// Rows with line `y` joined onto the end of line `y - 1`.
pub open spec fn joined_up(rows: Seq<Seq<char>>, y: int) -> Seq<Seq<char>> {
    rows.remove(y).update(y - 1, rows[y - 1] + rows[y])
}

/// Text of the rows as stored in a file: each line followed by a newline.
pub open spec fn file_text(rows: Seq<Seq<char>>) -> Seq<char>
    decreases rows.len(),
{
    if rows.len() == 0 {
        Seq::empty()
    } else {
        file_text(rows.drop_last()) + rows.last().push('\n')
    }
}

pub open spec fn is_ascii_ws(c: char) -> bool {
    c == ' ' || c == '\t' || c == '\n' || c == '\x0C' || c == '\r'
}

fn is_ascii_whitespace(c: char) -> (r: bool)
    ensures
        r == is_ascii_ws(c),
{
    c == ' ' || c == '\t' || c == '\n' || c == '\x0C' || c == '\r'
}

/// Moving left from `x` over whitespace (the character at `x` included).
pub open spec fn skip_ws_left(s: Seq<char>, x: int) -> int
    decreases x,
{
    if x > 0 && is_ascii_ws(s[x]) {
        skip_ws_left(s, x - 1)
    } else {
        x
    }
}

/// Moving left from `x` while the character before is not whitespace.
pub open spec fn skip_word_left(s: Seq<char>, x: int) -> int
    decreases x,
{
    if x > 0 && !is_ascii_ws(s[x - 1]) {
        skip_word_left(s, x - 1)
    } else {
        x
    }
}

/// Start of the span that deleting a word left of column `cx` removes.
pub open spec fn word_start(s: Seq<char>, cx: int) -> int {
    skip_word_left(s, skip_ws_left(s, cx - 1))
}

/// Cursor after one step in direction `dir` from `(x, y)`, snapped to the length of
/// the line it lands on.
pub open spec fn moved(rows: Seq<Seq<char>>, x: int, y: int, dir: CursorDir) -> (int, int) {
    let n = rows.len() as int;
    let (nx, ny) = match dir {
        CursorDir::Up => (x, if y > 0 { y - 1 } else { 0 }),
        CursorDir::Left => if x > 0 {
            (x - 1, y)
        } else if y > 0 {
            (rows[y - 1].len() as int, y - 1)
        } else {
            (x, y)
        },
        CursorDir::Down => (x, if y < n { y + 1 } else { y }),
        CursorDir::Right => if y < n {
            if x < rows[y].len() {
                (x + 1, y)
            } else {
                (0, y + 1)
            }
        } else {
            (x, y)
        },
    };
    let len = if ny < n { rows[ny].len() as int } else { 0 };
    (if nx > len { len } else { nx }, ny)
}

/// Cursor after `k` steps.
pub open spec fn moved_n(rows: Seq<Seq<char>>, x: int, y: int, dir: CursorDir, k: nat) -> (int, int)
    decreases k,
{
    if k == 0 {
        (x, y)
    } else {
        let (px, py) = moved_n(rows, x, y, dir, (k - 1) as nat);
        moved(rows, px, py, dir)
    }
}

/// Line `y` starts a paragraph, or is an edge of the buffer.
pub open spec fn paragraph_edge(rows: Seq<Seq<char>>, y: int) -> bool {
    y == 0 || y == rows.len() || (rows[y - 1].len() == 0 && rows[y].len() != 0)
}

/// Class of a character for word-wise movement.
#[derive(Clone, Copy, Debug, PartialEq, Eq, Structural)]
pub enum CharKind {
    Ident,
    Punc,
    Space,
}

pub open spec fn is_ident_char(c: char) -> bool {
    c == '_' || ('a' <= c && c <= 'z') || ('A' <= c && c <= 'Z') || ('0' <= c && c <= '9')
}

pub open spec fn kind_of(c: char) -> CharKind {
    if is_ascii_ws(c) {
        CharKind::Space
    } else if is_ident_char(c) {
        CharKind::Ident
    } else {
        CharKind::Punc
    }
}

/// Class of the character at `(x, y)`; positions past a line's end count as space.
pub open spec fn kind_at(rows: Seq<Seq<char>>, x: int, y: int) -> CharKind {
    if 0 <= y < rows.len() && 0 <= x < rows[y].len() {
        kind_of(rows[y][x])
    } else {
        CharKind::Space
    }
}

/// Going from a character of kind `left` to one of kind `right` starts a word.
pub open spec fn starts_word(left: CharKind, right: CharKind) -> bool {
    (left == CharKind::Space && right == CharKind::Ident) || (left == CharKind::Space && right
        == CharKind::Punc) || (left == CharKind::Punc && right == CharKind::Ident) || (left
        == CharKind::Ident && right == CharKind::Punc)
}

/// A word starts at `(x, y)`, judged against the position one step to the left.
pub open spec fn at_word(rows: Seq<Seq<char>>, x: int, y: int) -> bool {
    let (qx, qy) = moved(rows, x, y, CursorDir::Left);
    starts_word(kind_at(rows, qx, qy), kind_at(rows, x, y))
}

fn char_kind(c: char) -> (r: CharKind)
    ensures
        r == kind_of(c),
{
    if is_ascii_whitespace(c) {
        CharKind::Space
    } else if c == '_' || ('a' <= c && c <= 'z') || ('A' <= c && c <= 'Z') || ('0' <= c && c <= '9') {
        CharKind::Ident
    } else {
        CharKind::Punc
    }
}

fn at_word_start(left: CharKind, right: CharKind) -> (r: bool)
    ensures
        r == starts_word(left, right),
{
    (left == CharKind::Space && right == CharKind::Ident) || (left == CharKind::Space && right
        == CharKind::Punc) || (left == CharKind::Punc && right == CharKind::Ident) || (left
        == CharKind::Ident && right == CharKind::Punc)
}

/// The word-wise scan from `(x, y)` in direction `dir` halts at its `j`-th step: at
/// an edge of the buffer, or where a word starts between the last two positions.
pub open spec fn word_scan_halts(rows: Seq<Seq<char>>, x: int, y: int, dir: CursorDir, j: nat) -> bool {
    let (px, py) = moved_n(rows, x, y, dir, (j - 1) as nat);
    let (cx, cy) = moved_n(rows, x, y, dir, j);
    ||| (cx == 0 && cy == 0)
    ||| cy == rows.len()
    ||| (dir == CursorDir::Right && starts_word(kind_at(rows, px, py), kind_at(rows, cx, cy)))
    ||| (dir == CursorDir::Left && starts_word(kind_at(rows, cx, cy), kind_at(rows, px, py)))
}

/// The scan first halts at step `k` (it looks from step 2 on), and leaves the cursor
/// at `r`: the position reached, or, moving left to a word start, one step right of it.
pub open spec fn word_scan_ends(
    rows: Seq<Seq<char>>,
    x: int,
    y: int,
    dir: CursorDir,
    k: nat,
    r: (int, int),
) -> bool {
    let (cx, cy) = moved_n(rows, x, y, dir, k);
    &&& k >= 2
    &&& forall|j: nat| 2 <= j < k ==> !#[trigger] word_scan_halts(rows, x, y, dir, j)
    &&& word_scan_halts(rows, x, y, dir, k)
    &&& r == if dir == CursorDir::Left && !(cx == 0 && cy == 0) && cy != rows.len() {
        moved(rows, cx, cy, CursorDir::Right)
    } else {
        (cx, cy)
    }
}

/// The document: rows, cursor, file, language, undo history and modification state.
pub struct TextBuffer {
    cx: usize,
    cy: usize,
    file: Option<FilePath>,
    row: Vec<Row>,
    // Undo points created since the buffer was loaded or saved; redo and undo of a
    // committed step move it by one.
    undo_count: i32,
    // Changes made since the last undo point.
    modified: bool,
    lang: Language,
    history: History,
    // An undo point was already made for the current input event.
    inserted_undo: bool,
    // Lowest line whose rendering may be stale.
    dirty_start: Option<usize>,
}

impl View for TextBuffer {
    type V = Seq<Seq<char>>;

    closed spec fn view(&self) -> Seq<Seq<char>> {
        rows_view(self.row@)
    }
}

impl TextBuffer {
    pub closed spec fn wf(&self) -> bool {
        &&& self.row@.len() > 0
        &&& rows_wf(self.row@)
        &&& self.history.consistent(rows_view(self.row@))
        &&& valid_cursor(rows_view(self.row@), self.cx as int, self.cy as int)
    }

    pub closed spec fn cursor_spec(&self) -> (int, int) {
        (self.cx as int, self.cy as int)
    }

    pub closed spec fn dirty_spec(&self) -> Option<usize> {
        self.dirty_start
    }

    pub closed spec fn undo_count_spec(&self) -> int {
        self.undo_count as int
    }

    pub closed spec fn modified_spec(&self) -> bool {
        self.undo_count != 0 || self.modified
    }

    pub closed spec fn lang_spec(&self) -> Language {
        self.lang
    }

    pub closed spec fn file_spec(&self) -> Option<Seq<char>> {
        match self.file {
            Some(f) => Some(f.display@),
            None => None,
        }
    }

    /// Edits were made since the last undo point.
    pub closed spec fn pending_edit(&self) -> bool {
        self.history.pending()
    }

    /// Cursor that the next undo leaves.
    pub closed spec fn undo_cursor_target(&self) -> (int, int) {
        self.history.undo_cursor_state()
    }

    /// Cursor that the next redo leaves.
    pub closed spec fn redo_cursor_target(&self) -> (int, int) {
        self.history.redo_cursor_state()
    }

    /// Number of undo steps available.
    pub closed spec fn undo_depth(&self) -> nat {
        self.history.undo_depth()
    }

    /// An undo point was already made during the current input event.
    pub closed spec fn undo_point_made(&self) -> bool {
        self.inserted_undo
    }

    /// A command left the buffer as it was, undo history and markers included.
    pub open spec fn untouched(before: TextBuffer, after: TextBuffer) -> bool {
        &&& after@ == before@
        &&& after.cursor_spec() == before.cursor_spec()
        &&& after.modified_spec() == before.modified_spec()
        &&& after.dirty_spec() == before.dirty_spec()
        &&& after.undo_target() == before.undo_target()
        &&& after.undo_depth() == before.undo_depth()
    }

    /// A command that starts a new undo step recorded its change: there is nothing to
    /// redo, and, where this is the first step of the input event, the next undo
    /// goes back to the rows before the command with the cursor at `c`.
    pub open spec fn recorded_step(before: TextBuffer, after: TextBuffer, c: (int, int)) -> bool {
        &&& after.pending_edit()
        &&& after.modified_spec()
        &&& after.redo_target() is None
        &&& !before.undo_point_made() ==> {
            &&& after.undo_target() == Some(before@)
            &&& after.undo_depth() == before.undo_depth() + 1
            &&& after.undo_cursor_target() == c
        }
    }

    /// What holds of every buffer: it has a line, the cursor lies within the rows,
    /// and there is something to undo exactly when the undo depth is positive.
    pub proof fn lemma_wf(&self)
        requires
            self.wf(),
        ensures
            self@.len() > 0,
            valid_cursor(self@, self.cursor_spec().0, self.cursor_spec().1),
            self.undo_target() is None <==> self.undo_depth() == 0,
    {
        self.history.lemma_depth();
    }

    /// Rows that the next undo goes back to, if any.
    pub closed spec fn undo_target(&self) -> Option<Seq<Seq<char>>> {
        self.history.undo_state()
    }

    /// Rows that the next redo goes forward to, if any.
    pub closed spec fn redo_target(&self) -> Option<Seq<Seq<char>>> {
        self.history.redo_state()
    }

    /// Same file and language.
    pub closed spec fn same_settings(&self, other: &TextBuffer) -> bool {
        self.file_spec() == other.file_spec() && self.lang == other.lang
    }

    /// Dirty marker after touching line `line`.
    pub open spec fn dirty_after(old: Option<usize>, line: int) -> Option<usize> {
        match old {
            Some(l) => if l <= line {
                Some(l)
            } else {
                Some(line as usize)
            },
            None => Some(line as usize),
        }
    }

    pub fn empty() -> (r: TextBuffer)
        ensures
            r.wf(),
            r@ == seq![Seq::<char>::empty()],
            r.cursor_spec() == (0int, 0int),
            r.file_spec() is None,
            r.lang_spec() == Language::Plain,
            !r.modified_spec(),
            r.undo_target() is None,
            r.redo_target() is None,
            !r.pending_edit(),
            r.dirty_spec() == Some(0usize),
    {
        let row = vec![Row::empty()];
        let history = History::new(&row);
        let r = TextBuffer {
            cx: 0,
            cy: 0,
            file: None,
            row,
            undo_count: 0,
            modified: false,
            lang: Language::Plain,
            history,
            inserted_undo: false,
            dirty_start: Some(0),
        };
        assert(r@ =~= seq![Seq::<char>::empty()]);
        r
    }

    /// Buffer holding `lines`; a buffer of no lines holds one empty line.
    pub fn with_lines(lines: &Vec<String>) -> (r: Result<TextBuffer, Error>)
        requires
            forall|i: int| 0 <= i < lines@.len() ==> (#[trigger] lines@[i])@.len() <= ROW_CAP,
        ensures
            r is Ok <==> forall|i: int| 0 <= i < lines@.len() ==> is_text((#[trigger] lines@[i])@),
            r matches Ok(b) ==> {
                &&& b.wf()
                &&& b@ == if lines@.len() == 0 {
                    seq![Seq::<char>::empty()]
                } else {
                    Seq::new(lines@.len(), |i: int| lines@[i]@)
                }
                &&& b.cursor_spec() == (0int, 0int)
                &&& b.file_spec() is None
                &&& b.lang_spec() == Language::Plain
                &&& !b.modified_spec()
                &&& b.undo_target() is None
                &&& !b.pending_edit()
                &&& b.redo_target() is None
                &&& b.dirty_spec() == Some(0usize)
            },
            r matches Err(Error::ControlCharInText(c)) ==> !is_text_char(c) && exists|i: int, j: int|
                0 <= i < lines@.len() && 0 <= j < lines@[i]@.len() && lines@[i]@[j] == c,
    {
        let mut row: Vec<Row> = Vec::new();
        let mut i: usize = 0;
        while i < lines.len()
            invariant
                i <= lines@.len(),
                forall|k: int| 0 <= k < lines@.len() ==> (#[trigger] lines@[k])@.len() <= ROW_CAP,
                forall|k: int| 0 <= k < i ==> is_text((#[trigger] lines@[k])@),
                rows_wf(row@),
                row@.len() == i,
                rows_view(row@) == Seq::new(i as nat, |k: int| lines@[k]@),
            decreases lines@.len() - i,
        {
            let ghost prev = row@;
            match Row::new(lines[i].as_str()) {
                Ok(r) => {
                    row.push(r);
                    assert(row@[i as int]@ == lines@[i as int]@);
                    assert forall|k: int| 0 <= k < i implies row@[k]@ == lines@[k]@ by {
                        assert(row@[k] == prev[k]);
                        assert(rows_view(prev)[k] == lines@[k]@);
                    }
                },
                Err(e) => {
                    return Err(e);
                },
            }
            i += 1;
            assert(rows_view(row@) =~= Seq::new(i as nat, |k: int| lines@[k]@));
        }
        if row.len() == 0 {
            row.push(Row::empty());
            assert(rows_view(row@) =~= seq![Seq::<char>::empty()]);
        }
        let history = History::new(&row);
        Ok(TextBuffer {
            cx: 0,
            cy: 0,
            file: None,
            row,
            undo_count: 0,
            modified: false,
            lang: Language::Plain,
            history,
            inserted_undo: false,
            dirty_start: Some(0),
        })
    }

    fn set_dirty_start(&mut self, line: usize)
        ensures
            final(self).dirty_start == Self::dirty_after(old(self).dirty_start, line as int),
            final(self).row == old(self).row,
            final(self).history == old(self).history,
            final(self).cx == old(self).cx,
            final(self).cy == old(self).cy,
            final(self).file == old(self).file,
            final(self).lang == old(self).lang,
            final(self).undo_count == old(self).undo_count,
            final(self).modified == old(self).modified,
            final(self).inserted_undo == old(self).inserted_undo,
    {
        if let Some(l) = self.dirty_start {
            if l <= line {
                return;
            }
        }
        self.dirty_start = Some(line);
    }

    /// Applies a new diff, records it in the ongoing undo group and moves the cursor.
    fn new_diff(&mut self, diff: EditDiff)
        requires
            old(self).wf(),
            diff.can_redo(old(self)@),
        ensures
            final(self).wf(),
            final(self)@ == diff.redone(old(self)@),
            final(self).cursor_spec() == diff.redo_cursor(old(self)@),
            final(self).dirty_start == Self::dirty_after(
                old(self).dirty_start,
                diff.redo_cursor(old(self)@).1,
            ),
            final(self).modified,
            final(self).undo_count == old(self).undo_count,
            final(self).inserted_undo == old(self).inserted_undo,
            final(self).same_settings(old(self)),
            final(self).undo_target() == if old(self).history.pending() {
                old(self).undo_target()
            } else {
                Some(old(self)@)
            },
            final(self).redo_target() is None,
            final(self).history.pending(),
            final(self).undo_cursor_target() == if old(self).history.pending() {
                old(self).undo_cursor_target()
            } else {
                diff.origin(old(self)@)
            },
            final(self).undo_depth() == if old(self).history.pending() {
                old(self).undo_depth()
            } else {
                old(self).undo_depth() + 1
            },
    {
        let (x, y) = self.history.push(diff, &mut self.row);
        self.cx = x;
        self.cy = y;
        self.set_dirty_start(y);
        self.modified = true;
    }

    /// Commits the ongoing undo group, once per input event.
    fn insert_undo_point(&mut self)
        requires
            old(self).wf(),
        ensures
            final(self).wf(),
            final(self)@ == old(self)@,
            final(self).cursor_spec() == old(self).cursor_spec(),
            final(self).dirty_start == old(self).dirty_start,
            final(self).same_settings(old(self)),
            final(self).inserted_undo,
            !old(self).inserted_undo ==> !final(self).history.pending() && !final(self).modified,
            !old(self).inserted_undo && old(self).history.pending() ==> final(self).undo_count as int
                == if old(self).undo_count == i32::MAX {
                i32::MAX as int
            } else {
                old(self).undo_count + 1
            },
            old(self).inserted_undo || !old(self).history.pending() ==> final(self).undo_count
                == old(self).undo_count,
            old(self).inserted_undo ==> *final(self) == *old(self),
            final(self).undo_target() == old(self).undo_target(),
            final(self).undo_depth() == old(self).undo_depth(),
            old(self).history.pending() ==> final(self).redo_target() == old(self).redo_target()
                || final(self).redo_target() is None,
            !old(self).history.pending() ==> final(self).redo_target() == old(self).redo_target(),
    {
        if !self.inserted_undo {
            if self.history.finish_ongoing_edit(&self.row) {
                if self.undo_count < i32::MAX {
                    self.undo_count = self.undo_count + 1;
                }
            }
            self.modified = false;
            self.inserted_undo = true;
        }
    }

    /// Marks the end of one input event. Returns the lowest line to re-render, and
    /// clears the marker.
    pub fn finish_edit(&mut self) -> (r: Option<usize>)
        requires
            old(self).wf(),
        ensures
            final(self).wf(),
            r == old(self).dirty_spec(),
            final(self).dirty_spec() is None,
            final(self)@ == old(self)@,
            final(self).cursor_spec() == old(self).cursor_spec(),
            final(self).same_settings(old(self)),
            final(self).modified_spec() == old(self).modified_spec(),
            final(self).undo_target() == old(self).undo_target(),
            final(self).redo_target() == old(self).redo_target(),
    {
        self.inserted_undo = false;
        let dirty_start = self.dirty_start;
        self.dirty_start = None;
        dirty_start
    }

    /// Cursor position after one step in direction `dir` from `(x, y)`.
    fn step(&self, x: usize, y: usize, dir: CursorDir) -> (r: (usize, usize))
        requires
            self.wf(),
            y <= self@.len(),
            dir == CursorDir::Left || dir == CursorDir::Right ==> valid_cursor(self@, x as int, y as int),
        ensures
            (r.0 as int, r.1 as int) == moved(self@, x as int, y as int, dir),
            valid_cursor(self@, r.0 as int, r.1 as int),
    {
        let n = self.row.len();
        let (nx, ny) = match dir {
            CursorDir::Up => (x, if y > 0 { y - 1 } else { 0 }),
            CursorDir::Left => if x > 0 {
                (x - 1, y)
            } else if y > 0 {
                (self.row[y - 1].len(), y - 1)
            } else {
                (x, y)
            },
            CursorDir::Down => (x, if y < n { y + 1 } else { y }),
            CursorDir::Right => if y < n {
                if x < self.row[y].len() {
                    (x + 1, y)
                } else {
                    (0, y + 1)
                }
            } else {
                (x, y)
            },
        };
        let len = if ny < n { self.row[ny].len() } else { 0 };
        (if nx > len { len } else { nx }, ny)
    }

    /// Moves the cursor one step, wrapping at line ends and snapping to line length.
    pub fn move_cursor_one(&mut self, dir: CursorDir)
        requires
            old(self).wf(),
        ensures
            final(self).wf(),
            final(self)@ == old(self)@,
            final(self).cursor_spec() == moved(old(self)@, old(self).cursor_spec().0, old(self).cursor_spec().1, dir),
            final(self).same_settings(old(self)),
            final(self).modified_spec() == old(self).modified_spec(),
            final(self).dirty_spec() == old(self).dirty_spec(),
            final(self).undo_target() == old(self).undo_target(),
            final(self).redo_target() == old(self).redo_target(),
            final(self).undo_point_made() == old(self).undo_point_made(),
            final(self).undo_depth() == old(self).undo_depth(),
            final(self).pending_edit() == old(self).pending_edit(),
            final(self).undo_cursor_target() == old(self).undo_cursor_target(),
    {
        let (x, y) = self.step(self.cx, self.cy, dir);
        self.cx = x;
        self.cy = y;
    }

    pub fn insert_char(&mut self, ch: char)
        requires
            old(self).wf(),
            is_text_char(ch),
            old(self).cursor_spec().1 < old(self)@.len() ==> old(self)@[old(self).cursor_spec().1].len() < ROW_CAP,
        ensures
            final(self).wf(),
            final(self).same_settings(old(self)),
            final(self).modified_spec(),
            final(self)@ == ({
                let (x, y) = old(self).cursor_spec();
                if y == old(self)@.len() {
                    old(self)@.push(seq![ch])
                } else {
                    old(self)@.update(y, old(self)@[y].insert(x, ch))
                }
            }),
            final(self).cursor_spec() == (old(self).cursor_spec().0 + 1, old(self).cursor_spec().1),
            final(self).pending_edit(),
            final(self).undo_target() == if old(self).pending_edit() {
                old(self).undo_target()
            } else {
                Some(old(self)@)
            },
            final(self).dirty_spec() == Self::dirty_after(old(self).dirty_spec(), old(self).cursor_spec().1),
            final(self).redo_target() is None,
            final(self).undo_cursor_target() == if old(self).pending_edit() {
                old(self).undo_cursor_target()
            } else {
                old(self).cursor_spec()
            },
            final(self).undo_depth() == if old(self).pending_edit() {
                old(self).undo_depth()
            } else {
                old(self).undo_depth() + 1
            },
    {
        let ghost v = self@;
        if self.cy == self.row.len() {
            self.new_diff(EditDiff::Newline);
        }
        self.new_diff(EditDiff::InsertChar(self.cx, self.cy, ch));
        assert(Seq::<char>::empty().insert(0, ch) =~= seq![ch]);
        assert(v.push(Seq::<char>::empty()).update(v.len() as int, seq![ch]) =~= v.push(seq![ch]));
    }

    pub fn insert_tab(&mut self)
        requires
            old(self).wf(),
            old(self).cursor_spec().1 < old(self)@.len() ==> old(self)@[old(self).cursor_spec().1].len()
                + indent_text(old(self).lang_spec()).len() <= ROW_CAP,
        ensures
            final(self).wf(),
            final(self).same_settings(old(self)),
            final(self).modified_spec(),
            final(self)@ == ({
                let (x, y) = old(self).cursor_spec();
                let base = if y == old(self)@.len() {
                    old(self)@.push(Seq::empty())
                } else {
                    old(self)@
                };
                base.update(y, base[y].take(x) + indent_text(old(self).lang_spec()) + base[y].skip(x))
            }),
            final(self).cursor_spec() == (old(self).cursor_spec().0 + indent_text(old(self).lang_spec()).len(), old(self).cursor_spec().1),
            Self::recorded_step(*old(self), *final(self), old(self).cursor_spec()),
            final(self).dirty_spec() == Self::dirty_after(old(self).dirty_spec(), old(self).cursor_spec().1),
    {
        let ghost v = self@;
        self.insert_undo_point();
        match self.lang.indent() {
            Indent::AsIs => {
                self.insert_char('\t');
                assert(v.push(seq!['\t']) =~= v.push(Seq::empty()).update(v.len() as int, Seq::<char>::empty().take(0) + seq!['\t'] + Seq::<char>::empty().skip(0)));
                assert(self.cy < v.len() ==> v[self.cy as int].insert(self.cx - 1, '\t') =~= v[self.cy as int].take(self.cx - 1) + seq!['\t'] + v[self.cy as int].skip(self.cx - 1));
            },
            Indent::Fixed(k) => {
                let mut sp: Vec<char> = Vec::new();
                let mut i: usize = 0;
                while i < k
                    invariant
                        i <= k,
                        sp@ == spaces(i as nat),
                    decreases k - i,
                {
                    sp.push(' ');
                    i += 1;
                    assert(sp@ =~= spaces(i as nat));
                }
                let s = string_of(&sp);
                if self.cy == self.row.len() {
                    self.new_diff(EditDiff::Newline);
                }
                self.new_diff(EditDiff::Insert(self.cx, self.cy, s));
            },
        }
    }

    /// Joins the line below the cursor onto the cursor line.
    fn concat_next_line(&mut self)
        requires
            old(self).wf(),
            old(self).cy + 1 < old(self)@.len(),
            old(self)@[old(self).cy as int].len() + old(self)@[old(self).cy + 1].len() <= ROW_CAP,
        ensures
            final(self).wf(),
            final(self).same_settings(old(self)),
            final(self).modified_spec(),
            final(self)@ == joined_up(old(self)@, old(self).cy + 1),
            final(self).cursor_spec() == (old(self)@[old(self).cy as int].len() as int, old(self).cy as int),
            final(self).pending_edit(),
            final(self).redo_target() is None,
            final(self).dirty_spec() == Self::dirty_after(old(self).dirty_spec(), old(self).cy as int),
            final(self).undo_target() == if old(self).pending_edit() {
                old(self).undo_target()
            } else {
                Some(old(self)@)
            },
            final(self).undo_cursor_target() == if old(self).pending_edit() {
                old(self).undo_cursor_target()
            } else {
                (0int, old(self).cy + 1)
            },
            final(self).undo_depth() == if old(self).pending_edit() {
                old(self).undo_depth()
            } else {
                old(self).undo_depth() + 1
            },
            final(self).undo_point_made() == old(self).undo_point_made(),
    {
        let ghost v = self@;
        proof {
            lemma_rows_lines_ok(self.row@);
        }
        let n = self.row.len();
        assert(n == self@.len());
        let removed = self.row[self.cy + 1].buffer();
        self.new_diff(EditDiff::DeleteLine(self.cy + 1, removed.clone()));
        self.new_diff(EditDiff::Append(self.cy, removed));
        assert(self@ =~= joined_up(v, old(self).cy + 1));
    }

    /// Moves to the end of the line above and joins the cursor line onto it.
    fn squash_to_previous_line(&mut self)
        requires
            old(self).wf(),
            0 < old(self).cy < old(self)@.len(),
            old(self)@[old(self).cy - 1].len() + old(self)@[old(self).cy as int].len() <= ROW_CAP,
        ensures
            final(self).wf(),
            final(self).same_settings(old(self)),
            final(self).modified_spec(),
            final(self)@ == joined_up(old(self)@, old(self).cy as int),
            final(self).cursor_spec() == (old(self)@[old(self).cy - 1].len() as int, old(self).cy - 1),
            final(self).pending_edit(),
            final(self).redo_target() is None,
            final(self).dirty_spec() == Self::dirty_after(old(self).dirty_spec(), old(self).cy - 1),
            final(self).undo_target() == if old(self).pending_edit() {
                old(self).undo_target()
            } else {
                Some(old(self)@)
            },
            final(self).undo_cursor_target() == if old(self).pending_edit() {
                old(self).undo_cursor_target()
            } else {
                (0int, old(self).cy as int)
            },
            final(self).undo_depth() == if old(self).pending_edit() {
                old(self).undo_depth()
            } else {
                old(self).undo_depth() + 1
            },
            final(self).undo_point_made() == old(self).undo_point_made(),
    {
        self.cy = self.cy - 1;
        self.cx = self.row[self.cy].len();
        self.concat_next_line();
    }

    /// Deletes the character left of the cursor; at column 0, joins the line onto the
    /// previous one.
    pub fn delete_char(&mut self)
        requires
            old(self).wf(),
            ({
                let (x, y) = old(self).cursor_spec();
                x == 0 && 0 < y < old(self)@.len() ==> old(self)@[y - 1].len() + old(self)@[y].len() <= ROW_CAP
            }),
        ensures
            final(self).wf(),
            final(self).same_settings(old(self)),
            ({
                let (x, y) = old(self).cursor_spec();
                let v = old(self)@;
                if y == v.len() || (x == 0 && y == 0) {
                    final(self)@ == v && final(self).cursor_spec() == (x, y)
                } else if x > 0 {
                    final(self)@ == v.update(y, v[y].remove(x - 1)) && final(self).cursor_spec() == (x - 1, y)
                        && final(self).modified_spec()
                } else {
                    final(self)@ == joined_up(v, y) && final(self).cursor_spec() == (v[y - 1].len() as int, y - 1)
                        && final(self).modified_spec()
                }
            }),
            ({
                let (x, y) = old(self).cursor_spec();
                if y == old(self)@.len() || (x == 0 && y == 0) {
                    Self::untouched(*old(self), *final(self))
                } else {
                    &&& Self::recorded_step(*old(self), *final(self), (x, y))
                    &&& final(self).dirty_spec() == Self::dirty_after(
                        old(self).dirty_spec(),
                        if x > 0 { y } else { y - 1 },
                    )
                }
            }),
    {
        if self.cy == self.row.len() || self.cx == 0 && self.cy == 0 {
            return;
        }
        self.insert_undo_point();
        if self.cx > 0 {
            let idx = self.cx - 1;
            let deleted = self.row[self.cy].char_at(idx);
            self.new_diff(EditDiff::DeleteChar(self.cx, self.cy, deleted));
        } else {
            self.squash_to_previous_line();
        }
    }

    /// Deletes from the cursor to the end of the line; at the end of a line, joins the
    /// next line onto it.
    pub fn delete_until_end_of_line(&mut self)
        requires
            old(self).wf(),
            ({
                let (x, y) = old(self).cursor_spec();
                y + 1 < old(self)@.len() && x == old(self)@[y].len() ==> old(self)@[y].len() + old(self)@[y + 1].len() <= ROW_CAP
            }),
        ensures
            final(self).wf(),
            final(self).same_settings(old(self)),
            ({
                let (x, y) = old(self).cursor_spec();
                let v = old(self)@;
                if y == v.len() || (y == v.len() - 1 && x == v[y].len()) {
                    final(self)@ == v && final(self).cursor_spec() == (x, y)
                } else if x == v[y].len() {
                    final(self)@ == joined_up(v, y + 1) && final(self).cursor_spec() == (x, y)
                        && final(self).modified_spec()
                } else {
                    final(self)@ == v.update(y, v[y].take(x)) && final(self).cursor_spec() == (x, y)
                        && final(self).modified_spec()
                }
            }),
            ({
                let (x, y) = old(self).cursor_spec();
                let v = old(self)@;
                if y == v.len() || (y == v.len() - 1 && x == v[y].len()) {
                    Self::untouched(*old(self), *final(self))
                } else {
                    &&& Self::recorded_step(*old(self), *final(self), if x == v[y].len() { (0, y + 1) } else { (x, y) })
                    &&& final(self).dirty_spec() == Self::dirty_after(old(self).dirty_spec(), y)
                }
            }),
    {
        if self.cy == self.row.len() {
            return;
        }
        let len = self.row[self.cy].len();
        if self.cx == len && self.cy == self.row.len() - 1 {
            return;
        }
        self.insert_undo_point();
        if self.cx == len {
            self.concat_next_line();
        } else {
            let truncated = self.row[self.cy].slice(self.cx, len);
            let ghost v = self@;
            self.new_diff(EditDiff::Truncate(self.cy, truncated));
            assert(v[self.cy as int].skip(v[self.cy as int].len() - truncated@.len()) =~= truncated@);
        }
    }

    /// Deletes from the start of the line to the cursor; at column 0, joins the line
    /// onto the previous one.
    pub fn delete_until_head_of_line(&mut self)
        requires
            old(self).wf(),
            ({
                let (x, y) = old(self).cursor_spec();
                x == 0 && 0 < y < old(self)@.len() ==> old(self)@[y - 1].len() + old(self)@[y].len() <= ROW_CAP
            }),
        ensures
            final(self).wf(),
            final(self).same_settings(old(self)),
            ({
                let (x, y) = old(self).cursor_spec();
                let v = old(self)@;
                if (x == 0 && y == 0) || y == v.len() {
                    final(self)@ == v && final(self).cursor_spec() == (x, y)
                } else if x == 0 {
                    final(self)@ == joined_up(v, y) && final(self).cursor_spec() == (v[y - 1].len() as int, y - 1)
                        && final(self).modified_spec()
                } else {
                    final(self)@ == v.update(y, v[y].skip(x)) && final(self).cursor_spec() == (0int, y)
                        && final(self).modified_spec()
                }
            }),
            ({
                let (x, y) = old(self).cursor_spec();
                if (x == 0 && y == 0) || y == old(self)@.len() {
                    Self::untouched(*old(self), *final(self))
                } else {
                    &&& Self::recorded_step(*old(self), *final(self), (x, y))
                    &&& final(self).dirty_spec() == Self::dirty_after(
                        old(self).dirty_spec(),
                        if x > 0 { y } else { y - 1 },
                    )
                }
            }),
    {
        if self.cx == 0 && self.cy == 0 || self.cy == self.row.len() {
            return;
        }
        self.insert_undo_point();
        if self.cx == 0 {
            self.squash_to_previous_line();
        } else {
            let ghost v = self@;
            let removed = self.row[self.cy].slice(0, self.cx);
            self.new_diff(EditDiff::Remove(self.cx, self.cy, removed));
            assert(crate::row::splice(v[self.cy as int], 0, old(self).cx as int, Seq::empty()) =~= v[self.cy as int].skip(old(self).cx as int));
        }
    }

    /// Deletes the word left of the cursor, with the whitespace between it and the
    /// cursor.
    pub fn delete_word(&mut self)
        requires
            old(self).wf(),
        ensures
            final(self).wf(),
            final(self).same_settings(old(self)),
            ({
                let (x, y) = old(self).cursor_spec();
                let v = old(self)@;
                if x == 0 || y == v.len() {
                    final(self)@ == v && final(self).cursor_spec() == (x, y)
                } else {
                    let s = word_start(v[y], x);
                    &&& 0 <= s < x
                    &&& final(self)@ == v.update(y, v[y].take(s) + v[y].skip(x))
                    &&& final(self).cursor_spec() == (s, y)
                    &&& final(self).modified_spec()
                }
            }),
            ({
                let (x, y) = old(self).cursor_spec();
                if x == 0 || y == old(self)@.len() {
                    Self::untouched(*old(self), *final(self))
                } else {
                    &&& Self::recorded_step(*old(self), *final(self), (x, y))
                    &&& final(self).dirty_spec() == Self::dirty_after(old(self).dirty_spec(), y)
                }
            }),
    {
        if self.cx == 0 || self.cy == self.row.len() {
            return;
        }
        self.insert_undo_point();
        let ghost v = self@;
        let ghost line = v[self.cy as int];
        let cx = self.cx;
        let mut x = self.cx - 1;
        let row = &self.row[self.cy];
        while x > 0 && is_ascii_whitespace(row.char_at(x))
            invariant
                row.wf(),
                row@ == line,
                x < cx <= line.len(),
                skip_ws_left(line, x as int) == skip_ws_left(line, cx - 1),
            decreases x,
        {
            x -= 1;
        }
        let ghost mid = x as int;
        while x > 0 && !is_ascii_whitespace(row.char_at(x - 1))
            invariant
                row.wf(),
                row@ == line,
                x <= mid,
                mid == skip_ws_left(line, cx - 1),
                x < cx <= line.len(),
                skip_word_left(line, x as int) == skip_word_left(line, mid),
            decreases x,
        {
            x -= 1;
        }
        let removed = self.row[self.cy].slice(x, cx);
        self.new_diff(EditDiff::Remove(cx, self.cy, removed));
    }

    /// Deletes the character under the cursor; at the end of a line, joins the next
    /// line onto it.
    pub fn delete_right_char(&mut self)
        requires
            old(self).wf(),
            ({
                let (x, y) = old(self).cursor_spec();
                y + 1 < old(self)@.len() && x == old(self)@[y].len() ==> old(self)@[y].len() + old(self)@[y + 1].len() <= ROW_CAP
            }),
        ensures
            final(self).wf(),
            final(self).same_settings(old(self)),
            ({
                let (x, y) = old(self).cursor_spec();
                let v = old(self)@;
                if y == v.len() || (y == v.len() - 1 && x == v[y].len()) {
                    final(self)@ == v && final(self).cursor_spec() == (x, y)
                } else if x < v[y].len() {
                    final(self)@ == v.update(y, v[y].remove(x)) && final(self).cursor_spec() == (x, y)
                        && final(self).modified_spec()
                } else {
                    final(self)@ == joined_up(v, y + 1) && final(self).cursor_spec() == (x, y)
                        && final(self).modified_spec()
                }
            }),
            ({
                let (x, y) = old(self).cursor_spec();
                let v = old(self)@;
                if y == v.len() || (y == v.len() - 1 && x == v[y].len()) {
                    Self::untouched(*old(self), *final(self))
                } else {
                    &&& Self::recorded_step(*old(self), *final(self), if x < v[y].len() { (x + 1, y) } else { (0, y + 1) })
                    &&& final(self).dirty_spec() == Self::dirty_after(old(self).dirty_spec(), y)
                }
            }),
    {
        if self.cy == self.row.len() || self.cy == self.row.len() - 1 && self.cx == self.row[self.cy].len() {
            return;
        }
        self.move_cursor_one(CursorDir::Right);
        self.delete_char();
    }

    /// Breaks the line at the cursor; past the last line, adds an empty line.
    pub fn insert_line(&mut self)
        requires
            old(self).wf(),
        ensures
            final(self).wf(),
            final(self).same_settings(old(self)),
            final(self).modified_spec(),
            final(self)@ == broken_at(old(self)@, old(self).cursor_spec().0, old(self).cursor_spec().1),
            final(self).cursor_spec() == if old(self).cursor_spec().1 == old(self)@.len() {
                (0int, old(self).cursor_spec().1)
            } else {
                (0int, old(self).cursor_spec().1 + 1)
            },
            Self::recorded_step(*old(self), *final(self), old(self).cursor_spec()),
            final(self).dirty_spec() == Self::dirty_after(
                old(self).dirty_spec(),
                if old(self).cursor_spec().1 < old(self)@.len() && old(self).cursor_spec().0 == old(self)@[old(self).cursor_spec().1].len() {
                    old(self).cursor_spec().1 + 1
                } else {
                    old(self).cursor_spec().1
                },
            ),
    {
        let ghost v = self@;
        self.insert_undo_point();
        if self.cy >= self.row.len() {
            self.new_diff(EditDiff::Newline);
        } else {
            let len = self.row[self.cy].len();
            if self.cx >= len {
                self.new_diff(EditDiff::InsertLine(self.cy + 1, String::new()));
                assert(v[old(self).cy as int].take(old(self).cx as int) =~= v[old(self).cy as int]);
                assert(v.update(old(self).cy as int, v[old(self).cy as int].take(old(self).cx as int)) =~= v);
                assert(v[old(self).cy as int].skip(old(self).cx as int) =~= Seq::<char>::empty());
            } else {
                proof {
                    lemma_rows_lines_ok(self.row@);
                    crate::row::lemma_text_sub(v[self.cy as int], self.cx as int, len as int);
                }
                let truncated = self.row[self.cy].slice(self.cx, len);
                let cy = self.cy;
                self.new_diff(EditDiff::Truncate(cy, truncated.clone()));
                assert(v[cy as int].skip(v[cy as int].len() - truncated@.len()) =~= truncated@);
                self.new_diff(EditDiff::InsertLine(cy + 1, truncated));
                assert(v[cy as int].subrange(old(self).cx as int, len as int) =~= v[cy as int].skip(old(self).cx as int));
            }
        }
    }

    fn after_undoredo(&mut self, state: Option<(usize, usize, usize, bool)>) -> (r: bool)
        requires
            old(self).row@.len() > 0,
            rows_wf(old(self).row@),
            old(self).history.consistent(rows_view(old(self).row@)),
            state matches Some((x, y, s, e)) ==> valid_cursor(rows_view(old(self).row@), x as int, y as int),
            state is None ==> valid_cursor(rows_view(old(self).row@), old(self).cx as int, old(self).cy as int),
        ensures
            final(self).wf(),
            r == state is Some,
            final(self).row == old(self).row,
            final(self).history == old(self).history,
            final(self).file == old(self).file,
            final(self).lang == old(self).lang,
            final(self).undo_count == old(self).undo_count,
            final(self).modified == old(self).modified,
            state matches Some((x, y, s, e)) ==> final(self).cursor_spec() == (x as int, y as int)
                && final(self).dirty_start == Self::dirty_after(old(self).dirty_start, s as int),
            state is None ==> final(self).cursor_spec() == old(self).cursor_spec() && final(self).dirty_start == old(self).dirty_start,
    {
        match state {
            Some((x, y, s, _)) => {
                self.cx = x;
                self.cy = y;
                self.set_dirty_start(s);
                true
            },
            None => false,
        }
    }

    /// Undoes the last undo step, or the edit under way. Returns whether anything
    /// changed. Undoing a committed step moves the save distance one step back;
    /// undoing the edit under way leaves it.
    pub fn undo(&mut self) -> (r: bool)
        requires
            old(self).wf(),
        ensures
            final(self).wf(),
            final(self).same_settings(old(self)),
            r == old(self).undo_target() is Some,
            r ==> {
                &&& Some(final(self)@) == old(self).undo_target()
                &&& final(self).cursor_spec() == old(self).undo_cursor_target()
                &&& final(self).redo_target() == Some(old(self)@)
                &&& !final(self).pending_edit()
                &&& final(self).undo_depth() + 1 == old(self).undo_depth()
                &&& final(self).undo_count_spec() == if old(self).pending_edit()
                    || old(self).undo_count_spec() == i32::MIN {
                    old(self).undo_count_spec()
                } else {
                    old(self).undo_count_spec() - 1
                }
                &&& final(self).modified_spec() == (final(self).undo_count_spec() != 0)
                &&& final(self).dirty_spec() matches Some(d) && d <= final(self).cursor_spec().1 && (
                old(self).dirty_spec() matches Some(o) ==> d <= o)
            },
            !r ==> final(self)@ == old(self)@ && final(self).cursor_spec() == old(self).cursor_spec()
                && final(self).modified_spec() == old(self).modified_spec()
                && final(self).undo_count_spec() == old(self).undo_count_spec()
                && final(self).dirty_spec() == old(self).dirty_spec()
                && final(self).undo_target() == old(self).undo_target()
                && final(self).undo_depth() == 0,
    {
        proof {
            self.history.lemma_depth();
        }
        let state = self.history.undo(&mut self.row);
        if let Some((_, _, _, edited)) = state {
            if !edited {
                if self.undo_count > i32::MIN {
                    self.undo_count = self.undo_count - 1;
                }
            }
            self.modified = false;
        }
        self.after_undoredo(state)
    }

    /// Redoes the next undone step. While an edit is under way there is nothing to
    /// redo. Returns whether anything changed. Redoing moves the save distance one
    /// step forward.
    pub fn redo(&mut self) -> (r: bool)
        requires
            old(self).wf(),
        ensures
            final(self).wf(),
            final(self).same_settings(old(self)),
            r == old(self).redo_target() is Some,
            r ==> {
                &&& Some(final(self)@) == old(self).redo_target()
                &&& final(self).cursor_spec() == old(self).redo_cursor_target()
                &&& final(self).undo_target() == Some(old(self)@)
                &&& !final(self).pending_edit()
                &&& final(self).undo_depth() == old(self).undo_depth() + 1
                &&& final(self).undo_count_spec() == if old(self).undo_count_spec() == i32::MAX {
                    old(self).undo_count_spec()
                } else {
                    old(self).undo_count_spec() + 1
                }
                &&& final(self).modified_spec() == (final(self).undo_count_spec() != 0)
                &&& final(self).dirty_spec() matches Some(d) && d <= final(self).cursor_spec().1 && (
                old(self).dirty_spec() matches Some(o) ==> d <= o)
            },
            !r ==> final(self)@ == old(self)@ && final(self).cursor_spec() == old(self).cursor_spec()
                && final(self).modified_spec() == old(self).modified_spec()
                && final(self).undo_count_spec() == old(self).undo_count_spec()
                && final(self).dirty_spec() == old(self).dirty_spec()
                && final(self).undo_target() == old(self).undo_target(),
    {
        let state = match self.history.redo(&mut self.row) {
            Some((x, y, s)) => {
                if self.undo_count < i32::MAX {
                    self.undo_count = self.undo_count + 1;
                }
                self.modified = false;
                Some((x, y, s, false))
            },
            None => None,
        };
        self.after_undoredo(state)
    }

    /// The file name and the text to write to it, or `None` where no file is
    /// associated. Nothing changes until the save is recorded by `mark_saved`.
    pub fn contents_for_save(&self) -> (r: Option<(String, String)>)
        requires
            self.wf(),
        ensures
            r is Some <==> self.file_spec() is Some,
            r matches Some((name, text)) ==> Some(name@) == self.file_spec() && text@ == file_text(self@),
    {
        let name = match &self.file {
            Some(f) => f.display.clone(),
            None => {
                return None;
            },
        };
        let mut text: Vec<char> = Vec::new();
        let mut i: usize = 0;
        while i < self.row.len()
            invariant
                i <= self.row@.len(),
                text@ == file_text(rows_view(self.row@).take(i as int)),
            decreases self.row@.len() - i,
        {
            let line = &self.row[i];
            let mut j: usize = 0;
            let ghost before = text@;
            let chars = chars_of(line.buffer().as_str());
            while j < chars.len()
                invariant
                    j <= chars@.len(),
                    chars@ == line@,
                    text@ == before + chars@.take(j as int),
                decreases chars@.len() - j,
            {
                text.push(chars[j]);
                j += 1;
                assert(text@ =~= before + chars@.take(j as int));
            }
            text.push('\n');
            proof {
                let rv = rows_view(self.row@);
                assert(rv.take(i + 1).drop_last() =~= rv.take(i as int));
                assert(chars@.take(j as int) =~= line@);
                assert(text@ =~= file_text(rv.take(i as int)) + rv[i as int].push('\n'));
            }
            i += 1;
        }
        assert(rows_view(self.row@).take(i as int) =~= self@);
        Some((name, string_of(&text)))
    }

    /// Records a successful save: the edit under way becomes an undo step, and the
    /// buffer now matches its file.
    pub fn mark_saved(&mut self)
        requires
            old(self).wf(),
        ensures
            final(self).wf(),
            final(self)@ == old(self)@,
            final(self).cursor_spec() == old(self).cursor_spec(),
            final(self).same_settings(old(self)),
            final(self).undo_count_spec() == 0,
            !final(self).modified_spec(),
            final(self).undo_target() == old(self).undo_target(),
            final(self).undo_depth() == old(self).undo_depth(),
            final(self).dirty_spec() == old(self).dirty_spec(),
            !old(self).undo_point_made() ==> !final(self).pending_edit(),
    {
        self.insert_undo_point();
        self.undo_count = 0;
        self.modified = false;
    }

    pub fn rows(&self) -> (r: &[Row])
        ensures
            rows_view(r@) == self@,
            rows_wf(r@) <== self.wf(),
    {
        self.row.as_slice()
    }

    pub fn has_file(&self) -> (r: bool)
        ensures
            r == self.file_spec() is Some,
    {
        self.file.is_some()
    }

    pub fn filename(&self) -> (r: String)
        ensures
            r@ == match self.file_spec() {
                Some(f) => f,
                None => "[No Name]"@,
            },
    {
        match &self.file {
            Some(f) => f.display.clone(),
            None => "[No Name]".to_owned(),
        }
    }

    pub fn modified(&self) -> (r: bool)
        ensures
            r == self.modified_spec(),
    {
        self.undo_count != 0 || self.modified
    }

    pub fn lang(&self) -> (r: Language)
        ensures
            r == self.lang_spec(),
    {
        self.lang
    }

    pub fn cy(&self) -> (r: usize)
        ensures
            r == self.cursor_spec().1,
    {
        self.cy
    }

    /// Text of every line.
    pub fn lines(&self) -> (r: Vec<String>)
        ensures
            r@.len() == self@.len(),
            forall|i: int| 0 <= i < r@.len() ==> (#[trigger] r@[i])@ == self@[i],
    {
        let mut out: Vec<String> = Vec::new();
        let mut i: usize = 0;
        while i < self.row.len()
            invariant
                i <= self.row@.len(),
                out@.len() == i,
                forall|k: int| 0 <= k < i ==> (#[trigger] out@[k])@ == self@[k],
            decreases self.row@.len() - i,
        {
            out.push(self.row[i].buffer());
            i += 1;
        }
        out
    }

    /// Associates the buffer with a file and detects its language from the name.
    pub fn set_file(&mut self, file_path: String)
        requires
            old(self).wf(),
        ensures
            final(self).wf(),
            final(self)@ == old(self)@,
            final(self).cursor_spec() == old(self).cursor_spec(),
            final(self).file_spec() == Some(file_path@),
            final(self).lang_spec() == detected(file_path@),
            final(self).modified_spec() == old(self).modified_spec(),
    {
        let file = FilePath::from_string(file_path);
        self.lang = Language::detect(file.display.as_str());
        self.file = Some(file);
    }

    pub fn set_unnamed(&mut self)
        requires
            old(self).wf(),
        ensures
            final(self).wf(),
            final(self)@ == old(self)@,
            final(self).cursor_spec() == old(self).cursor_spec(),
            final(self).file_spec() is None,
            final(self).lang_spec() == old(self).lang_spec(),
    {
        self.file = None;
    }

    pub fn set_lang(&mut self, lang: Language)
        requires
            old(self).wf(),
        ensures
            final(self).wf(),
            final(self)@ == old(self)@,
            final(self).cursor_spec() == old(self).cursor_spec(),
            final(self).file_spec() == old(self).file_spec(),
            final(self).lang_spec() == lang,
    {
        self.lang = lang;
    }

    pub fn set_cursor(&mut self, x: usize, y: usize)
        requires
            old(self).wf(),
            valid_cursor(old(self)@, x as int, y as int),
        ensures
            final(self).wf(),
            final(self)@ == old(self)@,
            final(self).cursor_spec() == (x as int, y as int),
            final(self).same_settings(old(self)),
            final(self).modified_spec() == old(self).modified_spec(),
            final(self).dirty_spec() == old(self).dirty_spec(),
    {
        self.cx = x;
        self.cy = y;
    }

    pub fn cursor(&self) -> (r: (usize, usize))
        ensures
            (r.0 as int, r.1 as int) == self.cursor_spec(),
    {
        (self.cx, self.cy)
    }

    /// An unnamed buffer holding one empty line.
    pub fn is_scratch(&self) -> (r: bool)
        requires
            self.wf(),
        ensures
            r == (self.file_spec() is None && self@.len() == 1 && self@[0].len() == 0),
    {
        self.file.is_none() && self.row.len() == 1 && self.row[0].len() == 0
    }

    /// Moves to the top or bottom of the visible window (`num_rows` lines from
    /// `rowoff`), then `num_rows` steps further.
    pub fn move_cursor_page(&mut self, dir: CursorDir, rowoff: usize, num_rows: usize)
        requires
            old(self).wf(),
            dir == CursorDir::Up || dir == CursorDir::Down,
            dir == CursorDir::Down ==> num_rows > 0,
            dir == CursorDir::Up ==> rowoff <= old(self)@.len(),
        ensures
            final(self).wf(),
            final(self)@ == old(self)@,
            final(self).same_settings(old(self)),
            final(self).modified_spec() == old(self).modified_spec(),
            final(self).cursor_spec() == ({
                let n = old(self)@.len() as int;
                let start = if dir == CursorDir::Up {
                    rowoff as int
                } else if rowoff + num_rows - 1 < n {
                    rowoff + num_rows - 1
                } else {
                    n
                };
                if num_rows == 0 {
                    let len = if start < n { old(self)@[start].len() as int } else { 0 };
                    (if old(self).cursor_spec().0 > len { len } else { old(self).cursor_spec().0 }, start)
                } else {
                    moved_n(old(self)@, old(self).cursor_spec().0, start, dir, num_rows as nat)
                }
            }),
            final(self).dirty_spec() == old(self).dirty_spec(),
    {
        let n = self.row.len();
        let start = match dir {
            CursorDir::Up => rowoff,
            _ => if rowoff >= n || num_rows - 1 >= n - rowoff {
                n
            } else {
                rowoff + num_rows - 1
            },
        };
        let mut x = self.cx;
        let mut y = start;
        let mut i: usize = 0;
        while i < num_rows
            invariant
                self.wf(),
                self@ == old(self)@,
                dir == CursorDir::Up || dir == CursorDir::Down,
                i <= num_rows,
                y <= self@.len(),
                (x as int, y as int) == moved_n(self@, old(self).cx as int, start as int, dir, i as nat),
                i > 0 ==> valid_cursor(self@, x as int, y as int),
            decreases num_rows - i,
        {
            let (nx, ny) = self.step(x, y, dir);
            x = nx;
            y = ny;
            i += 1;
        }
        if num_rows == 0 {
            let len = if y < n { self.row[y].len() } else { 0 };
            if x > len {
                x = len;
            }
        }
        self.cx = x;
        self.cy = y;
    }

    /// Jumps to the start or end of the line, or to the first or last line.
    pub fn move_cursor_to_buffer_edge(&mut self, dir: CursorDir)
        requires
            old(self).wf(),
        ensures
            final(self).wf(),
            final(self)@ == old(self)@,
            final(self).same_settings(old(self)),
            final(self).modified_spec() == old(self).modified_spec(),
            final(self).cursor_spec() == ({
                let (x, y) = old(self).cursor_spec();
                let v = old(self)@;
                match dir {
                    CursorDir::Left => (0int, y),
                    CursorDir::Right => if y < v.len() {
                        (v[y].len() as int, y)
                    } else {
                        (x, y)
                    },
                    CursorDir::Up => (if x <= v[0].len() { x } else { v[0].len() as int }, 0int),
                    CursorDir::Down => (0int, v.len() as int),
                }
            }),
            final(self).dirty_spec() == old(self).dirty_spec(),
    {
        match dir {
            CursorDir::Left => self.cx = 0,
            CursorDir::Right => {
                if self.cy < self.row.len() {
                    self.cx = self.row[self.cy].len();
                }
            },
            CursorDir::Up => {
                let len = self.row[0].len();
                if self.cx > len {
                    self.cx = len;
                }
                self.cy = 0;
            },
            CursorDir::Down => {
                self.cx = 0;
                self.cy = self.row.len();
            },
        }
    }

    fn kind_at(&self, x: usize, y: usize) -> (r: CharKind)
        ensures
            r == kind_at(self@, x as int, y as int),
    {
        if y < self.row.len() {
            match self.row[y].char_at_checked(x) {
                Some(c) => char_kind(c),
                None => CharKind::Space,
            }
        } else {
            CharKind::Space
        }
    }

    /// Moves to the start of the next word, or of the previous one.
    pub fn move_cursor_by_word(&mut self, dir: CursorDir)
        requires
            old(self).wf(),
            dir == CursorDir::Left || dir == CursorDir::Right,
        ensures
            final(self).wf(),
            final(self)@ == old(self)@,
            final(self).same_settings(old(self)),
            final(self).modified_spec() == old(self).modified_spec(),
            ({
                let (x, y) = final(self).cursor_spec();
                y == final(self)@.len() || (x == 0 && y == 0) || at_word(final(self)@, x, y)
            }),
            exists|k: nat|
                #[trigger] word_scan_ends(
                    old(self)@,
                    old(self).cursor_spec().0,
                    old(self).cursor_spec().1,
                    dir,
                    k,
                    final(self).cursor_spec(),
                ),
            final(self).dirty_spec() == old(self).dirty_spec(),
    {
        let n = self.row.len();
        let ghost v = self@;
        let ghost x0 = self.cx as int;
        let ghost y0 = self.cy as int;
        self.move_cursor_one(dir);
        let ghost mut px = self.cx as int;
        let ghost mut py = self.cy as int;
        assert(moved_n(v, x0, y0, dir, 0) == (x0, y0));
        assert((px, py) == moved_n(v, x0, y0, dir, 1));
        let mut prev = self.kind_at(self.cx, self.cy);
        self.move_cursor_one(dir);
        let mut current = self.kind_at(self.cx, self.cy);
        let ghost mut k: nat = 2;
        assert(self.cursor_spec() == moved_n(v, x0, y0, dir, 2));
        loop
            invariant
                v == old(self)@,
                x0 == old(self).cx,
                y0 == old(self).cy,
                k >= 2,
                (px, py) == moved_n(v, x0, y0, dir, (k - 1) as nat),
                self.cursor_spec() == moved_n(v, x0, y0, dir, k),
                forall|j: nat| 2 <= j < k ==> !#[trigger] word_scan_halts(v, x0, y0, dir, j),
                self.wf(),
                self@ == old(self)@,
                n == self@.len(),
                self.dirty_spec() == old(self).dirty_spec(),
                self.same_settings(old(self)),
                self.modified_spec() == old(self).modified_spec(),
                dir == CursorDir::Left || dir == CursorDir::Right,
                valid_cursor(self@, px, py),
                moved(self@, px, py, dir) == self.cursor_spec(),
                prev == kind_at(self@, px, py),
                current == kind_at(self@, self.cx as int, self.cy as int),
            decreases
                (if dir == CursorDir::Right { n - self.cy } else { self.cy as int }),
                (if dir == CursorDir::Right { self@[self.cy as int].len() - self.cx } else { self.cx as int }),
        {
            if self.cy == 0 && self.cx == 0 || self.cy == n {
                assert(word_scan_ends(
                    old(self)@,
                    old(self).cursor_spec().0,
                    old(self).cursor_spec().1,
                    dir,
                    k,
                    self.cursor_spec(),
                ));
                return;
            }
            match dir {
                CursorDir::Right => {
                    if at_word_start(prev, current) {
                        assert(word_scan_ends(
                            old(self)@,
                            old(self).cursor_spec().0,
                            old(self).cursor_spec().1,
                            dir,
                            k,
                            self.cursor_spec(),
                        ));
                        return;
                    }
                },
                _ => {
                    if at_word_start(current, prev) {
                        self.move_cursor_one(CursorDir::Right);
                        assert(moved(v, self.cx as int, self.cy as int, CursorDir::Left) == moved(v, px, py, CursorDir::Left));
                        assert(word_scan_ends(
                            old(self)@,
                            old(self).cursor_spec().0,
                            old(self).cursor_spec().1,
                            dir,
                            k,
                            self.cursor_spec(),
                        ));
                        return;
                    }
                },
            }
            assert(!word_scan_halts(v, x0, y0, dir, k));
            prev = current;
            proof {
                px = self.cx as int;
                py = self.cy as int;
                k = k + 1;
            }
            self.move_cursor_one(dir);
            current = self.kind_at(self.cx, self.cy);
            assert(self.cursor_spec() == moved_n(v, x0, y0, dir, k));
        }
    }

    /// Moves line-wise to the next edge of a paragraph: a non-blank line right after a
    /// blank one, or the first or past-the-last line.
    pub fn move_cursor_paragraph(&mut self, dir: CursorDir)
        requires
            old(self).wf(),
            dir == CursorDir::Up || dir == CursorDir::Down,
        ensures
            final(self).wf(),
            final(self)@ == old(self)@,
            final(self).same_settings(old(self)),
            final(self).modified_spec() == old(self).modified_spec(),
            paragraph_edge(final(self)@, final(self).cursor_spec().1),
            dir == CursorDir::Down ==> final(self).cursor_spec().1 > old(self).cursor_spec().1
                || final(self).cursor_spec().1 == old(self)@.len(),
            dir == CursorDir::Up ==> final(self).cursor_spec().1 < old(self).cursor_spec().1
                || final(self).cursor_spec().1 == 0,
            forall|k: int|
                (dir == CursorDir::Down && old(self).cursor_spec().1 < k < final(self).cursor_spec().1) || (
                dir == CursorDir::Up && final(self).cursor_spec().1 < k < old(self).cursor_spec().1)
                    ==> !paragraph_edge(old(self)@, k),
            final(self).dirty_spec() == old(self).dirty_spec(),
    {
        let n = self.row.len();
        let start = self.cy;
        loop
            invariant_except_break
                self.cy != start ==> !paragraph_edge(self@, self.cy as int),
            invariant
                self.wf(),
                self@ == old(self)@,
                n == self@.len(),
                start == old(self).cy,
                self.dirty_spec() == old(self).dirty_spec(),
                self.same_settings(old(self)),
                self.modified_spec() == old(self).modified_spec(),
                dir == CursorDir::Up || dir == CursorDir::Down,
                dir == CursorDir::Down ==> start <= self.cy,
                dir == CursorDir::Up ==> self.cy <= start,
                forall|k: int|
                    (dir == CursorDir::Down && start < k < self.cy) || (dir == CursorDir::Up && self.cy < k
                        < start) ==> !paragraph_edge(self@, k),
            ensures
                paragraph_edge(self@, self.cy as int),
                dir == CursorDir::Down ==> self.cy > start || self.cy == n,
                dir == CursorDir::Up ==> self.cy < start || self.cy == 0,
            decreases (if dir == CursorDir::Down { n - self.cy } else { self.cy as int }),
        {
            self.move_cursor_one(dir);
            if self.cy == 0 || self.cy == n || self.row[self.cy - 1].len() == 0 && self.row[self.cy].len() != 0 {
                break;
            }
        }
    }
}

} // verus!
