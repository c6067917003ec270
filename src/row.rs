use crate::error::Error;
use crate::width::{cjk_width, is_control, width_cjk};
use vstd::prelude::*;

verus! {

/// Column multiple to which a tab advances the display position.
pub const TAB_STOP: usize = 8;

/// Largest number of characters a row may hold: keeps byte offsets and display
/// columns (at most `TAB_STOP` per character) inside `usize`.
pub const ROW_CAP: usize = 0x1fff_ffff;

/// Number of bytes that `c` takes in UTF-8.
pub open spec fn utf8_len(c: char) -> nat {
    if (c as u32) < 0x80 {
        1
    } else if (c as u32) < 0x800 {
        2
    } else if (c as u32) < 0x10000 {
        3
    } else {
        4
    }
}

/// Byte offset in the UTF-8 encoding of `s` at which its `i`-th character starts.
pub open spec fn byte_off(s: Seq<char>, i: int) -> nat
    decreases i,
{
    if i <= 0 {
        0
    } else {
        byte_off(s, i - 1) + utf8_len(s[i - 1])
    }
}

/// Every character of `s` takes a single byte.
pub open spec fn is_ascii_text(s: Seq<char>) -> bool {
    forall|i: int| 0 <= i < s.len() ==> (#[trigger] s[i] as u32) < 0x80
}

/// A character that may stand in a line: a tab or any non-control character.
pub open spec fn is_text_char(c: char) -> bool {
    c == '\t' || !is_control(c)
}

pub open spec fn is_text(s: Seq<char>) -> bool {
    forall|i: int| 0 <= i < s.len() ==> is_text_char(#[trigger] s[i])
}

/// Display width of a character other than a tab.
pub open spec fn char_width(c: char) -> nat {
    if (c as u32) < 0x7f {
        1
    } else {
        cjk_width(c) as nat
    }
}

/// Display column reached after rendering `s` from column 0.
pub open spec fn rx_of(s: Seq<char>) -> nat
    decreases s.len(),
{
    if s.len() == 0 {
        0
    } else {
        let r = rx_of(s.drop_last());
        if s.last() == '\t' {
            (r + TAB_STOP - r % (TAB_STOP as nat)) as nat
        } else {
            r + char_width(s.last())
        }
    }
}

/// Render form of `s`: each tab expanded to spaces up to the next tab stop.
pub open spec fn render_of(s: Seq<char>) -> Seq<char>
    decreases s.len(),
{
    if s.len() == 0 {
        Seq::empty()
    } else {
        let prev = render_of(s.drop_last());
        if s.last() == '\t' {
            let r = rx_of(s.drop_last());
            prev + Seq::new((TAB_STOP - r % (TAB_STOP as nat)) as nat, |k: int| ' ')
        } else {
            prev.push(s.last())
        }
    }
}

pub proof fn lemma_byte_off_bounds(s: Seq<char>, i: int)
    requires
        0 <= i,
    ensures
        i <= byte_off(s, i) <= 4 * i,
    decreases i,
{
    if i > 0 {
        lemma_byte_off_bounds(s, i - 1);
    }
}

pub proof fn lemma_byte_off_strict(s: Seq<char>, i: int, j: int)
    requires
        0 <= i < j,
    ensures
        byte_off(s, i) < byte_off(s, j),
    decreases j,
{
    if i < j - 1 {
        lemma_byte_off_strict(s, i, j - 1);
    }
}

pub proof fn lemma_ascii_identity(s: Seq<char>, i: int)
    requires
        is_ascii_text(s),
        0 <= i <= s.len(),
    ensures
        byte_off(s, i) == i,
    decreases i,
{
    if i > 0 {
        lemma_ascii_identity(s, i - 1);
        assert((s[i - 1] as u32) < 0x80);
    }
}

pub proof fn lemma_text_sub(s: Seq<char>, i: int, j: int)
    requires
        is_text(s),
        0 <= i <= j <= s.len(),
    ensures
        is_text(s.subrange(i, j)),
{
    assert forall|k: int| 0 <= k < j - i implies is_text_char(#[trigger] s.subrange(i, j)[k]) by {
        assert(s.subrange(i, j)[k] == s[i + k]);
    }
}

pub proof fn lemma_text_concat(a: Seq<char>, b: Seq<char>)
    requires
        is_text(a),
        is_text(b),
    ensures
        is_text(a + b),
{
    assert forall|k: int| 0 <= k < (a + b).len() implies is_text_char(#[trigger] (a + b)[k]) by {
        if k < a.len() {
            assert((a + b)[k] == a[k]);
        } else {
            assert((a + b)[k] == b[k - a.len()]);
        }
    }
}

/// Result of splicing `ins` into `s` in place of the characters `[start, end)`.
pub open spec fn splice(s: Seq<char>, start: int, end: int, ins: Seq<char>) -> Seq<char> {
    s.take(start) + ins + s.skip(end)
}

/// Relies on `String::push`: appends one character.
#[verifier::external_body]
fn push_char(s: &mut String, c: char)
    ensures
        final(s)@ == old(s)@.push(c),
{
    s.push(c);
}

fn utf8_len_of(c: char) -> (r: usize)
    ensures
        r == utf8_len(c),
{
    let v = c as u32;
    if v < 0x80 {
        1
    } else if v < 0x800 {
        2
    } else if v < 0x10000 {
        3
    } else {
        4
    }
}

/// The characters of `s`, in order.
pub fn chars_of(s: &str) -> (r: Vec<char>)
    ensures
        r@ == s@,
{
    let mut v: Vec<char> = Vec::new();
    for c in it: s.chars()
        invariant
            it.seq() == s@,
            v@ == s@.take(it.index() as int),
    {
        v.push(c);
        assert(v@ =~= s@.take(it.index() as int + 1));
    }
    assert(v@ =~= s@);
    v
}

/// Builds a string from a sequence of characters.
pub fn string_of(cs: &Vec<char>) -> (r: String)
    ensures
        r@ == cs@,
{
    let mut s = String::new();
    let mut i: usize = 0;
    while i < cs.len()
        invariant
            i <= cs.len(),
            s@ == cs@.take(i as int),
        decreases cs.len() - i,
    {
        push_char(&mut s, cs[i]);
        i += 1;
        assert(s@ =~= cs@.take(i as int));
    }
    assert(cs@.take(i as int) =~= cs@);
    s
}

/// One line of text, without its terminator.
pub struct Row {
    buf: Vec<char>,
    render: String,
    // Byte offset of each character in the UTF-8 encoding of `buf`. Left empty while
    // every character takes a single byte.
    indices: Vec<usize>,
}

impl View for Row {
    type V = Seq<char>;

    closed spec fn view(&self) -> Seq<char> {
        self.buf@
    }
}

impl Row {
    /// The index cache is allocated (non-empty).
    pub closed spec fn has_index_cache(&self) -> bool {
        self.indices@.len() > 0
    }

    /// Render-ready form of the row.
    pub closed spec fn render_view(&self) -> Seq<char> {
        self.render@
    }

    pub closed spec fn wf(&self) -> bool {
        &&& self.buf@.len() <= ROW_CAP
        &&& is_text(self.buf@)
        &&& self.render@ == render_of(self.buf@)
        &&& if is_ascii_text(self.buf@) {
            self.indices@.len() == 0
        } else {
            &&& self.indices@.len() == self.buf@.len()
            &&& forall|i: int|
                0 <= i < self.indices@.len() ==> #[trigger] self.indices@[i] == byte_off(
                    self.buf@,
                    i,
                )
        }
    }

    pub proof fn lemma_wf_facts(&self)
        requires
            self.wf(),
        ensures
            self@.len() <= ROW_CAP,
            is_text(self@),
            self.render_view() == render_of(self@),
            self.has_index_cache() <==> !is_ascii_text(self@),
    {
        if !is_ascii_text(self@) {
            let i = choose|i: int| 0 <= i < self@.len() && !((self@[i] as u32) < 0x80);
            assert(self.indices@.len() > 0);
        }
    }

    pub fn empty() -> (r: Row)
        ensures
            r.wf(),
            r@ == Seq::<char>::empty(),
    {
        let r = Row { buf: Vec::new(), render: String::new(), indices: Vec::new() };
        assert(render_of(r.buf@) =~= Seq::<char>::empty());
        r
    }

    /// Recomputes the render form and the index cache from the characters.
    fn update_render(&mut self) -> (r: Result<(), Error>)
        requires
            old(self).buf@.len() <= ROW_CAP,
        ensures
            final(self).buf@ == old(self).buf@,
            r is Ok <==> is_text(old(self).buf@),
            r is Ok ==> final(self).wf(),
            r matches Err(Error::ControlCharInText(c)) ==> exists|i: int|
                0 <= i < old(self).buf@.len() && old(self).buf@[i] == c && !is_text_char(c)
                    && forall|j: int| 0 <= j < i ==> is_text_char(#[trigger] old(self).buf@[j]),
    {
        let n = self.buf.len();
        let mut render = String::new();
        let mut rx: usize = 0;
        let mut nbytes: usize = 0;
        let mut i: usize = 0;
        while i < n
            invariant
                n == self.buf@.len(),
                n <= ROW_CAP,
                i <= n,
                is_text(self.buf@.take(i as int)),
                rx == rx_of(self.buf@.take(i as int)),
                rx <= 8 * i,
                render@ == render_of(self.buf@.take(i as int)),
                nbytes == byte_off(self.buf@, i as int),
            decreases n - i,
        {
            let c = self.buf[i];
            let ghost pre = self.buf@.take(i as int);
            let ghost next = self.buf@.take(i + 1);
            assert(next.drop_last() =~= pre);
            assert(next.last() == c);
            proof {
                lemma_byte_off_bounds(self.buf@, i as int);
            }
            if c == '\t' {
                let stop = TAB_STOP - rx % TAB_STOP;
                let ghost before = render@;
                let mut k: usize = 0;
                while k < stop
                    invariant
                        k <= stop,
                        render@ == before + Seq::new(k as nat, |j: int| ' '),
                    decreases stop - k,
                {
                    push_char(&mut render, ' ');
                    k += 1;
                    assert(render@ =~= before + Seq::new(k as nat, |j: int| ' '));
                }
                rx = rx + stop;
            } else {
                match width_cjk(c) {
                    Some(w) => {
                        rx = rx + w;
                        push_char(&mut render, c);
                    },
                    None => {
                        assert forall|j: int| 0 <= j < i implies is_text_char(
                            #[trigger] self.buf@[j],
                        ) by {
                            assert(self.buf@[j] == pre[j]);
                        }
                        return Err(Error::ControlCharInText(c));
                    },
                }
            }
            nbytes = nbytes + utf8_len_of(c);
            i += 1;
            assert(is_text(self.buf@.take(i as int))) by {
                assert forall|j: int| 0 <= j < i implies is_text_char(
                    #[trigger] self.buf@.take(i as int)[j],
                ) by {
                    if j < i - 1 {
                        assert(self.buf@.take(i as int)[j] == pre[j]);
                    }
                }
            }
        }
        assert(self.buf@.take(n as int) =~= self.buf@);
        self.render = render;
        if nbytes == n {
            proof {
                assert forall|j: int| 0 <= j < n implies (#[trigger] self.buf@[j] as u32)
                    < 0x80 by {
                    lemma_byte_off_bounds(self.buf@, j);
                    lemma_byte_off_bounds(self.buf@, j + 1);
                    if (self.buf@[j] as u32) >= 0x80 {
                        lemma_byte_off_bounds_split(self.buf@, j, n as int);
                    }
                }
            }
            self.indices = Vec::new();
        } else {
            let mut indices: Vec<usize> = Vec::new();
            let mut off: usize = 0;
            let mut k: usize = 0;
            while k < n
                invariant
                    n == self.buf@.len(),
                    n <= ROW_CAP,
                    k <= n,
                    off == byte_off(self.buf@, k as int),
                    indices@.len() == k,
                    forall|j: int| 0 <= j < k ==> #[trigger] indices@[j] == byte_off(self.buf@, j),
                decreases n - k,
            {
                proof {
                    lemma_byte_off_bounds(self.buf@, k + 1);
                }
                indices.push(off);
                off = off + utf8_len_of(self.buf[k]);
                k += 1;
            }
            proof {
                if is_ascii_text(self.buf@) {
                    lemma_ascii_identity(self.buf@, n as int);
                }
            }
            self.indices = indices;
        }
        Ok(())
    }

    /// Byte offset of the character at `i`.
    pub open spec fn byte_index(&self, i: int) -> int {
        byte_off(self@, i) as int
    }

    /// `b` is the byte offset of a character, or of the end of the row.
    pub open spec fn is_boundary(&self, b: int) -> bool {
        exists|i: int| 0 <= i <= self@.len() && self.byte_index(i) == b
    }

    /// Character index that starts at byte offset `b`.
    pub open spec fn char_index(&self, b: int) -> int {
        choose|i: int| 0 <= i <= self@.len() && self.byte_index(i) == b
    }

    pub fn new(line: &str) -> (r: Result<Row, Error>)
        requires
            line@.len() <= ROW_CAP,
        ensures
            r is Ok <==> is_text(line@),
            r matches Ok(row) ==> row.wf() && row@ == line@,
            r matches Err(Error::ControlCharInText(c)) ==> exists|i: int|
                0 <= i < line@.len() && line@[i] == c && !is_text_char(c)
                    && forall|j: int| 0 <= j < i ==> is_text_char(#[trigger] line@[j]),
    {
        let mut row = Row { buf: chars_of(line), render: String::new(), indices: Vec::new() };
        match row.update_render() {
            Ok(()) => Ok(row),
            Err(e) => Err(e),
        }
    }

    /// Number of characters.
    pub fn len(&self) -> (r: usize)
        requires
            self.wf(),
        ensures
            r == self@.len(),
    {
        self.buf.len()
    }

    pub fn byte_idx_of(&self, char_idx: usize) -> (r: usize)
        requires
            self.wf(),
            char_idx <= self@.len(),
        ensures
            r == self.byte_index(char_idx as int),
    {
        let n = self.indices.len();
        if n == 0 {
            proof {
                lemma_ascii_identity(self@, char_idx as int);
            }
            char_idx
        } else if n == char_idx {
            proof {
                lemma_byte_off_bounds(self@, n as int);
            }
            self.indices[n - 1] + utf8_len_of(self.buf[n - 1])
        } else {
            self.indices[char_idx]
        }
    }

    pub fn char_idx_of(&self, byte_idx: usize) -> (r: usize)
        requires
            self.wf(),
            self.is_boundary(byte_idx as int),
        ensures
            r <= self@.len(),
            r == self.char_index(byte_idx as int),
            self.byte_index(r as int) == byte_idx,
    {
        let n = self.buf.len();
        proof {
            lemma_index_unique(self, byte_idx as int);
        }
        if self.indices.len() == 0 {
            proof {
                lemma_ascii_identity(self@, self.char_index(byte_idx as int));
            }
            return byte_idx;
        }
        if self.byte_idx_of(n) == byte_idx {
            return n;
        }
        let mut k: usize = 0;
        while k < n
            invariant
                self.wf(),
                n == self@.len(),
                self.indices@.len() == n,
                n > 0,
                !is_ascii_text(self.buf@),
                k <= n,
                forall|j: int| 0 <= j < k ==> self.byte_index(j) != byte_idx,
                forall|j: int|
                    0 <= j <= n && self.byte_index(j) == byte_idx ==> j == self.char_index(
                        byte_idx as int,
                    ),
            decreases n - k,
        {
            if self.indices[k] == byte_idx {
                assert(self.indices@[k as int] == byte_off(self.buf@, k as int));
                assert(self.byte_index(k as int) == byte_idx);
                assert(k <= n);
                return k;
            }
            k += 1;
        }
        proof {
            let i = self.char_index(byte_idx as int);
            assert(self.byte_index(i) == byte_idx);
        }
        n
    }

    pub fn buffer(&self) -> (r: String)
        ensures
            r@ == self@,
    {
        string_of(&self.buf)
    }

    pub fn render_text(&self) -> (r: String)
        requires
            self.wf(),
        ensures
            r@ == render_of(self@),
    {
        self.render.clone()
    }

    /// The characters `[start, end)` as a string.
    pub fn slice(&self, start: usize, end: usize) -> (r: String)
        requires
            start <= end <= self@.len(),
        ensures
            r@ == self@.subrange(start as int, end as int),
    {
        let mut s = String::new();
        let mut i: usize = start;
        while i < end
            invariant
                start <= i <= end <= self.buf@.len(),
                s@ == self.buf@.subrange(start as int, i as int),
            decreases end - i,
        {
            push_char(&mut s, self.buf[i]);
            i += 1;
            assert(s@ =~= self.buf@.subrange(start as int, i as int));
        }
        s
    }

    pub fn char_at(&self, at: usize) -> (r: char)
        requires
            at < self@.len(),
        ensures
            r == self@[at as int],
    {
        self.buf[at]
    }

    pub fn char_at_checked(&self, at: usize) -> (r: Option<char>)
        ensures
            r == if at < self@.len() {
                Some(self@[at as int])
            } else {
                None::<char>
            },
    {
        if at < self.buf.len() {
            Some(self.buf[at])
        } else {
            None
        }
    }

    /// Display column of the character position `cx`.
    pub fn rx_from_cx(&self, cx: usize) -> (r: usize)
        requires
            self.wf(),
            cx <= self@.len(),
        ensures
            r == rx_of(self@.take(cx as int)),
    {
        let mut rx: usize = 0;
        let mut i: usize = 0;
        while i < cx
            invariant
                self.wf(),
                cx <= self@.len() <= ROW_CAP,
                i <= cx,
                rx == rx_of(self@.take(i as int)),
                rx <= 8 * i,
            decreases cx - i,
        {
            let c = self.buf[i];
            assert(self@.take(i + 1).drop_last() =~= self@.take(i as int));
            assert(is_text_char(self@[i as int]));
            if c == '\t' {
                rx = rx + TAB_STOP - rx % TAB_STOP;
            } else {
                match width_cjk(c) {
                    Some(w) => {
                        rx = rx + w;
                    },
                    None => {},
                }
            }
            i += 1;
        }
        rx
    }

    /// Replaces the characters `[start, end)` with `ins`.
    fn replace_range(&mut self, start: usize, end: usize, ins: &Vec<char>)
        requires
            old(self).wf(),
            start <= end <= old(self)@.len(),
            is_text(ins@),
            old(self)@.len() - (end - start) + ins@.len() <= ROW_CAP,
        ensures
            final(self).wf(),
            final(self)@ == splice(old(self)@, start as int, end as int, ins@),
    {
        let n = self.buf.len();
        let mut buf: Vec<char> = Vec::new();
        let mut i: usize = 0;
        while i < start
            invariant
                i <= start <= end <= n,
                n == self.buf@.len(),
                buf@ == self.buf@.take(i as int),
            decreases start - i,
        {
            buf.push(self.buf[i]);
            i += 1;
            assert(buf@ =~= self.buf@.take(i as int));
        }
        let mut k: usize = 0;
        while k < ins.len()
            invariant
                k <= ins@.len(),
                buf@ == self.buf@.take(start as int) + ins@.take(k as int),
            decreases ins@.len() - k,
        {
            buf.push(ins[k]);
            k += 1;
            assert(buf@ =~= self.buf@.take(start as int) + ins@.take(k as int));
        }
        assert(ins@.take(k as int) =~= ins@);
        let mut j: usize = end;
        while j < n
            invariant
                end <= j <= n,
                n == self.buf@.len(),
                buf@ == self.buf@.take(start as int) + ins@ + self.buf@.subrange(end as int, j as int),
            decreases n - j,
        {
            buf.push(self.buf[j]);
            j += 1;
            assert(buf@ =~= self.buf@.take(start as int) + ins@ + self.buf@.subrange(end as int, j as int));
        }
        assert(self.buf@.subrange(end as int, n as int) =~= self.buf@.skip(end as int));
        proof {
            lemma_text_sub(self.buf@, 0, start as int);
            lemma_text_sub(self.buf@, end as int, n as int);
            assert(self.buf@.take(start as int) =~= self.buf@.subrange(0, start as int));
            lemma_text_concat(self.buf@.take(start as int), ins@);
            lemma_text_concat(self.buf@.take(start as int) + ins@, self.buf@.skip(end as int));
        }
        self.buf = buf;
        let _ = self.update_render();
    }

    pub fn insert_char(&mut self, at: usize, c: char)
        requires
            old(self).wf(),
            is_text_char(c),
            old(self)@.len() < ROW_CAP,
        ensures
            final(self).wf(),
            final(self)@ == if at < old(self)@.len() {
                old(self)@.insert(at as int, c)
            } else {
                old(self)@.push(c)
            },
    {
        let n = self.buf.len();
        let at = if at < n { at } else { n };
        let ins = vec![c];
        proof {
            assert(is_text(ins@)) by {
                assert(ins@[0] == c);
            }
        }
        self.replace_range(at, at, &ins);
        assert(splice(old(self)@, at as int, at as int, ins@) =~= if at < old(self)@.len() {
            old(self)@.insert(at as int, c)
        } else {
            old(self)@.push(c)
        });
    }

    pub fn insert_str(&mut self, at: usize, s: &str)
        requires
            old(self).wf(),
            is_text(s@),
            old(self)@.len() + s@.len() <= ROW_CAP,
        ensures
            final(self).wf(),
            final(self)@ == if at < old(self)@.len() {
                splice(old(self)@, at as int, at as int, s@)
            } else {
                old(self)@ + s@
            },
    {
        let n = self.buf.len();
        let at = if at < n { at } else { n };
        let ins = chars_of(s);
        self.replace_range(at, at, &ins);
        assert(splice(old(self)@, n as int, n as int, s@) =~= old(self)@ + s@);
    }

    pub fn delete_char(&mut self, at: usize)
        requires
            old(self).wf(),
        ensures
            final(self).wf(),
            final(self)@ == if at < old(self)@.len() {
                old(self)@.remove(at as int)
            } else {
                old(self)@
            },
    {
        if at < self.buf.len() {
            self.remove_char(at);
        }
    }

    pub fn append(&mut self, s: &str)
        requires
            old(self).wf(),
            is_text(s@),
            old(self)@.len() + s@.len() <= ROW_CAP,
        ensures
            final(self).wf(),
            final(self)@ == old(self)@ + s@,
    {
        if s.is_empty() {
            assert(old(self)@ + s@ =~= old(self)@);
            return;
        }
        let n = self.buf.len();
        self.insert_str(n, s);
    }

    pub fn truncate(&mut self, at: usize)
        requires
            old(self).wf(),
        ensures
            final(self).wf(),
            final(self)@ == if at < old(self)@.len() {
                old(self)@.take(at as int)
            } else {
                old(self)@
            },
    {
        let n = self.buf.len();
        if at < n {
            self.replace_range(at, n, &Vec::new());
            assert(splice(old(self)@, at as int, n as int, Seq::empty()) =~= old(self)@.take(at as int));
        }
    }

    pub fn remove_char(&mut self, at: usize)
        requires
            old(self).wf(),
            at < old(self)@.len(),
        ensures
            final(self).wf(),
            final(self)@ == old(self)@.remove(at as int),
    {
        self.replace_range(at, at + 1, &Vec::new());
        assert(splice(old(self)@, at as int, at + 1, Seq::empty()) =~= old(self)@.remove(at as int));
    }

    /// Removes the characters `[start, end)`.
    pub fn remove(&mut self, start: usize, end: usize)
        requires
            old(self).wf(),
            start < end ==> end <= old(self)@.len(),
        ensures
            final(self).wf(),
            final(self)@ == if start < end {
                splice(old(self)@, start as int, end as int, Seq::empty())
            } else {
                old(self)@
            },
    {
        if start < end {
            self.replace_range(start, end, &Vec::new());
        }
    }
}

/// Distinct character positions start at distinct byte offsets.
pub proof fn lemma_index_unique(row: &Row, b: int)
    requires
        row.is_boundary(b),
    ensures
        0 <= row.char_index(b) <= row@.len(),
        row.byte_index(row.char_index(b)) == b,
        forall|j: int| 0 <= j <= row@.len() && row.byte_index(j) == b ==> j == row.char_index(b),
{
    let i = row.char_index(b);
    assert forall|j: int| 0 <= j <= row@.len() && row.byte_index(j) == b implies j == i by {
        if j < i {
            lemma_byte_off_strict(row@, j, i);
        } else if i < j {
            lemma_byte_off_strict(row@, i, j);
        }
    }
}

/// Converting a character index to its byte offset and back gives the index again,
/// and converting a character boundary to its character index and back gives the
/// boundary again. Every mutation keeps the row well formed, so this holds after any
/// sequence of them.
pub proof fn lemma_index_round_trip(row: &Row, i: int, b: int)
    requires
        row.wf(),
    ensures
        0 <= i <= row@.len() ==> row.char_index(row.byte_index(i)) == i,
        row.is_boundary(b) ==> row.byte_index(row.char_index(b)) == b,
{
    if 0 <= i <= row@.len() {
        lemma_index_unique(row, row.byte_index(i));
    }
    if row.is_boundary(b) {
        lemma_index_unique(row, b);
    }
}

/// A row whose characters each take one byte keeps no index cache, and its
/// character and byte offsets coincide.
pub proof fn lemma_single_byte_rows(row: &Row, i: int)
    requires
        row.wf(),
        is_ascii_text(row@),
    ensures
        !row.has_index_cache(),
        0 <= i <= row@.len() ==> row.byte_index(i) == i,
        0 <= i <= row@.len() ==> row.char_index(i) == i,
{
    row.lemma_wf_facts();
    if 0 <= i <= row@.len() {
        lemma_ascii_identity(row@, i);
        assert(row.byte_index(i) == i);
        assert(row.is_boundary(i));
        lemma_index_unique(row, i);
    }
}

/// Where a character takes more than one byte, the byte offset of the end exceeds
/// the character count.
proof fn lemma_byte_off_bounds_split(s: Seq<char>, j: int, n: int)
    requires
        0 <= j < n <= s.len(),
        (s[j] as u32) >= 0x80,
    ensures
        byte_off(s, n) > n,
    decreases n,
{
    if n == j + 1 {
        lemma_byte_off_bounds(s, j);
    } else {
        lemma_byte_off_bounds_split(s, j, n - 1);
    }
}

} // verus!
