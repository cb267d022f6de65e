//! Multi-line text editor model: a bounded grid of lines and a 2D cursor.
//! Insertion, line splitting/joining and cursor navigation; the kernel
//! renders the grid and draws the caret.
use vstd::prelude::*;
use crate::keymap::Key;

verus! {

/// Columns per line.
pub const COLS: usize = 44;
/// Maximum number of lines.
pub const ROWS: usize = 18;

/// The editor as seen by its contract: the lines, the cursor column and row,
/// and whether anything was edited.
pub struct EditState {
    pub lines: Seq<Seq<u8>>,
    pub cx: int,
    pub cy: int,
    pub dirty: bool,
}

/// The state invariant: one to [`ROWS`] lines of at most [`COLS`] bytes, the
/// cursor on an existing line and at most one past its last byte.
pub open spec fn state_ok(s: EditState) -> bool {
    &&& 1 <= s.lines.len() <= ROWS
    &&& forall|i: int| 0 <= i < s.lines.len() ==> #[trigger] s.lines[i].len() <= COLS
    &&& 0 <= s.cy < s.lines.len()
    &&& 0 <= s.cx <= s.lines[s.cy].len()
}

/// Type `ch` at the cursor (ignored when the line is full).
pub open spec fn insert_spec(s: EditState, ch: u8) -> EditState {
    let line = s.lines[s.cy];
    if line.len() >= COLS {
        s
    } else {
        EditState {
            lines: s.lines.update(s.cy, line.insert(s.cx, ch)),
            cx: s.cx + 1,
            dirty: true,
            ..s
        }
    }
}

/// Split the current line at the cursor (ignored when all rows are used).
pub open spec fn newline_spec(s: EditState) -> EditState {
    let line = s.lines[s.cy];
    if s.lines.len() >= ROWS {
        s
    } else {
        EditState {
            lines: s.lines.update(s.cy, line.subrange(0, s.cx)).insert(
                s.cy + 1,
                line.subrange(s.cx, line.len() as int),
            ),
            cx: 0,
            cy: s.cy + 1,
            dirty: true,
        }
    }
}

/// Line `src` appended to line `dst` as far as it fits, then `src` removed.
pub open spec fn join_lines(lines: Seq<Seq<u8>>, dst: int, src: int) -> Seq<Seq<u8>> {
    let d = lines[dst];
    let t = lines[src];
    let room = COLS - d.len();
    let take = if t.len() < room { t.len() as int } else { room };
    lines.update(dst, d + t.subrange(0, take)).remove(src)
}

pub open spec fn backspace_spec(s: EditState) -> EditState {
    if s.cx > 0 {
        EditState {
            lines: s.lines.update(s.cy, s.lines[s.cy].remove(s.cx - 1)),
            cx: s.cx - 1,
            dirty: true,
            ..s
        }
    } else if s.cy > 0 {
        EditState {
            lines: join_lines(s.lines, s.cy - 1, s.cy),
            cx: s.lines[s.cy - 1].len() as int,
            cy: s.cy - 1,
            dirty: true,
        }
    } else {
        s
    }
}

pub open spec fn delete_spec(s: EditState) -> EditState {
    if s.cx < s.lines[s.cy].len() {
        EditState { lines: s.lines.update(s.cy, s.lines[s.cy].remove(s.cx)), dirty: true, ..s }
    } else if s.cy + 1 < s.lines.len() {
        EditState { lines: join_lines(s.lines, s.cy, s.cy + 1), dirty: true, ..s }
    } else {
        s
    }
}

pub open spec fn left_spec(s: EditState) -> EditState {
    if s.cx > 0 {
        EditState { cx: s.cx - 1, ..s }
    } else if s.cy > 0 {
        EditState { cy: s.cy - 1, cx: s.lines[s.cy - 1].len() as int, ..s }
    } else {
        s
    }
}

pub open spec fn right_spec(s: EditState) -> EditState {
    if s.cx < s.lines[s.cy].len() {
        EditState { cx: s.cx + 1, ..s }
    } else if s.cy + 1 < s.lines.len() {
        EditState { cy: s.cy + 1, cx: 0, ..s }
    } else {
        s
    }
}

pub open spec fn min_len(a: int, b: int) -> int {
    if a < b { a } else { b }
}

pub open spec fn up_spec(s: EditState) -> EditState {
    if s.cy > 0 {
        EditState { cy: s.cy - 1, cx: min_len(s.cx, s.lines[s.cy - 1].len() as int), ..s }
    } else {
        s
    }
}

pub open spec fn down_spec(s: EditState) -> EditState {
    if s.cy + 1 < s.lines.len() {
        EditState { cy: s.cy + 1, cx: min_len(s.cx, s.lines[s.cy + 1].len() as int), ..s }
    } else {
        s
    }
}

/// The effect of one key press.
pub open spec fn key_spec(s: EditState, key: Key) -> EditState {
    match key {
        Key::Char(c) => insert_spec(s, c),
        Key::Enter => newline_spec(s),
        Key::Backspace => backspace_spec(s),
        Key::Delete => delete_spec(s),
        Key::Left => left_spec(s),
        Key::Right => right_spec(s),
        Key::Up => up_spec(s),
        Key::Down => down_spec(s),
        Key::Home => EditState { cx: 0, ..s },
        Key::End => EditState { cx: s.lines[s.cy].len() as int, ..s },
        Key::Tab => insert_spec(insert_spec(s, 0x20), 0x20),
        Key::Esc => s,
    }
}

pub struct Editor {
    lines: Vec<Vec<u8>>,
    cx: usize,
    cy: usize,
    dirty: bool,
}

impl View for Editor {
    type V = EditState;

    closed spec fn view(&self) -> EditState {
        EditState {
            lines: self.lines@.map_values(|l: Vec<u8>| l@),
            cx: self.cx as int,
            cy: self.cy as int,
            dirty: self.dirty,
        }
    }
}

impl Editor {
    pub open spec fn wf(&self) -> bool {
        state_ok(self@)
    }

    pub fn new() -> (e: Self)
        ensures
            e.wf(),
            e@.lines == seq![Seq::<u8>::empty()],
            e@.cx == 0,
            e@.cy == 0,
            !e@.dirty,
    {
        let mut lines: Vec<Vec<u8>> = Vec::new();
        lines.push(Vec::new());
        let e = Editor { lines, cx: 0, cy: 0, dirty: false };
        assert(e@.lines =~= seq![Seq::<u8>::empty()]);
        e
    }

    /// Number of lines in use (always `>= 1`).
    pub fn rows(&self) -> (n: usize)
        ensures
            n == self@.lines.len(),
    {
        self.lines.len()
    }

    /// Borrow line `i` (`0..rows`).
    pub fn line(&self, i: usize) -> (s: &[u8])
        requires
            i < self@.lines.len(),
        ensures
            s@ == self@.lines[i as int],
    {
        self.lines[i].as_slice()
    }

    /// Cursor as `(col, row)`.
    pub fn cursor(&self) -> (c: (usize, usize))
        ensures
            c.0 == self@.cx,
            c.1 == self@.cy,
    {
        (self.cx, self.cy)
    }

    /// Whether the buffer changed since creation.
    pub fn dirty(&self) -> (b: bool)
        ensures
            b == self@.dirty,
    {
        self.dirty
    }

    /// Dispatch a key to the matching edit operation.
    pub fn on_key(&mut self, key: Key)
        requires
            old(self).wf(),
        ensures
            final(self).wf(),
            final(self)@ == key_spec(old(self)@, key),
    {
        match key {
            Key::Char(c) => self.insert(c),
            Key::Enter => self.newline(),
            Key::Backspace => self.backspace(),
            Key::Delete => self.delete(),
            Key::Left => self.move_left(),
            Key::Right => self.move_right(),
            Key::Up => self.move_up(),
            Key::Down => self.move_down(),
            Key::Home => self.cx = 0,
            Key::End => self.cx = self.lines[self.cy].len(),
            Key::Tab => {
                self.insert(0x20);
                self.insert(0x20);
            },
            Key::Esc => {},
        }
    }

    fn insert(&mut self, ch: u8)
        requires
            old(self).wf(),
        ensures
            final(self).wf(),
            final(self)@ == insert_spec(old(self)@, ch),
    {
        let l = self.cy;
        if self.lines[l].len() >= COLS {
            return;
        }
        let mut line = self.lines.remove(l);
        line.insert(self.cx, ch);
        self.lines.insert(l, line);
        self.cx = self.cx + 1;
        self.dirty = true;
        proof {
            let o = old(self)@;
            assert(self@.lines =~= o.lines.update(o.cy, o.lines[o.cy].insert(o.cx, ch)));
        }
    }
}

impl Editor {
    fn newline(&mut self)
        requires
            old(self).wf(),
        ensures
            final(self).wf(),
            final(self)@ == newline_spec(old(self)@),
    {
        if self.lines.len() >= ROWS {
            return;
        }
        let l = self.cy;
        let mut line = self.lines.remove(l);
        let tail = line.split_off(self.cx);
        self.lines.insert(l, line);
        self.lines.insert(l + 1, tail);
        self.cy = l + 1;
        self.cx = 0;
        self.dirty = true;
        proof {
            let o = old(self)@;
            let ol = o.lines[o.cy];
            assert(self@.lines =~= o.lines.update(o.cy, ol.subrange(0, o.cx)).insert(
                o.cy + 1,
                ol.subrange(o.cx, ol.len() as int),
            ));
        }
    }

    fn backspace(&mut self)
        requires
            old(self).wf(),
        ensures
            final(self).wf(),
            final(self)@ == backspace_spec(old(self)@),
    {
        if self.cx > 0 {
            let l = self.cy;
            let mut line = self.lines.remove(l);
            line.remove(self.cx - 1);
            self.lines.insert(l, line);
            self.cx = self.cx - 1;
            self.dirty = true;
            proof {
                let o = old(self)@;
                assert(self@.lines =~= o.lines.update(o.cy, o.lines[o.cy].remove(o.cx - 1)));
            }
        } else if self.cy > 0 {
            let prev = self.cy - 1;
            let join_at = self.lines[prev].len();
            self.join_into(prev);
            self.cy = prev;
            self.cx = join_at;
        }
    }

    fn delete(&mut self)
        requires
            old(self).wf(),
        ensures
            final(self).wf(),
            final(self)@ == delete_spec(old(self)@),
    {
        let l = self.cy;
        if self.cx < self.lines[l].len() {
            let mut line = self.lines.remove(l);
            line.remove(self.cx);
            self.lines.insert(l, line);
            self.dirty = true;
            proof {
                let o = old(self)@;
                assert(self@.lines =~= o.lines.update(o.cy, o.lines[o.cy].remove(o.cx)));
            }
        } else if self.cy + 1 < self.lines.len() {
            self.join_into(l);
        }
    }

    /// Append line `dst + 1` onto the end of line `dst` (capped at COLS), then
    /// remove line `dst + 1`.
    fn join_into(&mut self, dst: usize)
        requires
            state_ok(EditState { cx: 0, cy: 0, ..old(self)@ }),
            dst + 1 < old(self)@.lines.len(),
        ensures
            final(self).cx == old(self).cx,
            final(self).cy == old(self).cy,
            final(self).dirty,
            final(self)@.lines == join_lines(old(self)@.lines, dst as int, dst + 1),
            final(self)@.lines.len() == old(self)@.lines.len() - 1,
            forall|i: int| 0 <= i < final(self)@.lines.len() ==> #[trigger] final(self)@.lines[i].len() <= COLS,
            final(self)@.lines[dst as int].len() >= old(self)@.lines[dst as int].len(),
    {
        let src_line = self.lines.remove(dst + 1);
        let mut d = self.lines.remove(dst);
        let dlen = d.len();
        assert(old(self)@.lines[dst as int] == d@);
        let capacity = COLS - dlen;
        let copy = if src_line.len() < capacity { src_line.len() } else { capacity };
        let ghost d0 = d@;
        let mut j: usize = 0;
        while j < copy
            invariant
                copy <= src_line@.len(),
                j <= copy,
                d@ == d0 + src_line@.subrange(0, j as int),
            decreases copy - j,
        {
            d.push(src_line[j]);
            j += 1;
        }
        self.lines.insert(dst, d);
        self.dirty = true;
        proof {
            let o = old(self)@;
            assert(self@.lines =~= join_lines(o.lines, dst as int, dst + 1));
        }
    }

    fn move_left(&mut self)
        requires
            old(self).wf(),
        ensures
            final(self).wf(),
            final(self)@ == left_spec(old(self)@),
    {
        if self.cx > 0 {
            self.cx = self.cx - 1;
        } else if self.cy > 0 {
            self.cy = self.cy - 1;
            self.cx = self.lines[self.cy].len();
        }
    }

    fn move_right(&mut self)
        requires
            old(self).wf(),
        ensures
            final(self).wf(),
            final(self)@ == right_spec(old(self)@),
    {
        if self.cx < self.lines[self.cy].len() {
            self.cx = self.cx + 1;
        } else if self.cy + 1 < self.lines.len() {
            self.cy = self.cy + 1;
            self.cx = 0;
        }
    }

    fn move_up(&mut self)
        requires
            old(self).wf(),
        ensures
            final(self).wf(),
            final(self)@ == up_spec(old(self)@),
    {
        if self.cy > 0 {
            self.cy = self.cy - 1;
            let n = self.lines[self.cy].len();
            if n < self.cx {
                self.cx = n;
            }
        }
    }

    fn move_down(&mut self)
        requires
            old(self).wf(),
        ensures
            final(self).wf(),
            final(self)@ == down_spec(old(self)@),
    {
        if self.cy + 1 < self.lines.len() {
            self.cy = self.cy + 1;
            let n = self.lines[self.cy].len();
            if n < self.cx {
                self.cx = n;
            }
        }
    }
}

/// Typing a character and then pressing backspace restores the text and the
/// cursor (whenever the line had room for the character).
pub proof fn lemma_backspace_undoes_insert(s: EditState, c: u8)
    requires
        state_ok(s),
        s.lines[s.cy].len() < COLS,
    ensures
        backspace_spec(insert_spec(s, c)).lines == s.lines,
        backspace_spec(insert_spec(s, c)).cx == s.cx,
        backspace_spec(insert_spec(s, c)).cy == s.cy,
{
    let t = insert_spec(s, c);
    assert(t.lines[s.cy].remove(s.cx) =~= s.lines[s.cy]);
    assert(t.lines.update(s.cy, t.lines[s.cy].remove(s.cx)) =~= s.lines);
}

/// Splitting a line with Enter and then pressing backspace at the start of the
/// new line joins it back: text and cursor are restored (whenever a row was
/// free for the split).
pub proof fn lemma_backspace_undoes_newline(s: EditState)
    requires
        state_ok(s),
        s.lines.len() < ROWS,
    ensures
        backspace_spec(newline_spec(s)).lines == s.lines,
        backspace_spec(newline_spec(s)).cx == s.cx,
        backspace_spec(newline_spec(s)).cy == s.cy,
{
    let t = newline_spec(s);
    let line = s.lines[s.cy];
    assert(t.lines[s.cy] == line.subrange(0, s.cx));
    assert(t.lines[s.cy + 1] == line.subrange(s.cx, line.len() as int));
    let tail = line.subrange(s.cx, line.len() as int);
    assert(tail.subrange(0, tail.len() as int) =~= tail);
    assert(line.subrange(0, s.cx) + tail =~= line);
    assert(join_lines(t.lines, s.cy, s.cy + 1) =~= s.lines);
}

impl Default for Editor {
    fn default() -> (e: Self)
        ensures
            e.wf(),
            e@.lines == seq![Seq::<u8>::empty()],
            e@.cx == 0,
            e@.cy == 0,
            !e@.dirty,
    {
        Self::new()
    }
}

} // verus!
