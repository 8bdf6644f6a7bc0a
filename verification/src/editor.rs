//! The input field: text of several lines with a cursor and a selection.

use crate::text;
use vstd::prelude::*;
use vstd::string::*;

verus! {

/// A text with a cursor. What stands between the anchor and the cursor is selected.
#[derive(Debug, PartialEq)]
pub struct Editor {
    pub chars: Vec<char>,
    /// The position in front of which the next character goes.
    pub cursor: usize,
    /// The other end of the selection.
    pub anchor: Option<usize>,
    /// How many characters a row holds.
    pub width: usize,
}

/// What an input field holds.
pub struct EditorModel {
    pub text: Seq<char>,
    pub cursor: int,
    pub anchor: Option<int>,
    pub width: nat,
}

impl View for Editor {
    type V = EditorModel;

    open spec fn view(&self) -> EditorModel {
        EditorModel {
            text: self.chars@,
            cursor: self.cursor as int,
            anchor: match self.anchor {
                Some(a) => Some(a as int),
                None => None,
            },
            width: self.width as nat,
        }
    }
}

/// An empty field.
pub open spec fn empty_field(width: nat) -> EditorModel {
    EditorModel { text: Seq::empty(), cursor: 0, anchor: None, width }
}

/// The field with another text and the cursor at its end.
pub open spec fn with_text(m: EditorModel, s: Seq<char>) -> EditorModel {
    EditorModel { text: s, cursor: s.len() as int, anchor: None, width: m.width }
}

/// Begin and end of the selection.
pub open spec fn selection(m: EditorModel) -> Option<(int, int)> {
    match m.anchor {
        Some(a) => if a < m.cursor {
            Some((a, m.cursor))
        } else if a > m.cursor {
            Some((m.cursor, a))
        } else {
            None
        },
        None => None,
    }
}

/// The field without what is selected.
pub open spec fn without_selection(m: EditorModel) -> EditorModel {
    match selection(m) {
        Some((from, to)) => EditorModel {
            text: m.text.take(from) + m.text.skip(to),
            cursor: from,
            anchor: None,
            width: m.width,
        },
        None => EditorModel { anchor: None, ..m },
    }
}

/// The field with a text at the cursor, in place of the selection.
pub open spec fn inserted(m: EditorModel, s: Seq<char>) -> EditorModel {
    let n = without_selection(m);
    EditorModel {
        text: n.text.take(n.cursor) + s + n.text.skip(n.cursor),
        cursor: n.cursor + s.len(),
        ..n
    }
}

/// The field after the key that removes what stands before the cursor.
pub open spec fn erased_before(m: EditorModel) -> EditorModel {
    let n = without_selection(m);
    if selection(m) is Some || n.cursor == 0 {
        n
    } else {
        EditorModel { text: n.text.remove(n.cursor - 1), cursor: n.cursor - 1, ..n }
    }
}

/// The field after the key that removes what stands behind the cursor.
pub open spec fn erased_behind(m: EditorModel) -> EditorModel {
    let n = without_selection(m);
    if selection(m) is Some || n.cursor >= n.text.len() {
        n
    } else {
        EditorModel { text: n.text.remove(n.cursor), ..n }
    }
}

/// The field with the cursor elsewhere. With `select` the selection goes along.
pub open spec fn moved_to(m: EditorModel, to: int, select: bool) -> EditorModel {
    EditorModel {
        cursor: to,
        anchor: if select {
            match m.anchor {
                Some(a) => Some(a),
                None => Some(m.cursor),
            }
        } else {
            None
        },
        ..m
    }
}

/// The position `delta` characters away, within the text.
pub open spec fn near(m: EditorModel, delta: int) -> int {
    let to = m.cursor + delta;
    if to < 0 {
        0
    } else if to > m.text.len() {
        m.text.len() as int
    } else {
        to
    }
}

/// Where blanks at the end of `s` begin.
pub open spec fn blanks_from(s: Seq<char>) -> int
    decreases s.len(),
{
    if s.len() > 0 && text::is_white(s.last()) {
        blanks_from(s.drop_last())
    } else {
        s.len() as int
    }
}

/// Where the word at the end of `s` begins.
pub open spec fn word_from(s: Seq<char>) -> int
    decreases s.len(),
{
    if s.len() > 0 && !text::is_white(s.last()) {
        word_from(s.drop_last())
    } else {
        s.len() as int
    }
}

/// Where blanks at the beginning of `s` end.
pub open spec fn blanks_to(s: Seq<char>) -> int
    decreases s.len(),
{
    if s.len() > 0 && text::is_white(s[0]) {
        1 + blanks_to(s.drop_first())
    } else {
        0
    }
}

/// Where the word at the beginning of `s` ends.
pub open spec fn word_to(s: Seq<char>) -> int
    decreases s.len(),
{
    if s.len() > 0 && !text::is_white(s[0]) {
        1 + word_to(s.drop_first())
    } else {
        0
    }
}

/// The beginning of the word before the cursor, or of the one behind it.
pub open spec fn word_target(m: EditorModel, back: bool) -> int {
    if back {
        let s = m.text.take(m.cursor);
        word_from(s.take(blanks_from(s)))
    } else {
        let s = m.text.skip(m.cursor);
        let w = word_to(s);
        m.cursor + w + blanks_to(s.skip(w))
    }
}

/// Row and column behind the last of the characters, in rows of `width`.
pub open spec fn place(s: Seq<char>, width: nat) -> (int, int)
    decreases s.len(),
{
    if s.len() == 0 {
        (0, 0)
    } else {
        let (row, col) = place(s.drop_last(), width);
        if s.last() == '\n' {
            (row + 1, 0)
        } else if col >= width {
            (row + 1, 1)
        } else {
            (row, col + 1)
        }
    }
}

/// The last position in a row that stands no further right than `col`.
pub open spec fn at_row(s: Seq<char>, width: nat, row: int, col: int) -> int
    decreases s.len(),
{
    if place(s, width).0 == row && place(s, width).1 <= col {
        s.len() as int
    } else if s.len() == 0 {
        0
    } else {
        at_row(s.drop_last(), width, row, col)
    }
}

/// The position in a row that is reached from the column `col`. A row that goes on from the one
/// above has no position at its left edge: there the one behind its first character is meant.
pub open spec fn row_target(s: Seq<char>, width: nat, row: int, col: int) -> int {
    if row > 0 && at_row(s, width, row, col) == 0 {
        at_row(s, width, row, 1)
    } else {
        at_row(s, width, row, col)
    }
}

/// The row of the cursor.
pub open spec fn cursor_row(m: EditorModel) -> int {
    place(m.text.take(m.cursor), m.width).0
}

/// The position one row up or down; where there is none, the beginning or the end.
pub open spec fn line_target(m: EditorModel, up: bool) -> int {
    let (row, col) = place(m.text.take(m.cursor), m.width);
    if up {
        if row == 0 {
            0
        } else {
            row_target(m.text, m.width, row - 1, col)
        }
    } else if row >= place(m.text, m.width).0 {
        m.text.len() as int
    } else {
        row_target(m.text, m.width, row + 1, col)
    }
}

proof fn lemma_words(s: Seq<char>)
    ensures
        0 <= blanks_from(s) <= s.len(),
        0 <= word_from(s) <= s.len(),
    decreases s.len(),
{
    if s.len() > 0 {
        lemma_words(s.drop_last());
    }
}

proof fn lemma_at_row(s: Seq<char>, width: nat, row: int, col: int)
    ensures
        0 <= at_row(s, width, row, col) <= s.len(),
    decreases s.len(),
{
    if s.len() > 0 {
        lemma_at_row(s.drop_last(), width, row, col);
    }
}

impl Editor {
    /// Cursor and anchor stand within the text.
    pub open spec fn wf(&self) -> bool {
        &&& self.cursor <= self.chars@.len()
        &&& (self.anchor matches Some(a) ==> a <= self.chars@.len())
        &&& self.width > 0
    }

    /// An empty field with rows of `width` characters, one at least.
    pub fn new(width: usize) -> (r: Self)
        ensures
            r.wf(),
            r@ == empty_field(if width == 0 { 1 } else { width as nat }),
    {
        Editor {
            chars: Vec::new(),
            cursor: 0,
            anchor: None,
            width: if width == 0 {
                1
            } else {
                width
            },
        }
    }

    /// Changes how many characters a row holds.
    pub fn set_width(&mut self, width: usize)
        requires
            old(self).wf(),
        ensures
            final(self).wf(),
            final(self)@ == (EditorModel {
                width: if width == 0 {
                    1
                } else {
                    width as nat
                },
                ..old(self)@
            }),
    {
        self.width = if width == 0 {
            1
        } else {
            width
        };
    }

    /// Replaces the text.
    pub fn set_text(&mut self, s: &str)
        requires
            old(self).wf(),
        ensures
            final(self).wf(),
            final(self)@ == with_text(old(self)@, s@),
    {
        self.chars = text::chars_of(s);
        self.cursor = self.chars.len();
        self.anchor = None;
    }

    /// The text.
    pub fn text_string(&self) -> (r: String)
        ensures
            r@ == self@.text,
    {
        let r = text::text_of(&self.chars, 0, self.chars.len());
        assert(r@ =~= self.chars@);
        r
    }

    /// Removes everything.
    pub fn clear(&mut self)
        requires
            old(self).wf(),
        ensures
            final(self).wf(),
            final(self)@ == empty_field(old(self)@.width),
    {
        self.chars = Vec::new();
        self.cursor = 0;
        self.anchor = None;
    }

    /// Whether there is no text.
    pub fn is_empty(&self) -> (r: bool)
        ensures
            r == (self@.text.len() == 0),
    {
        self.chars.len() == 0
    }

    /// Begin and end of the selection.
    pub fn selected_range(&self) -> (r: Option<std::ops::Range<usize>>)
        ensures
            match r {
                Some(x) => selection(self@) == Some((x.start as int, x.end as int)),
                None => selection(self@) is None,
            },
    {
        match self.anchor {
            Some(a) => if a < self.cursor {
                Some(a..self.cursor)
            } else if a > self.cursor {
                Some(self.cursor..a)
            } else {
                None
            },
            None => None,
        }
    }

    /// Removes what is selected and says whether there was something.
    fn drop_selection(&mut self) -> (r: bool)
        requires
            old(self).wf(),
        ensures
            final(self).wf(),
            r == (selection(old(self)@) is Some),
            final(self)@ == without_selection(old(self)@),
    {
        match self.selected_range() {
            Some(x) => {
                let from: usize = x.start;
                let to: usize = x.end;
                let mut kept: Vec<char> = Vec::new();
                let ghost all = self.chars@;
                let n: usize = self.chars.len();
                let mut i: usize = 0;
                while i < n
                    invariant
                        i <= n,
                        n == all.len(),
                        self.chars@ == all,
                        from < to <= n,
                        kept@ == (if i <= from {
                            all.take(i as int)
                        } else if i <= to {
                            all.take(from as int)
                        } else {
                            all.take(from as int) + all.subrange(to as int, i as int)
                        }),
                    decreases n - i,
                {
                    if i < from || i >= to {
                        kept.push(self.chars[i]);
                    }
                    assert(all.take(i + 1) =~= all.take(i as int).push(all[i as int]));
                    if i >= to {
                        assert(all.subrange(to as int, i + 1) =~= all.subrange(
                            to as int,
                            i as int,
                        ).push(all[i as int]));
                    }
                    assert(kept@ =~= (if i + 1 <= from {
                        all.take(i + 1)
                    } else if i + 1 <= to {
                        all.take(from as int)
                    } else {
                        all.take(from as int) + all.subrange(to as int, i + 1)
                    }));
                    i += 1;
                }
                assert(kept@ =~= all.take(from as int) + all.skip(to as int));
                self.chars = kept;
                self.cursor = from;
                self.anchor = None;
                true
            },
            None => {
                self.anchor = None;
                false
            },
        }
    }

    /// Inserts a character at the cursor, in place of the selection.
    pub fn insert_char(&mut self, c: char)
        requires
            old(self).wf(),
        ensures
            final(self).wf(),
            final(self)@ == inserted(old(self)@, seq![c]),
    {
        let _had = self.drop_selection();
        let ghost n = self@;
        let at: usize = self.cursor;
        self.chars.insert(at, c);
        let len: usize = self.chars.len();
        assert(self.chars@ =~= n.text.take(n.cursor) + seq![c] + n.text.skip(n.cursor));
        assert(at < len);
        self.cursor = at + 1;
    }

    /// Inserts a text at the cursor, in place of the selection.
    pub fn insert_text(&mut self, s: &str)
        requires
            old(self).wf(),
        ensures
            final(self).wf(),
            final(self)@ == inserted(old(self)@, s@),
    {
        let _had = self.drop_selection();
        let ghost n = self@;
        let cs = text::chars_of(s);
        let mut i: usize = 0;
        assert(self.chars@ =~= n.text.take(n.cursor) + s@.take(0) + n.text.skip(n.cursor));
        while i < cs.len()
            invariant
                i <= cs@.len(),
                cs@ == s@,
                0 <= n.cursor <= n.text.len(),
                self.cursor == n.cursor + i,
                self.chars@ == n.text.take(n.cursor) + s@.take(i as int) + n.text.skip(n.cursor),
                self.anchor is None,
                self.width == n.width,
                self.width > 0,
            decreases cs@.len() - i,
        {
            let at: usize = self.cursor;
            self.chars.insert(at, cs[i]);
            let len: usize = self.chars.len();
            assert(self.chars@ =~= n.text.take(n.cursor) + s@.take(i + 1) + n.text.skip(n.cursor));
            assert(at < len);
            self.cursor = at + 1;
            i += 1;
        }
        assert(s@.take(s@.len() as int) =~= s@);
    }

    /// Removes the selection, or the character before the cursor.
    pub fn backspace(&mut self)
        requires
            old(self).wf(),
        ensures
            final(self).wf(),
            final(self)@ == erased_before(old(self)@),
    {
        if !self.drop_selection() && self.cursor > 0 {
            self.cursor = self.cursor - 1;
            let at: usize = self.cursor;
            let _gone = self.chars.remove(at);
        }
    }

    /// Removes the selection, or the character behind the cursor.
    pub fn delete_at_cursor(&mut self)
        requires
            old(self).wf(),
        ensures
            final(self).wf(),
            final(self)@ == erased_behind(old(self)@),
    {
        if !self.drop_selection() && self.cursor < self.chars.len() {
            let at: usize = self.cursor;
            let _gone = self.chars.remove(at);
        }
    }

    fn go(&mut self, to: usize, select: bool)
        requires
            old(self).wf(),
            to <= old(self).chars@.len(),
        ensures
            final(self).wf(),
            final(self)@ == moved_to(old(self)@, to as int, select),
    {
        self.anchor = if select {
            match self.anchor {
                Some(a) => Some(a),
                None => Some(self.cursor),
            }
        } else {
            None
        };
        self.cursor = to;
    }

    /// Moves the cursor by `delta` characters.
    pub fn move_cursor(&mut self, delta: isize, select: bool)
        requires
            old(self).wf(),
        ensures
            final(self).wf(),
            final(self)@ == moved_to(old(self)@, near(old(self)@, delta as int), select),
    {
        let n: usize = self.chars.len();
        let to: usize = if delta < 0 {
            let back: i128 = -(delta as i128);
            if back > self.cursor as i128 {
                0
            } else {
                (self.cursor as i128 - back) as usize
            }
        } else {
            let sum: i128 = self.cursor as i128 + delta as i128;
            if sum > n as i128 {
                n
            } else {
                sum as usize
            }
        };
        self.go(to, select);
    }

    /// Moves the cursor to the beginning of the word before it (`delta` below zero) or behind it.
    pub fn move_word(&mut self, delta: isize, select: bool)
        requires
            old(self).wf(),
        ensures
            final(self).wf(),
            final(self)@ == moved_to(old(self)@, word_target(old(self)@, delta < 0), select),
    {
        let ghost m = self@;
        let n: usize = self.chars.len();
        let mut to: usize = self.cursor;
        if delta < 0 {
            let ghost s = m.text.take(m.cursor);
            assert(s.take(to as int) =~= s);
            while to > 0 && text::is_white_char(self.chars[to - 1])
                invariant
                    to <= m.cursor <= m.text.len(),
                    self.chars@ == m.text,
                    s == m.text.take(m.cursor),
                    blanks_from(s.take(to as int)) == blanks_from(s),
                decreases to,
            {
                assert(s.take(to as int).drop_last() =~= s.take(to - 1));
                assert(s.take(to as int).last() == m.text[to - 1]);
                to -= 1;
            }
            proof {
                if to > 0 {
                    assert(s.take(to as int).last() == m.text[to - 1]);
                }
                assert(to == blanks_from(s));
            }
            let ghost w = s.take(to as int);
            assert(w.take(to as int) =~= w);
            while to > 0 && !text::is_white_char(self.chars[to - 1])
                invariant
                    to <= w.len() <= m.cursor <= m.text.len(),
                    self.chars@ == m.text,
                    w == m.text.take(w.len() as int),
                    word_from(w.take(to as int)) == word_from(w),
                decreases to,
            {
                assert(w.take(to as int).drop_last() =~= w.take(to - 1));
                assert(w.take(to as int).last() == m.text[to - 1]);
                to -= 1;
            }
            proof {
                if to > 0 {
                    assert(w.take(to as int).last() == m.text[to - 1]);
                }
                assert(to == word_from(w));
            }
        } else {
            let ghost s = m.text.skip(m.cursor);
            assert(s.skip(0) =~= s);
            while to < n && !text::is_white_char(self.chars[to])
                invariant
                    0 <= m.cursor <= to <= n == m.text.len(),
                    self.chars@ == m.text,
                    s == m.text.skip(m.cursor),
                    word_to(s) == to - m.cursor + word_to(s.skip(to - m.cursor)),
                decreases n - to,
            {
                assert(s.skip(to - m.cursor)[0] == m.text[to as int]);
                assert(s.skip(to - m.cursor).drop_first() =~= s.skip(to + 1 - m.cursor));
                to += 1;
            }
            proof {
                if to < n {
                    assert(s.skip(to - m.cursor)[0] == m.text[to as int]);
                }
                assert(to == m.cursor + word_to(s));
            }
            let ghost base = to as int;
            let ghost t = m.text.skip(base);
            assert(s.skip(word_to(s)) =~= t);
            assert(t.skip(0) =~= t);
            while to < n && text::is_white_char(self.chars[to])
                invariant
                    base <= to <= n == m.text.len(),
                    0 <= base,
                    self.chars@ == m.text,
                    t == m.text.skip(base),
                    blanks_to(t) == to - base + blanks_to(t.skip(to - base)),
                decreases n - to,
            {
                assert(t.skip(to - base)[0] == m.text[to as int]);
                assert(t.skip(to - base).drop_first() =~= t.skip(to + 1 - base));
                to += 1;
            }
            proof {
                if to < n {
                    assert(t.skip(to - base)[0] == m.text[to as int]);
                }
            }
        }
        self.go(to, select);
    }

    /// Row and column behind the first `n` characters.
    fn place_of(&self, n: usize) -> (r: (usize, usize))
        requires
            self.wf(),
            n <= self.chars@.len(),
        ensures
            place(self@.text.take(n as int), self@.width) == (r.0 as int, r.1 as int),
            r.0 <= n,
            r.1 <= n,
    {
        let mut row: usize = 0;
        let mut col: usize = 0;
        let mut i: usize = 0;
        while i < n
            invariant
                i <= n <= self.chars@.len(),
                row <= i,
                col <= i,
                place(self@.text.take(i as int), self@.width) == (row as int, col as int),
            decreases n - i,
        {
            assert(self@.text.take(i + 1).drop_last() =~= self@.text.take(i as int));
            assert(self@.text.take(i + 1).last() == self.chars@[i as int]);
            if self.chars[i] == '\n' {
                row += 1;
                col = 0;
            } else if col >= self.width {
                row += 1;
                col = 1;
            } else {
                col += 1;
            }
            i += 1;
        }
        (row, col)
    }

    fn position_in_row(&self, row: usize, col: usize) -> (r: usize)
        requires
            self.wf(),
        ensures
            r == at_row(self@.text, self@.width, row as int, col as int),
            r <= self.chars@.len(),
    {
        let n: usize = self.chars.len();
        let ghost s = self@.text;
        let ghost w = self@.width;
        let mut best: usize = 0;
        let mut at_r: usize = 0;
        let mut at_c: usize = 0;
        let mut i: usize = 0;
        while i < n
            invariant
                i <= n == self.chars@.len(),
                at_r <= i,
                at_c <= i,
                best <= i,
                s == self.chars@,
                w == self.width,
                place(s.take(i as int), w) == (at_r as int, at_c as int),
                best == at_row(s.take(i as int), w, row as int, col as int),
            decreases n - i,
        {
            assert(s.take(i + 1).drop_last() =~= s.take(i as int));
            assert(s.take(i + 1).last() == self.chars@[i as int]);
            if self.chars[i] == '\n' {
                at_r += 1;
                at_c = 0;
            } else if at_c >= self.width {
                at_r += 1;
                at_c = 1;
            } else {
                at_c += 1;
            }
            i += 1;
            if at_r == row && at_c <= col {
                best = i;
            }
        }
        assert(s.take(n as int) =~= s);
        best
    }

    fn reached_in_row(&self, row: usize, col: usize) -> (r: usize)
        requires
            self.wf(),
        ensures
            r == row_target(self@.text, self@.width, row as int, col as int),
            r <= self.chars@.len(),
    {
        let r: usize = self.position_in_row(row, col);
        if row > 0 && r == 0 {
            self.position_in_row(row, 1)
        } else {
            r
        }
    }

    /// Moves the cursor one row up (`delta` below zero) or down.
    pub fn move_line(&mut self, delta: isize, select: bool)
        requires
            old(self).wf(),
        ensures
            final(self).wf(),
            final(self)@ == moved_to(old(self)@, line_target(old(self)@, delta < 0), select),
    {
        let n: usize = self.chars.len();
        let (row, col) = self.place_of(self.cursor);
        let to: usize = if delta < 0 {
            if row == 0 {
                0
            } else {
                self.reached_in_row(row - 1, col)
            }
        } else {
            let (last, _c) = self.place_of(n);
            assert(self@.text.take(n as int) =~= self@.text);
            if row >= last {
                n
            } else {
                self.reached_in_row(row + 1, col)
            }
        };
        self.go(to, select);
    }

    /// Moves the cursor to the beginning of the text.
    pub fn move_home(&mut self, select: bool)
        requires
            old(self).wf(),
        ensures
            final(self).wf(),
            final(self)@ == moved_to(old(self)@, 0, select),
    {
        self.go(0, select);
    }

    /// Moves the cursor to the end of the text.
    pub fn move_end(&mut self, select: bool)
        requires
            old(self).wf(),
        ensures
            final(self).wf(),
            final(self)@ == moved_to(old(self)@, old(self)@.text.len() as int, select),
    {
        let n: usize = self.chars.len();
        self.go(n, select);
    }

    /// Whether the cursor stands in the first row.
    pub fn cursor_is_first_row(&self) -> (r: bool)
        requires
            self.wf(),
        ensures
            r == (cursor_row(self@) == 0),
    {
        self.place_of(self.cursor).0 == 0
    }

    /// Whether the cursor stands in the last row.
    pub fn cursor_is_last_row(&self) -> (r: bool)
        requires
            self.wf(),
        ensures
            r == (cursor_row(self@) == place(self@.text, self@.width).0),
    {
        assert(self@.text.take(self@.text.len() as int) =~= self@.text);
        self.place_of(self.cursor).0 == self.place_of(self.chars.len()).0
    }
}

// ---------------------------------------------------------------------------
// Laws
// ---------------------------------------------------------------------------
/// Erasing what was just typed gives back the text before it.
pub proof fn law_erasing_undoes_typing(m: EditorModel, c: char)
    requires
        0 <= m.cursor <= m.text.len(),
        selection(m) is None,
    ensures
        erased_before(inserted(m, seq![c])).text == m.text,
        erased_before(inserted(m, seq![c])).cursor == m.cursor,
{
    let t = inserted(m, seq![c]);
    assert(t.text.remove(t.cursor - 1) =~= m.text);
}

/// Pasting in place of a selection leaves what stands around it.
pub proof fn law_pasting_replaces_the_selection(m: EditorModel, s: Seq<char>, from: int, to: int)
    requires
        0 <= from < to <= m.text.len(),
        selection(m) == Some((from, to)),
    ensures
        inserted(m, s).text == m.text.take(from) + s + m.text.skip(to),
        selection(inserted(m, s)) is None,
{
    let n = without_selection(m);
    assert(n.text.take(from) =~= m.text.take(from));
    assert(n.text.skip(from) =~= m.text.skip(to));
}

/// Wherever the cursor is sent, it stays within the text.
pub proof fn law_the_cursor_stays_in_the_text(m: EditorModel, delta: int, back: bool)
    requires
        0 <= m.cursor <= m.text.len(),
    ensures
        0 <= near(m, delta) <= m.text.len(),
        0 <= word_target(m, back) <= m.text.len(),
        0 <= line_target(m, back) <= m.text.len(),
{
    let s = m.text.take(m.cursor);
    lemma_words(s);
    lemma_words(s.take(blanks_from(s)));
    let t = m.text.skip(m.cursor);
    lemma_ends(t);
    lemma_ends(t.skip(word_to(t)));
    let (row, col) = place(s, m.width);
    lemma_at_row(m.text, m.width, row - 1, col);
    lemma_at_row(m.text, m.width, row + 1, col);
    lemma_at_row(m.text, m.width, row - 1, 1);
    lemma_at_row(m.text, m.width, row + 1, 1);
}

proof fn lemma_ends(s: Seq<char>)
    ensures
        0 <= word_to(s) <= s.len(),
        0 <= blanks_to(s) <= s.len(),
    decreases s.len(),
{
    if s.len() > 0 {
        lemma_ends(s.drop_first());
    }
}

/// What is typed stands where the cursor was, the cursor stands behind it, and nothing else changes.
pub proof fn law_typing_inserts_at_the_cursor(m: EditorModel, s: Seq<char>)
    requires
        m.anchor is None,
        0 <= m.cursor <= m.text.len(),
    ensures
        inserted(m, s).text == m.text.take(m.cursor) + s + m.text.skip(m.cursor),
        inserted(m, s).cursor == m.cursor + s.len(),
        inserted(m, s).anchor is None,
        inserted(m, s).width == m.width,
{
}

/// Erasing takes one character, before the cursor or behind it, or all that is marked; at the ends it
/// takes nothing.
pub proof fn law_erasing_takes_one_character(m: EditorModel)
    requires
        m.anchor is None,
        0 <= m.cursor <= m.text.len(),
    ensures
        m.cursor > 0 ==> erased_before(m).text == m.text.take(m.cursor - 1) + m.text.skip(m.cursor)
            && erased_before(m).cursor == m.cursor - 1,
        m.cursor == 0 ==> erased_before(m) == m,
        m.cursor < m.text.len() ==> erased_behind(m).text == m.text.take(m.cursor) + m.text.skip(
            m.cursor + 1,
        ) && erased_behind(m).cursor == m.cursor,
        m.cursor == m.text.len() ==> erased_behind(m) == m,
{
    if m.cursor > 0 {
        assert(erased_before(m).text =~= m.text.take(m.cursor - 1) + m.text.skip(m.cursor));
    }
    if m.cursor < m.text.len() {
        assert(erased_behind(m).text =~= m.text.take(m.cursor) + m.text.skip(m.cursor + 1));
    }
}

/// With something marked, erasing takes just that, and the cursor stands where it was.
pub proof fn law_erasing_takes_what_is_marked(m: EditorModel, from: int, to: int)
    requires
        0 <= from < to <= m.text.len(),
        (m.cursor == from && m.anchor == Some(to)) || (m.cursor == to && m.anchor == Some(from)),
    ensures
        selection(m) == Some((from, to)),
        erased_before(m).text == m.text.take(from) + m.text.skip(to),
        erased_behind(m).text == m.text.take(from) + m.text.skip(to),
        erased_before(m).cursor == from,
        erased_behind(m).cursor == from,
        erased_before(m).anchor is None,
{
}

/// Moving never changes the text. With marking, what was marked first stays the other end; without
/// it nothing is marked.
pub proof fn law_moving_keeps_the_text(m: EditorModel, to: int, select: bool)
    ensures
        moved_to(m, to, select).text == m.text,
        moved_to(m, to, select).cursor == to,
        !select ==> moved_to(m, to, select).anchor is None,
        select && m.anchor is Some ==> moved_to(m, to, select).anchor == m.anchor,
        select && m.anchor is None ==> moved_to(m, to, select).anchor == Some(m.cursor),
{
}

/// A step goes one character further, and stays at the ends.
pub proof fn law_steps_go_one_character(m: EditorModel)
    requires
        0 <= m.cursor <= m.text.len(),
    ensures
        m.cursor < m.text.len() ==> near(m, 1) == m.cursor + 1,
        m.cursor == m.text.len() ==> near(m, 1) == m.cursor,
        m.cursor > 0 ==> near(m, -1) == m.cursor - 1,
        m.cursor == 0 ==> near(m, -1) == 0,
{
}

proof fn lemma_word_to_is(w: Seq<char>, rest: Seq<char>)
    requires
        forall|i: int| 0 <= i < w.len() ==> !text::is_white(#[trigger] w[i]),
        rest.len() > 0 ==> text::is_white(rest[0]),
    ensures
        word_to(w + rest) == w.len(),
    decreases w.len(),
{
    if w.len() > 0 {
        let v = w.drop_first();
        assert forall|i: int| 0 <= i < v.len() implies !text::is_white(#[trigger] v[i]) by {
            assert(v[i] == w[i + 1]);
        }
        assert((w + rest).drop_first() =~= v + rest);
        assert((w + rest)[0] == w[0]);
        lemma_word_to_is(v, rest);
    } else {
        assert(w + rest =~= rest);
    }
}

proof fn lemma_blanks_to_is(b: Seq<char>, rest: Seq<char>)
    requires
        forall|i: int| 0 <= i < b.len() ==> text::is_white(#[trigger] b[i]),
        rest.len() > 0 ==> !text::is_white(rest[0]),
    ensures
        blanks_to(b + rest) == b.len(),
    decreases b.len(),
{
    if b.len() > 0 {
        let v = b.drop_first();
        assert forall|i: int| 0 <= i < v.len() implies text::is_white(#[trigger] v[i]) by {
            assert(v[i] == b[i + 1]);
        }
        assert((b + rest).drop_first() =~= v + rest);
        assert((b + rest)[0] == b[0]);
        lemma_blanks_to_is(v, rest);
    } else {
        assert(b + rest =~= rest);
    }
}

proof fn lemma_word_from_is(rest: Seq<char>, w: Seq<char>)
    requires
        forall|i: int| 0 <= i < w.len() ==> !text::is_white(#[trigger] w[i]),
        rest.len() > 0 ==> text::is_white(rest.last()),
    ensures
        word_from(rest + w) == rest.len(),
    decreases w.len(),
{
    if w.len() > 0 {
        let v = w.drop_last();
        assert forall|i: int| 0 <= i < v.len() implies !text::is_white(#[trigger] v[i]) by {
            assert(v[i] == w[i]);
        }
        assert((rest + w).drop_last() =~= rest + v);
        assert((rest + w).last() == w[w.len() - 1]);
        lemma_word_from_is(rest, v);
    } else {
        assert(rest + w =~= rest);
    }
}

proof fn lemma_blanks_from_is(rest: Seq<char>, b: Seq<char>)
    requires
        forall|i: int| 0 <= i < b.len() ==> text::is_white(#[trigger] b[i]),
        rest.len() > 0 ==> !text::is_white(rest.last()),
    ensures
        blanks_from(rest + b) == rest.len(),
    decreases b.len(),
{
    if b.len() > 0 {
        let v = b.drop_last();
        assert forall|i: int| 0 <= i < v.len() implies text::is_white(#[trigger] v[i]) by {
            assert(v[i] == b[i]);
        }
        assert((rest + b).drop_last() =~= rest + v);
        assert((rest + b).last() == b[b.len() - 1]);
        lemma_blanks_from_is(rest, v);
    } else {
        assert(rest + b =~= rest);
    }
}

/// A step by words goes to the beginning of the next word, or back to the beginning of the word
/// before.
#[verifier::rlimit(40)]
pub proof fn law_words_are_stepped_over(
    m: EditorModel,
    a: Seq<char>,
    w: Seq<char>,
    b: Seq<char>,
    rest: Seq<char>,
)
    requires
        m.text == a + w + b + rest,
        w.len() > 0,
        forall|i: int| 0 <= i < w.len() ==> !text::is_white(#[trigger] w[i]),
        b.len() > 0,
        forall|i: int| 0 <= i < b.len() ==> text::is_white(#[trigger] b[i]),
        a.len() > 0 ==> text::is_white(a.last()),
        rest.len() > 0 ==> !text::is_white(rest[0]),
    ensures
        m.cursor == a.len() ==> word_target(m, false) == a.len() + w.len() + b.len(),
        m.cursor == a.len() + w.len() + b.len() ==> word_target(m, true) == a.len(),
        m.cursor == a.len() + w.len() ==> word_target(m, true) == a.len(),
{
    let e = Seq::<char>::empty();
    assert(text::is_white(b[0]));
    assert(!text::is_white(w[w.len() - 1]));
    if m.cursor == a.len() {
        let s = m.text.skip(m.cursor);
        assert(s =~= w + (b + rest));
        lemma_word_to_is(w, b + rest);
        assert(s.skip(w.len() as int) =~= b + rest);
        lemma_blanks_to_is(b, rest);
    }
    if m.cursor == a.len() + w.len() + b.len() {
        let s = m.text.take(m.cursor);
        assert(s =~= (a + w) + b);
        assert((a + w).last() == w[w.len() - 1]);
        lemma_blanks_from_is(a + w, b);
        assert(s.take((a + w).len() as int) =~= a + w);
        lemma_word_from_is(a, w);
    }
    if m.cursor == a.len() + w.len() {
        let s = m.text.take(m.cursor);
        assert(s =~= (a + w) + e);
        assert((a + w).last() == w[w.len() - 1]);
        lemma_blanks_from_is(a + w, e);
        assert(s.take((a + w).len() as int) =~= a + w);
        lemma_word_from_is(a, w);
    }
}

/// A line that is longer than the field goes on in the next row, and a line end begins a new row.
pub proof fn law_rows_end_with_lines_or_with_the_field(s: Seq<char>, c: char, width: nat)
    requires
        width > 0,
    ensures
        place(Seq::empty(), width) == (0int, 0int),
        ({
            let (row, col) = place(s, width);
            &&& c == '\n' ==> place(s.push(c), width) == (row + 1, 0int)
            &&& c != '\n' && col < width ==> place(s.push(c), width) == (row, col + 1)
            &&& c != '\n' && col == width ==> place(s.push(c), width) == (row + 1, 1int)
            &&& 0 <= col <= width
        }),
    decreases s.len(),
{
    assert(s.push(c).drop_last() =~= s);
    if s.len() > 0 {
        law_rows_end_with_lines_or_with_the_field(s.drop_last(), s.last(), width);
        assert(s.drop_last().push(s.last()) =~= s);
    }
}

/// From the first row one goes up to the beginning, from the last one down to the end.
pub proof fn law_beyond_the_rows_are_the_ends(m: EditorModel)
    ensures
        cursor_row(m) == 0 ==> line_target(m, true) == 0,
        cursor_row(m) >= place(m.text, m.width).0 ==> line_target(m, false) == m.text.len(),
{
}

/// A place in a row is found where the text has it: in that row and not behind that column, as far
/// to the right as possible.
pub proof fn law_places_are_found_in_their_row(s: Seq<char>, width: nat, row: int, col: int)
    ensures
        ({
            let k = at_row(s, width, row, col);
            &&& 0 <= k <= s.len()
            &&& k > 0 ==> place(s.take(k), width).0 == row && place(s.take(k), width).1 <= col
            &&& forall|j: int|
                k < j <= s.len() ==> !((#[trigger] place(s.take(j), width)).0 == row && place(
                    s.take(j),
                    width,
                ).1 <= col)
        }),
    decreases s.len(),
{
    assert(s.take(s.len() as int) =~= s);
    if !(place(s, width).0 == row && place(s, width).1 <= col) && s.len() > 0 {
        let t = s.drop_last();
        law_places_are_found_in_their_row(t, width, row, col);
        let k = at_row(t, width, row, col);
        assert(s.take(k) =~= t.take(k));
        assert forall|j: int| k < j <= s.len() implies !((#[trigger] place(s.take(j), width)).0
            == row && place(s.take(j), width).1 <= col) by {
            if j < s.len() {
                assert(s.take(j) =~= t.take(j));
            }
        }
    }
}

/// A step by rows goes to the row above or below, to the same column or the one nearest before it.
pub proof fn law_rows_are_stepped_over(m: EditorModel)
    requires
        0 <= m.cursor <= m.text.len(),
    ensures
        ({
            let (row, col) = place(m.text.take(m.cursor), m.width);
            let up = line_target(m, true);
            let down = line_target(m, false);
            &&& row > 0 && up > 0 ==> place(m.text.take(up), m.width).0 == row - 1
            &&& row < place(m.text, m.width).0 && down > 0 ==> place(m.text.take(down), m.width).0
                == row + 1
            &&& row > 0 && at_row(m.text, m.width, row - 1, col) > 0 ==> place(
                m.text.take(up),
                m.width,
            ).1 <= col
        }),
{
    let (row, col) = place(m.text.take(m.cursor), m.width);
    law_places_are_found_in_their_row(m.text, m.width, row - 1, col);
    law_places_are_found_in_their_row(m.text, m.width, row - 1, 1);
    law_places_are_found_in_their_row(m.text, m.width, row + 1, col);
    law_places_are_found_in_their_row(m.text, m.width, row + 1, 1);
}

} // verus!
