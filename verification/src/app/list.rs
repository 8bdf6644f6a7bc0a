//! Moving through lists of choices.

use super::keys::{KeyCode, KeyEvent};
use vstd::prelude::*;

verus! {

// ---------------------------------------------------------------------------
// Heights
// ---------------------------------------------------------------------------
/// Whether `f` gives the heights `h`.
pub open spec fn agrees<F: Fn(usize) -> u16>(f: F, h: spec_fn(int) -> nat) -> bool {
    forall|i: usize, r: u16| #[trigger] call_ensures(f, (i,), r) ==> r == h(i as int)
}

/// Whether `f` gives one height for each entry.
pub open spec fn is_height<F: Fn(usize) -> u16>(f: F) -> bool {
    &&& forall|i: usize| call_requires(f, (i,))
    &&& exists|h: spec_fn(int) -> nat| agrees(f, h)
}

/// The height of the entries from `from` up to, but without, `to`.
pub open spec fn heights(h: spec_fn(int) -> nat, from: int, to: int) -> nat
    decreases to - from,
{
    if from >= to {
        0
    } else {
        h(from) + heights(h, from + 1, to)
    }
}

proof fn lemma_heights_end(h: spec_fn(int) -> nat, from: int, to: int)
    requires
        from <= to,
    ensures
        heights(h, from, to + 1) == heights(h, from, to) + h(to),
    decreases to - from,
{
    if from < to {
        lemma_heights_end(h, from + 1, to);
    } else {
        assert(heights(h, from + 1, to + 1) == 0);
    }
}

/// The first entry of a window that ends with `last`: as early as `from` where everything up to
/// `last` fits into `room`, else as little later as it takes; `last` itself at the latest.
pub open spec fn window_start(h: spec_fn(int) -> nat, from: int, last: int, room: nat) -> int
    decreases last - from,
{
    if from >= last || heights(h, from, last + 1) <= room {
        from
    } else {
        window_start(h, from + 1, last, room)
    }
}

/// The end of a window that begins with `from`: it takes entries while they fit.
pub open spec fn window_end(h: spec_fn(int) -> nat, from: int, len: int, room: int) -> int
    decreases len - from,
{
    if from >= len {
        from
    } else {
        let rows = if h(from) > 1 {
            h(from) as int
        } else {
            1
        };
        if rows <= room {
            window_end(h, from + 1, len, room - rows)
        } else {
            from
        }
    }
}

// ---------------------------------------------------------------------------
// The position in a list
// ---------------------------------------------------------------------------
/// The cursor and the first visible entry of a list.
#[derive(Debug, Clone, Copy, PartialEq, Eq, Structural)]
pub struct ListNav {
    pub len: usize,
    /// The marked entry.
    pub cursor: usize,
    /// The first visible entry.
    pub offset: usize,
    /// Whether moving past an end leads to the other one.
    pub wrap: bool,
}

/// `n` brought down to the last entry of a list.
pub open spec fn last_or(n: usize, len: usize) -> usize {
    if len == 0 {
        0
    } else if n < len {
        n
    } else {
        (len - 1) as usize
    }
}

fn clamp_to(n: usize, len: usize) -> (r: usize)
    ensures
        r == last_or(n, len),
{
    if len == 0 {
        0
    } else if n < len {
        n
    } else {
        len - 1
    }
}

/// The cursor after one step down.
pub open spec fn stepped_down(nav: ListNav) -> usize {
    if nav.cursor + 1 < nav.len {
        (nav.cursor + 1) as usize
    } else if nav.wrap {
        0
    } else {
        (nav.len - 1) as usize
    }
}

/// The cursor after one step up.
pub open spec fn stepped_up(nav: ListNav) -> usize {
    if nav.cursor > 0 {
        (nav.cursor - 1) as usize
    } else if nav.wrap {
        (nav.len - 1) as usize
    } else {
        0
    }
}

/// The size of a page: one at least.
pub open spec fn page_step(page: usize) -> nat {
    if page == 0 {
        1
    } else {
        page as nat
    }
}

/// The cursor after one page down.
pub open spec fn paged_down(nav: ListNav, page: usize) -> usize {
    let to = nav.cursor + page_step(page);
    if nav.wrap {
        (to % nav.len as int) as usize
    } else if to < nav.len {
        to as usize
    } else {
        (nav.len - 1) as usize
    }
}

/// The cursor after one page up.
pub open spec fn paged_up(nav: ListNav, page: usize) -> usize {
    let to = nav.cursor - page_step(page);
    if nav.wrap {
        (to % nav.len as int) as usize
    } else if to > 0 {
        to as usize
    } else {
        0
    }
}

/// The cursor after the key `code`; none where the key does not move.
pub open spec fn moved_cursor(nav: ListNav, code: KeyCode, viewport: u16) -> Option<usize> {
    match code {
        KeyCode::Down => Some(if nav.len == 0 { nav.cursor } else { stepped_down(nav) }),
        KeyCode::Char('j') => Some(if nav.len == 0 { nav.cursor } else { stepped_down(nav) }),
        KeyCode::Up => Some(if nav.len == 0 { nav.cursor } else { stepped_up(nav) }),
        KeyCode::Char('k') => Some(if nav.len == 0 { nav.cursor } else { stepped_up(nav) }),
        KeyCode::PageDown => Some(
            if nav.len == 0 {
                nav.cursor
            } else {
                paged_down(nav, viewport as usize)
            },
        ),
        KeyCode::PageUp => Some(
            if nav.len == 0 {
                nav.cursor
            } else {
                paged_up(nav, viewport as usize)
            },
        ),
        KeyCode::Home => Some(0),
        KeyCode::End => Some(last_or(usize::MAX, nav.len)),
        _ => None,
    }
}

/// The first visible entry after the window has followed the cursor.
pub open spec fn followed(nav: ListNav, viewport: u16, h: spec_fn(int) -> nat) -> int {
    if nav.len == 0 || viewport == 0 {
        0
    } else {
        window_start(
            h,
            if nav.cursor < nav.offset {
                nav.cursor as int
            } else {
                nav.offset as int
            },
            nav.cursor as int,
            viewport as nat,
        )
    }
}

impl ListNav {
    /// The cursor marks an entry, where there is any.
    pub open spec fn wf(&self) -> bool {
        self.cursor < self.len || (self.len == 0 && self.cursor == 0)
    }

    /// A list of `len` entries, the first one marked. Moving stops at the ends.
    pub fn new(len: usize) -> (r: Self)
        ensures
            r == (ListNav { len, cursor: 0, offset: 0, wrap: false }),
            r.wf(),
    {
        ListNav { len, cursor: 0, offset: 0, wrap: false }
    }

    /// A list of `len` entries with `cursor` marked. Moving past an end leads to the other one.
    pub fn with_wrap_at(len: usize, cursor: usize) -> (r: Self)
        ensures
            r == (ListNav { len, cursor: last_or(cursor, len), offset: 0, wrap: true }),
            r.wf(),
    {
        ListNav { len, cursor: clamp_to(cursor, len), offset: 0, wrap: true }
    }

    /// A list of `len` entries with `cursor` marked. Moving stops at the ends.
    pub fn new_at(len: usize, cursor: usize) -> (r: Self)
        ensures
            r == (ListNav { len, cursor: last_or(cursor, len), offset: 0, wrap: false }),
            r.wf(),
    {
        ListNav { len, cursor: clamp_to(cursor, len), offset: 0, wrap: false }
    }

    /// Marks the entry `cursor`, or the last one.
    pub fn set_cursor(&mut self, cursor: usize)
        ensures
            *final(self) == (ListNav { cursor: last_or(cursor, old(self).len), ..*old(self) }),
            final(self).wf(),
    {
        self.cursor = clamp_to(cursor, self.len);
    }

    /// How many entries there are.
    pub fn len(&self) -> (r: usize)
        ensures
            r == self.len,
    {
        self.len
    }

    /// Whether there are no entries.
    pub fn is_empty(&self) -> (r: bool)
        ensures
            r == (self.len == 0),
    {
        self.len == 0
    }

    /// The marked entry.
    pub fn cursor(&self) -> (r: usize)
        ensures
            r == self.cursor,
    {
        self.cursor
    }

    /// The first visible entry.
    pub fn offset(&self) -> (r: usize)
        ensures
            r == self.offset,
    {
        self.offset
    }

    /// The marked entry, where there is one.
    pub fn selected(&self) -> (r: Option<usize>)
        ensures
            r == (if self.cursor < self.len {
                Some(self.cursor)
            } else {
                None
            }),
    {
        if self.cursor < self.len {
            Some(self.cursor)
        } else {
            None
        }
    }

    /// Changes the number of entries.
    pub fn set_len(&mut self, len: usize)
        ensures
            *final(self) == (ListNav {
                len,
                cursor: last_or(old(self).cursor, len),
                offset: last_or(old(self).offset, len),
                wrap: old(self).wrap,
            }),
            final(self).wf(),
    {
        self.len = len;
        self.cursor = clamp_to(self.cursor, len);
        self.offset = clamp_to(self.offset, len);
    }

    /// One entry down.
    pub fn move_down(&mut self)
        requires
            old(self).wf(),
        ensures
            *final(self) == (if old(self).len == 0 {
                *old(self)
            } else {
                ListNav { cursor: stepped_down(*old(self)), ..*old(self) }
            }),
            final(self).wf(),
    {
        if self.len == 0 {
            return ;
        }
        self.cursor = if self.cursor + 1 < self.len {
            self.cursor + 1
        } else if self.wrap {
            0
        } else {
            self.len - 1
        };
    }

    /// One entry up.
    pub fn move_up(&mut self)
        requires
            old(self).wf(),
        ensures
            *final(self) == (if old(self).len == 0 {
                *old(self)
            } else {
                ListNav { cursor: stepped_up(*old(self)), ..*old(self) }
            }),
            final(self).wf(),
    {
        if self.len == 0 {
            return ;
        }
        self.cursor = if self.cursor > 0 {
            self.cursor - 1
        } else if self.wrap {
            self.len - 1
        } else {
            0
        };
    }

    /// One page down.
    pub fn page_down(&mut self, page: usize)
        requires
            old(self).wf(),
        ensures
            *final(self) == (if old(self).len == 0 {
                *old(self)
            } else {
                ListNav { cursor: paged_down(*old(self), page), ..*old(self) }
            }),
            final(self).wf(),
    {
        if self.len == 0 {
            return ;
        }
        let step: usize = if page == 0 {
            1
        } else {
            page
        };
        let left: usize = self.len - self.cursor;
        if self.wrap {
            let rest: usize = step % self.len;
            proof {
                lemma_wrap_down(self.cursor as int, step as int, self.len as int);
            }
            self.cursor = if rest < left {
                self.cursor + rest
            } else {
                rest - left
            };
        } else {
            self.cursor = if step < left {
                self.cursor + step
            } else {
                self.len - 1
            };
        }
    }

    /// One page up.
    pub fn page_up(&mut self, page: usize)
        requires
            old(self).wf(),
        ensures
            *final(self) == (if old(self).len == 0 {
                *old(self)
            } else {
                ListNav { cursor: paged_up(*old(self), page), ..*old(self) }
            }),
            final(self).wf(),
    {
        if self.len == 0 {
            return ;
        }
        let step: usize = if page == 0 {
            1
        } else {
            page
        };
        if self.wrap {
            let rest: usize = step % self.len;
            proof {
                lemma_wrap_up(self.cursor as int, step as int, self.len as int);
            }
            self.cursor = if rest <= self.cursor {
                self.cursor - rest
            } else {
                self.len - (rest - self.cursor)
            };
        } else {
            self.cursor = if step < self.cursor {
                self.cursor - step
            } else {
                0
            };
        }
    }

    /// To the first entry.
    pub fn move_top(&mut self)
        ensures
            *final(self) == (ListNav { cursor: 0, ..*old(self) }),
            final(self).wf(),
    {
        self.cursor = 0;
    }

    /// To the last entry.
    pub fn move_bottom(&mut self)
        ensures
            *final(self) == (ListNav { cursor: last_or(usize::MAX, old(self).len), ..*old(self) }),
            final(self).wf(),
    {
        self.cursor = if self.len == 0 {
            0
        } else {
            self.len - 1
        };
    }

    /// Lets the window follow the cursor. `viewport` is its height, and `row_of` gives the height
    /// of each entry. An entry higher than the window stands at its beginning.
    pub fn follow<F: Fn(usize) -> u16>(&mut self, viewport: u16, row_of: F)
        requires
            old(self).wf(),
            is_height(row_of),
        ensures
            forall|h: spec_fn(int) -> nat| #[trigger]
                agrees(row_of, h) ==> *final(self) == (ListNav {
                    offset: followed(*old(self), viewport, h) as usize,
                    ..*old(self)
                }),
            final(self).wf(),
    {
        if self.len == 0 || viewport == 0 {
            self.offset = 0;
            return ;
        }
        let last: usize = self.cursor;
        let start: usize = if last < self.offset {
            last
        } else {
            self.offset
        };
        let mut rows: u128 = 0;
        let mut i: usize = start;
        while i < last
            invariant
                start <= i <= last,
                is_height(row_of),
                rows <= (i - start) * 0xffff,
                forall|h: spec_fn(int) -> nat| #[trigger]
                    agrees(row_of, h) ==> rows == heights(h, start as int, i as int),
            decreases last - i,
        {
            let tall: u16 = row_of(i);
            rows = rows + tall as u128;
            proof {
                assert forall|h: spec_fn(int) -> nat| #[trigger] agrees(row_of, h) implies rows
                    == heights(h, start as int, i + 1) by {
                    lemma_heights_end(h, start as int, i as int);
                }
            }
            i += 1;
        }
        let tall: u16 = row_of(last);
        rows = rows + tall as u128;
        proof {
            assert forall|h: spec_fn(int) -> nat| #[trigger] agrees(row_of, h) implies rows
                == heights(h, start as int, last + 1) by {
                lemma_heights_end(h, start as int, last as int);
            }
        }
        let mut offset: usize = start;
        while offset < last && rows > viewport as u128
            invariant
                start <= offset <= last,
                is_height(row_of),
                forall|h: spec_fn(int) -> nat| #[trigger]
                    agrees(row_of, h) ==> {
                        &&& rows == heights(h, offset as int, last + 1)
                        &&& window_start(h, start as int, last as int, viewport as nat)
                            == window_start(h, offset as int, last as int, viewport as nat)
                    },
            decreases last - offset,
        {
            let tall: u16 = row_of(offset);
            assert(rows >= tall) by {
                let h = choose|h: spec_fn(int) -> nat| agrees(row_of, h);
                assert(agrees(row_of, h));
                assert(tall == h(offset as int));
            }
            rows = rows - tall as u128;
            offset += 1;
        }
        self.offset = offset;
    }

    /// The visible entries of a list of single lines.
    pub fn visible(&self, viewport: u16) -> (r: std::ops::Range<usize>)
        ensures
            self.len == 0 || viewport == 0 ==> r.start == 0 && r.end == 0,
            self.len > 0 && viewport > 0 ==> {
                &&& r.start == (if self.offset < self.len {
                    self.offset
                } else {
                    self.len
                })
                &&& r.end == (if r.start + viewport < self.len {
                    r.start + viewport
                } else {
                    self.len as int
                })
            },
    {
        if self.len == 0 || viewport == 0 {
            return 0..0;
        }
        let start: usize = if self.offset < self.len {
            self.offset
        } else {
            self.len
        };
        let end: usize = if (viewport as usize) < self.len - start {
            start + viewport as usize
        } else {
            self.len
        };
        start..end
    }

    /// The visible entries of a list of entries of any height: as many as fit, one at least.
    pub fn visible_rows<F: Fn(usize) -> u16>(&self, viewport: u16, row_of: F) -> (r:
        std::ops::Range<usize>)
        requires
            is_height(row_of),
        ensures
            self.len == 0 || viewport == 0 ==> r.start == 0 && r.end == 0,
            self.len > 0 && viewport > 0 ==> r.start == (if self.offset < self.len {
                self.offset
            } else {
                self.len
            }),
            forall|h: spec_fn(int) -> nat| #[trigger]
                agrees(row_of, h) && self.len > 0 && viewport > 0 ==> ({
                    let end = window_end(h, r.start as int, self.len as int, viewport as int);
                    r.end == (if end == r.start && r.start < self.len {
                        end + 1
                    } else {
                        end
                    })
                }),
    {
        if self.len == 0 || viewport == 0 {
            return 0..0;
        }
        let start: usize = if self.offset < self.len {
            self.offset
        } else {
            self.len
        };
        let mut room: u16 = viewport;
        let mut end: usize = start;
        let mut fits = true;
        while end < self.len && fits
            invariant
                start <= end <= self.len,
                is_height(row_of),
                forall|h: spec_fn(int) -> nat| #[trigger]
                    agrees(row_of, h) ==> window_end(
                        h,
                        start as int,
                        self.len as int,
                        viewport as int,
                    ) == (if fits {
                        window_end(h, end as int, self.len as int, room as int)
                    } else {
                        end as int
                    }),
            decreases self.len - end + (if fits { 1int } else { 0 }),
        {
            let tall: u16 = row_of(end);
            let rows: u16 = if tall > 1 {
                tall
            } else {
                1
            };
            if rows <= room {
                room = room - rows;
                end += 1;
            } else {
                fits = false;
            }
        }
        if end == start && start < self.len {
            end = start + 1;
        }
        start..end
    }

    /// Moves with the keys that move in every list, and lets the window follow. The result says
    /// whether the key was one of them.
    pub fn handle_move<F: Fn(usize) -> u16>(
        &mut self,
        key: &KeyEvent,
        viewport: u16,
        row_of: F,
    ) -> (r: bool)
        requires
            old(self).wf(),
            is_height(row_of),
        ensures
            r == (moved_cursor(*old(self), key.code, viewport) is Some),
            !r ==> *final(self) == *old(self),
            forall|h: spec_fn(int) -> nat| #[trigger]
                agrees(row_of, h) && r ==> ({
                    let to = ListNav {
                        cursor: moved_cursor(*old(self), key.code, viewport)->0,
                        ..*old(self)
                    };
                    *final(self) == (ListNav { offset: followed(to, viewport, h) as usize, ..to })
                }),
            final(self).wf(),
    {
        let moved = match key.code {
            KeyCode::Down => {
                self.move_down();
                true
            },
            KeyCode::Up => {
                self.move_up();
                true
            },
            KeyCode::PageDown => {
                self.page_down(viewport as usize);
                true
            },
            KeyCode::PageUp => {
                self.page_up(viewport as usize);
                true
            },
            KeyCode::Home => {
                self.move_top();
                true
            },
            KeyCode::End => {
                self.move_bottom();
                true
            },
            KeyCode::Char(c) => if c == 'j' {
                self.move_down();
                true
            } else if c == 'k' {
                self.move_up();
                true
            } else {
                false
            },
            _ => false,
        };
        if moved {
            self.follow(viewport, row_of);
        }
        moved
    }
}

proof fn lemma_wrap_down(cursor: int, step: int, len: int)
    requires
        0 <= cursor < len,
        0 <= step,
    ensures
        (cursor + step) % len == (if step % len < len - cursor {
            cursor + step % len
        } else {
            step % len - (len - cursor)
        }),
{
    vstd::arithmetic::div_mod::lemma_add_mod_noop(cursor, step, len);
    vstd::arithmetic::div_mod::lemma_small_mod(cursor as nat, len as nat);
    let s = cursor + step % len;
    vstd::arithmetic::div_mod::lemma_mod_bound(step, len);
    if s < len {
        vstd::arithmetic::div_mod::lemma_small_mod(s as nat, len as nat);
    } else {
        vstd::arithmetic::div_mod::lemma_mod_sub_multiples_vanish(s, len);
        vstd::arithmetic::div_mod::lemma_small_mod((s - len) as nat, len as nat);
    }
}

proof fn lemma_wrap_up(cursor: int, step: int, len: int)
    requires
        0 <= cursor < len,
        0 <= step,
    ensures
        (cursor - step) % len == (if step % len <= cursor {
            cursor - step % len
        } else {
            len - (step % len - cursor)
        }),
{
    vstd::arithmetic::div_mod::lemma_sub_mod_noop(cursor, step, len);
    vstd::arithmetic::div_mod::lemma_small_mod(cursor as nat, len as nat);
    vstd::arithmetic::div_mod::lemma_mod_bound(step, len);
    let s = cursor - step % len;
    if s >= 0 {
        vstd::arithmetic::div_mod::lemma_small_mod(s as nat, len as nat);
    } else {
        vstd::arithmetic::div_mod::lemma_mod_add_multiples_vanish(s, len);
        vstd::arithmetic::div_mod::lemma_small_mod((s + len) as nat, len as nat);
    }
}

// ---------------------------------------------------------------------------
// A list with its position
// ---------------------------------------------------------------------------
/// A list of choices and the position in it.
pub struct Selection<T> {
    pub items: Vec<T>,
    pub nav: ListNav,
}

impl<T> Selection<T> {
    /// The position belongs to the list.
    pub open spec fn wf(&self) -> bool {
        self.nav.wf() && self.nav.len == self.items@.len()
    }

    /// A list with `cursor` marked.
    pub fn new_at(items: Vec<T>, cursor: usize) -> (r: Self)
        ensures
            r.items == items,
            r.nav == (ListNav {
                len: items@.len() as usize,
                cursor: last_or(cursor, items@.len() as usize),
                offset: 0,
                wrap: false,
            }),
            r.wf(),
    {
        let len: usize = items.len();
        Selection { items, nav: ListNav::new_at(len, cursor) }
    }

    /// A list with `cursor` marked whose ends lead to each other.
    pub fn wrap_at(items: Vec<T>, cursor: usize) -> (r: Self)
        ensures
            r.items == items,
            r.nav == (ListNav {
                len: items@.len() as usize,
                cursor: last_or(cursor, items@.len() as usize),
                offset: 0,
                wrap: true,
            }),
            r.wf(),
    {
        let len: usize = items.len();
        Selection { items, nav: ListNav::with_wrap_at(len, cursor) }
    }

    /// Appends an entry.
    pub fn push(&mut self, item: T)
        ensures
            final(self).items@ == old(self).items@.push(item),
            final(self).nav == (ListNav {
                len: (old(self).items@.len() + 1) as usize,
                cursor: last_or(old(self).nav.cursor, (old(self).items@.len() + 1) as usize),
                offset: last_or(old(self).nav.offset, (old(self).items@.len() + 1) as usize),
                wrap: old(self).nav.wrap,
            }),
            final(self).wf(),
    {
        self.items.push(item);
        let n: usize = self.items.len();
        self.nav.set_len(n);
    }

    /// Marks the entry `cursor`, or the last one.
    pub fn set_cursor(&mut self, cursor: usize)
        requires
            old(self).wf(),
        ensures
            final(self).items == old(self).items,
            final(self).nav == (ListNav {
                cursor: last_or(cursor, old(self).nav.len),
                ..old(self).nav
            }),
            final(self).wf(),
    {
        self.nav.set_cursor(cursor);
    }

    /// Replaces the entries.
    pub fn set_items(&mut self, items: Vec<T>)
        ensures
            final(self).items == items,
            final(self).nav == (ListNav {
                len: items@.len() as usize,
                cursor: last_or(old(self).nav.cursor, items@.len() as usize),
                offset: last_or(old(self).nav.offset, items@.len() as usize),
                wrap: old(self).nav.wrap,
            }),
            final(self).wf(),
    {
        let len: usize = items.len();
        self.items = items;
        self.nav.set_len(len);
    }

    /// The marked entry.
    pub fn selected(&self) -> (r: Option<&T>)
        requires
            self.wf(),
        ensures
            match r {
                Some(x) => self.items@.len() > 0 && *x == self.items@[self.nav.cursor as int],
                None => self.items@.len() == 0,
            },
    {
        match self.nav.selected() {
            Some(i) => Some(&self.items[i]),
            None => None,
        }
    }

    /// Moves with the keys that move in every list of single lines.
    pub fn handle_move(&mut self, key: &KeyEvent, viewport: u16) -> (r: bool)
        requires
            old(self).wf(),
        ensures
            final(self).items == old(self).items,
            final(self).wf(),
            line_moved(old(self).nav, final(self).nav, key.code, viewport, r),
    {
        move_by_line(&mut self.nav, key, viewport)
    }
}

/// How far the first visible entry of single lines stands after the window followed the cursor.
pub open spec fn line_offset(nav: ListNav, viewport: u16) -> int {
    if nav.len == 0 || viewport == 0 {
        0
    } else if nav.cursor < nav.offset {
        nav.cursor as int
    } else if nav.cursor - nav.offset < viewport {
        nav.offset as int
    } else {
        nav.cursor + 1 - viewport
    }
}

/// The position after a key in a list of single lines; unchanged where the key does not move.
#[verifier::opaque]
pub open spec fn after_key(pre: ListNav, code: KeyCode, viewport: u16) -> ListNav {
    match moved_cursor(pre, code, viewport) {
        Some(c) => {
            let there = ListNav { cursor: c, ..pre };
            ListNav { offset: line_offset(there, viewport) as usize, ..there }
        },
        None => pre,
    }
}

/// Whether `post` is `pre` after a key in a list of single lines; `used` says whether it moves.
pub open spec fn line_moved(
    pre: ListNav,
    post: ListNav,
    code: KeyCode,
    viewport: u16,
    used: bool,
) -> bool {
    &&& used == (moved_cursor(pre, code, viewport) is Some)
    &&& post == after_key(pre, code, viewport)
}

proof fn lemma_line_heights(from: int, to: int)
    requires
        from <= to,
    ensures
        heights(|i: int| 1nat, from, to) == to - from,
    decreases to - from,
{
    if from < to {
        lemma_line_heights(from + 1, to);
    }
}

proof fn lemma_line_start(from: int, last: int, room: nat)
    requires
        from <= last,
        room > 0,
    ensures
        window_start(|i: int| 1nat, from, last, room) == (if last - from < room {
            from
        } else {
            last + 1 - room
        }),
    decreases last - from,
{
    lemma_line_heights(from, last + 1);
    if from < last && last + 1 - from > room {
        lemma_line_start(from + 1, last, room);
    }
}

/// Moves in a list of single lines. The result says whether the key was one that moves.
pub fn move_by_line(nav: &mut ListNav, key: &KeyEvent, viewport: u16) -> (r: bool)
    requires
        old(nav).wf(),
    ensures
        line_moved(*old(nav), *final(nav), key.code, viewport, r),
        final(nav).len == old(nav).len,
        final(nav).wf(),
{
    let one = |_i: usize| -> (rows: u16)
        ensures
            rows == 1,
        { 1 };
    let ghost pre = *nav;
    proof {
        reveal(after_key);
        assert(agrees(one, |i: int| 1nat));
        let to = ListNav { cursor: moved_cursor(pre, key.code, viewport)->0, ..pre };
        let start = if to.cursor < to.offset {
            to.cursor as int
        } else {
            to.offset as int
        };
        if viewport > 0 {
            lemma_line_start(start, to.cursor as int, viewport as nat);
        }
    }
    nav.handle_move(key, viewport, one)
}

// ---------------------------------------------------------------------------
// Laws
// ---------------------------------------------------------------------------
/// However one moves, some entry stays marked.
pub proof fn law_moving_keeps_a_mark(nav: ListNav, code: KeyCode, viewport: u16)
    requires
        nav.wf(),
        moved_cursor(nav, code, viewport) is Some,
    ensures
        (ListNav { cursor: moved_cursor(nav, code, viewport)->0, ..nav }).wf(),
{
    if nav.len > 0 {
        let step = page_step(viewport as usize);
        vstd::arithmetic::div_mod::lemma_mod_bound(nav.cursor + step, nav.len as int);
        vstd::arithmetic::div_mod::lemma_mod_bound(nav.cursor - step, nav.len as int);
    }
}

/// Where the ends lead to each other, a step up undoes a step down, and the other way round.
pub proof fn law_steps_undo_each_other(nav: ListNav)
    requires
        nav.wf(),
        nav.len > 0,
        nav.wrap,
    ensures
        stepped_up(ListNav { cursor: stepped_down(nav), ..nav }) == nav.cursor,
        stepped_down(ListNav { cursor: stepped_up(nav), ..nav }) == nav.cursor,
{
}

proof fn lemma_window_start(h: spec_fn(int) -> nat, from: int, last: int, room: nat)
    requires
        from <= last,
    ensures
        from <= window_start(h, from, last, room) <= last,
        window_start(h, from, last, room) < last ==> heights(
            h,
            window_start(h, from, last, room),
            last + 1,
        ) <= room,
    decreases last - from,
{
    if from < last && heights(h, from, last + 1) > room {
        lemma_window_start(h, from + 1, last, room);
    }
}

/// The window follows the cursor: the marked entry stands in it, with everything before it, or it
/// is the first one.
pub proof fn law_marked_entry_is_in_the_window(
    nav: ListNav,
    viewport: u16,
    h: spec_fn(int) -> nat,
)
    requires
        nav.wf(),
        nav.len > 0,
        viewport > 0,
    ensures
        0 <= followed(nav, viewport, h) <= nav.cursor,
        followed(nav, viewport, h) < nav.cursor ==> heights(
            h,
            followed(nav, viewport, h),
            nav.cursor + 1,
        ) <= viewport,
{
    lemma_window_start(
        h,
        if nav.cursor < nav.offset {
            nav.cursor as int
        } else {
            nav.offset as int
        },
        nav.cursor as int,
        viewport as nat,
    );
}

/// A window that has followed the cursor stays where it is.
pub proof fn law_following_twice_changes_nothing(
    nav: ListNav,
    viewport: u16,
    h: spec_fn(int) -> nat,
)
    requires
        nav.wf(),
    ensures
        ({
            let there = ListNav { offset: followed(nav, viewport, h) as usize, ..nav };
            followed(there, viewport, h) == followed(nav, viewport, h)
        }),
{
    if nav.len > 0 && viewport > 0 {
        law_marked_entry_is_in_the_window(nav, viewport, h);
    }
}

/// The marked line is visible after every move.
pub proof fn law_marked_line_is_visible(nav: ListNav, viewport: u16)
    requires
        nav.wf(),
        nav.len > 0,
        viewport > 0,
    ensures
        line_offset(nav, viewport) <= nav.cursor < line_offset(nav, viewport) + viewport,
{
}

/// The keys move the mark as their names say: one entry down or up, a window down or up, to the first
/// or to the last one; any other key leaves it.
pub proof fn law_keys_move_the_mark(nav: ListNav, viewport: u16)
    requires
        nav.wf(),
        nav.len > 0,
        !nav.wrap,
    ensures
        ({
            let down = after_key(nav, KeyCode::Down, viewport);
            let up = after_key(nav, KeyCode::Up, viewport);
            let next = after_key(nav, KeyCode::PageDown, viewport);
            let back = after_key(nav, KeyCode::PageUp, viewport);
            let page: int = if viewport == 0 {
                1
            } else {
                viewport as int
            };
            &&& nav.cursor + 1 < nav.len ==> down.cursor == nav.cursor + 1
            &&& nav.cursor + 1 == nav.len ==> down.cursor == nav.cursor
            &&& nav.cursor > 0 ==> up.cursor == nav.cursor - 1
            &&& nav.cursor == 0 ==> up.cursor == 0
            &&& after_key(nav, KeyCode::Char('j'), viewport) == down
            &&& after_key(nav, KeyCode::Char('k'), viewport) == up
            &&& nav.cursor + page < nav.len ==> next.cursor == nav.cursor + page
            &&& nav.cursor + page >= nav.len ==> next.cursor == nav.len - 1
            &&& nav.cursor >= page ==> back.cursor == nav.cursor - page
            &&& nav.cursor < page ==> back.cursor == 0
            &&& after_key(nav, KeyCode::Home, viewport).cursor == 0
            &&& after_key(nav, KeyCode::End, viewport).cursor == nav.len - 1
            &&& after_key(nav, KeyCode::Enter, viewport) == nav
            &&& after_key(nav, KeyCode::Esc, viewport) == nav
            &&& after_key(nav, KeyCode::Left, viewport) == nav
            &&& after_key(nav, KeyCode::Right, viewport) == nav
            &&& down.len == nav.len && up.len == nav.len && down.wrap == nav.wrap
        }),
{
    reveal(after_key);
}

/// In a list whose ends lead to each other a step beyond an end leads to the other one.
pub proof fn law_wrapped_lists_have_no_ends(nav: ListNav, viewport: u16)
    requires
        nav.wf(),
        nav.len > 0,
        nav.wrap,
    ensures
        nav.cursor + 1 == nav.len ==> after_key(nav, KeyCode::Down, viewport).cursor == 0,
        nav.cursor + 1 < nav.len ==> after_key(nav, KeyCode::Down, viewport).cursor == nav.cursor
            + 1,
        nav.cursor == 0 ==> after_key(nav, KeyCode::Up, viewport).cursor == nav.len - 1,
        nav.cursor > 0 ==> after_key(nav, KeyCode::Up, viewport).cursor == nav.cursor - 1,
{
    reveal(after_key);
}

/// The window moves no further than the mark asks for: it stays where the mark is in it, and else
/// ends or begins with the mark.
pub proof fn law_the_window_moves_as_little_as_needed(nav: ListNav, viewport: u16)
    requires
        nav.wf(),
        nav.len > 0,
        viewport > 0,
    ensures
        nav.offset <= nav.cursor < nav.offset + viewport ==> line_offset(nav, viewport)
            == nav.offset,
        nav.cursor < nav.offset ==> line_offset(nav, viewport) == nav.cursor,
        nav.cursor >= nav.offset + viewport ==> line_offset(nav, viewport) + viewport == nav.cursor
            + 1,
{
}

/// A mark beyond the end goes to the last entry.
pub proof fn law_marks_stay_in_the_list(n: usize, len: usize)
    ensures
        len == 0 ==> last_or(n, len) == 0,
        n < len ==> last_or(n, len) == n,
        len > 0 && n >= len ==> last_or(n, len) == len - 1,
{
}

/// The entries that are shown fit into the window one after the other, each with a row at least, and
/// no further one would.
pub proof fn law_shown_entries_fill_the_window(h: spec_fn(int) -> nat, from: int, len: int, room: int)
    requires
        from <= len,
    ensures
        from <= window_end(h, from, len, room) <= len,
        from == len ==> window_end(h, from, len, room) == from,
        from < len && h(from) > 1 && h(from) <= room ==> window_end(h, from, len, room)
            == window_end(h, from + 1, len, room - h(from)),
        from < len && h(from) <= 1 && 1 <= room ==> window_end(h, from, len, room) == window_end(
            h,
            from + 1,
            len,
            room - 1,
        ),
        from < len && (h(from) > room || room < 1) ==> window_end(h, from, len, room) == from,
    decreases len - from,
{
    if from < len {
        let rows: int = if h(from) > 1 {
            h(from) as int
        } else {
            1
        };
        if rows <= room {
            law_shown_entries_fill_the_window(h, from + 1, len, room - rows);
        }
    }
}

} // verus!
