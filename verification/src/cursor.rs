//! The cursor and the part of the document that the window shows.

use vstd::prelude::*;

verus! {

/// The position of the cursor in the document, and the offsets of the window.
#[derive(Clone, Copy, Debug, PartialEq, Eq, Structural)]
pub struct CursorState {
    /// The byte index of the cursor in its row.
    pub x: usize,
    /// The index of the row of the cursor.
    pub y: usize,
    /// The index of the first row that the window shows.
    pub roff: usize,
    /// The first rendered column that the window shows.
    pub coff: usize,
}

/// `a - b`, or zero where `b` is the larger.
pub open spec fn minus(a: int, b: int) -> int {
    if a >= b {
        a - b
    } else {
        0
    }
}

/// The value of `lo..=hi` that is nearest to `v`.
pub open spec fn clamped(v: int, lo: int, hi: int) -> int
    recommends
        lo <= hi,
{
    if v < lo {
        lo
    } else if v > hi {
        hi
    } else {
        v
    }
}

/// The offset nearest to `off` for which a window of `size` positions shows the position `pos`.
pub open spec fn scrolled(off: int, pos: int, size: int) -> int {
    clamped(off, minus(pos, minus(size, 1)), pos)
}

/// The exec form of [`scrolled`].
fn scroll_offset(off: usize, pos: usize, size: usize) -> (r: usize)
    ensures
        r == scrolled(off as int, pos as int, size as int),
        size > 0 ==> r <= pos <= r + size - 1,
        r <= pos,
        (size > 0 && off <= pos <= off + size - 1) ==> r == off,
{
    let lo = pos.saturating_sub(size.saturating_sub(1));
    if off < lo {
        lo
    } else if off > pos {
        pos
    } else {
        off
    }
}

impl CursorState {
    /// A cursor at the start of the document, in a window that shows the document from its
    /// start.
    pub fn new() -> (c: CursorState)
        ensures
            c == (CursorState { x: 0, y: 0, roff: 0, coff: 0 }),
    {
        CursorState { x: 0, y: 0, roff: 0, coff: 0 }
    }

    /// Moves the cursor to the start of the next row.
    pub fn move_to_next_line(&mut self)
        requires
            old(self).y < usize::MAX,
        ensures
            *final(self) == (CursorState { x: 0, y: (old(self).y + 1) as usize, ..*old(self) }),
    {
        self.y = self.y + 1;
        self.x = 0;
    }

    /// Moves the window, as little as it takes, so that it shows the cursor, which stands in the
    /// rendered column `rx`. The window has `screen_rows` rows and `screen_cols` columns.
    pub fn scroll(&mut self, rx: usize, screen_rows: usize, screen_cols: usize)
        ensures
            final(self).x == old(self).x,
            final(self).y == old(self).y,
            final(self).roff
                == scrolled(old(self).roff as int, old(self).y as int, screen_rows as int),
            final(self).coff == scrolled(old(self).coff as int, rx as int, screen_cols as int),
            screen_rows > 0 ==> final(self).roff <= final(self).y <= final(self).roff
                + screen_rows - 1,
            screen_cols > 0 ==> final(self).coff <= rx <= final(self).coff + screen_cols - 1,
            (screen_rows > 0 && old(self).roff <= old(self).y <= old(self).roff + screen_rows - 1)
                ==> final(self).roff == old(self).roff,
            (screen_cols > 0 && old(self).coff <= rx <= old(self).coff + screen_cols - 1)
                ==> final(self).coff == old(self).coff,
    {
        self.roff = scroll_offset(self.roff, self.y, screen_rows);
        self.coff = scroll_offset(self.coff, rx, screen_cols);
    }
}

} // verus!
