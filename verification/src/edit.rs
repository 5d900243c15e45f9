//! The edits: inserting and deleting bytes, breaking and joining lines, and moving the cursor.
//!
//! An edit changes the bytes of one or two rows and then brings the rows up to date, as far
//! as the change reaches.

use crate::cursor::CursorState;
use crate::document::lemma_byte_appended;
use crate::document::lemma_byte_inserted;
use crate::document::lemma_bytes_deleted;
use crate::document::lemma_line_broken;
use crate::document::lemma_line_duplicated;
use crate::document::lemma_lines_joined;
use crate::document::lemma_total_len_at;
use crate::document::lemma_total_len_insert;
use crate::document::lemma_total_len_nonneg;
use crate::document::lemma_total_len_update;
use crate::editor::Editor;
use crate::editor::row_lines;
use crate::keys::AKey;
use crate::row::Row;
use crate::syntax::HlState;
use crate::text::copy_range;
use vstd::prelude::*;

verus! {

impl Editor {
    /// Inserts the byte `c` at the cursor and moves the cursor behind it. Where the cursor
    /// stands behind the last row, the byte opens a new row.
    pub fn insert_byte(&mut self, c: u8)
        requires
            old(self).wf(),
            old(self).n_bytes < u64::MAX,
        ensures
            final(self).wf(),
            old(self).same_frame(final(self)),
            row_lines(final(self).rows@) == if old(self).cursor.y < old(self).rows@.len() {
                row_lines(old(self).rows@).update(
                    old(self).cursor.y as int,
                    old(self).rows@[old(self).cursor.y as int].chars@.insert(
                        old(self).cursor.x as int,
                        c,
                    ),
                )
            } else {
                row_lines(old(self).rows@).push(seq![c])
            },
            final(self).cursor.y == old(self).cursor.y,
            final(self).cursor.x == old(self).cursor.x + 1,
            final(self).n_bytes == old(self).n_bytes + 1,
            final(self).dirty,
    {
        let y = self.cursor.y;
        let x = self.cursor.x;
        let ghost before = *self;
        let ghost lines = row_lines(self.rows@);
        if y < self.rows.len() {
            self.rows[y].chars.insert(x, c);
            proof {
                assert(self.rows@.len() == before.rows@.len());
                assert(forall|i: int|
                    0 <= i < self.rows@.len() && i != y ==> self.rows@[i] == before.rows@[i]);
                assert(self.rows@[y as int].hl_state == before.rows@[y as int].hl_state);
                assert(row_lines(self.rows@) =~= lines.update(
                    y as int,
                    before.rows@[y as int].chars@.insert(x as int, c),
                ));
                assert(lines[y as int] == before.rows@[y as int].chars@);
                lemma_byte_inserted(lines, y as int, x as int, c);
                assert forall|i: int| 0 <= i < y
                    || y < i < self.rows@.len() implies self.row_ok(i) by {
                    assert(before.row_ok(i));
                }
            }
        } else {
            let mut chars: Vec<u8> = Vec::new();
            chars.push(c);
            self.rows.push(Row::new(chars));
            self.update_screen_cols();
            proof {
                assert(row_lines(self.rows@) =~= lines.push(seq![c]));
                lemma_byte_appended(lines, c);
                assert forall|i: int| 0 <= i < y implies self.row_ok(i) by {
                    assert(before.row_ok(i));
                }
            }
        }
        self.update_row(y, false);
        let ghost updated = *self;
        let len = self.rows[y].chars.len();
        assert(row_lines(self.rows@)[y as int] == self.rows@[y as int].chars@);
        assert(len == if y < before.rows@.len() {
            before.rows@[y as int].chars@.len() + 1
        } else {
            1
        });
        self.cursor.x = x + 1;
        self.n_bytes = self.n_bytes + 1;
        self.dirty = true;
        proof {
            assert forall|i: int| 0 <= i < self.rows@.len() implies self.row_ok(i) by {
                assert(updated.row_ok(i));
            }
        }
    }
}

impl Editor {
    /// Puts a new row with the bytes `chars` at index `at`, and brings it and the rows behind
    /// it up to date. The rows before `at` must be up to date, and the rows from `at` on as
    /// well, but that the row at `at` may start in another state than the row before it ends
    /// in: the new row comes between them.
    fn insert_row(&mut self, at: usize, chars: Vec<u8>)
        requires
            old(self).config.tab_stop > 0,
            at <= old(self).rows@.len(),
            old(self).rows_ok(0, at as int),
            old(self).rows_ok(at + 1, old(self).rows@.len() as int),
            at < old(self).rows@.len() ==> old(self).rows@[at as int].wf(
                &old(self).syntax,
                old(self).config.tab_stop as int,
            ),
        ensures
            old(self).same_but_rows(final(self)),
            row_lines(final(self).rows@) == row_lines(old(self).rows@).insert(at as int, chars@),
            final(self).rows@.len() == old(self).rows@.len() + 1,
            final(self).consistent(),
    {
        let ghost before = *self;
        let expected = if at < self.rows.len() {
            self.rows[at].hl_state_in
        } else {
            HlState::Normal
        };
        let mut row = Row::new(chars);
        row.hl_state = expected;
        self.rows.insert(at, row);
        proof {
            assert(row_lines(self.rows@) =~= row_lines(before.rows@).insert(at as int, chars@));
            assert forall|i: int| 0 <= i < at implies self.row_ok(i) by {
                assert(before.row_ok(i));
                assert(self.rows@[i] == before.rows@[i]);
                if i > 0 {
                    assert(self.rows@[i - 1] == before.rows@[i - 1]);
                }
            }
            assert forall|i: int| at < i < self.rows@.len() implies self.row_ok(i) by {
                assert(self.rows@[i] == before.rows@[i - 1]);
                if i - 1 > at {
                    assert(before.row_ok(i - 1));
                    assert(self.rows@[i - 1] == before.rows@[i - 2]);
                }
            }
        }
        self.update_row(at, false);
    }

    /// Breaks the line at the cursor: the bytes of the row from the cursor on become a row of
    /// their own behind it, and the cursor goes to the start of that row. At the start of a
    /// row, an empty row comes before it.
    pub fn insert_new_line(&mut self)
        requires
            old(self).wf(),
        ensures
            final(self).wf(),
            old(self).same_frame(final(self)),
            row_lines(final(self).rows@) == if old(self).cursor.x == 0 {
                row_lines(old(self).rows@).insert(old(self).cursor.y as int, Seq::empty())
            } else {
                row_lines(old(self).rows@).update(
                    old(self).cursor.y as int,
                    old(self).rows@[old(self).cursor.y as int].chars@.take(
                        old(self).cursor.x as int,
                    ),
                ).insert(
                    old(self).cursor.y + 1,
                    old(self).rows@[old(self).cursor.y as int].chars@.skip(
                        old(self).cursor.x as int,
                    ),
                )
            },
            final(self).cursor.x == 0,
            final(self).cursor.y == old(self).cursor.y + 1,
            final(self).n_bytes == old(self).n_bytes,
            final(self).dirty,
    {
        let y = self.cursor.y;
        let x = self.cursor.x;
        let ghost before = *self;
        let ghost lines = row_lines(self.rows@);
        let count = self.rows.len();
        if x == 0 {
            proof {
                if y < count {
                    assert(self.row_ok(y as int));
                }
            }
            self.insert_row(y, Vec::new());
            proof {
                lemma_total_len_insert(lines, y as int, Seq::empty());
            }
        } else {
            let ghost line = self.rows@[y as int].chars@;
            let tail = self.rows[y].chars.split_off(x);
            proof {
                assert(forall|i: int|
                    0 <= i < self.rows@.len() && i != y ==> self.rows@[i] == before.rows@[i]);
                assert(self.rows@[y as int].chars@ =~= line.take(x as int));
                assert(tail@ =~= line.skip(x as int));
                assert(row_lines(self.rows@) =~= lines.update(y as int, line.take(x as int)));
                assert forall|i: int| 0 <= i < y
                    || y < i < self.rows@.len() implies self.row_ok(i) by {
                    assert(before.row_ok(i));
                }
            }
            let ghost cut = *self;
            self.update_row(y, true);
            proof {
                assert forall|i: int| y + 1 < i < self.rows@.len() implies self.row_ok(i) by {
                    assert(cut.row_ok(i));
                    assert(self.rows@[i] == cut.rows@[i]);
                    assert(self.rows@[i - 1] == cut.rows@[i - 1]);
                }
                if y + 1 < self.rows@.len() {
                    assert(cut.row_ok(y + 1));
                    assert(self.rows@[y + 1] == cut.rows@[y + 1]);
                }
                assert(lines[y as int] == line);
                lemma_line_broken(lines, y as int, x as int);
            }
            self.insert_row(y + 1, tail);
        }
        let ghost updated = *self;
        let len = self.rows.len();
        self.update_screen_cols();
        self.cursor.y = y + 1;
        self.cursor.x = 0;
        self.dirty = true;
        proof {
            assert forall|i: int| 0 <= i < self.rows@.len() implies self.row_ok(i) by {
                assert(updated.row_ok(i));
            }
        }
    }
}

impl Editor {
    /// Puts a copy of the row of the cursor behind it. Nothing happens where the cursor stands
    /// behind the last row.
    pub fn duplicate_current_row(&mut self)
        requires
            old(self).wf(),
            old(self).cursor.y < old(self).rows@.len()
                ==> old(self).n_bytes
                    + old(self).rows@[old(self).cursor.y as int].chars@.len() <= u64::MAX,
        ensures
            final(self).wf(),
            old(self).same_frame(final(self)),
            final(self).cursor == old(self).cursor,
            old(self).cursor.y >= old(self).rows@.len() ==> *final(self) == *old(self),
            old(self).cursor.y < old(self).rows@.len() ==> {
                &&& row_lines(final(self).rows@) == row_lines(old(self).rows@).insert(
                    old(self).cursor.y + 1,
                    old(self).rows@[old(self).cursor.y as int].chars@,
                )
                &&& final(self).n_bytes == old(self).n_bytes
                    + old(self).rows@[old(self).cursor.y as int].chars@.len()
                &&& final(self).dirty
            },
    {
        let y = self.cursor.y;
        let ghost before = *self;
        let ghost lines = row_lines(self.rows@);
        if y < self.rows.len() {
            let chars = copy_range(self.rows[y].chars.as_slice(), 0, self.rows[y].chars.len());
            proof {
                assert(chars@ =~= self.rows@[y as int].chars@);
                assert(lines[y as int] == chars@);
                lemma_line_duplicated(lines, y as int);
                if y + 1 < self.rows@.len() {
                    assert(self.row_ok(y + 1));
                }
            }
            let added = chars.len() as u64;
            self.insert_row(y + 1, chars);
            let ghost updated = *self;
            self.n_bytes = self.n_bytes + added;
            self.dirty = true;
            self.update_screen_cols();
            proof {
                assert forall|i: int| 0 <= i < self.rows@.len() implies self.row_ok(i) by {
                    assert(updated.row_ok(i));
                }
                assert(row_lines(self.rows@)[y as int] == self.rows@[y as int].chars@);
            }
        }
    }

    /// Where the cursor stands after the arrow key `key`, as its byte index and its row.
    /// Left and right go one character on, and over the ends of a row into the row before or
    /// behind it; up and down go one row on, and back into the row where it is shorter.
    pub open spec fn moved(&self, key: AKey) -> (int, int) {
        let x = self.cursor.x as int;
        let y = self.cursor.y as int;
        let len = self.rows@.len() as int;
        match key {
            AKey::Left => if y < len && x > 0 {
                (x - self.rows@[y].size_before(x), y)
            } else if y > 0 {
                (self.rows@[y - 1].chars@.len() as int, y - 1)
            } else {
                (x, y)
            },
            AKey::Right => if y < len && x < self.rows@[y].chars@.len() {
                if x + self.rows@[y].size_at(x) <= self.rows@[y].chars@.len() {
                    (x + self.rows@[y].size_at(x), y)
                } else {
                    (self.rows@[y].chars@.len() as int, y)
                }
            } else if y < len {
                (0, y + 1)
            } else {
                (x, y)
            },
            AKey::Up => if y > 0 {
                if x <= self.rows@[y - 1].chars@.len() {
                    (x, y - 1)
                } else {
                    (self.rows@[y - 1].chars@.len() as int, y - 1)
                }
            } else {
                (x, y)
            },
            AKey::Down => if y < len {
                if y + 1 < len && x > self.rows@[y + 1].chars@.len() {
                    (self.rows@[y + 1].chars@.len() as int, y + 1)
                } else if y + 1 < len {
                    (x, y + 1)
                } else {
                    (0, y + 1)
                }
            } else {
                (x, y)
            },
        }
    }

    /// Moves the cursor as the arrow key `key` says.
    pub fn move_cursor(&mut self, key: &AKey)
        requires
            old(self).wf(),
        ensures
            final(self).wf(),
            final(self).cursor.x == old(self).moved(*key).0,
            final(self).cursor.y == old(self).moved(*key).1,
            *final(self) == (Editor {
                cursor: CursorState {
                    x: final(self).cursor.x,
                    y: final(self).cursor.y,
                    ..old(self).cursor
                },
                ..*old(self)
            }),
    {
        let ghost before = *self;
        let x = self.cursor.x;
        let y = self.cursor.y;
        let len = self.rows.len();
        match key {
            AKey::Left => {
                if y < len && x > 0 {
                    self.cursor.x = x - self.rows[y].step_back(x);
                } else if y > 0 {
                    self.cursor.y = y - 1;
                    self.cursor.x = self.rows[y - 1].chars.len();
                }
            },
            AKey::Right => {
                if y < len {
                    let row_len = self.rows[y].chars.len();
                    if x < row_len {
                        let n = self.rows[y].step_forward(x);
                        self.cursor.x = if n <= row_len - x {
                            x + n
                        } else {
                            row_len
                        };
                    } else {
                        self.cursor.y = y + 1;
                        self.cursor.x = 0;
                    }
                }
            },
            AKey::Up => {
                if y > 0 {
                    self.cursor.y = y - 1;
                }
            },
            AKey::Down => {
                if y < len {
                    self.cursor.y = y + 1;
                }
            },
        }
        self.update_cursor_x_position();
        proof {
            assert forall|i: int| 0 <= i < self.rows@.len() implies self.row_ok(i) by {
                assert(before.row_ok(i));
            }
        }
    }
}

impl Editor {
    /// Deletes backwards from the cursor. Inside a row, the character before the cursor goes.
    /// At the start of a row that is not the first, the row is joined to the row before it.
    /// Behind the last row, the cursor goes to the end of the last row. At the start of the
    /// document nothing happens.
    ///
    /// After a character has gone, the document counts as changed, unless it is now empty and
    /// has no file name.
    pub fn delete_char(&mut self)
        requires
            old(self).wf(),
        ensures
            final(self).wf(),
            old(self).same_frame(final(self)),
            old(self).cursor.x > 0 ==> {
                let y = old(self).cursor.y as int;
                let x = old(self).cursor.x as int;
                let n = old(self).rows@[y].size_before(x);
                let line = old(self).rows@[y].chars@;
                &&& 1 <= n <= x
                &&& row_lines(final(self).rows@) == row_lines(old(self).rows@).update(
                    y,
                    line.take(x - n) + line.skip(x),
                )
                &&& final(self).cursor.x == x - n
                &&& final(self).cursor.y == y
                &&& final(self).n_bytes == old(self).n_bytes - n
                &&& final(self).dirty == if final(self).is_empty_spec() {
                    old(self).file_name is Some
                } else {
                    true
                }
            },
            old(self).cursor.x == 0 && 0 < old(self).cursor.y < old(self).rows@.len() ==> {
                let y = old(self).cursor.y as int;
                let lines = row_lines(old(self).rows@);
                &&& row_lines(final(self).rows@) == lines.update(y - 1, lines[y - 1]
                    + lines[y]).remove(
                    y,
                )
                &&& final(self).cursor.x == lines[y - 1].len()
                &&& final(self).cursor.y == y - 1
                &&& final(self).n_bytes == old(self).n_bytes
                &&& final(self).dirty
            },
            old(self).cursor.y == old(self).rows@.len() ==> {
                let last = old(self).rows@.len() - 1;
                &&& *final(self) == (Editor {
                    cursor: CursorState {
                        x: final(self).cursor.x,
                        y: final(self).cursor.y,
                        ..old(self).cursor
                    },
                    ..*old(self)
                })
                &&& final(self).cursor.x == old(self).rows@[last].chars@.len()
                &&& final(self).cursor.y == last
            },
            old(self).cursor.x == 0 && old(self).cursor.y == 0 && old(self).rows@.len() > 0
                ==> *final(self) == *old(self),
    {
        let y = self.cursor.y;
        let x = self.cursor.x;
        let len = self.rows.len();
        let ghost before = *self;
        let ghost lines = row_lines(self.rows@);
        if x > 0 {
            let ghost line = self.rows@[y as int].chars@;
            let n = self.rows[y].step_back(x);
            let mut tail = self.rows[y].chars.split_off(x);
            self.rows[y].chars.truncate(x - n);
            self.rows[y].chars.append(&mut tail);
            proof {
                assert(forall|i: int|
                    0 <= i < self.rows@.len() && i != y ==> self.rows@[i] == before.rows@[i]);
                assert(self.rows@[y as int].chars@ =~= line.take(x - n) + line.skip(x as int));
                assert(self.rows@[y as int].hl_state == before.rows@[y as int].hl_state);
                assert(row_lines(self.rows@) =~= lines.update(
                    y as int,
                    line.take(x - n) + line.skip(x as int),
                ));
                assert(lines[y as int] == line);
                lemma_bytes_deleted(lines, y as int, x as int, n as int);
                assert forall|i: int| 0 <= i < y
                    || y < i < self.rows@.len() implies self.row_ok(i) by {
                    assert(before.row_ok(i));
                }
            }
            self.update_row(y, false);
            let ghost updated = *self;
            self.cursor.x = x - n;
            self.n_bytes = self.n_bytes - (n as u64);
            self.dirty = if self.is_empty() {
                self.file_name.is_some()
            } else {
                true
            };
            proof {
                assert forall|i: int| 0 <= i < self.rows@.len() implies self.row_ok(i) by {
                    assert(updated.row_ok(i));
                }
                assert(row_lines(self.rows@)[y as int] == self.rows@[y as int].chars@);
            }
        } else if y < len && y > 0 {
            let row = self.rows.remove(y);
            let state = row.hl_state;
            let mut tail = row.chars;
            let ghost joined = lines[y - 1] + lines[y as int];
            let prev_len = self.rows[y - 1].chars.len();
            self.rows[y - 1].hl_state = state;
            self.rows[y - 1].chars.append(&mut tail);
            proof {
                assert(lines[y - 1] == before.rows@[y - 1].chars@);
                assert(lines[y as int] == before.rows@[y as int].chars@);
                assert(self.rows@.len() == len - 1);
                assert(forall|i: int| 0 <= i < y - 1 ==> self.rows@[i] == before.rows@[i]);
                assert(forall|i: int|
                    y <= i < self.rows@.len() ==> self.rows@[i] == before.rows@[i + 1]);
                assert(self.rows@[y - 1].chars@ =~= joined);
                assert(row_lines(self.rows@) =~= lines.update(y - 1, joined).remove(y as int));
                lemma_lines_joined(lines, y as int);
                assert forall|i: int| 0 <= i < y - 1 implies self.row_ok(i) by {
                    assert(before.row_ok(i));
                }
                assert forall|i: int| y <= i < self.rows@.len() implies self.row_ok(i) by {
                    assert(before.row_ok(i + 1));
                    if i > y {
                        assert(self.rows@[i - 1] == before.rows@[i]);
                    }
                }
            }
            self.update_row(y - 1, false);
            let ghost updated = *self;
            self.update_screen_cols();
            self.dirty = true;
            self.cursor.x = prev_len;
            self.cursor.y = y - 1;
            proof {
                assert forall|i: int| 0 <= i < self.rows@.len() implies self.row_ok(i) by {
                    assert(updated.row_ok(i));
                }
                assert(row_lines(self.rows@)[y - 1] == self.rows@[y - 1].chars@);
            }
        } else if y == len {
            self.cursor.y = len - 1;
            self.cursor.x = self.rows[len - 1].chars.len();
            proof {
                assert forall|i: int| 0 <= i < self.rows@.len() implies self.row_ok(i) by {
                    assert(before.row_ok(i));
                }
            }
        }
    }

    /// Deletes the row of the cursor: its bytes go, and then the row itself is folded away by
    /// one step of deleting backwards from the start of the row behind it. The last row of the
    /// document stays, as an empty row. Nothing happens where the cursor stands behind the last
    /// row.
    pub fn delete_current_row(&mut self)
        requires
            old(self).wf(),
        ensures
            final(self).wf(),
            old(self).same_frame(final(self)),
            old(self).cursor.y >= old(self).rows@.len() ==> *final(self) == *old(self),
            old(self).cursor.y < old(self).rows@.len() ==> {
                let y = old(self).cursor.y as int;
                let lines = row_lines(old(self).rows@);
                &&& final(self).cursor.x == 0
                &&& final(self).cursor.y == y
                &&& final(self).n_bytes == old(self).n_bytes - lines[y].len()
                &&& y + 1 < lines.len() ==> row_lines(final(self).rows@) == lines.remove(y)
                    && final(self).dirty
                &&& y + 1 == lines.len() ==> row_lines(final(self).rows@) == lines.update(
                    y,
                    Seq::empty(),
                ) && final(self).dirty == old(self).dirty
            },
    {
        let y = self.cursor.y;
        let ghost before = *self;
        let ghost lines = row_lines(self.rows@);
        if y < self.rows.len() {
            let gone = self.rows[y].chars.len();
            self.rows[y].chars.clear();
            proof {
                assert(forall|i: int|
                    0 <= i < self.rows@.len() && i != y ==> self.rows@[i] == before.rows@[i]);
                assert(self.rows@[y as int].hl_state == before.rows@[y as int].hl_state);
                assert(lines[y as int] == before.rows@[y as int].chars@);
                assert(row_lines(self.rows@) =~= lines.update(y as int, Seq::empty()));
                lemma_total_len_update(lines, y as int, Seq::empty());
                lemma_total_len_at(lines, y as int);
                lemma_total_len_nonneg(lines.take(y as int));
                lemma_total_len_nonneg(lines.skip(y + 1));
                assert forall|i: int| 0 <= i < y
                    || y < i < self.rows@.len() implies self.row_ok(i) by {
                    assert(before.row_ok(i));
                }
            }
            self.update_row(y, false);
            let ghost updated = *self;
            self.n_bytes = self.n_bytes - (gone as u64);
            self.cursor.y = y + 1;
            self.cursor.x = 0;
            proof {
                assert forall|i: int| 0 <= i < self.rows@.len() implies self.row_ok(i) by {
                    assert(updated.row_ok(i));
                }
            }
            let ghost cleared = row_lines(self.rows@);
            self.delete_char();
            proof {
                assert(cleared[y as int] =~= Seq::<u8>::empty());
                if y + 1 < lines.len() {
                    assert(cleared[y as int] + cleared[y + 1] =~= lines[y + 1]);
                    assert(cleared.update(y as int, cleared[y as int] + cleared[y + 1]).remove(
                        y + 1,
                    ) =~= lines.remove(y as int));
                }
            }
        }
    }
}

} // verus!
