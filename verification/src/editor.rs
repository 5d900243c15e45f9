//! The editor: the document, the cursor, and the operations that change them.
//!
//! Every operation leaves the editor well formed: the cursor stands inside the document, the
//! byte count is the sum of the lengths of the rows, and the columns and tags of every row are
//! those that its bytes and the rows before it call for.

use crate::config::Config;
use crate::cursor::CursorState;
use crate::document::NEWLINE;
use crate::document::join_lines;
use crate::document::lemma_join_len;
use crate::document::lemma_next_sep_skip;
use crate::document::lemma_split_from;
use crate::document::lemma_total_len_one;
use crate::document::next_sep;
use crate::document::split_from;
use crate::document::split_lines;
use crate::document::total_len;
use crate::row::Row;
use crate::size::format_size;
use crate::size::size_text;
use crate::syntax::HlState;
use crate::syntax::SyntaxConf;
use crate::text::push_bytes;
use crate::text::push_text;
use vstd::prelude::*;
use vstd::string::StringSliceAdditionalSpecFns;

verus! {

/// What the editor asks the user for in the status bar.
#[derive(Clone, Copy, Debug, PartialEq, Eq, Structural)]
pub enum PromptMode {
    /// The name of the file to save to.
    Save,
    /// A text to find.
    Find,
    /// A line to go to.
    GoTo,
}

/// A message in the status bar.
pub struct StatusMessage {
    /// The text of the message.
    pub msg: Vec<u8>,
    /// The time at which the message was set, in milliseconds of the caller's clock.
    pub time: u64,
}

/// The state of the editor.
pub struct Editor {
    /// What the user is asked for, if anything.
    pub prompt_mode: Option<PromptMode>,
    /// The cursor and the window offsets.
    pub cursor: CursorState,
    /// The width of the line numbers on the left, their padding included.
    pub ln_pad: usize,
    /// The width of the window.
    pub window_width: usize,
    /// The number of rows of the window that show the document.
    pub screen_rows: usize,
    /// The number of columns of the window that show the document.
    pub screen_cols: usize,
    /// The rows of the document.
    pub rows: Vec<Row>,
    /// Whether the document has changes that are not saved.
    pub dirty: bool,
    /// The settings.
    pub config: Config,
    /// The number of warnings that are left before the editor quits with unsaved changes.
    pub quit_times: usize,
    /// The name of the file, once the document has one.
    pub file_name: Option<Vec<u8>>,
    /// The message in the status bar, if any.
    pub status_msg: Option<StatusMessage>,
    /// The highlighting rules of the document.
    pub syntax: SyntaxConf,
    /// The number of bytes of the document, line breaks not counted.
    pub n_bytes: u64,
}

/// The bytes of the rows `rows`, row by row.
pub open spec fn row_lines(rows: Seq<Row>) -> Seq<Seq<u8>> {
    Seq::new(rows.len(), |i: int| rows[i].chars@)
}

/// The state in which the scanner starts row `i` of `rows`: normal for the first row, and
/// otherwise the state in which the row before it ends.
pub open spec fn state_before(rows: Seq<Row>, i: int) -> HlState {
    if i <= 0 {
        HlState::Normal
    } else {
        rows[i - 1].hl_state
    }
}

impl Editor {
    /// Whether row `i` is up to date: its columns are those of its bytes, and its tags those
    /// that the scanner gives them when it starts in the state that the row before it ends in.
    pub open spec fn row_ok(&self, i: int) -> bool {
        &&& self.rows@[i].wf(&self.syntax, self.config.tab_stop as int)
        &&& self.rows@[i].hl_state_in == state_before(self.rows@, i)
    }

    /// Whether the rows from `lo` up to, not including, `hi` are up to date.
    pub open spec fn rows_ok(&self, lo: int, hi: int) -> bool {
        forall|i: int| lo <= i < hi ==> self.row_ok(i)
    }

    /// Whether all rows are up to date.
    pub open spec fn consistent(&self) -> bool {
        self.rows_ok(0, self.rows@.len() as int)
    }

    /// Whether the rows are up to date but for row `y`, whose bytes may have changed: the rows
    /// before it are up to date, and each row behind it is as its bytes call for, once the
    /// scanner starts it in the state that the row before it is recorded to end in.
    pub open spec fn stale_at(&self, y: int) -> bool {
        &&& self.config.tab_stop > 0
        &&& 0 <= y <= self.rows@.len()
        &&& self.rows_ok(0, y)
        &&& self.rows_ok(y + 1, self.rows@.len() as int)
    }

    /// Whether the cursor stands inside the document: in a row and not behind its end, or at
    /// the start of the line behind the last row.
    pub open spec fn cursor_ok(&self) -> bool {
        &&& self.cursor.y <= self.rows@.len()
        &&& self.cursor.y < self.rows@.len()
            ==> self.cursor.x <= self.rows@[self.cursor.y as int].chars@.len()
        &&& self.cursor.y == self.rows@.len() ==> self.cursor.x == 0
    }

    /// Whether the editor is well formed.
    pub open spec fn wf(&self) -> bool {
        &&& self.config.tab_stop > 0
        &&& self.rows@.len() >= 1
        &&& self.consistent()
        &&& self.cursor_ok()
        &&& self.n_bytes == total_len(row_lines(self.rows@))
        &&& self.geometry_ok()
    }

    /// Whether `other` differs from this editor in its rows at most.
    pub open spec fn same_but_rows(&self, other: &Editor) -> bool {
        &&& self.prompt_mode == other.prompt_mode
        &&& self.cursor == other.cursor
        &&& self.ln_pad == other.ln_pad
        &&& self.window_width == other.window_width
        &&& self.screen_rows == other.screen_rows
        &&& self.screen_cols == other.screen_cols
        &&& self.dirty == other.dirty
        &&& self.config == other.config
        &&& self.quit_times == other.quit_times
        &&& self.file_name == other.file_name
        &&& self.status_msg == other.status_msg
        &&& self.syntax == other.syntax
        &&& self.n_bytes == other.n_bytes
    }

    /// Where row `k` alone has been scanned anew, from the state that the row before it ends
    /// in and without a change to its bytes, and the rows before it were up to date, the rows
    /// up to and with row `k` are up to date, and the lines are what they were.
    pub proof fn lemma_row_brought_up_to_date(&self, after: &Editor, k: int)
        requires
            0 <= k < self.rows@.len(),
            self.rows_ok(0, k),
            self.same_but_rows(after),
            after.rows@.len() == self.rows@.len(),
            forall|i: int| 0 <= i < self.rows@.len() && i != k ==> after.rows@[i] == self.rows@[i],
            after.rows@[k].chars@ == self.rows@[k].chars@,
            after.rows@[k].wf(&after.syntax, after.config.tab_stop as int),
            after.rows@[k].hl_state_in == state_before(self.rows@, k),
        ensures
            after.rows_ok(0, k + 1),
            row_lines(after.rows@) == row_lines(self.rows@),
    {
        assert(row_lines(after.rows@) =~= row_lines(self.rows@));
        assert forall|i: int| 0 <= i < k + 1 implies after.row_ok(i) by {
            if i < k {
                assert(self.row_ok(i));
                assert(after.rows@[i] == self.rows@[i]);
                if i > 0 {
                    assert(after.rows@[i - 1] == self.rows@[i - 1]);
                }
            } else if k > 0 {
                assert(after.rows@[k - 1] == self.rows@[k - 1]);
            }
        }
    }

    /// Brings row `y` up to date, and then the rows behind it as far as it takes: a row behind
    /// `y` is scanned anew if the row before it now ends in another state than it did. With
    /// `ignore_following_rows`, only row `y` is brought up to date. Returns the number of rows
    /// that were scanned.
    ///
    /// The rows before `y` must be up to date, and each row behind `y` as well, with respect
    /// to the state that the row before it is recorded to end in. Row `y` itself may hold any
    /// bytes. Then all rows are up to date afterwards.
    pub fn update_row(&mut self, y: usize, ignore_following_rows: bool) -> (n: usize)
        requires
            old(self).stale_at(y as int),
        ensures
            old(self).same_but_rows(final(self)),
            row_lines(final(self).rows@) == row_lines(old(self).rows@),
            final(self).rows@.len() == old(self).rows@.len(),
            y == old(self).rows@.len() ==> n == 0,
            y < old(self).rows@.len() ==> 1 <= n <= old(self).rows@.len() - y,
            ignore_following_rows && y < old(self).rows@.len() ==> n == 1,
            forall|i: int|
                0 <= i < y || y + n <= i < old(self).rows@.len()
                    ==> final(self).rows@[i] == old(self).rows@[i],
            forall|i: int|
                y <= i < y + n - 1 ==> (#[trigger] final(self).rows@[i]).hl_state
                    != old(self).rows@[i].hl_state,
            !ignore_following_rows && 0 < n && y + n < old(self).rows@.len()
                ==> final(self).rows@[y + n - 1].hl_state == old(self).rows@[y + n - 1].hl_state,
            final(self).rows_ok(0, y + n),
            !ignore_following_rows ==> final(self).consistent(),
    {
        let len = self.rows.len();
        let tab = self.config.tab_stop;
        let mut hl_state = if y > 0 {
            self.rows[y - 1].hl_state
        } else {
            HlState::Normal
        };
        let mut k: usize = y;
        while k < len
            invariant
                tab == self.config.tab_stop,
                tab > 0,
                len == self.rows@.len(),
                len == old(self).rows@.len(),
                y <= k <= len,
                ignore_following_rows ==> k == y,
                old(self).same_but_rows(self),
                row_lines(self.rows@) == row_lines(old(self).rows@),
                hl_state == state_before(self.rows@, k as int),
                self.rows_ok(0, k as int),
                old(self).rows_ok(y + 1, len as int),
                forall|i: int| 0 <= i < y || k <= i < len ==> self.rows@[i] == old(self).rows@[i],
                forall|i: int|
                    y <= i < k ==> (#[trigger] self.rows@[i]).hl_state
                        != old(self).rows@[i].hl_state,
            decreases len - k,
        {
            let previous = self.rows[k].hl_state;
            let ghost prev = *self;
            hl_state = self.rows[k].update(&self.syntax, hl_state, tab);
            proof {
                prev.lemma_row_brought_up_to_date(self, k as int);
            }
            k = k + 1;
            if ignore_following_rows || hl_state == previous {
                proof {
                    if !ignore_following_rows {
                        assert forall|i: int| 0 <= i < len implies self.row_ok(i) by {
                            if i >= k {
                                assert(self.rows@[i] == old(self).rows@[i]);
                                assert(old(self).row_ok(i));
                                if i > k {
                                    assert(self.rows@[i - 1] == old(self).rows@[i - 1]);
                                }
                            }
                        }
                    }
                }
                return k - y;
            }
        }
        k - y
    }
}

/// The number of decimal digits of `n`.
pub open spec fn digits(n: int) -> int
    decreases n,
{
    if n < 10 {
        1
    } else {
        1 + digits(n / 10)
    }
}

/// Counts the decimal digits of `n`.
pub fn count_digits(n: usize) -> (d: usize)
    ensures
        d == digits(n as int),
        1 <= d,
        n >= 10 ==> d <= n,
{
    let mut d: usize = 1;
    let mut m: usize = n;
    while m >= 10
        invariant
            1 <= d,
            digits(n as int) == d - 1 + digits(m as int),
            d - 1 + m <= n,
            n >= 10 ==> m >= 1,
        decreases m,
    {
        m = m / 10;
        d = d + 1;
    }
    d
}

/// The message that the editor shows when it starts.
pub const HELP_MESSAGE: &'static str =
    "Ctrl-S = save | Ctrl-Q = quit | Ctrl-F = find | Ctrl-G = go to | Ctrl-D = duplicate | Ctrl-E = execute";

impl StatusMessage {
    /// A message with the text `msg`, set at the time `now`.
    pub fn new(msg: Vec<u8>, now: u64) -> (m: StatusMessage)
        ensures
            m.msg@ == msg@,
            m.time == now,
    {
        StatusMessage { msg, time: now }
    }

    /// Whether the message is still to be shown at the time `now`, where a message is shown
    /// for the time `duration`.
    pub open spec fn fresh(&self, now: u64, duration: u64) -> bool {
        now - self.time < duration
    }

    /// Tells whether the message is still to be shown at the time `now`.
    pub fn is_fresh(&self, now: u64, duration: u64) -> (r: bool)
        ensures
            r == self.fresh(now, duration),
    {
        now < self.time || now - self.time < duration
    }
}

impl Editor {
    /// The width that the line numbers take of a window that is `window_width` columns wide,
    /// for a document of `n_rows` rows: the digits of the last line number and two columns
    /// more, if line numbers are shown and take less than a quarter of the window.
    pub open spec fn pad_for(show_line_num: bool, n_rows: int, window_width: int) -> int {
        if show_line_num && digits(n_rows) + 2 < window_width / 4 {
            digits(n_rows) + 2
        } else {
            0
        }
    }

    /// Sets the width of the line numbers, and the number of columns that are left for the
    /// document, for the current number of rows and width of the window.
    pub fn update_screen_cols(&mut self)
        ensures
            final(self).ln_pad == Self::pad_for(
                old(self).config.show_line_num,
                old(self).rows@.len() as int,
                old(self).window_width as int,
            ),
            final(self).screen_cols == old(self).window_width - final(self).ln_pad,
            final(self).geometry_ok(),
            *final(self) == (Editor {
                ln_pad: final(self).ln_pad,
                screen_cols: final(self).screen_cols,
                ..*old(self)
            }),
    {
        let n_digits = count_digits(self.rows.len());
        let quarter = self.window_width / 4;
        let show_line_num = self.config.show_line_num && n_digits < quarter && n_digits + 2
            < quarter;
        self.ln_pad = if show_line_num {
            n_digits + 2
        } else {
            0
        };
        self.screen_cols = self.window_width.saturating_sub(self.ln_pad);
    }

    /// Takes over the size of the window, `wsize`, as its rows and columns. Two rows are left
    /// for the status bar and the message bar.
    pub fn update_window_size(&mut self, wsize: (usize, usize))
        ensures
            final(self).screen_rows == crate::cursor::minus(wsize.0 as int, 2),
            final(self).window_width == wsize.1,
            final(self).ln_pad == Self::pad_for(
                old(self).config.show_line_num,
                old(self).rows@.len() as int,
                wsize.1 as int,
            ),
            final(self).screen_cols == wsize.1 - final(self).ln_pad,
            final(self).geometry_ok(),
            old(self).wf() ==> final(self).wf(),
            *final(self) == (Editor {
                screen_rows: final(self).screen_rows,
                window_width: final(self).window_width,
                ln_pad: final(self).ln_pad,
                screen_cols: final(self).screen_cols,
                ..*old(self)
            }),
    {
        self.screen_rows = wsize.0.saturating_sub(2);
        self.window_width = wsize.1;
        self.update_screen_cols();
        proof {
            if old(self).wf() {
                assert forall|i: int| 0 <= i < self.rows@.len() implies self.row_ok(i) by {
                    assert(old(self).row_ok(i));
                }
            }
        }
    }

    /// Whether the document is empty: a single row without bytes. A document of several empty
    /// rows is not empty, since it holds line breaks.
    pub open spec fn is_empty_spec(&self) -> bool {
        self.rows@.len() <= 1 && self.n_bytes == 0
    }

    /// Tells whether the document is empty.
    pub fn is_empty(&self) -> (r: bool)
        ensures
            r == self.is_empty_spec(),
    {
        self.rows.len() <= 1 && self.n_bytes == 0
    }

    /// The row of the cursor, or `None` where the cursor stands behind the last row.
    pub fn current_row(&self) -> (r: Option<&Row>)
        ensures
            self.cursor.y < self.rows@.len() ==> r == Some(&self.rows@[self.cursor.y as int]),
            self.cursor.y >= self.rows@.len() ==> r is None,
    {
        if self.cursor.y < self.rows.len() {
            Some(&self.rows[self.cursor.y])
        } else {
            None
        }
    }

    /// The rendered column of the cursor: the column of its byte index in its row, and 0 where
    /// it stands in no row.
    pub open spec fn rx_spec(&self) -> int {
        if self.cursor.y < self.rows@.len()
            && self.cursor.x < self.rows@[self.cursor.y as int].cx2rx@.len() {
            self.rows@[self.cursor.y as int].cx2rx@[self.cursor.x as int] as int
        } else {
            0
        }
    }

    /// The rendered column of the cursor.
    pub fn rx(&self) -> (r: usize)
        ensures
            r == self.rx_spec(),
    {
        match self.current_row() {
            Some(row) => if self.cursor.x < row.cx2rx.len() {
                row.cx2rx[self.cursor.x]
            } else {
                0
            },
            None => 0,
        }
    }

    /// Brings the cursor back into its row where it stands behind the end of it. In a row, the
    /// cursor stands at the end of the row at most; behind the rows, at the start of the line.
    pub fn update_cursor_x_position(&mut self)
        ensures
            old(self).cursor.y <= old(self).rows@.len() ==> final(self).cursor_ok(),
            old(self).cursor_ok() ==> final(self).cursor.x == old(self).cursor.x,
            final(self).cursor.x == if old(self).cursor.y >= old(self).rows@.len() {
                0
            } else if old(self).cursor.x
                <= old(self).rows@[old(self).cursor.y as int].chars@.len() {
                old(self).cursor.x
            } else {
                old(self).rows@[old(self).cursor.y as int].chars@.len() as usize
            },
            *final(self) == (Editor {
                cursor: CursorState { x: final(self).cursor.x, ..old(self).cursor },
                ..*old(self)
            }),
    {
        let limit = match self.current_row() {
            Some(row) => row.chars.len(),
            None => 0,
        };
        if self.cursor.x > limit {
            self.cursor.x = limit;
        }
    }

    /// Brings all rows up to date.
    pub fn update_all_rows(&mut self)
        requires
            old(self).config.tab_stop > 0,
        ensures
            old(self).same_but_rows(final(self)),
            row_lines(final(self).rows@) == row_lines(old(self).rows@),
            final(self).rows@.len() == old(self).rows@.len(),
            final(self).consistent(),
    {
        let len = self.rows.len();
        let tab = self.config.tab_stop;
        let mut hl_state = HlState::Normal;
        let mut k: usize = 0;
        while k < len
            invariant
                tab == self.config.tab_stop,
                tab > 0,
                len == self.rows@.len(),
                len == old(self).rows@.len(),
                0 <= k <= len,
                old(self).same_but_rows(self),
                row_lines(self.rows@) == row_lines(old(self).rows@),
                hl_state == state_before(self.rows@, k as int),
                self.rows_ok(0, k as int),
            decreases len - k,
        {
            let ghost prev = *self;
            hl_state = self.rows[k].update(&self.syntax, hl_state, tab);
            proof {
                prev.lemma_row_brought_up_to_date(self, k as int);
            }
            k = k + 1;
        }
    }
}

impl Editor {
    /// Whether the width of the line numbers and the number of columns of the document are
    /// those that the number of rows and the width of the window call for.
    pub open spec fn geometry_ok(&self) -> bool {
        &&& self.ln_pad == Self::pad_for(
            self.config.show_line_num,
            self.rows@.len() as int,
            self.window_width as int,
        )
        &&& self.screen_cols == self.window_width - self.ln_pad
    }

    /// Whether `other` has the settings, the window, the file name, the prompt and the message
    /// of this editor: all that no change of the document touches.
    pub open spec fn same_frame(&self, other: &Editor) -> bool {
        &&& self.prompt_mode == other.prompt_mode
        &&& self.window_width == other.window_width
        &&& self.screen_rows == other.screen_rows
        &&& self.config == other.config
        &&& self.quit_times == other.quit_times
        &&& self.file_name == other.file_name
        &&& self.status_msg == other.status_msg
        &&& self.syntax == other.syntax
        &&& self.cursor.roff == other.cursor.roff
        &&& self.cursor.coff == other.cursor.coff
    }

    /// An editor with the settings `config` in a window of the size `wsize`, its rows and
    /// columns. The document is empty, and the status bar shows the help message, set at the
    /// time `now`.
    pub fn new(config: Config, wsize: (usize, usize), now: u64) -> (editor: Editor)
        requires
            config.tab_stop > 0,
        ensures
            editor.wf(),
            row_lines(editor.rows@) == seq![Seq::<u8>::empty()],
            editor.cursor == (CursorState { x: 0, y: 0, roff: 0, coff: 0 }),
            editor.config == config,
            editor.quit_times == config.quit_times,
            editor.screen_rows == crate::cursor::minus(wsize.0 as int, 2),
            editor.window_width == wsize.1,
            !editor.dirty,
            editor.n_bytes == 0,
            editor.prompt_mode is None,
            editor.file_name is None,
            editor.status_msg is Some,
            editor.status_msg.unwrap().msg@ == HELP_MESSAGE.spec_bytes(),
            editor.status_msg.unwrap().time == now,
    {
        let mut rows: Vec<Row> = Vec::new();
        rows.push(Row::new(Vec::new()));
        let msg = vstd::slice::slice_to_vec(HELP_MESSAGE.as_bytes());
        let mut editor = Editor {
            prompt_mode: None,
            cursor: CursorState::new(),
            ln_pad: 0,
            window_width: 0,
            screen_rows: 0,
            screen_cols: 0,
            rows,
            dirty: false,
            config,
            quit_times: config.quit_times,
            file_name: None,
            status_msg: Some(StatusMessage::new(msg, now)),
            syntax: SyntaxConf::new(),
            n_bytes: 0,
        };
        editor.update_all_rows();
        let ghost updated = editor;
        editor.update_window_size(wsize);
        proof {
            assert(row_lines(editor.rows@) =~= seq![Seq::<u8>::empty()]);
            lemma_total_len_one(Seq::<u8>::empty());
            assert forall|i: int| 0 <= i < editor.rows@.len() implies editor.row_ok(i) by {
                assert(updated.row_ok(i));
            }
            assert(row_lines(editor.rows@)[0] == editor.rows@[0].chars@);
        }
        editor
    }

    /// Replaces the document by the content of a file: one row for each of its lines, the
    /// empty ones too, so that an empty file is one empty row and a file that ends with a line
    /// feed ends with an empty row. The cursor goes to the start of the document.
    pub fn load(&mut self, content: &[u8])
        requires
            old(self).config.tab_stop > 0,
        ensures
            final(self).wf(),
            row_lines(final(self).rows@) == split_lines(content@),
            final(self).n_bytes + final(self).rows@.len() - 1 == content@.len(),
            final(self).cursor == (CursorState { x: 0, y: 0, ..old(self).cursor }),
            final(self).dirty == old(self).dirty,
            old(self).same_frame(final(self)),
    {
        let ghost s = content@;
        let n = content.len();
        let mut rows: Vec<Row> = Vec::new();
        let mut line: Vec<u8> = Vec::new();
        let mut start: usize = 0;
        let mut i: usize = 0;
        while i < n
            invariant
                s == content@,
                n == s.len(),
                0 <= start <= i <= n,
                line@ == s.subrange(start as int, i as int),
                forall|k: int| start <= k < i ==> s[k] != NEWLINE,
                split_lines(s) == row_lines(rows@) + split_from(s, NEWLINE, start as int),
            decreases n - i,
        {
            let b = content[i];
            if b == NEWLINE {
                proof {
                    lemma_next_sep_skip(s, NEWLINE, start as int, i as int);
                    assert(next_sep(s, NEWLINE, start as int) == i);
                }
                let ghost before = rows@;
                rows.push(Row::new(line));
                proof {
                    assert(row_lines(rows@) =~= row_lines(before)
                        + seq![s.subrange(start as int, i as int)]);
                    assert(split_from(s, NEWLINE, start as int)
                        == seq![s.subrange(start as int, i as int)]
                        + split_from(s, NEWLINE, i + 1));
                    assert(row_lines(rows@) + split_from(s, NEWLINE, i + 1) =~= row_lines(before)
                        + split_from(s, NEWLINE, start as int));
                }
                line = Vec::new();
                start = i + 1;
                assert(line@ =~= s.subrange(start as int, i + 1));
            } else {
                line.push(b);
                assert(line@ =~= s.subrange(start as int, i + 1));
            }
            i = i + 1;
        }
        proof {
            lemma_next_sep_skip(s, NEWLINE, start as int, n as int);
            assert(split_from(s, NEWLINE, start as int)
                == seq![s.subrange(start as int, n as int)]);
        }
        let ghost before = rows@;
        rows.push(Row::new(line));
        proof {
            assert(row_lines(rows@) =~= row_lines(before)
                + seq![s.subrange(start as int, n as int)]);
            assert(row_lines(rows@) == split_lines(s));
            lemma_split_from(s, NEWLINE, 0);
        }
        proof {
            crate::document::lemma_total_len_nonneg(split_lines(s));
        }
        let count = rows.len();
        self.rows = rows;
        self.cursor.x = 0;
        self.cursor.y = 0;
        self.update_all_rows();
        let ghost updated = *self;
        self.update_screen_cols();
        self.n_bytes = (n - (count - 1)) as u64;
        proof {
            assert forall|i: int| 0 <= i < self.rows@.len() implies self.row_ok(i) by {
                assert(updated.row_ok(i));
            }
        }
    }

    /// The document as it is written to a file: the bytes of the rows, with one line feed
    /// between each two rows and none behind the last.
    pub fn contents(&self) -> (out: Vec<u8>)
        ensures
            out@ == join_lines(row_lines(self.rows@)),
            self.wf() ==> out@.len() == self.n_bytes + self.rows@.len() - 1,
    {
        let ghost lines = row_lines(self.rows@);
        let mut out: Vec<u8> = Vec::new();
        let len = self.rows.len();
        let mut k: usize = 0;
        while k < len
            invariant
                len == self.rows@.len(),
                lines == row_lines(self.rows@),
                0 <= k <= len,
                out@ == join_lines(lines.take(k as int)),
            decreases len - k,
        {
            if k > 0 {
                out.push(NEWLINE);
            }
            let row = &self.rows[k];
            let ghost head = out@;
            let m = row.chars.len();
            let mut j: usize = 0;
            while j < m
                invariant
                    m == row.chars@.len(),
                    0 <= j <= m,
                    out@ == head + row.chars@.take(j as int),
                decreases m - j,
            {
                out.push(row.chars[j]);
                j = j + 1;
                assert(out@ =~= head + row.chars@.take(j as int));
            }
            proof {
                assert(row.chars@.take(m as int) =~= row.chars@);
                let next = lines.take(k + 1);
                assert(next.drop_last() =~= lines.take(k as int));
                assert(next.last() == row.chars@);
            }
            k = k + 1;
        }
        proof {
            assert(lines.take(len as int) =~= lines);
            if self.wf() {
                lemma_join_len(lines, NEWLINE);
            }
        }
        out
    }
}

/// What the message on a saved file holds between the size and the name of the file.
pub const WRITTEN_TO: &'static str = " written to ";

/// What the message on a file that could not be saved begins with.
pub const CANNOT_SAVE: &'static str = "Can't save! I/O error: ";

/// The message on an attempt to save the document to the file `file_name`, which ended as
/// `saved` says: with the number of bytes written, or with what went wrong.
pub open spec fn save_message(file_name: Seq<u8>, saved: Result<usize, Vec<u8>>) -> Seq<u8> {
    match saved {
        Ok(written) => size_text(written as int) + WRITTEN_TO.spec_bytes() + file_name,
        Err(err) => CANNOT_SAVE.spec_bytes() + err@,
    }
}

impl Editor {
    /// Takes note of an attempt to save the document to the file `file_name`, which ended as
    /// `saved` says: with the number of bytes written, or with what went wrong. The status bar
    /// tells of it, from the time `now` on, and a document that was saved has no unsaved
    /// changes any more. Returns whether the document was saved.
    pub fn save_and_handle_io_errors(
        &mut self,
        file_name: &[u8],
        saved: &Result<usize, Vec<u8>>,
        now: u64,
    ) -> (ok: bool)
        ensures
            ok == (*saved is Ok),
            final(self).dirty == (old(self).dirty && !ok),
            final(self).status_msg is Some,
            final(self).status_msg.unwrap().msg@ == save_message(file_name@, *saved),
            final(self).status_msg.unwrap().time == now,
            *final(self) == (Editor {
                dirty: final(self).dirty,
                status_msg: final(self).status_msg,
                ..*old(self)
            }),
    {
        let mut msg: Vec<u8> = Vec::new();
        match saved {
            Ok(written) => {
                msg = format_size(*written as u64);
                push_text(&mut msg, WRITTEN_TO);
                push_bytes(&mut msg, file_name);
                self.dirty = false;
            },
            Err(err) => {
                push_text(&mut msg, CANNOT_SAVE);
                push_bytes(&mut msg, err.as_slice());
                assert(msg@ =~= CANNOT_SAVE.spec_bytes() + err@);
            },
        }
        self.status_msg = Some(StatusMessage::new(msg, now));
        saved.is_ok()
    }

    /// Takes note of an attempt to save the document under the new name `file_name`, which
    /// ended as `saved` says. If the document was saved, it has that name from now on, and is
    /// highlighted by the rules `syntax` that go with the name, if there are any.
    pub fn save_as(
        &mut self,
        file_name: Vec<u8>,
        saved: &Result<usize, Vec<u8>>,
        syntax: Option<SyntaxConf>,
        now: u64,
    )
        requires
            old(self).wf(),
        ensures
            final(self).wf(),
            final(self).status_msg is Some,
            final(self).status_msg.unwrap().msg@ == save_message(file_name@, *saved),
            final(self).status_msg.unwrap().time == now,
            row_lines(final(self).rows@) == row_lines(old(self).rows@),
            final(self).cursor == old(self).cursor,
            final(self).n_bytes == old(self).n_bytes,
            final(self).config == old(self).config,
            final(self).prompt_mode == old(self).prompt_mode,
            final(self).quit_times == old(self).quit_times,
            final(self).ln_pad == old(self).ln_pad,
            final(self).window_width == old(self).window_width,
            final(self).screen_rows == old(self).screen_rows,
            final(self).screen_cols == old(self).screen_cols,
            *saved is Err ==> {
                &&& final(self).rows@ == old(self).rows@
                &&& final(self).syntax == old(self).syntax
                &&& final(self).file_name == old(self).file_name
                &&& final(self).dirty == old(self).dirty
            },
            *saved is Ok ==> {
                &&& final(self).file_name == Some(file_name)
                &&& !final(self).dirty
                &&& final(self).syntax == match syntax {
                    Some(rules) => rules,
                    None => old(self).syntax,
                }
            },
    {
        let ghost before = *self;
        if self.save_and_handle_io_errors(file_name.as_slice(), saved, now) {
            if let Some(rules) = syntax {
                self.syntax = rules;
            }
            self.file_name = Some(file_name);
            self.update_all_rows();
            proof {
                let y = self.cursor.y as int;
                if y < self.rows@.len() {
                    assert(row_lines(self.rows@)[y] == self.rows@[y].chars@);
                    assert(row_lines(before.rows@)[y] == before.rows@[y].chars@);
                }
            }
        } else {
            proof {
                assert forall|i: int| 0 <= i < self.rows@.len() implies self.row_ok(i) by {
                    assert(before.row_ok(i));
                }
            }
        }
    }
}

/// A file that is loaded and saved again without an edit in between is the same file, byte for
/// byte: the rows that hold the lines of a file, joined by line feeds, are the bytes of that
/// file, whether or not it ends with a line feed.
pub proof fn lemma_load_then_save(content: Seq<u8>, rows: Seq<Row>)
    requires
        row_lines(rows) == split_lines(content),
    ensures
        join_lines(row_lines(rows)) == content,
{
    crate::document::lemma_split_then_join(content);
}

/// In a well-formed editor, every row maps each of its byte indices, and the end of the line,
/// to a column, and the columns never decrease from one byte index to the next.
pub proof fn lemma_columns_never_decrease(editor: &Editor, y: int)
    requires
        editor.wf(),
        0 <= y < editor.rows@.len(),
    ensures
        editor.rows@[y].cx2rx@.len() == editor.rows@[y].chars@.len() + 1,
        forall|i: int, j: int|
            0 <= i <= j < editor.rows@[y].cx2rx@.len()
                ==> editor.rows@[y].cx2rx@[i] <= editor.rows@[y].cx2rx@[j],
{
    assert(editor.row_ok(y));
    editor.rows@[y].lemma_shape(editor.config.tab_stop as int);
}

} // verus!
