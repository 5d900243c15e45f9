//! The screen: what the terminal is sent to show the rows of the document in the window.

use crate::editor::Editor;
use crate::row::RESET_FMT;
use crate::size::decimal;
use crate::size::push_decimal;
use crate::text::centered;
use crate::text::push_centered;
use crate::text::push_right_aligned;
use crate::text::push_text;
use crate::text::right_aligned;
use vstd::prelude::*;
use vstd::string::StringSliceAdditionalSpecFns;

verus! {

/// The bytes that make a terminal clear the line from the cursor on.
pub const CLEAR_LINE_RIGHT_OF_CURSOR: &'static str = "\x1b[K";

/// The bytes that switch a terminal to the colour of the line numbers.
pub const LINE_NUMBER_COLOR: &'static str = "\x1b[38;5;240m";

/// The bar between the line numbers and the document, with a space before it.
pub const LINE_NUMBER_BAR: &'static str = " \u{2502}";

/// The bytes that end a line of the screen.
pub const END_OF_LINE: &'static str = "\r\n";

/// The message in the middle of the screen of an empty document.
pub const WELCOME_MESSAGE: &'static str = "Rust Text Editor 0.1.0";

/// What stands at the left of a line of the screen: the number `n` of a line of the
/// document, or a tilde for a line of the screen behind the end of the document.
pub open spec fn mark_text(val: Option<usize>) -> Seq<u8> {
    match val {
        Some(n) => decimal(n as int),
        None => seq![0x7eu8],
    }
}

impl Editor {
    /// What is drawn at the left of a line of the screen for the mark `val`: nothing where
    /// line numbers are not shown, and otherwise the mark at the right of its field, in the
    /// colour of the line numbers, and the bar.
    pub open spec fn left_padding(&self, val: Option<usize>) -> Seq<u8> {
        if self.ln_pad >= 2 {
            LINE_NUMBER_COLOR.spec_bytes() + right_aligned(mark_text(val), self.ln_pad - 2)
                + LINE_NUMBER_BAR.spec_bytes() + RESET_FMT.spec_bytes()
        } else {
            Seq::empty()
        }
    }

    /// Draws the left of a line of the screen: the number `val` of a line of the document, or
    /// a tilde where `val` is `None`. Puts the bytes for the terminal behind those of
    /// `buffer`.
    pub fn draw_left_padding(&self, buffer: &mut Vec<u8>, val: Option<usize>)
        ensures
            final(buffer)@ == old(buffer)@ + self.left_padding(val),
    {
        if self.ln_pad >= 2 {
            let mut mark: Vec<u8> = Vec::new();
            match val {
                Some(n) => {
                    push_decimal(&mut mark, n as u64);
                },
                None => {
                    mark.push(0x7e);
                },
            }
            assert(mark@ =~= mark_text(val));
            push_text(buffer, LINE_NUMBER_COLOR);
            push_right_aligned(buffer, mark.as_slice(), self.ln_pad - 2);
            push_text(buffer, LINE_NUMBER_BAR);
            push_text(buffer, RESET_FMT);
        }
        assert(buffer@ =~= old(buffer)@ + self.left_padding(val));
    }

    /// What is drawn for the line of the screen that shows line `i` of the document, counted
    /// from 0: for a row, its number and its columns in the window; behind the last row, a
    /// tilde, and on one such line of an empty document the welcome message.
    pub open spec fn screen_line(&self, i: int) -> Seq<u8> {
        CLEAR_LINE_RIGHT_OF_CURSOR.spec_bytes() + self.screen_text(i) + END_OF_LINE.spec_bytes()
    }

    /// What the line of the screen that shows line `i` of the document holds.
    pub open spec fn screen_text(&self, i: int) -> Seq<u8> {
        if 0 <= i < self.rows@.len() {
            self.left_padding(Some((i + 1) as usize)) + self.rows@[i].drawn_in(
                self.cursor.coff as int,
                self.screen_cols as int,
            )
        } else {
            self.left_padding(None) + (if self.is_empty_spec() && i == self.screen_rows / 3 {
                centered(WELCOME_MESSAGE.spec_bytes(), self.screen_cols as int)
            } else {
                Seq::empty()
            })
        }
    }

    /// What is drawn for the lines of the screen from line `k` on.
    pub open spec fn screen_from(&self, k: int) -> Seq<u8>
        decreases self.screen_rows - k,
    {
        if k < 0 || k >= self.screen_rows {
            Seq::empty()
        } else {
            self.screen_line(self.cursor.roff + k) + self.screen_from(k + 1)
        }
    }

    /// Whether the tags and the maps of every row fit its columns.
    pub open spec fn all_shaped(&self) -> bool {
        forall|i: int| 0 <= i < self.rows@.len() ==> (#[trigger] self.rows@[i]).shaped()
    }

    /// The rows of a well-formed editor are shaped.
    pub proof fn lemma_all_shaped(&self)
        requires
            self.wf(),
        ensures
            self.all_shaped(),
    {
        assert forall|i: int| 0 <= i < self.rows@.len()
            implies (#[trigger] self.rows@[i]).shaped() by {
            assert(self.row_ok(i));
            self.rows@[i].lemma_shaped(&self.syntax, self.config.tab_stop as int);
        }
    }

    /// Draws line `k` of the screen: puts the bytes for the terminal behind those of
    /// `buffer`.
    fn draw_line(&self, buffer: &mut Vec<u8>, k: usize)
        requires
            self.all_shaped(),
        ensures
            final(buffer)@ == old(buffer)@ + self.screen_line(self.cursor.roff + k),
    {
        push_text(buffer, CLEAR_LINE_RIGHT_OF_CURSOR);
        let ghost cleared = buffer@;
        let at: Option<usize> = self.cursor.roff.checked_add(k);
        let count = self.rows.len();
        let line: Option<usize> = match at {
            Some(i) => if i < count {
                Some(i)
            } else {
                None
            },
            None => None,
        };
        match line {
            Some(i) => {
                assert(self.rows@[i as int].shaped());
                self.draw_left_padding(buffer, Some(i + 1));
                self.rows[i].draw(self.cursor.coff, self.screen_cols, buffer);
                assert(buffer@ =~= cleared + self.screen_text(self.cursor.roff + k));
            },
            None => {
                self.draw_left_padding(buffer, None);
                let here = match at {
                    Some(i) => i == self.screen_rows / 3,
                    None => false,
                };
                if self.is_empty() && here {
                    push_centered(buffer, WELCOME_MESSAGE.as_bytes(), self.screen_cols);
                }
                assert(buffer@ =~= cleared + self.screen_text(self.cursor.roff + k));
            },
        }
        push_text(buffer, END_OF_LINE);
        assert(buffer@ =~= old(buffer)@ + self.screen_line(self.cursor.roff + k));
    }

    /// Draws the lines of the screen that show the document: puts the bytes for the terminal
    /// behind those of `buffer`.
    pub fn draw_rows(&self, buffer: &mut Vec<u8>)
        requires
            self.wf(),
        ensures
            final(buffer)@ == old(buffer)@ + self.screen_from(0),
    {
        proof {
            self.lemma_all_shaped();
        }
        let rows = self.screen_rows;
        let mut k: usize = 0;
        while k < rows
            invariant
                self.all_shaped(),
                rows == self.screen_rows,
                0 <= k <= rows,
                old(buffer)@ + self.screen_from(0) == buffer@ + self.screen_from(k as int),
            decreases rows - k,
        {
            let ghost before = buffer@;
            self.draw_line(buffer, k);
            proof {
                assert(before + self.screen_from(k as int) =~= buffer@ + self.screen_from(k + 1));
            }
            k = k + 1;
        }
        assert(self.screen_from(k as int) =~= Seq::<u8>::empty());
        assert(buffer@ + Seq::<u8>::empty() =~= buffer@);
    }
}

} // verus!
