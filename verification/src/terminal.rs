//! What a terminal answers when it is asked for the position of its cursor.
//!
//! A terminal that does not tell the size of its window can be measured all the same: the
//! cursor is sent to the bottom right corner, and the terminal is asked where it stands. The
//! answer is `ESC [ rows ; columns R`.

use crate::config::number_from;
use crate::config::read_number;
use crate::document::lemma_next_sep;
use crate::document::next_sep;
use crate::error::Error;
use crate::keys::ESC;
use crate::text::copy_range;
use vstd::prelude::*;

verus! {

/// The bytes that send the cursor to the bottom right corner of the window.
pub const REPOSITION_CURSOR_END: &'static str = "\x1b[999C\x1b[999B";

/// The bytes that ask a terminal for the position of its cursor.
pub const DEVICE_STATUS_REPORT: &'static str = "\x1b[6n";

/// The byte between the row and the column of a report.
pub const SEMICOLON: u8 = 0x3b;

/// The byte that ends a report.
pub const END_OF_REPORT: u8 = 0x52;

/// The row and the column that the report `s` tells, if it is well formed: `ESC [`, the row,
/// `;`, the column and `R`, where row and column are decimal numbers.
pub open spec fn report_position(s: Seq<u8>) -> Option<(usize, usize)> {
    let body = s.skip(2);
    let p = next_sep(body, SEMICOLON, 0);
    let q = next_sep(body, END_OF_REPORT, p + 1);
    if s.len() < 2 || s[0] != ESC || s[1] != 0x5b {
        None
    } else if p >= body.len() || q != body.len() - 1 {
        None
    } else {
        match (
            read_number(body.subrange(0, p), usize::MAX as int),
            read_number(body.subrange(p + 1, q), usize::MAX as int),
        ) {
            (Ok(row), Ok(col)) => Some((row as usize, col as usize)),
            _ => None,
        }
    }
}

/// Reads the answer `report` of a terminal that was asked for the position of its cursor:
/// the row and the column, counted from 1.
pub fn parse_cursor_report(report: &[u8]) -> (r: Result<(usize, usize), Error>)
    ensures
        match report_position(report@) {
            Some(position) => r == Ok::<(usize, usize), Error>(position),
            None => r is Err && r->Err_0 is CursorPosition,
        },
{
    let n = report.len();
    if n < 2 || report[0] != ESC || report[1] != 0x5b {
        return Err(Error::CursorPosition);
    }
    let body = copy_range(report, 2, n);
    assert(body@ =~= report@.skip(2));
    let m = body.len();
    let mut p: usize = 0;
    while p < m && body[p] != SEMICOLON
        invariant
            0 <= p <= m == body@.len(),
            next_sep(body@, SEMICOLON, 0) == next_sep(body@, SEMICOLON, p as int),
        decreases m - p,
    {
        p = p + 1;
    }
    if p >= m {
        return Err(Error::CursorPosition);
    }
    let mut q: usize = p + 1;
    while q < m && body[q] != END_OF_REPORT
        invariant
            p + 1 <= q <= m == body@.len(),
            next_sep(body@, END_OF_REPORT, p + 1) == next_sep(body@, END_OF_REPORT, q as int),
        decreases m - q,
    {
        q = q + 1;
    }
    proof {
        lemma_next_sep(body@, END_OF_REPORT, q as int);
    }
    if q + 1 != m {
        return Err(Error::CursorPosition);
    }
    let row = copy_range(body.as_slice(), 0, p);
    let col = copy_range(body.as_slice(), p + 1, q);
    match (
        number_from(row.as_slice(), usize::MAX as u64),
        number_from(col.as_slice(), usize::MAX as u64),
    ) {
        (Ok(row), Ok(col)) => Ok((row as usize, col as usize)),
        _ => Err(Error::CursorPosition),
    }
}

} // verus!
