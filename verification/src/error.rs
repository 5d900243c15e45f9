//! The errors of the editor.

use vstd::prelude::*;
use vstd::std_specs::convert::FromSpecImpl;

verus! {

/// The error type of `std::io`. Nothing is known of a value of it; it is carried through.
#[verifier::external_type_specification]
#[verifier::external_body]
pub struct ExIoError(std::io::Error);

/// What can go wrong in the editor.
#[derive(Debug)]
pub enum Error {
    /// Reading or writing failed.
    Io(std::io::Error),
    /// The terminal reported a window without rows or without columns.
    InvalidWindowSize,
    /// The position of the cursor could not be set or read.
    CursorPosition,
    /// A configuration file is wrong: the path of the file, the number of the line, counted
    /// from 1, and what is wrong with it.
    Config(Vec<u8>, usize, Vec<u8>),
    /// Too many arguments on the command line: their number.
    TooManyArguments(usize),
    /// An option on the command line that the editor does not know.
    UnrecognizedOption(Vec<u8>),
}

impl From<std::io::Error> for Error {
    fn from(err: std::io::Error) -> (e: Error) {
        Error::Io(err)
    }
}

impl FromSpecImpl<std::io::Error> for Error {
    open spec fn obeys_from_spec() -> bool {
        true
    }

    open spec fn from_spec(err: std::io::Error) -> Error {
        Error::Io(err)
    }
}

/// Checks the size that the terminal reports for its window, `reported`: its rows and columns,
/// or `None` where the terminal gave no answer. A window has at least one row and one column.
pub fn get_window_size(reported: Option<(u16, u16)>) -> (r: Result<(usize, usize), Error>)
    ensures
        match reported {
            Some((rows, cols)) if rows != 0 && cols != 0 => r == Ok::<(usize, usize), Error>(
                (rows as usize, cols as usize),
            ),
            _ => r is Err && r->Err_0 is InvalidWindowSize,
        },
{
    match reported {
        Some((rows, cols)) => {
            if rows != 0 && cols != 0 {
                Ok((rows as usize, cols as usize))
            } else {
                Err(Error::InvalidWindowSize)
            }
        },
        None => Err(Error::InvalidWindowSize),
    }
}

} // verus!
