//! The settings of the editor, and the configuration files that they are read from.
//!
//! A configuration file has a setting to a line, written `key = value`. Lines that are empty
//! or start with `#` or `;` do not count. This module reads the values (whole numbers,
//! `true` and `false`, texts, and lists of them with commas in between), the lines, and whole
//! files, and it knows the keys of the editor's own settings. One value it does not read: a
//! length of time is written as a floating-point number of seconds, and the library is told
//! in milliseconds what such a text comes to.

use crate::document::lemma_next_sep;
use crate::document::lemma_next_sep_skip;
use crate::document::next_sep;
use crate::document::split_from;
use crate::document::NEWLINE;
use crate::error::Error;
use crate::syntax::is_digit;
use crate::text::bytes_of;
use crate::text::copy_range;
use crate::text::is_text;
use crate::text::push_bytes;
use crate::text::same_bytes;
use crate::text::trim;
use crate::text::trim_end;
use crate::text::trim_start;
use crate::text::trimmed_end;
use crate::text::trimmed_start;
use crate::text::trimmed;
use vstd::prelude::*;
use vstd::string::StringSliceAdditionalSpecFns;

verus! {

/// The settings of the editor.
#[derive(Clone, Copy, Debug, PartialEq, Eq, Structural)]
pub struct Config {
    /// The distance of the tab stops, in columns. Must be more than zero.
    pub tab_stop: usize,
    /// The number of confirmations that it takes to quit with unsaved changes.
    pub quit_times: usize,
    /// The time for which a message stays in the status bar, in milliseconds.
    pub message_dur: u64,
    /// Whether line numbers are shown.
    pub show_line_num: bool,
}

impl Config {
    /// The settings that hold where no file says otherwise.
    pub open spec fn default_spec() -> Config {
        Config { tab_stop: 4, quit_times: 2, message_dur: 3000, show_line_num: true }
    }
}

impl Default for Config {
    fn default() -> (conf: Config)
        ensures
            conf == Config::default_spec(),
    {
        Config { tab_stop: 4, quit_times: 2, message_dur: 3000, show_line_num: true }
    }
}

/// The message on an empty text that should be a whole number.
pub const INT_EMPTY: &'static str = "cannot parse integer from empty string";

/// The message on a text that should be a whole number and holds a byte that is no digit.
pub const INT_INVALID: &'static str = "invalid digit found in string";

/// The message on a text that writes a larger number than can be held.
pub const INT_OVERFLOW: &'static str = "number too large to fit in target type";

/// The message on a text that should be `true` or `false` and is neither.
pub const BOOL_INVALID: &'static str = "provided string was not `true` or `false`";

/// What every message on a value that cannot be read begins with.
pub const PARSER_ERROR: &'static str = "Parser error: ";

/// The byte that separates the values of a list.
pub const COMMA: u8 = 0x2c;

/// The number that the decimal digits `s` write.
pub open spec fn digits_value(s: Seq<u8>) -> int
    decreases s.len(),
{
    if s.len() == 0 {
        0
    } else {
        digits_value(s.drop_last()) * 10 + (s.last() - 0x30)
    }
}

/// The index of the first byte of `s` at or behind index `i` that is no digit; the length of
/// `s` where there is none.
pub open spec fn digits_end(s: Seq<u8>, i: int) -> int
    decreases s.len() - i,
{
    if i < 0 || i >= s.len() {
        s.len() as int
    } else if !is_digit(s[i]) {
        i
    } else {
        digits_end(s, i + 1)
    }
}

/// `s` without a plus sign at its start.
pub open spec fn unsigned(s: Seq<u8>) -> Seq<u8> {
    if s.len() > 0 && s[0] == 0x2b {
        s.drop_first()
    } else {
        s
    }
}

/// The whole number that the text `s` writes, if it is no more than `max`, or what is wrong
/// with the text. The text is decimal digits, with or without a plus sign before them. Of a
/// text that runs over `max` before a byte that is no digit, the message is that of the
/// number.
pub open spec fn read_number(s: Seq<u8>, max: int) -> Result<int, Seq<u8>> {
    let d = unsigned(s);
    let run = d.take(digits_end(d, 0));
    if s.len() == 0 {
        Err(INT_EMPTY.spec_bytes())
    } else if d.len() == 0 {
        Err(INT_INVALID.spec_bytes())
    } else if digits_value(run) > max {
        Err(INT_OVERFLOW.spec_bytes())
    } else if run.len() < d.len() {
        Err(INT_INVALID.spec_bytes())
    } else {
        Ok(digits_value(d))
    }
}

/// Where the digits end: inside `s`, with digits before it only.
pub proof fn lemma_digits_end(s: Seq<u8>, i: int)
    requires
        0 <= i <= s.len(),
    ensures
        i <= digits_end(s, i) <= s.len(),
        digits_end(s, i) < s.len() ==> !is_digit(s[digits_end(s, i)]),
        forall|k: int| i <= k < digits_end(s, i) ==> is_digit(s[k]),
    decreases s.len() - i,
{
    if i < s.len() && is_digit(s[i]) {
        lemma_digits_end(s, i + 1);
    }
}

/// The search for the end of the digits may skip digits.
pub proof fn lemma_digits_end_skip(s: Seq<u8>, i: int, j: int)
    requires
        0 <= i <= j <= s.len(),
        forall|k: int| i <= k < j ==> is_digit(s[k]),
    ensures
        digits_end(s, i) == digits_end(s, j),
    decreases j - i,
{
    if i < j {
        lemma_digits_end_skip(s, i + 1, j);
    }
}

/// More digits write no smaller number.
pub proof fn lemma_digits_value_grows(s: Seq<u8>, i: int, j: int)
    requires
        0 <= i <= j <= s.len(),
        forall|k: int| 0 <= k < j ==> is_digit(s[k]),
    ensures
        0 <= digits_value(s.take(i)) <= digits_value(s.take(j)),
    decreases j,
{
    if j == 0 {
        assert(s.take(0).len() == 0);
    } else {
        assert(s.take(j).drop_last() =~= s.take(j - 1));
        if i < j {
            lemma_digits_value_grows(s, i, j - 1);
        } else {
            lemma_digits_value_grows(s, j - 1, j - 1);
        }
    }
}

/// Reads the whole number that the digits of `d` write, which must not be more than `max`.
/// Returns the number, or what is wrong: the message for a number that is too large, or the
/// message for a byte that is no digit.
fn read_digits(d: &[u8], max: u64) -> (r: Result<u64, Vec<u8>>)
    ensures
        match r {
            Ok(v) => digits_end(d@, 0) == d@.len() && v == digits_value(d@) && v <= max,
            Err(e) => if digits_value(d@.take(digits_end(d@, 0))) > max {
                e@ == INT_OVERFLOW.spec_bytes()
            } else {
                digits_end(d@, 0) < d@.len() && e@ == INT_INVALID.spec_bytes()
            },
        },
{
    let n = d.len();
    let mut acc: u64 = 0;
    let mut i: usize = 0;
    proof {
        assert(d@.take(0).len() == 0);
        lemma_digits_end(d@, 0);
    }
    while i < n
        invariant
            0 <= i <= n == d@.len(),
            forall|k: int| 0 <= k < i ==> is_digit(d@[k]),
            acc == digits_value(d@.take(i as int)),
            acc <= max,
        decreases n - i,
    {
        let b = d[i];
        proof {
            lemma_digits_end_skip(d@, 0, i as int);
            assert(d@.take(i + 1).drop_last() =~= d@.take(i as int));
        }
        if !(0x30 <= b && b <= 0x39) {
            return Err(bytes_of(INT_INVALID));
        }
        let digit: u64 = (b - 0x30) as u64;
        let next: Option<u64> = match acc.checked_mul(10) {
            Some(m) => m.checked_add(digit),
            None => None,
        };
        let fits = match next {
            Some(v) => v <= max,
            None => false,
        };
        if !fits {
            proof {
                let k = digits_end(d@, 0);
                lemma_digits_end(d@, 0);
                lemma_digits_end_skip(d@, 0, i + 1);
                lemma_digits_end(d@, i + 1);
                assert(d@.take(k).take(i + 1) =~= d@.take(i + 1));
                lemma_digits_value_grows(d@.take(k), i + 1, k);
                assert(d@.take(k).take(k) =~= d@.take(k));
            }
            return Err(bytes_of(INT_OVERFLOW));
        }
        acc = next.unwrap();
        i = i + 1;
    }
    proof {
        lemma_digits_end_skip(d@, 0, n as int);
        assert(d@.take(n as int) =~= d@);
    }
    Ok(acc)
}

/// Reads the whole number that the text `s` writes, which must not be more than `max`.
pub fn number_from(s: &[u8], max: u64) -> (r: Result<u64, Vec<u8>>)
    ensures
        match (r, read_number(s@, max as int)) {
            (Ok(v), Ok(w)) => v == w,
            (Err(e), Err(m)) => e@ == m,
            _ => false,
        },
{
    if s.len() == 0 {
        return Err(bytes_of(INT_EMPTY));
    }
    let start: usize = if s[0] == 0x2b {
        1
    } else {
        0
    };
    let d = copy_range(s, start, s.len());
    assert(d@ =~= unsigned(s@));
    if d.len() == 0 {
        return Err(bytes_of(INT_INVALID));
    }
    proof {
        lemma_digits_end(d@, 0);
        assert(d@.take(d@.len() as int) =~= d@);
    }
    read_digits(d.as_slice(), max)
}

/// A kind of value that can be read from a text.
pub trait Parse: Sized + View {
    /// The value that the text `s` writes, or what is wrong with the text.
    spec fn read(s: Seq<u8>) -> Result<Self::V, Seq<u8>>;

    /// Reads the value that `text` writes.
    fn parse(text: &[u8]) -> (r: Result<Self, Vec<u8>>)
        ensures
            match (r, Self::read(text@)) {
                (Ok(v), Ok(w)) => v@ == w,
                (Err(e), Err(m)) => e@ == m,
                _ => false,
            },
    ;
}

impl Parse for Vec<u8> {
    open spec fn read(s: Seq<u8>) -> Result<Seq<u8>, Seq<u8>> {
        Ok(s)
    }

    fn parse(text: &[u8]) -> (r: Result<Vec<u8>, Vec<u8>>) {
        let out = copy_range(text, 0, text.len());
        assert(out@ =~= text@);
        Ok(out)
    }
}

/// The message on an empty text that should be a single byte.
pub const BYTE_EMPTY: &'static str = "cannot parse char from empty string";

/// The message on a text of several bytes that should be a single byte.
pub const BYTE_MANY: &'static str = "too many characters in string";

/// A single byte, written as itself.
#[derive(Clone, Copy, Debug, PartialEq, Eq, Structural)]
pub struct Byte(pub u8);

impl View for Byte {
    type V = Byte;

    open spec fn view(&self) -> Byte {
        *self
    }
}

impl Parse for Byte {
    open spec fn read(s: Seq<u8>) -> Result<Byte, Seq<u8>> {
        if s.len() == 0 {
            Err(BYTE_EMPTY.spec_bytes())
        } else if s.len() > 1 {
            Err(BYTE_MANY.spec_bytes())
        } else {
            Ok(Byte(s[0]))
        }
    }

    fn parse(text: &[u8]) -> (r: Result<Byte, Vec<u8>>) {
        if text.len() == 0 {
            Err(bytes_of(BYTE_EMPTY))
        } else if text.len() > 1 {
            Err(bytes_of(BYTE_MANY))
        } else {
            Ok(Byte(text[0]))
        }
    }
}

impl Parse for usize {
    open spec fn read(s: Seq<u8>) -> Result<usize, Seq<u8>> {
        match read_number(s, usize::MAX as int) {
            Ok(v) => Ok(v as usize),
            Err(m) => Err(m),
        }
    }

    fn parse(text: &[u8]) -> (r: Result<usize, Vec<u8>>) {
        match number_from(text, usize::MAX as u64) {
            Ok(v) => Ok(v as usize),
            Err(e) => Err(e),
        }
    }
}

impl Parse for bool {
    open spec fn read(s: Seq<u8>) -> Result<bool, Seq<u8>> {
        if s == "true".spec_bytes() {
            Ok(true)
        } else if s == "false".spec_bytes() {
            Ok(false)
        } else {
            Err(BOOL_INVALID.spec_bytes())
        }
    }

    fn parse(text: &[u8]) -> (r: Result<bool, Vec<u8>>) {
        if is_text(text, "true") {
            Ok(true)
        } else if is_text(text, "false") {
            Ok(false)
        } else {
            Err(bytes_of(BOOL_INVALID))
        }
    }
}

/// The value that the text `s` writes once the ASCII white space around it is taken away, or the
/// message that tells what is wrong with it.
pub open spec fn read_value<T: Parse>(s: Seq<u8>) -> Result<T::V, Seq<u8>> {
    match T::read(trim(s)) {
        Ok(v) => Ok(v),
        Err(m) => Err(PARSER_ERROR.spec_bytes() + m),
    }
}

/// Reads a value, the right-hand side of a line `key=value`, without the ASCII white space
/// around it.
pub fn parse_value<T: Parse>(value: &[u8]) -> (r: Result<T, Vec<u8>>)
    ensures
        match (r, read_value::<T>(value@)) {
            (Ok(v), Ok(w)) => v@ == w,
            (Err(e), Err(m)) => e@ == m,
            _ => false,
        },
{
    let text = trimmed(value);
    match T::parse(text.as_slice()) {
        Ok(v) => Ok(v),
        Err(e) => {
            let mut msg = bytes_of(PARSER_ERROR);
            push_bytes(&mut msg, e.as_slice());
            Err(msg)
        },
    }
}

/// The values that the texts `fields` write, each without the ASCII white space around it, or
/// the
/// message on the first of them that writes none.
pub open spec fn read_fields<T: Parse>(fields: Seq<Seq<u8>>) -> Result<Seq<T::V>, Seq<u8>>
    decreases fields.len(),
{
    if fields.len() == 0 {
        Ok(Seq::empty())
    } else {
        match read_fields::<T>(fields.drop_last()) {
            Err(m) => Err(m),
            Ok(values) => match read_value::<T>(fields.last()) {
                Err(m) => Err(m),
                Ok(v) => Ok(values.push(v)),
            },
        }
    }
}

/// The values that the text `s` lists, with commas between them, or the message on the first
/// of them that cannot be read.
pub open spec fn read_values<T: Parse>(s: Seq<u8>) -> Result<Seq<T::V>, Seq<u8>> {
    read_fields::<T>(split_from(s, COMMA, 0))
}

/// The values of `values`, as plain values.
pub open spec fn views_of<T: View>(values: Seq<T>) -> Seq<T::V> {
    Seq::new(values.len(), |i: int| values[i]@)
}

/// Reads a list of values that commas separate, the right-hand side of a line
/// `key=value1, value2, ...`. All values are read if each of them can be read; otherwise the
/// message is that of the first value that cannot.
pub fn parse_values<T: Parse>(value: &[u8]) -> (r: Result<Vec<T>, Vec<u8>>)
    ensures
        match (r, read_values::<T>(value@)) {
            (Ok(values), Ok(w)) => views_of(values@) == w && values@.len() == split_from(
                value@,
                COMMA,
                0,
            ).len(),
            (Err(e), Err(m)) => e@ == m,
            _ => false,
        },
{
    let ghost s = value@;
    let ghost fields = split_from(s, COMMA, 0);
    let n = value.len();
    let mut values: Vec<T> = Vec::new();
    let mut start: usize = 0;
    let mut i: usize = 0;
    proof {
        assert(fields.take(0) =~= Seq::<Seq<u8>>::empty());
        assert(views_of(values@) =~= Seq::<T::V>::empty());
        crate::document::lemma_split_from(s, COMMA, 0);
        assert(fields.skip(0) =~= fields);
    }
    loop
        invariant
            s == value@,
            n == s.len(),
            fields == split_from(s, COMMA, 0),
            0 <= start <= i <= n,
            forall|k: int| start <= k < i ==> s[k] != COMMA,
            values@.len() < fields.len(),
            fields.skip(values@.len() as int) == split_from(s, COMMA, start as int),
            read_fields::<T>(fields.take(values@.len() as int)) == Ok::<Seq<T::V>, Seq<u8>>(
                views_of(values@),
            ),
        decreases n - i + 1,
    {
        if i == n || value[i] == COMMA {
            let field = copy_range(value, start, i);
            let ghost done = values@.len() as int;
            let ghost read_so_far = views_of(values@);
            proof {
                lemma_next_sep_skip(s, COMMA, start as int, i as int);
                lemma_next_sep(s, COMMA, i as int);
                assert(next_sep(s, COMMA, start as int) == i);
                assert(fields.skip(done)[0] == fields[done]);
                assert(fields[done] == field@);
                assert(fields.take(done + 1).drop_last() =~= fields.take(done));
                assert(fields.take(done + 1).last() == field@);
            }
            match parse_value::<T>(field.as_slice()) {
                Ok(v) => {
                    values.push(v);
                    proof {
                        assert(views_of(values@) =~= read_so_far.push(v@));
                    }
                },
                Err(e) => {
                    proof {
                        lemma_read_fields_fails::<T>(fields, done + 1);
                    }
                    return Err(e);
                },
            }
            if i == n {
                proof {
                    assert(fields.skip(done).len() == 1);
                    assert(fields.take(done + 1) =~= fields);
                }
                return Ok(values);
            }
            proof {
                assert(split_from(s, COMMA, start as int) == seq![field@] + split_from(
                    s,
                    COMMA,
                    i + 1,
                ));
                crate::document::lemma_split_from(s, COMMA, i + 1);
                assert(split_from(s, COMMA, start as int).len() == 1 + split_from(
                    s,
                    COMMA,
                    i + 1,
                ).len());
                assert(fields.skip(done).len() == fields.len() - done);
                assert(fields.skip(done + 1) =~= fields.skip(done).skip(1));
                assert(fields.skip(done).skip(1) =~= split_from(s, COMMA, i + 1));
            }
            start = i + 1;
        }
        i = i + 1;
    }
}

/// Where the first `k` of the texts `fields` cannot all be read, nor can all of them, and the
/// message is the same.
pub proof fn lemma_read_fields_fails<T: Parse>(fields: Seq<Seq<u8>>, k: int)
    requires
        0 <= k <= fields.len(),
        read_fields::<T>(fields.take(k)) is Err,
    ensures
        read_fields::<T>(fields) == read_fields::<T>(fields.take(k)),
    decreases fields.len() - k,
{
    if k < fields.len() {
        assert(fields.take(k + 1).drop_last() =~= fields.take(k));
        lemma_read_fields_fails::<T>(fields, k + 1);
    } else {
        assert(fields.take(k) =~= fields);
    }
}

/// The byte between the key and the value of a line of a configuration file.
pub const EQUALS: u8 = 0x3d;

/// The message on a line that has a key and no value.
pub const NO_EQUALS: &'static str = "No '='";

/// The message on a tab stop of zero.
pub const TAB_STOP_ZERO: &'static str = "tab_stop must be > 0";

/// What the message on a key that the editor does not know begins with.
pub const INVALID_KEY: &'static str = "Invalid key: ";

/// One line of a configuration file, as the editor understands it.
pub enum IniEntry {
    /// An empty line or a comment.
    Skip,
    /// A key and its value.
    Pair { key: Seq<u8>, value: Seq<u8> },
    /// A line that is neither.
    NoEquals,
}

/// One line of a configuration file, as the editor understands it.
pub enum IniLine {
    /// An empty line or a comment.
    Skip,
    /// A key and its value.
    Pair { key: Vec<u8>, value: Vec<u8> },
    /// A line that is neither.
    NoEquals,
}

impl View for IniLine {
    type V = IniEntry;

    open spec fn view(&self) -> IniEntry {
        match self {
            IniLine::Skip => IniEntry::Skip,
            IniLine::Pair { key, value } => IniEntry::Pair { key: key@, value: value@ },
            IniLine::NoEquals => IniEntry::NoEquals,
        }
    }
}

/// How the editor understands the line `line` of a configuration file. White space at the
/// start of the line does not count. A line whose first byte is `#` or `;` is a comment. In
/// any other line, the key stands before the first `=`, without the white space at its end,
/// and the value behind it, as it is. A line without `=` must be empty.
pub open spec fn ini_entry(line: Seq<u8>) -> IniEntry {
    let t = trim_start(line);
    let eq = next_sep(t, EQUALS, 0);
    let head = t.take(eq);
    if head.len() > 0 && (head[0] == 0x23 || head[0] == 0x3b) {
        IniEntry::Skip
    } else if eq < t.len() {
        IniEntry::Pair { key: trim_end(head), value: t.skip(eq + 1) }
    } else if head.len() == 0 {
        IniEntry::Skip
    } else {
        IniEntry::NoEquals
    }
}

/// Tells how the editor understands the line `line` of a configuration file.
pub fn parse_ini_line(line: &[u8]) -> (r: IniLine)
    ensures
        r@ == ini_entry(line@),
{
    let t = trimmed_start(line);
    let eq = find_from(t.as_slice(), EQUALS, 0);
    let head = copy_range(t.as_slice(), 0, eq);
    assert(head@ =~= t@.take(eq as int));
    if head.len() > 0 && (head[0] == 0x23 || head[0] == 0x3b) {
        IniLine::Skip
    } else if eq < t.len() {
        let key = trimmed_end(head.as_slice());
        let value = copy_range(t.as_slice(), eq + 1, t.len());
        assert(value@ =~= t@.skip(eq + 1));
        IniLine::Pair { key, value }
    } else if head.len() == 0 {
        IniLine::Skip
    } else {
        IniLine::NoEquals
    }
}

/// `l` without a carriage return at its end.
pub open spec fn strip_cr(l: Seq<u8>) -> Seq<u8> {
    if l.len() > 0 && l.last() == 0x0d {
        l.drop_last()
    } else {
        l
    }
}

/// The lines of the text `s`. Each line ends with a line feed, or with a carriage return and a
/// line feed, which do not belong to it; the last line may end with the text.
pub open spec fn text_lines(s: Seq<u8>) -> Seq<Seq<u8>> {
    let parts = split_from(s, NEWLINE, 0);
    let count = if parts.last().len() == 0 {
        parts.len() - 1
    } else {
        parts.len() as int
    };
    Seq::new(
        count as nat,
        |i: int|
            if i < parts.len() - 1 {
                strip_cr(parts[i])
            } else {
                parts[i]
            },
    )
}

/// Settings that the lines of a configuration file change, key by key.
pub trait Settings: Sized + View {
    /// The settings `plain` with the setting `key` set to what the text `value` writes, or
    /// what is wrong with the key or the value.
    spec fn with(plain: Self::V, key: Seq<u8>, value: Seq<u8>) -> Result<Self::V, Seq<u8>>;

    /// Sets the setting `key` to what the text `value` writes. The settings stay as they are
    /// where the key is unknown or the value cannot be read.
    fn set(&mut self, key: &[u8], value: &[u8]) -> (r: Result<(), Vec<u8>>)
        ensures
            match (r, Self::with(old(self)@, key@, value@)) {
                (Ok(_), Ok(p)) => final(self)@ == p,
                (Err(e), Err(m)) => e@ == m && final(self)@ == old(self)@,
                _ => false,
            },
    ;
}

/// The editor's settings `conf` with the setting `key` set to what the text `value` writes, or
/// what is wrong with the key or the value. The keys are those whose values the library reads
/// itself: `tab_stop`, `quit_times` and `show_line_numbers`.
pub open spec fn set_spec(conf: Config, key: Seq<u8>, value: Seq<u8>) -> Result<Config, Seq<u8>> {
    if key == "tab_stop".spec_bytes() {
        match read_value::<usize>(value) {
            Ok(v) => if v == 0 {
                Err(TAB_STOP_ZERO.spec_bytes())
            } else {
                Ok(Config { tab_stop: v, ..conf })
            },
            Err(m) => Err(m),
        }
    } else if key == "quit_times".spec_bytes() {
        match read_value::<usize>(value) {
            Ok(v) => Ok(Config { quit_times: v, ..conf }),
            Err(m) => Err(m),
        }
    } else if key == "show_line_numbers".spec_bytes() {
        match read_value::<bool>(value) {
            Ok(v) => Ok(Config { show_line_num: v, ..conf }),
            Err(m) => Err(m),
        }
    } else {
        Err(INVALID_KEY.spec_bytes() + key)
    }
}

/// The key of the time for which a message stays in the status bar.
pub const MESSAGE_DURATION: &'static str = "message_duration";

/// The message on a length of time of which the reader was not told what it comes to.
pub const NO_SECONDS: &'static str = "Parser error: no length of time is known for this value";

/// What a text that writes a length of time in seconds comes to. The library does not read
/// such a text itself, since that takes floating-point arithmetic: whoever hands it a
/// configuration file tells it, for each value of the key `message_duration` in the file, what
/// the value comes to.
pub struct Seconds {
    /// The value, as it stands in the file behind the `=`.
    pub text: Vec<u8>,
    /// The length of time in milliseconds, or the message that tells what is wrong with the
    /// value.
    pub millis: Result<u64, Vec<u8>>,
}

/// What a text that writes a length of time comes to, as plain values.
pub struct SecondsView {
    /// The value.
    pub text: Seq<u8>,
    /// The length of time in milliseconds, or what is wrong with the value.
    pub millis: Result<u64, Seq<u8>>,
}

impl View for Seconds {
    type V = SecondsView;

    open spec fn view(&self) -> SecondsView {
        SecondsView {
            text: self.text@,
            millis: match self.millis {
                Ok(ms) => Ok(ms),
                Err(m) => Err(m@),
            },
        }
    }
}

/// What the first entry of `table` from index `i` on says that the value `text` comes to, if
/// there is an entry for that value.
pub open spec fn seconds_for(table: Seq<SecondsView>, text: Seq<u8>, i: int) -> Option<
    Result<u64, Seq<u8>>,
>
    decreases table.len() - i,
{
    if i < 0 || i >= table.len() {
        None
    } else if table[i].text == text {
        Some(table[i].millis)
    } else {
        seconds_for(table, text, i + 1)
    }
}

/// The editor's settings while configuration files are read, with what is known of the
/// lengths of time that the files write.
pub struct ConfigReader {
    /// The settings so far.
    pub conf: Config,
    /// What the values of the key `message_duration` come to.
    pub seconds: Vec<Seconds>,
}

/// The editor's settings while configuration files are read, as plain values.
pub struct Reading {
    /// The settings so far.
    pub conf: Config,
    /// What the values of the key `message_duration` come to.
    pub seconds: Seq<SecondsView>,
}

impl View for ConfigReader {
    type V = Reading;

    open spec fn view(&self) -> Reading {
        Reading { conf: self.conf, seconds: views_of(self.seconds@) }
    }
}

/// The reading `plain` with the setting `key` set to what the text `value` writes, or what is
/// wrong with the key or the value. For the key `message_duration` the value comes to what the
/// reading knows of it, be that a length of time or a message; every other key is the
/// library's own to read.
pub open spec fn reading_with(plain: Reading, key: Seq<u8>, value: Seq<u8>) -> Result<
    Reading,
    Seq<u8>,
> {
    if key == MESSAGE_DURATION.spec_bytes() {
        match seconds_for(plain.seconds, value, 0) {
            Some(Ok(ms)) => Ok(Reading { conf: Config { message_dur: ms, ..plain.conf }, ..plain }),
            Some(Err(m)) => Err(m),
            None => Err(NO_SECONDS.spec_bytes()),
        }
    } else {
        match set_spec(plain.conf, key, value) {
            Ok(conf) => Ok(Reading { conf, ..plain }),
            Err(m) => Err(m),
        }
    }
}

impl ConfigReader {
    /// Sets one of the settings whose values the library reads itself.
    fn set_own(&mut self, key: &[u8], value: &[u8]) -> (r: Result<(), Vec<u8>>)
        ensures
            match (r, set_spec(old(self).conf, key@, value@)) {
                (Ok(_), Ok(c)) => final(self).conf == c,
                (Err(e), Err(m)) => e@ == m && final(self).conf == old(self).conf,
                _ => false,
            },
            final(self).seconds == old(self).seconds,
    {
        if is_text(key, "tab_stop") {
            match parse_value::<usize>(value) {
                Ok(v) => {
                    if v == 0 {
                        return Err(bytes_of(TAB_STOP_ZERO));
                    }
                    self.conf.tab_stop = v;
                },
                Err(e) => {
                    return Err(e);
                },
            }
        } else if is_text(key, "quit_times") {
            match parse_value::<usize>(value) {
                Ok(v) => {
                    self.conf.quit_times = v;
                },
                Err(e) => {
                    return Err(e);
                },
            }
        } else if is_text(key, "show_line_numbers") {
            match parse_value::<bool>(value) {
                Ok(v) => {
                    self.conf.show_line_num = v;
                },
                Err(e) => {
                    return Err(e);
                },
            }
        } else {
            let mut msg = bytes_of(INVALID_KEY);
            push_bytes(&mut msg, key);
            return Err(msg);
        }
        Ok(())
    }
}

impl Settings for ConfigReader {
    open spec fn with(plain: Reading, key: Seq<u8>, value: Seq<u8>) -> Result<Reading, Seq<u8>> {
        reading_with(plain, key, value)
    }

    fn set(&mut self, key: &[u8], value: &[u8]) -> (r: Result<(), Vec<u8>>) {
        if is_text(key, MESSAGE_DURATION) {
            let ghost table = views_of(self.seconds@);
            let mut i: usize = 0;
            while i < self.seconds.len()
                invariant
                    0 <= i <= self.seconds@.len(),
                    key@ == MESSAGE_DURATION.spec_bytes(),
                    table == views_of(self.seconds@),
                    *self == *old(self),
                    seconds_for(table, value@, 0) == seconds_for(table, value@, i as int),
                decreases self.seconds@.len() - i,
            {
                assert(table[i as int] == self.seconds@[i as int]@);
                if same_bytes(self.seconds[i].text.as_slice(), value) {
                    assert(seconds_for(table, value@, i as int) == Some(table[i as int].millis));
                    match &self.seconds[i].millis {
                        Ok(ms) => {
                            let ms: u64 = *ms;
                            assert(table[i as int].millis == Ok::<u64, Seq<u8>>(ms));
                            self.conf.message_dur = ms;
                            assert(views_of(self.seconds@) == table);
                            return Ok(());
                        },
                        Err(m) => {
                            let msg = copy_range(m.as_slice(), 0, m.len());
                            assert(msg@ =~= m@);
                            assert(table[i as int].millis == Err::<u64, Seq<u8>>(m@));
                            return Err(msg);
                        },
                    }
                }
                assert(seconds_for(table, value@, i as int) == seconds_for(table, value@, i + 1));
                i = i + 1;
            }
            Err(bytes_of(NO_SECONDS))
        } else {
            self.set_own(key, value)
        }
    }
}

/// The values of the key `message_duration` that a configuration file holds.
pub struct DurationTexts {
    /// The values, in the order of their lines.
    pub texts: Vec<Vec<u8>>,
}

impl View for DurationTexts {
    type V = Seq<Seq<u8>>;

    open spec fn view(&self) -> Seq<Seq<u8>> {
        views_of(self.texts@)
    }
}

impl Settings for DurationTexts {
    open spec fn with(plain: Seq<Seq<u8>>, key: Seq<u8>, value: Seq<u8>) -> Result<
        Seq<Seq<u8>>,
        Seq<u8>,
    > {
        if key == MESSAGE_DURATION.spec_bytes() {
            Ok(plain.push(value))
        } else {
            Ok(plain)
        }
    }

    fn set(&mut self, key: &[u8], value: &[u8]) -> (r: Result<(), Vec<u8>>) {
        if is_text(key, MESSAGE_DURATION) {
            let text = copy_range(value, 0, value.len());
            assert(text@ =~= value@);
            let ghost before = self.texts@;
            self.texts.push(text);
            assert(views_of(self.texts@) =~= views_of(before).push(value@));
        }
        Ok(())
    }
}

/// The values of the key `message_duration` in the configuration file with the content
/// `content`, in the order of their lines, as far as the lines of the file are well formed:
/// the texts of which a reader of the file must be told what they come to.
pub fn duration_texts(content: &[u8]) -> (texts: Vec<Vec<u8>>)
    ensures
        views_of(texts@) == apply_lines::<DurationTexts>(
            Seq::empty(),
            text_lines(content@),
            0,
        ).0,
{
    let mut found = DurationTexts { texts: Vec::new() };
    assert(found@ =~= Seq::<Seq<u8>>::empty());
    let path: Vec<u8> = Vec::new();
    let _ = process_ini_file(path.as_slice(), content, &mut found);
    found.texts
}

/// The settings `plain` after the line `line` of a configuration file, or what is wrong with
/// the line.
pub open spec fn apply_line<T: Settings>(plain: T::V, line: Seq<u8>) -> Result<T::V, Seq<u8>> {
    match ini_entry(line) {
        IniEntry::Skip => Ok(plain),
        IniEntry::Pair { key, value } => T::with(plain, key, value),
        IniEntry::NoEquals => Err(NO_EQUALS.spec_bytes()),
    }
}

/// The settings `plain` after the lines `lines` from index `i` on, as far as they can be
/// applied, and the first line that is wrong, if there is one: its number, counted from 1,
/// and what is wrong with it.
pub open spec fn apply_lines<T: Settings>(plain: T::V, lines: Seq<Seq<u8>>, i: int) -> (
    T::V,
    Option<(int, Seq<u8>)>,
)
    decreases lines.len() - i,
{
    if i < 0 || i >= lines.len() {
        (plain, None)
    } else {
        match apply_line::<T>(plain, lines[i]) {
            Ok(p) => apply_lines::<T>(p, lines, i + 1),
            Err(m) => (plain, Some((i + 1, m))),
        }
    }
}

/// Applies one line of a configuration file to the settings `target`.
pub fn apply<T: Settings>(target: &mut T, line: &[u8]) -> (r: Result<(), Vec<u8>>)
    ensures
        match (r, apply_line::<T>(old(target)@, line@)) {
            (Ok(_), Ok(p)) => final(target)@ == p,
            (Err(e), Err(m)) => e@ == m && final(target)@ == old(target)@,
            _ => false,
        },
{
    match parse_ini_line(line) {
        IniLine::Skip => Ok(()),
        IniLine::Pair { key, value } => target.set(key.as_slice(), value.as_slice()),
        IniLine::NoEquals => Err(bytes_of(NO_EQUALS)),
    }
}

/// The index of the first byte `sep` of `s` at or behind index `i`; the length of `s` where
/// there is none.
fn find_from(s: &[u8], sep: u8, i: usize) -> (p: usize)
    requires
        i <= s@.len(),
    ensures
        p == next_sep(s@, sep, i as int),
        i <= p <= s@.len(),
{
    let n = s.len();
    let mut p: usize = i;
    while p < n && s[p] != sep
        invariant
            i <= p <= n == s@.len(),
            next_sep(s@, sep, i as int) == next_sep(s@, sep, p as int),
        decreases n - p,
    {
        p = p + 1;
    }
    p
}

/// Applies the lines of a configuration file to the settings `target`, line by line, up to
/// the first line that is wrong. `path` is the path of the file and `content` its content.
pub fn process_ini_file<T: Settings>(path: &[u8], content: &[u8], target: &mut T) -> (r: Result<
    (),
    Error,
>)
    ensures
        final(target)@ == apply_lines::<T>(old(target)@, text_lines(content@), 0).0,
        match apply_lines::<T>(old(target)@, text_lines(content@), 0).1 {
            None => r is Ok,
            Some(e) => r matches Err(Error::Config(p, l, m)) && p@ == path@ && l == e.0 && m@
                == e.1,
        },
{
    let ghost s = content@;
    let ghost parts = split_from(s, NEWLINE, 0);
    let ghost lines = text_lines(s);
    let ghost start_plain = target@;
    let n = content.len();
    let mut start: usize = 0;
    let mut count: usize = 0;
    loop
        invariant
            s == content@,
            n == s.len(),
            parts == split_from(s, NEWLINE, 0),
            lines == text_lines(s),
            start_plain == old(target)@,
            0 <= count <= start <= n,
            count < parts.len(),
            parts.skip(count as int) == split_from(s, NEWLINE, start as int),
            apply_lines::<T>(start_plain, lines, 0) == apply_lines::<T>(
                target@,
                lines,
                count as int,
            ),
        decreases n - start,
    {
        let j = find_from(content, NEWLINE, start);
        proof {
            lemma_next_sep(s, NEWLINE, start as int);
            assert(parts.skip(count as int)[0] == parts[count as int]);
            assert(path@.subrange(0, path@.len() as int) =~= path@);
        }
        let ghost before = target@;
        if j == n {
            proof {
                assert(parts.skip(count as int).len() == 1);
                assert(parts.len() == count + 1);
                assert(parts.last() == s.subrange(start as int, n as int));
            }
            if start < n {
                let line = copy_range(content, start, n);
                assert(lines.len() == count + 1);
                assert(lines[count as int] == line@);
                match apply(target, line.as_slice()) {
                    Ok(_) => {},
                    Err(m) => {
                        return Err(Error::Config(copy_range(path, 0, path.len()), count + 1, m));
                    },
                }
                assert(apply_lines::<T>(before, lines, count as int) == apply_lines::<T>(
                    target@,
                    lines,
                    count + 1,
                ));
                assert(apply_lines::<T>(target@, lines, count + 1) == (
                    target@,
                    None::<(int, Seq<u8>)>,
                ));
            } else {
                assert(lines.len() == count);
                assert(apply_lines::<T>(target@, lines, count as int) == (
                    target@,
                    None::<(int, Seq<u8>)>,
                ));
            }
            return Ok(());
        }
        let end: usize = if j > start && content[j - 1] == 0x0d {
            j - 1
        } else {
            j
        };
        let line = copy_range(content, start, end);
        proof {
            crate::document::lemma_split_from(s, NEWLINE, j + 1);
            assert(split_from(s, NEWLINE, start as int) == seq![s.subrange(start as int, j as int)]
                + split_from(s, NEWLINE, j + 1));
            assert(split_from(s, NEWLINE, j + 1).len() >= 1);
            assert(split_from(s, NEWLINE, start as int).len() == 1 + split_from(
                s,
                NEWLINE,
                j + 1,
            ).len());
            assert(parts.skip(count as int).len() == parts.len() - count);
            assert(parts.len() - count >= 2);
            assert(parts[count as int] == s.subrange(start as int, j as int));
            assert(line@ =~= strip_cr(s.subrange(start as int, j as int)));
            assert(lines[count as int] == line@);
            assert(parts.skip(count + 1) =~= parts.skip(count as int).skip(1));
            assert(parts.skip(count as int).skip(1) =~= split_from(s, NEWLINE, j + 1));
        }
        match apply(target, line.as_slice()) {
            Ok(_) => {},
            Err(m) => {
                return Err(Error::Config(copy_range(path, 0, path.len()), count + 1, m));
            },
        }
        start = j + 1;
        count = count + 1;
    }
}

/// A configuration file that was read.
pub struct ConfigFile {
    /// The path of the file.
    pub path: Vec<u8>,
    /// The content of the file.
    pub content: Vec<u8>,
}

/// The reading `plain` after the first `k` of the files `files`, the last of them first, or
/// the path of the first file that is wrong, the number of its first line that is wrong, and
/// what is wrong with it.
pub open spec fn apply_files(plain: Reading, files: Seq<ConfigFile>, k: int) -> Result<
    Reading,
    (Seq<u8>, int, Seq<u8>),
>
    decreases k,
{
    if k <= 0 || k > files.len() {
        Ok(plain)
    } else {
        let end = apply_lines::<ConfigReader>(plain, text_lines(files[k - 1].content@), 0);
        match end.1 {
            None => apply_files(end.0, files, k - 1),
            Some(e) => Err((files[k - 1].path@, e.0, e.1)),
        }
    }
}

impl Config {
    /// The reading that the loading of configuration files starts from: the settings that
    /// hold where no file says otherwise, and the lengths of time `seconds`.
    pub open spec fn start(seconds: Seq<SecondsView>) -> Reading {
        Reading { conf: Config::default_spec(), seconds }
    }

    /// The settings that the configuration files `files` give: the settings that hold where no
    /// file says otherwise, changed by the lines of the files. The files are applied from the
    /// last to the first, so that an earlier file overrides a later one. The first line that
    /// is wrong ends the loading with an error.
    ///
    /// `seconds` tells what the values of the key `message_duration` in the files come to, as
    /// lengths of time; [`duration_texts`] finds those values.
    pub fn load(files: &[ConfigFile], seconds: Vec<Seconds>) -> (r: Result<Config, Error>)
        ensures
            match apply_files(Config::start(views_of(seconds@)), files@, files@.len() as int) {
                Ok(end) => r == Ok::<Config, Error>(end.conf),
                Err(e) => r matches Err(Error::Config(p, l, m)) && p@ == e.0 && l == e.1 && m@
                    == e.2,
            },
    {
        let ghost table = views_of(seconds@);
        let mut reader = ConfigReader { conf: Config::default(), seconds };
        let mut k: usize = files.len();
        while k > 0
            invariant
                0 <= k <= files@.len(),
                table == views_of(seconds@),
                apply_files(Config::start(table), files@, files@.len() as int) == apply_files(
                    reader@,
                    files@,
                    k as int,
                ),
            decreases k,
        {
            k = k - 1;
            let file = &files[k];
            let ghost before = reader@;
            let ghost end = apply_lines::<ConfigReader>(before, text_lines(file.content@), 0);
            assert(apply_files(before, files@, k + 1) == match end.1 {
                None => apply_files(end.0, files@, k as int),
                Some(e) => Err::<Reading, (Seq<u8>, int, Seq<u8>)>((file.path@, e.0, e.1)),
            });
            match process_ini_file(file.path.as_slice(), file.content.as_slice(), &mut reader) {
                Ok(_) => {},
                Err(e) => {
                    return Err(e);
                },
            }
        }
        Ok(reader.conf)
    }
}

} // verus!
