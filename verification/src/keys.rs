//! Logical keys, and the decoder that recognises them in the raw bytes of a terminal.
//!
//! The decoder is a state machine that is fed one event at a time: either the next byte of the
//! input, or the news that no byte is waiting. The caller owns the input source and blocks on it;
//! the machine only decides. [`decode`] runs the machine over bytes that are already at hand.
//!
//! A byte that is not `ESC` is a key by itself. After `ESC`, the decoder knows these shapes:
//!
//! - `ESC [ A`, `B`, `C`, `D`: the arrows up, down, right and left;
//! - `ESC [ H` and `ESC O H`: home; `ESC [ F` and `ESC O F`: end;
//! - `ESC [ n ~` with a digit `n`: home (1, 7), delete (3), end (4, 8), page up (5), page
//!   down (6);
//! - `ESC [ 5 A` to `ESC [ 5 D`, and `ESC O a` to `ESC O d`: the arrows with Ctrl;
//! - `ESC [ n ; 5 A` to `ESC [ n ; 5 D` with a digit `n` from 0 to 8: the arrows with Ctrl;
//! - `ESC [ 1 ; ...`: the digit `1` stands for no key of its own, so it and the `;` are passed
//!   over, and the two bytes behind them are read as the two bytes behind `ESC [` are.
//!
//! Whatever else follows `ESC` makes the key `Escape`; the bytes that were looked at belong to
//! that key. No input is an error.

use vstd::prelude::*;

verus! {

/// An arrow key.
#[derive(Clone, Copy, Debug, PartialEq, Eq, Structural)]
pub enum AKey {
    Left,
    Right,
    Up,
    Down,
}

/// A paging key.
#[derive(Clone, Copy, Debug, PartialEq, Eq, Structural)]
pub enum PageKey {
    Up,
    Down,
}

/// A logical key, as the editor sees it.
#[derive(Clone, Copy, Debug, PartialEq, Eq, Structural)]
pub enum Key {
    Arrow(AKey),
    CtrlArrow(AKey),
    Page(PageKey),
    Home,
    End,
    Delete,
    Escape,
    Char(u8),
}

/// The byte that starts an escape sequence.
pub const ESC: u8 = 0x1b;

/// How far the decoder has come into one key.
#[derive(Clone, Copy, Debug, PartialEq, Eq, Structural)]
pub enum Decoder {
    /// Nothing of the key has been read yet.
    Start,
    /// `ESC` has been read.
    Escape,
    /// `ESC [` has been read.
    Bracket,
    /// `ESC O` has been read.
    LetterO,
    /// `ESC [` and the parameter digit held here have been read.
    Param(u8),
    /// `ESC [`, the parameter digit held here and `;` have been read.
    Separator(u8),
    /// `ESC [`, the parameter digit held here and `;` have been read, and after them the event
    /// held here has been seen: the modifier, if a byte came.
    Modifier(u8, Option<u8>),
}

/// What the decoder answers to one event.
#[derive(Clone, Copy, Debug, PartialEq, Eq, Structural)]
pub enum Step {
    /// The key is not complete: read on from this state.
    More(Decoder),
    /// The key is complete.
    Done(Key),
}

/// The key that ends `ESC [` with the two events `c` and `d`: a parameter or modifier, then the
/// final byte. Everything that is not listed here is an `Escape`.
pub open spec fn final_key(c: Option<u8>, d: Option<u8>) -> Key {
    if c == Some(0x31u8) && d == Some(0x7eu8) {
        Key::Home
    } else if c == Some(0x37u8) && d == Some(0x7eu8) {
        Key::Home
    } else if c == Some(0x34u8) && d == Some(0x7eu8) {
        Key::End
    } else if c == Some(0x38u8) && d == Some(0x7eu8) {
        Key::End
    } else if c == Some(0x33u8) && d == Some(0x7eu8) {
        Key::Delete
    } else if c == Some(0x35u8) && d == Some(0x7eu8) {
        Key::Page(PageKey::Up)
    } else if c == Some(0x36u8) && d == Some(0x7eu8) {
        Key::Page(PageKey::Down)
    } else if c == Some(0x35u8) && d == Some(0x41u8) {
        Key::CtrlArrow(AKey::Up)
    } else if c == Some(0x35u8) && d == Some(0x42u8) {
        Key::CtrlArrow(AKey::Down)
    } else if c == Some(0x35u8) && d == Some(0x43u8) {
        Key::CtrlArrow(AKey::Right)
    } else if c == Some(0x35u8) && d == Some(0x44u8) {
        Key::CtrlArrow(AKey::Left)
    } else {
        Key::Escape
    }
}

/// The key that ends `ESC [ c ;` with the two events `m` and `d`: a modifier, then the final
/// byte. The modifier `5` makes the arrows the arrows with Ctrl, whatever the digit `c` is.
/// Behind the digit `1`, which stands for no key of its own, the two events are read as they
/// are read behind `ESC [` itself. Everything else is an `Escape`.
pub open spec fn modified_key(c: u8, m: Option<u8>, d: Option<u8>) -> Key {
    if c == 0x31 {
        final_key(m, d)
    } else if m == Some(0x35u8) && d == Some(0x41u8) {
        Key::CtrlArrow(AKey::Up)
    } else if m == Some(0x35u8) && d == Some(0x42u8) {
        Key::CtrlArrow(AKey::Down)
    } else if m == Some(0x35u8) && d == Some(0x43u8) {
        Key::CtrlArrow(AKey::Right)
    } else if m == Some(0x35u8) && d == Some(0x44u8) {
        Key::CtrlArrow(AKey::Left)
    } else {
        Key::Escape
    }
}

/// Whether `b` is a parameter digit of an escape sequence: `0` to `8`.
pub open spec fn is_param(b: u8) -> bool {
    0x30 <= b <= 0x38
}

/// What the decoder answers in `state` to the event `ev`, where `None` says that no byte is
/// waiting.
pub open spec fn step_spec(state: Decoder, ev: Option<u8>) -> Step {
    match state {
        Decoder::Start => match ev {
            None => Step::More(Decoder::Start),
            Some(b) => if b == ESC {
                Step::More(Decoder::Escape)
            } else {
                Step::Done(Key::Char(b))
            },
        },
        Decoder::Escape => if ev == Some(0x5bu8) {
            Step::More(Decoder::Bracket)
        } else if ev == Some(0x4fu8) {
            Step::More(Decoder::LetterO)
        } else {
            Step::Done(Key::Escape)
        },
        Decoder::Bracket => match ev {
            None => Step::Done(Key::Escape),
            Some(b) => if b == 0x41 {
                Step::Done(Key::Arrow(AKey::Up))
            } else if b == 0x42 {
                Step::Done(Key::Arrow(AKey::Down))
            } else if b == 0x43 {
                Step::Done(Key::Arrow(AKey::Right))
            } else if b == 0x44 {
                Step::Done(Key::Arrow(AKey::Left))
            } else if b == 0x48 {
                Step::Done(Key::Home)
            } else if b == 0x46 {
                Step::Done(Key::End)
            } else if is_param(b) {
                Step::More(Decoder::Param(b))
            } else {
                Step::Done(Key::Escape)
            },
        },
        Decoder::LetterO => if ev == Some(0x48u8) {
            Step::Done(Key::Home)
        } else if ev == Some(0x46u8) {
            Step::Done(Key::End)
        } else if ev == Some(0x61u8) {
            Step::Done(Key::CtrlArrow(AKey::Up))
        } else if ev == Some(0x62u8) {
            Step::Done(Key::CtrlArrow(AKey::Down))
        } else if ev == Some(0x63u8) {
            Step::Done(Key::CtrlArrow(AKey::Right))
        } else if ev == Some(0x64u8) {
            Step::Done(Key::CtrlArrow(AKey::Left))
        } else {
            Step::Done(Key::Escape)
        },
        Decoder::Param(c) => if ev == Some(0x3bu8) {
            Step::More(Decoder::Separator(c))
        } else {
            Step::Done(final_key(Some(c), ev))
        },
        Decoder::Separator(c) => Step::More(Decoder::Modifier(c, ev)),
        Decoder::Modifier(c, m) => Step::Done(modified_key(c, m, ev)),
    }
}

/// The exec form of [`final_key`].
fn final_key_of(c: Option<u8>, d: Option<u8>) -> (key: Key)
    ensures
        key == final_key(c, d),
{
    match (c, d) {
        (Some(c), Some(d)) => {
            if d == 0x7e {
                if c == 0x31 || c == 0x37 {
                    Key::Home
                } else if c == 0x34 || c == 0x38 {
                    Key::End
                } else if c == 0x33 {
                    Key::Delete
                } else if c == 0x35 {
                    Key::Page(PageKey::Up)
                } else if c == 0x36 {
                    Key::Page(PageKey::Down)
                } else {
                    Key::Escape
                }
            } else if c == 0x35 {
                if d == 0x41 {
                    Key::CtrlArrow(AKey::Up)
                } else if d == 0x42 {
                    Key::CtrlArrow(AKey::Down)
                } else if d == 0x43 {
                    Key::CtrlArrow(AKey::Right)
                } else if d == 0x44 {
                    Key::CtrlArrow(AKey::Left)
                } else {
                    Key::Escape
                }
            } else {
                Key::Escape
            }
        },
        _ => Key::Escape,
    }
}

/// The exec form of [`modified_key`].
fn modified_key_of(c: u8, m: Option<u8>, d: Option<u8>) -> (key: Key)
    ensures
        key == modified_key(c, m, d),
{
    if c == 0x31 {
        final_key_of(m, d)
    } else {
        match (m, d) {
            (Some(0x35), Some(0x41)) => Key::CtrlArrow(AKey::Up),
            (Some(0x35), Some(0x42)) => Key::CtrlArrow(AKey::Down),
            (Some(0x35), Some(0x43)) => Key::CtrlArrow(AKey::Right),
            (Some(0x35), Some(0x44)) => Key::CtrlArrow(AKey::Left),
            _ => Key::Escape,
        }
    }
}

impl Decoder {
    /// A decoder at the start of a key.
    pub fn new() -> (d: Decoder)
        ensures
            d == Decoder::Start,
    {
        Decoder::Start
    }

    /// Feeds one event to the decoder: the next byte of the input, or `None` where no byte is
    /// waiting. The answer is the completed key, or the state to go on from.
    pub fn step(self, ev: Option<u8>) -> (r: Step)
        ensures
            r == step_spec(self, ev),
    {
        match self {
            Decoder::Start => match ev {
                None => Step::More(Decoder::Start),
                Some(b) => if b == ESC {
                    Step::More(Decoder::Escape)
                } else {
                    Step::Done(Key::Char(b))
                },
            },
            Decoder::Escape => match ev {
                Some(0x5b) => Step::More(Decoder::Bracket),
                Some(0x4f) => Step::More(Decoder::LetterO),
                _ => Step::Done(Key::Escape),
            },
            Decoder::Bracket => match ev {
                Some(0x41) => Step::Done(Key::Arrow(AKey::Up)),
                Some(0x42) => Step::Done(Key::Arrow(AKey::Down)),
                Some(0x43) => Step::Done(Key::Arrow(AKey::Right)),
                Some(0x44) => Step::Done(Key::Arrow(AKey::Left)),
                Some(0x48) => Step::Done(Key::Home),
                Some(0x46) => Step::Done(Key::End),
                Some(b) => if 0x30 <= b && b <= 0x38 {
                    Step::More(Decoder::Param(b))
                } else {
                    Step::Done(Key::Escape)
                },
                None => Step::Done(Key::Escape),
            },
            Decoder::LetterO => match ev {
                Some(0x48) => Step::Done(Key::Home),
                Some(0x46) => Step::Done(Key::End),
                Some(0x61) => Step::Done(Key::CtrlArrow(AKey::Up)),
                Some(0x62) => Step::Done(Key::CtrlArrow(AKey::Down)),
                Some(0x63) => Step::Done(Key::CtrlArrow(AKey::Right)),
                Some(0x64) => Step::Done(Key::CtrlArrow(AKey::Left)),
                _ => Step::Done(Key::Escape),
            },
            Decoder::Param(c) => match ev {
                Some(0x3b) => Step::More(Decoder::Separator(c)),
                _ => Step::Done(final_key_of(Some(c), ev)),
            },
            Decoder::Separator(c) => Step::More(Decoder::Modifier(c, ev)),
            Decoder::Modifier(c, m) => Step::Done(modified_key_of(c, m, ev)),
        }
    }
}

/// The event that the decoder sees at position `i` of the input `s`: the byte there, or `None`
/// behind the end.
pub open spec fn event_at(s: Seq<u8>, i: int) -> Option<u8> {
    if 0 <= i < s.len() {
        Some(s[i])
    } else {
        None
    }
}

/// The key that stands at the front of the input `s`, which is not empty.
pub open spec fn key_of(s: Seq<u8>) -> Key
    recommends
        s.len() > 0,
{
    let b1 = event_at(s, 1);
    let b2 = event_at(s, 2);
    if s[0] != ESC {
        Key::Char(s[0])
    } else if b1 == Some(0x5bu8) {
        if b2 == Some(0x41u8) {
            Key::Arrow(AKey::Up)
        } else if b2 == Some(0x42u8) {
            Key::Arrow(AKey::Down)
        } else if b2 == Some(0x43u8) {
            Key::Arrow(AKey::Right)
        } else if b2 == Some(0x44u8) {
            Key::Arrow(AKey::Left)
        } else if b2 == Some(0x48u8) {
            Key::Home
        } else if b2 == Some(0x46u8) {
            Key::End
        } else if b2 is Some && is_param(b2->0) {
            if event_at(s, 3) == Some(0x3bu8) {
                modified_key(b2->0, event_at(s, 4), event_at(s, 5))
            } else {
                final_key(b2, event_at(s, 3))
            }
        } else {
            Key::Escape
        }
    } else if b1 == Some(0x4fu8) {
        if b2 == Some(0x48u8) {
            Key::Home
        } else if b2 == Some(0x46u8) {
            Key::End
        } else if b2 == Some(0x61u8) {
            Key::CtrlArrow(AKey::Up)
        } else if b2 == Some(0x62u8) {
            Key::CtrlArrow(AKey::Down)
        } else if b2 == Some(0x63u8) {
            Key::CtrlArrow(AKey::Right)
        } else if b2 == Some(0x64u8) {
            Key::CtrlArrow(AKey::Left)
        } else {
            Key::Escape
        }
    } else {
        Key::Escape
    }
}

/// The number of positions of the input `s` that the decoder looks at to tell the key at its
/// front: one for a plain byte, up to six for the longest escape sequence.
pub open spec fn span_of(s: Seq<u8>) -> nat
    recommends
        s.len() > 0,
{
    let b1 = event_at(s, 1);
    let b2 = event_at(s, 2);
    if s[0] != ESC {
        1
    } else if b1 != Some(0x5bu8) && b1 != Some(0x4fu8) {
        2
    } else if b1 == Some(0x5bu8) && b2 is Some && is_param(b2->0) {
        if event_at(s, 3) == Some(0x3bu8) {
            6
        } else {
            4
        }
    } else {
        3
    }
}

/// The number of bytes of the input `s` that belong to the key at its front: the positions that
/// the decoder looks at, as far as the input reaches.
pub open spec fn consumed_of(s: Seq<u8>) -> nat
    recommends
        s.len() > 0,
{
    if span_of(s) <= s.len() {
        span_of(s)
    } else {
        s.len()
    }
}

/// Whether the decoder is in `state` once it has seen the first `i` positions of the input `s`
/// without completing a key.
pub open spec fn reached(s: Seq<u8>, i: int, state: Decoder) -> bool {
    match state {
        Decoder::Start => i == 0,
        Decoder::Escape => i == 1 && event_at(s, 0) == Some(ESC),
        Decoder::Bracket => i == 2 && event_at(s, 0) == Some(ESC) && event_at(s, 1) == Some(0x5bu8),
        Decoder::LetterO => i == 2 && event_at(s, 0) == Some(ESC) && event_at(s, 1) == Some(0x4fu8),
        Decoder::Param(c) => i == 3 && event_at(s, 0) == Some(ESC) && event_at(s, 1) == Some(0x5bu8)
            && event_at(s, 2) == Some(c) && is_param(c),
        Decoder::Separator(c) => i == 4 && event_at(s, 0) == Some(ESC) && event_at(s, 1) == Some(
            0x5bu8,
        ) && event_at(s, 2) == Some(c) && is_param(c) && event_at(s, 3) == Some(0x3bu8),
        Decoder::Modifier(c, m) => i == 5 && event_at(s, 0) == Some(ESC) && event_at(s, 1)
            == Some(0x5bu8) && event_at(s, 2) == Some(c) && is_param(c) && event_at(s, 3) == Some(
            0x3bu8,
        ) && m == event_at(s, 4),
    }
}

/// Decodes the key at the front of `input`, which holds the bytes that are at hand: behind its
/// end no byte is waiting. Returns the key and the number of bytes that belong to it, or `None`
/// where `input` is empty.
pub fn decode(input: &[u8]) -> (r: Option<(Key, usize)>)
    ensures
        input@.len() == 0 <==> r is None,
        r matches Some((key, n)) ==> key == key_of(input@) && n == consumed_of(input@) && 1 <= n
            <= 6,
{
    if input.len() == 0 {
        return None;
    }
    let mut state = Decoder::new();
    let mut i: usize = 0;
    loop
        invariant
            input@.len() > 0,
            0 <= i <= 5,
            reached(input@, i as int, state),
        decreases 6 - i,
    {
        let ev: Option<u8> = if i < input.len() {
            Some(input[i])
        } else {
            None
        };
        match state.step(ev) {
            Step::Done(key) => {
                let n: usize = if i < input.len() {
                    i + 1
                } else {
                    input.len()
                };
                return Some((key, n));
            },
            Step::More(next) => {
                state = next;
                i = i + 1;
            },
        }
    }
}

/// The control code that a terminal sends for `key` pressed with Ctrl: its low five bits.
pub open spec fn ctrl_key_spec(key: u8) -> u8 {
    key & 0x1f
}

/// The byte sent for `key` pressed together with Ctrl.
pub fn ctrl_key(key: u8) -> (code: u8)
    ensures
        code == ctrl_key_spec(key),
        code < 32,
        code as int == key as int % 32,
{
    let code: u8 = key & 0x1f;
    assert(key & 0x1f < 32 && (key & 0x1f) as int == key as int % 32) by (bit_vector);
    code
}

/// The key that leaves the editor: Ctrl-Q.
pub const EXIT: u8 = 0x11;

/// The second key that deletes backwards: Ctrl-H.
pub const DELETE_BIS: u8 = 0x08;

/// The key that draws the screen anew: Ctrl-L.
pub const REFRESH_SCREEN: u8 = 0x0c;

/// The key that saves the document: Ctrl-S.
pub const SAVE: u8 = 0x13;

/// The key that finds a text: Ctrl-F.
pub const FIND: u8 = 0x06;

/// The key that goes to a line: Ctrl-G.
pub const GOTO: u8 = 0x07;

/// The key that duplicates a row: Ctrl-D.
pub const DUPLICATE: u8 = 0x04;

/// The key that runs a command: Ctrl-E.
pub const EXECUTE: u8 = 0x05;

/// The key that removes a row: Ctrl-R.
pub const REMOVE_LINE: u8 = 0x12;

/// The key that deletes backwards.
pub const BACKSPACE: u8 = 127;

/// The keys of the editor are the control codes of their letters.
pub proof fn lemma_key_codes()
    ensures
        EXIT == ctrl_key_spec(0x51),
        DELETE_BIS == ctrl_key_spec(0x48),
        REFRESH_SCREEN == ctrl_key_spec(0x4c),
        SAVE == ctrl_key_spec(0x53),
        FIND == ctrl_key_spec(0x46),
        GOTO == ctrl_key_spec(0x47),
        DUPLICATE == ctrl_key_spec(0x44),
        EXECUTE == ctrl_key_spec(0x45),
        REMOVE_LINE == ctrl_key_spec(0x52),
{
    assert(0x51u8 & 0x1f == 0x11) by (bit_vector);
    assert(0x48u8 & 0x1f == 0x08) by (bit_vector);
    assert(0x4cu8 & 0x1f == 0x0c) by (bit_vector);
    assert(0x53u8 & 0x1f == 0x13) by (bit_vector);
    assert(0x46u8 & 0x1f == 0x06) by (bit_vector);
    assert(0x47u8 & 0x1f == 0x07) by (bit_vector);
    assert(0x44u8 & 0x1f == 0x04) by (bit_vector);
    assert(0x45u8 & 0x1f == 0x05) by (bit_vector);
    assert(0x52u8 & 0x1f == 0x12) by (bit_vector);
}

} // verus!
