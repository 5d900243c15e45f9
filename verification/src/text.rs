//! Text as bytes: trimming, comparing and putting together.

use vstd::prelude::*;
use vstd::string::StringSliceAdditionalSpecFns;

verus! {

/// Whether `b` is white space: a space, a tab, a line feed, a vertical tab, a form feed or a
/// carriage return. These are the white space of ASCII. White space that takes more than one
/// byte in UTF-8, such as the no-break space, is text like any other here.
pub open spec fn is_space(b: u8) -> bool {
    b == 0x20 || (0x09 <= b <= 0x0d)
}

/// The index of the first byte of `s` at or behind index `i` that is no white space; the length
/// of `s` where there is none.
pub open spec fn skip_spaces(s: Seq<u8>, i: int) -> int
    decreases s.len() - i,
{
    if i < 0 || i >= s.len() {
        s.len() as int
    } else if !is_space(s[i]) {
        i
    } else {
        skip_spaces(s, i + 1)
    }
}

/// The index behind the last byte of `s` before index `hi` that is no white space, but no less
/// than `lo`.
pub open spec fn drop_spaces(s: Seq<u8>, lo: int, hi: int) -> int
    decreases hi - lo,
{
    if hi <= lo || hi > s.len() || !is_space(s[hi - 1]) {
        hi
    } else {
        drop_spaces(s, lo, hi - 1)
    }
}

/// `s` without the ASCII white space at its start. White space outside ASCII stays.
pub open spec fn trim_start(s: Seq<u8>) -> Seq<u8> {
    s.subrange(skip_spaces(s, 0), s.len() as int)
}

/// `s` without the ASCII white space at its end. White space outside ASCII stays.
pub open spec fn trim_end(s: Seq<u8>) -> Seq<u8> {
    s.subrange(0, drop_spaces(s, 0, s.len() as int))
}

/// `s` without the ASCII white space at its start and at its end. White space outside ASCII
/// stays: a text that begins or ends with a no-break space, say, keeps it.
pub open spec fn trim(s: Seq<u8>) -> Seq<u8> {
    trim_end(trim_start(s))
}

/// Tells whether `b` is white space.
pub fn is_blank(b: u8) -> (r: bool)
    ensures
        r == is_space(b),
{
    b == 0x20 || (0x09 <= b && b <= 0x0d)
}

/// The bytes of `s` from index `lo` up to, not including, index `hi`.
pub fn copy_range(s: &[u8], lo: usize, hi: usize) -> (out: Vec<u8>)
    requires
        lo <= hi <= s@.len(),
    ensures
        out@ == s@.subrange(lo as int, hi as int),
{
    let mut out: Vec<u8> = Vec::new();
    let mut i: usize = lo;
    while i < hi
        invariant
            lo <= i <= hi <= s@.len(),
            out@ == s@.subrange(lo as int, i as int),
        decreases hi - i,
    {
        out.push(s[i]);
        i = i + 1;
        assert(out@ =~= s@.subrange(lo as int, i as int));
    }
    out
}

/// `s` without the ASCII white space at its start.
pub fn trimmed_start(s: &[u8]) -> (out: Vec<u8>)
    ensures
        out@ == trim_start(s@),
{
    let n = s.len();
    let mut lo: usize = 0;
    while lo < n && is_blank(s[lo])
        invariant
            0 <= lo <= n == s@.len(),
            skip_spaces(s@, 0) == skip_spaces(s@, lo as int),
        decreases n - lo,
    {
        lo = lo + 1;
    }
    copy_range(s, lo, n)
}

/// `s` without the ASCII white space at its end.
pub fn trimmed_end(s: &[u8]) -> (out: Vec<u8>)
    ensures
        out@ == trim_end(s@),
{
    let n = s.len();
    let mut hi: usize = n;
    while hi > 0 && is_blank(s[hi - 1])
        invariant
            0 <= hi <= n == s@.len(),
            drop_spaces(s@, 0, n as int) == drop_spaces(s@, 0, hi as int),
        decreases hi,
    {
        hi = hi - 1;
    }
    copy_range(s, 0, hi)
}

/// `s` without the ASCII white space at its start and at its end.
pub fn trimmed(s: &[u8]) -> (out: Vec<u8>)
    ensures
        out@ == trim(s@),
{
    let start = trimmed_start(s);
    trimmed_end(start.as_slice())
}

/// Tells whether `a` and `b` hold the same bytes.
pub fn same_bytes(a: &[u8], b: &[u8]) -> (r: bool)
    ensures
        r == (a@ == b@),
{
    if a.len() != b.len() {
        return false;
    }
    let n = a.len();
    let mut i: usize = 0;
    while i < n
        invariant
            0 <= i <= n,
            n == a@.len() == b@.len(),
            forall|k: int| 0 <= k < i ==> a@[k] == b@[k],
        decreases n - i,
    {
        if a[i] != b[i] {
            return false;
        }
        i = i + 1;
    }
    assert(a@ =~= b@);
    true
}

/// Tells whether `a` holds the bytes of the text `t`.
pub fn is_text(a: &[u8], t: &str) -> (r: bool)
    ensures
        r == (a@ == t.spec_bytes()),
{
    same_bytes(a, t.as_bytes())
}

/// Puts the bytes of `tail` behind those of `out`.
pub fn push_bytes(out: &mut Vec<u8>, tail: &[u8])
    ensures
        final(out)@ == old(out)@ + tail@,
{
    let n = tail.len();
    let mut i: usize = 0;
    while i < n
        invariant
            0 <= i <= n == tail@.len(),
            out@ == old(out)@ + tail@.take(i as int),
        decreases n - i,
    {
        out.push(tail[i]);
        i = i + 1;
        assert(out@ =~= old(out)@ + tail@.take(i as int));
    }
    assert(tail@.take(n as int) =~= tail@);
}

/// Puts the bytes of the text `t` behind those of `out`.
pub fn push_text(out: &mut Vec<u8>, t: &str)
    ensures
        final(out)@ == old(out)@ + t.spec_bytes(),
{
    push_bytes(out, t.as_bytes());
}

/// The bytes of the text `t`.
pub fn bytes_of(t: &str) -> (out: Vec<u8>)
    ensures
        out@ == t.spec_bytes(),
{
    let mut out: Vec<u8> = Vec::new();
    push_text(&mut out, t);
    out
}

/// A run of `n` spaces.
pub open spec fn spaces(n: int) -> Seq<u8> {
    Seq::new(
        if n > 0 {
            n as nat
        } else {
            0
        },
        |i: int| 0x20u8,
    )
}

/// The text `t` at the right of a field of `width` columns, with spaces before it. A text
/// that is wider than the field stays as it is.
pub open spec fn right_aligned(t: Seq<u8>, width: int) -> Seq<u8> {
    spaces(width - t.len()) + t
}

/// The text `t`, or as much of it as fits, in the middle of a field of `width` columns, with
/// spaces on both sides. Where the spaces cannot be split evenly, the right side has one more.
pub open spec fn centered(t: Seq<u8>, width: int) -> Seq<u8> {
    let shown = if t.len() > width {
        t.take(width)
    } else {
        t
    };
    let pad = width - shown.len();
    spaces(pad / 2) + shown + spaces(pad - pad / 2)
}

/// Puts `n` spaces behind the bytes of `out`.
pub fn push_spaces(out: &mut Vec<u8>, n: usize)
    ensures
        final(out)@ == old(out)@ + spaces(n as int),
{
    let mut i: usize = 0;
    while i < n
        invariant
            0 <= i <= n,
            out@ == old(out)@ + spaces(i as int),
        decreases n - i,
    {
        out.push(0x20);
        i = i + 1;
        assert(out@ =~= old(out)@ + spaces(i as int));
    }
}

/// Puts the text `t` behind the bytes of `out`, at the right of a field of `width` columns.
pub fn push_right_aligned(out: &mut Vec<u8>, t: &[u8], width: usize)
    ensures
        final(out)@ == old(out)@ + right_aligned(t@, width as int),
{
    if t.len() < width {
        push_spaces(out, width - t.len());
    } else {
        assert(spaces(width - t@.len()) =~= Seq::<u8>::empty());
    }
    push_bytes(out, t);
    assert(out@ =~= old(out)@ + right_aligned(t@, width as int));
}

/// Puts the text `t` behind the bytes of `out`, in the middle of a field of `width` columns.
pub fn push_centered(out: &mut Vec<u8>, t: &[u8], width: usize)
    ensures
        final(out)@ == old(out)@ + centered(t@, width as int),
{
    let shown = if t.len() > width {
        copy_range(t, 0, width)
    } else {
        copy_range(t, 0, t.len())
    };
    assert(shown@ =~= if t@.len() > width {
        t@.take(width as int)
    } else {
        t@
    });
    let pad = width - shown.len();
    push_spaces(out, pad / 2);
    push_bytes(out, shown.as_slice());
    push_spaces(out, pad - pad / 2);
    assert(out@ =~= old(out)@ + centered(t@, width as int));
}

} // verus!
