//! The document as a sequence of lines, and its form as one run of bytes.
//!
//! In a file the lines are separated by one line feed each. A file that ends with a line feed
//! therefore ends with an empty line, and an empty file is one empty line. Splitting and joining
//! are inverse to each other, so a document that is loaded and saved again is the same file.

use vstd::prelude::*;

verus! {

/// The byte that separates the lines of a file.
pub const NEWLINE: u8 = 0x0a;

/// The index of the first byte `sep` of `s` at or behind index `i`; the length of `s` where
/// there is none.
pub open spec fn next_sep(s: Seq<u8>, sep: u8, i: int) -> int
    decreases s.len() - i,
{
    if i < 0 || i >= s.len() {
        s.len() as int
    } else if s[i] == sep {
        i
    } else {
        next_sep(s, sep, i + 1)
    }
}

/// The runs of bytes between the separators `sep` of the part of `s` that starts at index `i`,
/// the empty runs too.
pub open spec fn split_from(s: Seq<u8>, sep: u8, i: int) -> Seq<Seq<u8>>
    decreases s.len() - i,
{
    let j = next_sep(s, sep, i);
    if i < 0 || j < i || j >= s.len() {
        seq![s.subrange(i, s.len() as int)]
    } else {
        seq![s.subrange(i, j)] + split_from(s, sep, j + 1)
    }
}

/// The lines of the file `s`.
pub open spec fn split_lines(s: Seq<u8>) -> Seq<Seq<u8>> {
    split_from(s, NEWLINE, 0)
}

/// The bytes that hold the runs `lines` with one separator `sep` between each two of them, and
/// none behind the last.
pub open spec fn join_with(lines: Seq<Seq<u8>>, sep: u8) -> Seq<u8>
    decreases lines.len(),
{
    if lines.len() == 0 {
        Seq::empty()
    } else if lines.len() == 1 {
        lines[0]
    } else {
        join_with(lines.drop_last(), sep) + seq![sep] + lines.last()
    }
}

/// The file that holds the lines `lines`: the lines with one line feed between each two of them,
/// and none behind the last.
pub open spec fn join_lines(lines: Seq<Seq<u8>>) -> Seq<u8> {
    join_with(lines, NEWLINE)
}

/// The sum of the lengths of `lines`.
pub open spec fn total_len(lines: Seq<Seq<u8>>) -> int
    decreases lines.len(),
{
    if lines.len() == 0 {
        0
    } else {
        total_len(lines.drop_last()) + lines.last().len()
    }
}

/// Whether none of `lines` holds the byte `sep`.
pub open spec fn free_of(lines: Seq<Seq<u8>>, sep: u8) -> bool {
    forall|i: int, k: int|
        0 <= i < lines.len() && 0 <= k < lines[i].len() ==> (#[trigger] lines[i][k]) != sep
}

/// Where the first separator at or behind `i` stands: not before `i`, with no separator in
/// between.
pub proof fn lemma_next_sep(s: Seq<u8>, sep: u8, i: int)
    requires
        0 <= i <= s.len(),
    ensures
        i <= next_sep(s, sep, i) <= s.len(),
        next_sep(s, sep, i) < s.len() ==> s[next_sep(s, sep, i)] == sep,
        forall|k: int| i <= k < next_sep(s, sep, i) ==> s[k] != sep,
    decreases s.len() - i,
{
    if i < s.len() && s[i] != sep {
        lemma_next_sep(s, sep, i + 1);
    }
}

/// The search for a separator may skip bytes that are none.
pub proof fn lemma_next_sep_skip(s: Seq<u8>, sep: u8, i: int, j: int)
    requires
        0 <= i <= j <= s.len(),
        forall|k: int| i <= k < j ==> s[k] != sep,
    ensures
        next_sep(s, sep, i) == next_sep(s, sep, j),
    decreases j - i,
{
    if i < j {
        lemma_next_sep_skip(s, sep, i + 1, j);
    }
}

/// A run in front of other runs is joined to them by one separator.
pub proof fn lemma_join_prepend(first: Seq<u8>, rest: Seq<Seq<u8>>, sep: u8)
    requires
        rest.len() >= 1,
    ensures
        join_with(seq![first] + rest, sep) == first + seq![sep] + join_with(rest, sep),
    decreases rest.len(),
{
    let all = seq![first] + rest;
    if rest.len() == 1 {
        assert(all.drop_last() =~= seq![first]);
        assert(all.last() == rest[0]);
        assert(join_with(all.drop_last(), sep) == first);
    } else {
        lemma_join_prepend(first, rest.drop_last(), sep);
        assert(all.drop_last() =~= seq![first] + rest.drop_last());
        assert(all.last() == rest.last());
        assert(join_with(all, sep) =~= first + seq![sep] + join_with(rest, sep));
    }
}

/// The lengths of lines in front of other lines add up.
pub proof fn lemma_total_len_concat(a: Seq<Seq<u8>>, b: Seq<Seq<u8>>)
    ensures
        total_len(a + b) == total_len(a) + total_len(b),
    decreases b.len(),
{
    if b.len() == 0 {
        assert(a + b =~= a);
    } else {
        lemma_total_len_concat(a, b.drop_last());
        assert((a + b).drop_last() =~= a + b.drop_last());
        assert((a + b).last() == b.last());
    }
}

/// The length of a single line is its own total.
pub proof fn lemma_total_len_one(line: Seq<u8>)
    ensures
        total_len(seq![line]) == line.len(),
{
    assert(seq![line].drop_last() =~= Seq::<Seq<u8>>::empty());
    assert(total_len(seq![line].drop_last()) == 0);
}

/// What splitting gives: at least one run, none of them with a separator in it, which joined
/// again are the bytes that were split, and which together hold all bytes but the separators.
pub proof fn lemma_split_from(s: Seq<u8>, sep: u8, i: int)
    requires
        0 <= i <= s.len(),
    ensures
        split_from(s, sep, i).len() >= 1,
        free_of(split_from(s, sep, i), sep),
        join_with(split_from(s, sep, i), sep) == s.subrange(i, s.len() as int),
        total_len(split_from(s, sep, i)) + split_from(s, sep, i).len() - 1 == s.len() - i,
    decreases s.len() - i,
{
    lemma_next_sep(s, sep, i);
    let j = next_sep(s, sep, i);
    if j >= s.len() {
        lemma_total_len_one(s.subrange(i, s.len() as int));
    } else {
        lemma_split_from(s, sep, j + 1);
        let first = s.subrange(i, j);
        let rest = split_from(s, sep, j + 1);
        lemma_join_prepend(first, rest, sep);
        lemma_total_len_concat(seq![first], rest);
        lemma_total_len_one(first);
        assert(first + seq![sep] + s.subrange(j + 1, s.len() as int) =~= s.subrange(
            i,
            s.len() as int,
        ));
        let all = seq![first] + rest;
        assert forall|a: int, k: int| 0 <= a < all.len() && 0 <= k < all[a].len() implies (
        #[trigger] all[a][k]) != sep by {
            if a > 0 {
                assert(all[a] == rest[a - 1]);
            }
        }
    }
}

/// A file that is split into its lines and joined again is the same file, byte for byte,
/// whether or not it ends with a line feed.
pub proof fn lemma_split_then_join(s: Seq<u8>)
    ensures
        join_lines(split_lines(s)) == s,
{
    lemma_split_from(s, NEWLINE, 0);
    assert(s.subrange(0, s.len() as int) =~= s);
}

/// Joined runs hold all their bytes and one separator between each two of them.
pub proof fn lemma_join_len(lines: Seq<Seq<u8>>, sep: u8)
    requires
        lines.len() >= 1,
    ensures
        join_with(lines, sep).len() == total_len(lines) + lines.len() - 1,
    decreases lines.len(),
{
    if lines.len() == 1 {
        assert(lines.drop_last() =~= Seq::<Seq<u8>>::empty());
        assert(total_len(lines.drop_last()) == 0);
    } else {
        lemma_join_len(lines.drop_last(), sep);
    }
}

/// The total length of lines, taken apart at the line with index `i`.
pub proof fn lemma_total_len_at(lines: Seq<Seq<u8>>, i: int)
    requires
        0 <= i < lines.len(),
    ensures
        total_len(lines) == total_len(lines.take(i)) + lines[i].len() + total_len(
            lines.skip(i + 1),
        ),
{
    assert(lines =~= lines.take(i) + seq![lines[i]] + lines.skip(i + 1));
    lemma_total_len_concat(lines.take(i) + seq![lines[i]], lines.skip(i + 1));
    lemma_total_len_concat(lines.take(i), seq![lines[i]]);
    lemma_total_len_one(lines[i]);
}

/// A changed line changes the total length by as much as its own length changes.
pub proof fn lemma_total_len_update(lines: Seq<Seq<u8>>, i: int, line: Seq<u8>)
    requires
        0 <= i < lines.len(),
    ensures
        total_len(lines.update(i, line)) == total_len(lines) - lines[i].len() + line.len(),
{
    let after = lines.update(i, line);
    lemma_total_len_at(lines, i);
    lemma_total_len_at(after, i);
    assert(after.take(i) =~= lines.take(i));
    assert(after.skip(i + 1) =~= lines.skip(i + 1));
}

/// A new line adds its length to the total.
pub proof fn lemma_total_len_insert(lines: Seq<Seq<u8>>, i: int, line: Seq<u8>)
    requires
        0 <= i <= lines.len(),
    ensures
        total_len(lines.insert(i, line)) == total_len(lines) + line.len(),
{
    let after = lines.insert(i, line);
    lemma_total_len_at(after, i);
    assert(after.take(i) =~= lines.take(i));
    assert(after.skip(i + 1) =~= lines.skip(i));
    assert(lines =~= lines.take(i) + lines.skip(i));
    lemma_total_len_concat(lines.take(i), lines.skip(i));
}

/// A line that is taken out takes its length from the total.
pub proof fn lemma_total_len_remove(lines: Seq<Seq<u8>>, i: int)
    requires
        0 <= i < lines.len(),
    ensures
        total_len(lines.remove(i)) == total_len(lines) - lines[i].len(),
{
    let after = lines.remove(i);
    lemma_total_len_at(lines, i);
    assert(after =~= lines.take(i) + lines.skip(i + 1));
    lemma_total_len_concat(lines.take(i), lines.skip(i + 1));
}

/// No total length is negative.
pub proof fn lemma_total_len_nonneg(lines: Seq<Seq<u8>>)
    ensures
        total_len(lines) >= 0,
    decreases lines.len(),
{
    if lines.len() > 0 {
        lemma_total_len_nonneg(lines.drop_last());
    }
}

/// The search for a separator in the bytes behind a run of other bytes finds what the search
/// in those bytes alone finds, further back by the length of the run.
pub proof fn lemma_next_sep_shift(front: Seq<u8>, s: Seq<u8>, sep: u8, i: int)
    requires
        0 <= i <= s.len(),
    ensures
        next_sep(front + s, sep, front.len() + i) == front.len() + next_sep(s, sep, i),
    decreases s.len() - i,
{
    if i < s.len() {
        assert((front + s)[front.len() + i] == s[i]);
        if s[i] != sep {
            lemma_next_sep_shift(front, s, sep, i + 1);
        }
    }
}

/// Splitting the bytes behind a run of other bytes gives what splitting those bytes alone
/// gives.
pub proof fn lemma_split_shift(front: Seq<u8>, s: Seq<u8>, sep: u8, i: int)
    requires
        0 <= i <= s.len(),
    ensures
        split_from(front + s, sep, front.len() + i) == split_from(s, sep, i),
    decreases s.len() - i,
{
    let all = front + s;
    let j = next_sep(s, sep, i);
    lemma_next_sep(s, sep, i);
    lemma_next_sep_shift(front, s, sep, i);
    if j >= s.len() {
        assert(all.subrange(front.len() + i, all.len() as int) =~= s.subrange(i, s.len() as int));
    } else {
        lemma_split_shift(front, s, sep, j + 1);
        assert(all.subrange(front.len() + i, front.len() + j) =~= s.subrange(i, j));
    }
}

/// Lines that are joined and split again are the same lines, provided that there is at least
/// one line and that no line holds a separator: a document that is saved and loaded again has
/// the rows that it had.
pub proof fn lemma_join_then_split(lines: Seq<Seq<u8>>, sep: u8)
    requires
        lines.len() >= 1,
        free_of(lines, sep),
    ensures
        split_from(join_with(lines, sep), sep, 0) == lines,
    decreases lines.len(),
{
    let first = lines[0];
    let s = join_with(lines, sep);
    assert(forall|k: int| 0 <= k < first.len() ==> first[k] != sep);
    if lines.len() == 1 {
        assert(s == first);
        lemma_next_sep_skip(s, sep, 0, s.len() as int);
        assert(s.subrange(0, s.len() as int) =~= s);
        assert(split_from(s, sep, 0) =~= lines);
    } else {
        let rest = lines.skip(1);
        assert(lines =~= seq![first] + rest);
        lemma_join_prepend(first, rest, sep);
        let tail = join_with(rest, sep);
        let front = first + seq![sep];
        assert(s =~= front + tail);
        assert forall|i: int, k: int| 0 <= i < rest.len() && 0 <= k < rest[i].len() implies (
        #[trigger] rest[i][k]) != sep by {
            assert(rest[i] == lines[i + 1]);
        }
        lemma_join_then_split(rest, sep);
        lemma_split_shift(front, tail, sep, 0);
        assert(front.len() == first.len() + 1);
        assert forall|k: int| 0 <= k < first.len() implies s[k] != sep by {
            assert(s[k] == first[k]);
        }
        lemma_next_sep_skip(s, sep, 0, first.len() as int);
        assert(s[first.len() as int] == sep);
        assert(next_sep(s, sep, 0) == first.len());
        assert(s.subrange(0, first.len() as int) =~= first);
        assert(split_from(s, sep, 0) == seq![first] + split_from(s, sep, front.len() as int));
    }
}

/// A byte more in one line is a byte more in all: whatever the lines are, and however many
/// bytes they hold, a byte that is inserted into the line with index `y` at index `x` adds
/// one to the sum of their lengths.
pub proof fn lemma_byte_inserted(lines: Seq<Seq<u8>>, y: int, x: int, c: u8)
    requires
        0 <= y < lines.len(),
        0 <= x <= lines[y].len(),
    ensures
        total_len(lines.update(y, lines[y].insert(x, c))) == total_len(lines) + 1,
{
    lemma_total_len_update(lines, y, lines[y].insert(x, c));
}

/// A byte that opens a line of its own behind the last line adds one to the sum of the
/// lengths of the lines.
pub proof fn lemma_byte_appended(lines: Seq<Seq<u8>>, c: u8)
    ensures
        total_len(lines.push(seq![c])) == total_len(lines) + 1,
{
    assert(lines.push(seq![c]) =~= lines.insert(lines.len() as int, seq![c]));
    lemma_total_len_insert(lines, lines.len() as int, seq![c]);
}

/// A line that is broken in two at index `x` leaves the sum of the lengths of the lines as it
/// is.
pub proof fn lemma_line_broken(lines: Seq<Seq<u8>>, y: int, x: int)
    requires
        0 <= y < lines.len(),
        0 <= x <= lines[y].len(),
    ensures
        total_len(lines.update(y, lines[y].take(x)).insert(y + 1, lines[y].skip(x))) == total_len(
            lines,
        ),
{
    lemma_total_len_update(lines, y, lines[y].take(x));
    lemma_total_len_insert(lines.update(y, lines[y].take(x)), y + 1, lines[y].skip(x));
}

/// Bytes that are taken out of one line are taken from the sum of the lengths of the lines:
/// the `n` bytes before index `x` of the line with index `y`.
pub proof fn lemma_bytes_deleted(lines: Seq<Seq<u8>>, y: int, x: int, n: int)
    requires
        0 <= y < lines.len(),
        0 <= n <= x <= lines[y].len(),
    ensures
        total_len(lines.update(y, lines[y].take(x - n) + lines[y].skip(x))) == total_len(lines) - n,
        total_len(lines) >= n,
{
    lemma_total_len_update(lines, y, lines[y].take(x - n) + lines[y].skip(x));
    lemma_total_len_at(lines, y);
    lemma_total_len_nonneg(lines.take(y));
    lemma_total_len_nonneg(lines.skip(y + 1));
}

/// Two lines that are joined into one leave the sum of the lengths of the lines as it is.
pub proof fn lemma_lines_joined(lines: Seq<Seq<u8>>, y: int)
    requires
        0 < y < lines.len(),
    ensures
        total_len(lines.update(y - 1, lines[y - 1] + lines[y]).remove(y)) == total_len(lines),
{
    lemma_total_len_update(lines, y - 1, lines[y - 1] + lines[y]);
    lemma_total_len_remove(lines.update(y - 1, lines[y - 1] + lines[y]), y);
}

/// A copy of a line adds the length of the line to the sum of the lengths of the lines,
/// whatever that sum is.
pub proof fn lemma_line_duplicated(lines: Seq<Seq<u8>>, y: int)
    requires
        0 <= y < lines.len(),
    ensures
        total_len(lines.insert(y + 1, lines[y])) == total_len(lines) + lines[y].len(),
{
    lemma_total_len_insert(lines, y + 1, lines[y]);
}

} // verus!
