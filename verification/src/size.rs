//! Numbers and sizes as text, and the search for a text in another.

use vstd::prelude::*;

verus! {

/// The decimal digits of `n`.
pub open spec fn decimal(n: int) -> Seq<u8>
    decreases n,
{
    if n < 10 {
        seq![(0x30 + n) as u8]
    } else {
        decimal(n / 10).push((0x30 + n % 10) as u8)
    }
}

/// Puts the decimal digits of `n` behind the bytes of `out`.
pub fn push_decimal(out: &mut Vec<u8>, n: u64)
    ensures
        final(out)@ == old(out)@ + decimal(n as int),
    decreases n,
{
    if n >= 10 {
        push_decimal(out, n / 10);
    }
    out.push(0x30 + (n % 10) as u8);
    assert(out@ =~= old(out)@ + decimal(n as int));
}

/// The index of the unit in which a size of `n` bytes is written: 0 for bytes, 1 for
/// kilobytes of 1024 bytes, and so on, each unit 1024 times the one before.
pub open spec fn unit_of(n: int) -> int
    decreases n,
{
    if n < 1024 {
        0
    } else {
        1 + unit_of(n / 1024)
    }
}

/// The number of bytes of the unit with index `i`.
pub open spec fn unit_size(i: int) -> int
    decreases i,
{
    if i <= 0 {
        1
    } else {
        1024 * unit_size(i - 1)
    }
}

/// The letter of the unit with index `i`, from 1 on: `k`, `M`, `G`, `T`, `P`, `E`.
pub open spec fn unit_letter(i: int) -> u8 {
    if i == 1 {
        0x6b
    } else if i == 2 {
        0x4d
    } else if i == 3 {
        0x47
    } else if i == 4 {
        0x54
    } else if i == 5 {
        0x50
    } else {
        0x45
    }
}

/// The size `n`, in hundredths of its unit, rounded down.
pub open spec fn hundredths(n: int) -> int {
    100 * n / unit_size(unit_of(n))
}

/// A size of `n` bytes as a text: below 1024 the number and `B`, and from there on the size
/// in its unit with two decimals, rounded down, the letter of the unit, and `B`.
pub open spec fn size_text(n: int) -> Seq<u8> {
    if n < 1024 {
        decimal(n) + seq![0x42u8]
    } else {
        let q = hundredths(n);
        decimal(q / 100) + seq![0x2eu8, (0x30 + q % 100 / 10) as u8, (0x30 + q % 10) as u8]
            + seq![unit_letter(unit_of(n)), 0x42u8]
    }
}

/// Writes a size of `n` bytes as a text.
pub fn format_size(n: u64) -> (out: Vec<u8>)
    ensures
        out@ == size_text(n as int),
{
    let mut out: Vec<u8> = Vec::new();
    if n < 1024 {
        push_decimal(&mut out, n);
        out.push(0x42);
        assert(out@ =~= size_text(n as int));
        return out;
    }
    let mut i: u8 = 0;
    let mut scale: u64 = 1;
    let mut m: u64 = n;
    while m >= 1024
        invariant
            0 <= i <= 6,
            scale == unit_size(i as int),
            1 <= scale,
            m * scale <= n,
            n < (m + 1) * scale,
            unit_of(n as int) == i + unit_of(m as int),
            i == 6 ==> m < 1024,
        decreases m,
    {
        proof {
            let lo = m / 1024;
            assert(lo * 1024 <= m < (lo + 1) * 1024);
            assert(lo * (1024 * scale) <= m * scale) by (nonlinear_arith)
                requires
                    lo * 1024 <= m,
                    scale >= 1,
            ;
            assert((m + 1) * scale <= (lo + 1) * (1024 * scale)) by (nonlinear_arith)
                requires
                    m + 1 <= (lo + 1) * 1024,
                    scale >= 1,
            ;
            assert(1024 * scale <= lo * (1024 * scale)) by (nonlinear_arith)
                requires
                    lo >= 1,
                    scale >= 1,
            ;
            lemma_unit_size_bound(i as int);
            lemma_unit_size_bound(i + 1);
            if i == 5 {
                assert(lo < 1024) by (nonlinear_arith)
                    requires
                        lo * (1024 * scale) <= n,
                        1024 * scale == 0x1000_0000_0000_0000,
                        n <= 0xffff_ffff_ffff_ffff,
                ;
            }
        }
        m = m / 1024;
        scale = scale * 1024;
        i = i + 1;
    }
    assert(unit_of(m as int) == 0);
    let q: u64 = ((100 * (n as u128)) / (scale as u128)) as u64;
    proof {
        assert(100 * n < 102400 * scale) by (nonlinear_arith)
            requires
                n < (m + 1) * scale,
                m < 1024,
                scale >= 1,
        ;
        assert((100 * n) / (scale as int) < 102400) by (nonlinear_arith)
            requires
                100 * n < 102400 * scale,
                scale >= 1,
        ;
        assert(q == hundredths(n as int));
    }
    push_decimal(&mut out, q / 100);
    out.push(0x2e);
    out.push(0x30 + (q % 100 / 10) as u8);
    out.push(0x30 + (q % 10) as u8);
    let letter: u8 = if i == 1 {
        0x6b
    } else if i == 2 {
        0x4d
    } else if i == 3 {
        0x47
    } else if i == 4 {
        0x54
    } else if i == 5 {
        0x50
    } else {
        0x45
    };
    out.push(letter);
    out.push(0x42);
    assert(out@ =~= size_text(n as int));
    out
}

/// The units up to the sixth have no more than 2 to the power of 60 bytes.
pub proof fn lemma_unit_size_bound(i: int)
    requires
        0 <= i <= 6,
    ensures
        1 <= unit_size(i) <= 0x1000_0000_0000_0000,
        i < 6 ==> unit_size(i) <= 0x4_0000_0000_0000,
        i == 6 ==> unit_size(i) == 0x1000_0000_0000_0000,
    decreases i,
{
    if i > 0 {
        lemma_unit_size_bound(i - 1);
        if i >= 2 {
            lemma_unit_size_bound(i - 2);
        }
        assert(unit_size(0) == 1);
        assert(unit_size(1) == 1024);
        if i >= 2 {
            assert(unit_size(2) == 1024 * 1024);
        }
        if i >= 3 {
            assert(unit_size(3) == 1024 * unit_size(2));
        }
        if i >= 4 {
            assert(unit_size(4) == 1024 * unit_size(3));
        }
        if i >= 5 {
            assert(unit_size(5) == 1024 * unit_size(4));
        }
        if i >= 6 {
            assert(unit_size(6) == 1024 * unit_size(5));
        }
    }
}

/// Whether `needle` stands in `s` at index `i`.
pub open spec fn occurs_at(s: Seq<u8>, i: int, needle: Seq<u8>) -> bool {
    0 <= i && i + needle.len() <= s.len() && s.subrange(i, i + needle.len()) == needle
}

/// Finds the first index at which `needle` stands in `s`. An empty needle stands at index 0.
pub fn slice_find(s: &[u8], needle: &[u8]) -> (r: Option<usize>)
    ensures
        match r {
            Some(i) => occurs_at(s@, i as int, needle@) && forall|j: int|
                0 <= j < i ==> !occurs_at(s@, j, needle@),
            None => forall|j: int| !occurs_at(s@, j, needle@),
        },
{
    let n = s.len();
    let m = needle.len();
    if m > n {
        return None;
    }
    let last = n - m;
    let mut i: usize = 0;
    while i <= last
        invariant
            n == s@.len(),
            m == needle@.len(),
            m <= n,
            last == n - m,
            0 <= i <= last + 1,
            forall|j: int| 0 <= j < i ==> !occurs_at(s@, j, needle@),
        decreases last + 1 - i,
    {
        let mut k: usize = 0;
        while k < m && s[i + k] == needle[k]
            invariant
                n == s@.len(),
                m == needle@.len(),
                i + m <= n,
                0 <= k <= m,
                forall|j: int| 0 <= j < k ==> s@[i + j] == needle@[j],
            decreases m - k,
        {
            k = k + 1;
        }
        if k == m {
            assert(s@.subrange(i as int, i + m) =~= needle@);
            return Some(i);
        }
        proof {
            assert(s@.subrange(i as int, i + m)[k as int] == s@[i + k]);
        }
        i = i + 1;
    }
    None
}

} // verus!
