//! Byte-level scanning helpers shared by the string table and the format
//! engine: finding a delimiter and reading little-endian integers.

use vstd::prelude::*;

verus! {

/// Index of the first occurrence of `c` in `s`, or `s.len()` when absent.
pub open spec fn find_byte(s: Seq<u8>, c: u8) -> int
    decreases s.len(),
{
    if s.len() == 0 {
        0
    } else if s[0] == c {
        0
    } else {
        1 + find_byte(s.drop_first(), c)
    }
}

pub proof fn lemma_find_byte(s: Seq<u8>, c: u8)
    ensures
        0 <= find_byte(s, c) <= s.len(),
        find_byte(s, c) < s.len() ==> s[find_byte(s, c)] == c,
        forall|i: int| 0 <= i < find_byte(s, c) ==> s[i] != c,
    decreases s.len(),
{
    if s.len() > 0 && s[0] != c {
        lemma_find_byte(s.drop_first(), c);
        assert forall|i: int| 0 <= i < find_byte(s, c) implies s[i] != c by {
            if i > 0 {
                assert(s.drop_first()[i - 1] == s[i]);
            }
        }
    }
}

/// Position of the first `ch` byte in `buffer`, or `buffer.len()` when the
/// byte does not occur.
pub fn find_first_character_position(buffer: &[u8], ch: u8) -> (r: usize)
    ensures
        r == find_byte(buffer@, ch),
        r <= buffer@.len(),
        r < buffer@.len() ==> buffer@[r as int] == ch,
        forall|i: int| 0 <= i < r ==> buffer@[i] != ch,
{
    proof {
        lemma_find_byte(buffer@, ch);
    }
    let mut i: usize = 0;
    while i < buffer.len()
        invariant
            i <= buffer@.len(),
            forall|j: int| 0 <= j < i ==> buffer@[j] != ch,
            i <= find_byte(buffer@, ch),
        decreases buffer@.len() - i,
    {
        if buffer[i] == ch {
            proof {
                lemma_find_byte(buffer@, ch);
            }
            return i;
        }
        i = i + 1;
        proof {
            lemma_find_byte(buffer@, ch);
        }
    }
    i
}

/// Index of the first occurrence of `c` in `s` at or after `i`, or
/// `s.len()` when there is none.
pub open spec fn find_from(s: Seq<u8>, i: int, c: u8) -> int
    decreases s.len() - i,
{
    if i < 0 || i >= s.len() {
        s.len() as int
    } else if s[i] == c {
        i
    } else {
        find_from(s, i + 1, c)
    }
}

pub proof fn lemma_find_from(s: Seq<u8>, i: int, c: u8)
    requires
        0 <= i <= s.len(),
    ensures
        i <= find_from(s, i, c) <= s.len(),
        find_from(s, i, c) < s.len() ==> s[find_from(s, i, c)] == c,
        forall|j: int| i <= j < find_from(s, i, c) ==> s[j] != c,
    decreases s.len() - i,
{
    if i < s.len() && s[i] != c {
        lemma_find_from(s, i + 1, c);
    }
}

/// Position of the first `ch` byte at or after `from`, or `s.len()` when
/// the byte does not occur there.
pub fn find_from_position(s: &[u8], from: usize, ch: u8) -> (r: usize)
    requires
        from <= s@.len(),
    ensures
        r == find_from(s@, from as int, ch),
        from <= r <= s@.len(),
        r < s@.len() ==> s@[r as int] == ch,
        forall|j: int| from <= j < r ==> s@[j] != ch,
{
    proof {
        lemma_find_from(s@, from as int, ch);
    }
    let n = s.len();
    let mut i: usize = from;
    while i < n
        invariant
            n == s@.len(),
            from <= i <= n,
            forall|j: int| from <= j < i ==> s@[j] != ch,
            i <= find_from(s@, from as int, ch),
        decreases n - i,
    {
        if s[i] == ch {
            proof {
                lemma_find_from(s@, from as int, ch);
            }
            return i;
        }
        i = i + 1;
        proof {
            lemma_find_from(s@, from as int, ch);
        }
    }
    i
}

/// Unsigned value of `s` read as a little-endian integer: the byte at the
/// lowest index is the least significant.
pub open spec fn le_unsigned(s: Seq<u8>) -> nat
    decreases s.len(),
{
    if s.len() == 0 {
        0
    } else {
        (s[0] + 256 * le_unsigned(s.drop_first())) as nat
    }
}

/// Two's-complement signed value of `s` read as a little-endian integer.
pub open spec fn le_signed(s: Seq<u8>) -> int {
    if s.len() == 0 {
        0
    } else if le_unsigned(s) >= pow256(s.len() as nat) / 2 {
        le_unsigned(s) - pow256(s.len() as nat)
    } else {
        le_unsigned(s) as int
    }
}

pub open spec fn pow256(n: nat) -> nat
    decreases n,
{
    if n == 0 {
        1
    } else {
        256 * pow256((n - 1) as nat)
    }
}

pub proof fn lemma_le_unsigned_bound(s: Seq<u8>)
    ensures
        le_unsigned(s) < pow256(s.len() as nat),
    decreases s.len(),
{
    if s.len() > 0 {
        lemma_le_unsigned_bound(s.drop_first());
    }
}

/// Reads `n` little-endian bytes starting at `pos` as an unsigned integer.
pub fn read_le_unsigned(s: &[u8], pos: usize, n: usize) -> (r: u64)
    requires
        pos + n <= s@.len(),
        1 <= n <= 8,
    ensures
        r == le_unsigned(s@.subrange(pos as int, pos + n)),
{
    proof {
        lemma_le_unsigned_bound(s@.subrange(pos as int, pos + n));
        lemma_pow256_le_u64(n as nat);
    }
    let sl: usize = s.len();
    let mut i: usize = n;
    let mut acc: u64 = 0;
    while i > 0
        invariant
            i <= n,
            pos + n <= s@.len(),
            sl == s@.len(),
            n <= 8,
            acc == le_unsigned(s@.subrange(pos + i, pos + n)),
            acc < pow256((n - i) as nat),
        decreases i,
    {
        i = i - 1;
        proof {
            let sub = s@.subrange(pos + i, pos + n);
            assert(sub.drop_first() =~= s@.subrange(pos + i + 1, pos + n));
            lemma_le_unsigned_bound(sub);
            lemma_pow256_le_u64(n as nat);
            lemma_pow256_mono((n - i) as nat, n as nat);
            assert(s@[pos + i] + 256 * le_unsigned(sub.drop_first()) < pow256(((n - i)) as nat))
                by {
                assert(pow256(((n - i)) as nat) == 256 * pow256((n - i - 1) as nat));
            }
        }
        acc = (s[pos + i] as u64) + 256 * acc;
    }
    proof {
        assert(s@.subrange(pos as int, pos + n) =~= s@.subrange(pos + 0, pos + n));
    }
    acc
}

pub proof fn lemma_pow256_le_u64(n: nat)
    requires
        n <= 8,
    ensures
        pow256(n) <= 0x1_0000_0000_0000_0000,
{
    assert(pow256(0) == 1);
    assert(pow256(1) == 256);
    assert(pow256(2) == 0x1_0000);
    assert(pow256(3) == 0x100_0000);
    assert(pow256(4) == 0x1_0000_0000);
    assert(pow256(5) == 0x100_0000_0000);
    assert(pow256(6) == 0x1_0000_0000_0000);
    assert(pow256(7) == 0x100_0000_0000_0000);
    assert(pow256(8) == 0x1_0000_0000_0000_0000);
    lemma_pow256_mono(n, 8);
}

pub proof fn lemma_pow256_mono(a: nat, b: nat)
    requires
        a <= b,
    ensures
        pow256(a) <= pow256(b),
    decreases b,
{
    if a < b {
        lemma_pow256_mono(a, (b - 1) as nat);
        assert(pow256(b) == 256 * pow256((b - 1) as nat));
    }
}

} // verus!
