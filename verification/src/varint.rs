//! LEB128 variable-length integers: seven payload bits per byte, least
//! significant group first, continuation flag in the most significant bit.
//! The newer Postform wire dialect encodes every integer field this way.

use vstd::prelude::*;

verus! {

/// Value and end position of the unsigned LEB128 integer starting at `pos`,
/// or `None` when the bytes run out before a terminating byte.
pub open spec fn leb_unsigned_at(s: Seq<u8>, pos: int) -> Option<(nat, int)>
    decreases s.len() - pos,
{
    if pos < 0 || pos >= s.len() {
        None
    } else {
        let b = s[pos];
        if b < 128 {
            Some((b as nat, pos + 1))
        } else {
            match leb_unsigned_at(s, pos + 1) {
                None => None,
                Some((v, q)) => Some((((b - 128) + 128 * v) as nat, q)),
            }
        }
    }
}

/// Value and end position of the signed LEB128 integer starting at `pos`:
/// the final byte's bit 6 is the sign, which extends through all higher bits.
pub open spec fn leb_signed_at(s: Seq<u8>, pos: int) -> Option<(int, int)>
    decreases s.len() - pos,
{
    if pos < 0 || pos >= s.len() {
        None
    } else {
        let b = s[pos];
        if b < 128 {
            Some((if b >= 64 { b - 128 } else { b as int }, pos + 1))
        } else {
            match leb_signed_at(s, pos + 1) {
                None => None,
                Some((v, q)) => Some(((b - 128) + 128 * v, q)),
            }
        }
    }
}

pub proof fn lemma_leb_unsigned_range(s: Seq<u8>, pos: int)
    ensures
        match leb_unsigned_at(s, pos) {
            Some((v, q)) => pos < q <= s.len(),
            None => true,
        },
    decreases s.len() - pos,
{
    if 0 <= pos < s.len() && s[pos] >= 128 {
        lemma_leb_unsigned_range(s, pos + 1);
    }
}

pub proof fn lemma_leb_signed_range(s: Seq<u8>, pos: int)
    ensures
        match leb_signed_at(s, pos) {
            Some((v, q)) => pos < q <= s.len(),
            None => true,
        },
    decreases s.len() - pos,
{
    if 0 <= pos < s.len() && s[pos] >= 128 {
        lemma_leb_signed_range(s, pos + 1);
    }
}

/// Reads the unsigned LEB128 integer starting at `pos`; fails when the
/// bytes run out or the value does not fit in a `u64`.
pub fn read_leb_unsigned(s: &[u8], pos: usize) -> (r: Option<(u64, usize)>)
    ensures
        match r {
            Some(p) => {
                &&& leb_unsigned_at(s@, pos as int) == Some((p.0 as nat, p.1 as int))
                &&& pos < p.1 <= s@.len()
            },
            None => match leb_unsigned_at(s@, pos as int) {
                None => true,
                Some((v, q)) => v > u64::MAX,
            },
        },
    decreases s@.len() - pos,
{
    proof {
        lemma_leb_unsigned_range(s@, pos as int);
    }
    if pos >= s.len() {
        return None;
    }
    let b = s[pos];
    if b < 128 {
        Some((b as u64, pos + 1))
    } else {
        match read_leb_unsigned(s, pos + 1) {
            None => None,
            Some((v, q)) => {
                let low = (b - 128) as u64;
                if v <= (u64::MAX - low) / 128 {
                    proof {
                        assert(128 * v <= u64::MAX - low) by (nonlinear_arith)
                            requires
                                v <= (u64::MAX - low) / 128,
                                low <= 127,
                        ;
                    }
                    Some((low + 128 * v, q))
                } else {
                    proof {
                        assert(low + 128 * v > u64::MAX) by (nonlinear_arith)
                            requires
                                v > (u64::MAX - low) / 128,
                                low <= 127,
                        ;
                    }
                    None
                }
            },
        }
    }
}

/// Reads the signed LEB128 integer starting at `pos`; fails when the
/// bytes run out or the value does not fit in an `i64`.
pub fn read_leb_signed(s: &[u8], pos: usize) -> (r: Option<(i64, usize)>)
    ensures
        match r {
            Some(p) => {
                &&& leb_signed_at(s@, pos as int) == Some((p.0 as int, p.1 as int))
                &&& pos < p.1 <= s@.len()
            },
            None => match leb_signed_at(s@, pos as int) {
                None => true,
                Some((v, q)) => v > i64::MAX || v < i64::MIN,
            },
        },
    decreases s@.len() - pos,
{
    proof {
        lemma_leb_signed_range(s@, pos as int);
    }
    if pos >= s.len() {
        return None;
    }
    let b = s[pos];
    if b < 128 {
        let v: i64 = if b >= 64 {
            (b as i64) - 128
        } else {
            b as i64
        };
        Some((v, pos + 1))
    } else {
        match read_leb_signed(s, pos + 1) {
            None => None,
            Some((v, q)) => {
                let val: i128 = ((b - 128) as i128) + 128 * (v as i128);
                if i64::MIN as i128 <= val && val <= i64::MAX as i128 {
                    Some((val as i64, q))
                } else {
                    None
                }
            },
        }
    }
}

} // verus!
