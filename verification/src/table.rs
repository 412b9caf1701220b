//! The interned string table: a byte buffer recovered from the
//! `.interned_strings` ELF section.  Wire records address it by byte offset;
//! each call site is stored as `file@line@format` terminated by a NUL.

use vstd::prelude::*;
use crate::errors::Error;
use crate::scan::{find_byte, find_first_character_position};
use vstd::slice::slice_to_vec;

verus! {

/// A user-visible string starts at `p` and runs up to the first NUL; it is
/// only valid when that NUL exists inside the table.
pub open spec fn valid_user_string(t: Seq<u8>, p: int) -> bool {
    &&& 0 <= p <= t.len()
    &&& find_byte(t.skip(p), 0) < t.len() - p
}

/// The bytes of the user string at offset `p`, NUL excluded.
pub open spec fn user_string_bytes(t: Seq<u8>, p: int) -> Seq<u8> {
    t.skip(p).take(find_byte(t.skip(p), 0))
}

pub open spec fn digit_of(b: u8) -> nat {
    if 48 <= b <= 57 {
        (b - 48) as nat
    } else {
        0
    }
}

pub open spec fn is_digits(s: Seq<u8>) -> bool {
    forall|i: int| 0 <= i < s.len() ==> 48 <= #[trigger] s[i] <= 57
}

/// Value of an ASCII decimal numeral, most significant digit first.
pub open spec fn dec_value(s: Seq<u8>) -> nat
    decreases s.len(),
{
    if s.len() == 0 {
        0
    } else {
        dec_value(s.drop_last()) * 10 + digit_of(s.last())
    }
}

/// A line-number field: at least one digit, digits only, and a value that
/// fits in a `u32`.
pub open spec fn is_dec_u32(s: Seq<u8>) -> bool {
    &&& s.len() > 0
    &&& is_digits(s)
    &&& dec_value(s) <= u32::MAX
}

proof fn lemma_dec_value_prefix(s: Seq<u8>, i: int)
    requires
        0 <= i <= s.len(),
    ensures
        dec_value(s.take(i)) <= dec_value(s),
    decreases s.len(),
{
    if i < s.len() {
        lemma_dec_value_prefix(s.drop_last(), i);
        assert(s.drop_last().take(i) =~= s.take(i));
    } else {
        assert(s.take(i) =~= s);
    }
}

/// Parses an ASCII decimal numeral; `None` when `s` is empty, holds a
/// non-digit, or encodes a value above `u32::MAX`.
pub fn parse_line_number(s: &[u8]) -> (r: Option<u32>)
    ensures
        is_dec_u32(s@) ==> r == Some(dec_value(s@) as u32),
        !is_dec_u32(s@) ==> r is None,
{
    let n = s.len();
    if n == 0 {
        return None;
    }
    let mut acc: u64 = 0;
    let mut i: usize = 0;
    while i < n
        invariant
            n == s@.len(),
            0 <= i <= n,
            forall|j: int| 0 <= j < i ==> 48 <= #[trigger] s@[j] <= 57,
            acc == dec_value(s@.take(i as int)),
            acc <= u32::MAX,
        decreases n - i,
    {
        let b = s[i];
        if b < 48 || b > 57 {
            return None;
        }
        let acc2: u64 = acc * 10 + ((b - 48) as u64);
        proof {
            assert(s@.take(i + 1).drop_last() =~= s@.take(i as int));
            assert(s@.take(i + 1).last() == s@[i as int]);
        }
        if acc2 > 0xFFFF_FFFF {
            proof {
                lemma_dec_value_prefix(s@, i + 1);
            }
            return None;
        }
        acc = acc2;
        i = i + 1;
    }
    proof {
        assert(s@.take(n as int) =~= s@);
    }
    Some(acc as u32)
}

/// The position after the first `c` in `s`: everything from just past the
/// delimiter, or the empty sequence when the delimiter is absent.
pub open spec fn after_byte(s: Seq<u8>, c: u8) -> Seq<u8> {
    if find_byte(s, c) < s.len() {
        s.skip(find_byte(s, c) + 1)
    } else {
        Seq::empty()
    }
}

/// First field of a `file@line@format` string: everything before the first
/// `@` (or the whole string when no `@` occurs).
pub open spec fn cs_file(s: Seq<u8>) -> Seq<u8> {
    s.take(find_byte(s, 64u8))
}

/// Second field: between the first and second `@`.
pub open spec fn cs_line_bytes(s: Seq<u8>) -> Seq<u8> {
    after_byte(s, 64u8).take(find_byte(after_byte(s, 64u8), 64u8))
}

/// Third field: after the second `@`, up to the first NUL.
pub open spec fn cs_format(s: Seq<u8>) -> Seq<u8> {
    after_byte(after_byte(s, 64u8), 64u8).take(
        find_byte(after_byte(after_byte(s, 64u8), 64u8), 0),
    )
}

/// Splits an interned call-site string into its `file`, `line` and `format`
/// fields.  Fields whose delimiter is absent extend to the end of the input;
/// the format field always stops at the first NUL.
pub fn recover_format_string(str_buffer: &[u8]) -> (r: (&[u8], &[u8], &[u8]))
    ensures
        r.0@ == cs_file(str_buffer@),
        r.1@ == cs_line_bytes(str_buffer@),
        r.2@ == cs_format(str_buffer@),
{
    let at_pos = find_first_character_position(str_buffer, 64u8);
    let file_name: &[u8] = &str_buffer[0..at_pos];
    let rest: &[u8] = if at_pos < str_buffer.len() {
        &str_buffer[at_pos + 1..str_buffer.len()]
    } else {
        &str_buffer[0..0]
    };
    proof {
        assert(rest@ =~= after_byte(str_buffer@, 64u8));
    }
    let at_pos2 = find_first_character_position(rest, 64u8);
    let line_number: &[u8] = &rest[0..at_pos2];
    let rest2: &[u8] = if at_pos2 < rest.len() {
        &rest[at_pos2 + 1..rest.len()]
    } else {
        &rest[0..0]
    };
    proof {
        assert(rest2@ =~= after_byte(after_byte(str_buffer@, 64u8), 64u8));
    }
    let nul_pos = find_first_character_position(rest2, 0);
    let format: &[u8] = &rest2[0..nul_pos];
    proof {
        assert(file_name@ =~= cs_file(str_buffer@));
        assert(line_number@ =~= cs_line_bytes(str_buffer@));
        assert(format@ =~= cs_format(str_buffer@));
    }
    (file_name, line_number, format)
}

/// A valid call site at offset `p`: a NUL-terminated string holding two `@`
/// separators whose middle field is a `u32` numeral.
pub open spec fn valid_call_site(t: Seq<u8>, p: int) -> bool {
    &&& valid_user_string(t, p)
    &&& find_byte(user_string_bytes(t, p), 64u8) < user_string_bytes(t, p).len()
    &&& find_byte(after_byte(user_string_bytes(t, p), 64u8), 64u8) < after_byte(
        user_string_bytes(t, p),
        64u8,
    ).len()
    &&& is_dec_u32(cs_line_bytes(user_string_bytes(t, p)))
}

/// File-name bytes of the call site at `p`.
pub open spec fn call_site_file(t: Seq<u8>, p: int) -> Seq<u8> {
    cs_file(user_string_bytes(t, p))
}

/// Line number of the call site at `p`.
pub open spec fn call_site_line(t: Seq<u8>, p: int) -> u32 {
    dec_value(cs_line_bytes(user_string_bytes(t, p))) as u32
}

/// Format-string bytes of the call site at `p`.
pub open spec fn call_site_format(t: Seq<u8>, p: int) -> Seq<u8> {
    after_byte(after_byte(user_string_bytes(t, p), 64u8), 64u8)
}

/// Immutable byte buffer of interned strings, addressed by byte offset.
pub struct InternedStringTable {
    bytes: Vec<u8>,
}

impl View for InternedStringTable {
    type V = Seq<u8>;

    closed spec fn view(&self) -> Seq<u8> {
        self.bytes@
    }
}

impl InternedStringTable {
    /// Takes ownership of the raw `.interned_strings` section contents.
    pub fn new(bytes: Vec<u8>) -> (r: InternedStringTable)
        ensures
            r@ == bytes@,
    {
        InternedStringTable { bytes }
    }

    pub fn len(&self) -> (r: usize)
        ensures
            r == self@.len(),
    {
        self.bytes.len()
    }

    /// The NUL-terminated byte string at offset `str_ptr`, NUL excluded.
    pub fn user_string(&self, str_ptr: usize) -> (r: Result<Vec<u8>, Error>)
        ensures
            valid_user_string(self@, str_ptr as int) ==> (r matches Ok(v) && v@
                == user_string_bytes(self@, str_ptr as int)),
            !valid_user_string(self@, str_ptr as int) ==> (r matches Err(e) && e
                == Error::InvalidFormatString),
    {
        if str_ptr > self.bytes.len() {
            return Err(Error::InvalidFormatString);
        }
        let tail: &[u8] = &self.bytes.as_slice()[str_ptr..self.bytes.len()];
        proof {
            assert(tail@ =~= self@.skip(str_ptr as int));
        }
        let e = find_first_character_position(tail, 0);
        if e >= tail.len() {
            return Err(Error::InvalidFormatString);
        }
        let v = slice_to_vec(&tail[0..e]);
        proof {
            assert(v@ =~= user_string_bytes(self@, str_ptr as int));
        }
        Ok(v)
    }

    /// The call site at offset `str_ptr`, split into file name, line number
    /// and format string.  Fails with `InvalidFormatString` whenever the
    /// offset does not address a well-formed `file@line@format` record.
    pub fn call_site(&self, str_ptr: usize) -> (r: Result<(Vec<u8>, u32, Vec<u8>), Error>)
        ensures
            valid_call_site(self@, str_ptr as int) ==> (r matches Ok(t) && t.0@
                == call_site_file(self@, str_ptr as int) && t.1 == call_site_line(
                self@,
                str_ptr as int,
            ) && t.2@ == call_site_format(self@, str_ptr as int)),
            !valid_call_site(self@, str_ptr as int) ==> (r matches Err(e) && e
                == Error::InvalidFormatString),
    {
        let us = match self.user_string(str_ptr) {
            Ok(v) => v,
            Err(e) => {
                return Err(e);
            },
        };
        let s: &[u8] = us.as_slice();
        let a1 = find_first_character_position(s, 64u8);
        if a1 >= s.len() {
            return Err(Error::InvalidFormatString);
        }
        let r1: &[u8] = &s[a1 + 1..s.len()];
        proof {
            assert(r1@ =~= after_byte(us@, 64u8));
        }
        let a2 = find_first_character_position(r1, 64u8);
        if a2 >= r1.len() {
            return Err(Error::InvalidFormatString);
        }
        let line_bytes: &[u8] = &r1[0..a2];
        let fmt: &[u8] = &r1[a2 + 1..r1.len()];
        match parse_line_number(line_bytes) {
            None => Err(Error::InvalidFormatString),
            Some(line) => {
                let file: &[u8] = &s[0..a1];
                proof {
                    let t = self@;
                    let p = str_ptr as int;
                    assert(file@ =~= call_site_file(t, p));
                    assert(line_bytes@ =~= cs_line_bytes(user_string_bytes(t, p)));
                    assert(fmt@ =~= call_site_format(t, p));
                }
                Ok((slice_to_vec(file), line, slice_to_vec(fmt)))
            },
        }
    }
}

} // verus!
