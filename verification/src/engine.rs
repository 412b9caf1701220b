//! The format-spec engine: scans a printf-style format string left to
//! right, copies plain runs verbatim and substitutes each `%` specifier
//! with the next argument decoded from the record's byte cursor.
//!
//! Integer arguments are read according to the record codec: the legacy
//! dialect takes fixed little-endian widths from the platform descriptor,
//! the newer dialect LEB128-encodes every integer (width modifiers are
//! still accepted for format compatibility, but ignored).

use vstd::prelude::*;
use crate::descriptor::PlatformDescriptor;
use crate::errors::Error;
use crate::render::{push_radix, push_signed, spec_radix, spec_signed};
use crate::scan::{
    find_from, find_from_position, le_signed, le_unsigned, lemma_le_unsigned_bound,
    lemma_find_from, lemma_pow256_le_u64, pow256, read_le_unsigned,
};
use crate::table::{user_string_bytes, valid_user_string, InternedStringTable};
use crate::varint::{leb_signed_at, leb_unsigned_at, read_leb_signed, read_leb_unsigned};
use vstd::utf8::valid_utf8;
use crate::text::utf8_is_valid;

verus! {

/// How integer arguments are encoded on the wire.
#[derive(Copy, Clone, Debug)]
pub enum RecordCodec {
    /// Every integer field is a LEB128 variable-length integer.
    Leb128,
    /// Fixed little-endian widths taken from the target's platform
    /// descriptor.
    Platform(PlatformDescriptor),
}

/// Which platform width a specifier selects.
#[derive(Copy, Clone, Debug, PartialEq, Eq, Structural)]
pub enum WidthClass {
    Char,
    Short,
    Int,
    Long,
    LongLong,
    Ptr,
}

/// One parsed `%` specifier.
#[derive(Copy, Clone, Debug, PartialEq, Eq, Structural)]
pub enum Directive {
    Signed(WidthClass),
    Unsigned(WidthClass),
    Octal(WidthClass),
    Hex(WidthClass),
    Pointer,
    Str,
    Interned,
    Percent,
}

pub open spec fn spec_width(d: PlatformDescriptor, w: WidthClass) -> nat {
    match w {
        WidthClass::Char => d.char_size as nat,
        WidthClass::Short => d.short_size as nat,
        WidthClass::Int => d.int_size as nat,
        WidthClass::Long => d.long_size as nat,
        WidthClass::LongLong => d.long_long_size as nat,
        WidthClass::Ptr => d.ptr_size as nat,
    }
}

/// A codec the engine can run: a platform codec must carry validated
/// widths.
pub open spec fn codec_valid(c: RecordCodec) -> bool {
    match c {
        RecordCodec::Leb128 => true,
        RecordCodec::Platform(d) => d.is_valid(),
    }
}

/// Resolves the conversion character at `j` (after any width modifier).
/// `Err` carries the character blamed for an invalid specifier: the
/// conversion character itself, or the last character of a truncated
/// format string.
pub open spec fn spec_conv_at(fmt: Seq<u8>, j: int, w: WidthClass) -> Result<(Directive, int), u8> {
    if j >= fmt.len() {
        Err(fmt[fmt.len() - 1])
    } else if fmt[j] == 100 {  // d
        Ok((Directive::Signed(w), j + 1))
    } else if fmt[j] == 117 {  // u
        Ok((Directive::Unsigned(w), j + 1))
    } else if fmt[j] == 111 {  // o
        Ok((Directive::Octal(w), j + 1))
    } else if fmt[j] == 120 {  // x
        Ok((Directive::Hex(w), j + 1))
    } else {
        Err(fmt[j])
    }
}

/// Parses the specifier starting at the `%` at position `i`, yielding the
/// directive and the position just past it.  Longer modifiers are matched
/// first, so `%lld` wins over `%ld` over `%d`.
pub open spec fn spec_match_at(fmt: Seq<u8>, i: int) -> Result<(Directive, int), u8> {
    if i + 1 >= fmt.len() {
        Err(fmt[fmt.len() - 1])
    } else {
        let c = fmt[i + 1];
        if c == 104 {  // h
            if i + 2 < fmt.len() && fmt[i + 2] == 104 {
                spec_conv_at(fmt, i + 3, WidthClass::Char)
            } else {
                spec_conv_at(fmt, i + 2, WidthClass::Short)
            }
        } else if c == 108 {  // l
            if i + 2 < fmt.len() && fmt[i + 2] == 108 {
                spec_conv_at(fmt, i + 3, WidthClass::LongLong)
            } else {
                spec_conv_at(fmt, i + 2, WidthClass::Long)
            }
        } else if c == 115 {  // s
            Ok((Directive::Str, i + 2))
        } else if c == 112 {  // p
            Ok((Directive::Pointer, i + 2))
        } else if c == 107 {  // k
            Ok((Directive::Interned, i + 2))
        } else if c == 37 {  // %
            Ok((Directive::Percent, i + 2))
        } else {
            spec_conv_at(fmt, i + 1, WidthClass::Int)
        }
    }
}

pub proof fn lemma_match_at_bounds(fmt: Seq<u8>, i: int)
    requires
        0 <= i < fmt.len(),
    ensures
        match spec_match_at(fmt, i) {
            Ok((d, k)) => i + 2 <= k <= fmt.len(),
            Err(c) => true,
        },
{
}

/// An unsigned integer argument at `apos`: LEB128 or `spec_width` bytes
/// little-endian, depending on the codec.
pub open spec fn spec_arg_unsigned_at(
    codec: RecordCodec,
    w: WidthClass,
    args: Seq<u8>,
    apos: int,
) -> Result<(nat, int), Error> {
    match codec {
        RecordCodec::Leb128 => match leb_unsigned_at(args, apos) {
            Option::None => Err(Error::MissingLogArgument),
            Option::Some((v, q)) => if v > u64::MAX {
                Err(Error::MissingLogArgument)
            } else {
                Ok((v, q))
            },
        },
        RecordCodec::Platform(d) => {
            let n = spec_width(d, w);
            if apos + n > args.len() {
                Err(Error::MissingLogArgument)
            } else {
                Ok((le_unsigned(args.subrange(apos, apos + n)), apos + n))
            }
        },
    }
}

/// A signed integer argument at `apos`, two's complement for the fixed
/// widths, sign-extended LEB128 otherwise.
pub open spec fn spec_arg_signed_at(
    codec: RecordCodec,
    w: WidthClass,
    args: Seq<u8>,
    apos: int,
) -> Result<(int, int), Error> {
    match codec {
        RecordCodec::Leb128 => match leb_signed_at(args, apos) {
            Option::None => Err(Error::MissingLogArgument),
            Option::Some((v, q)) => if v > i64::MAX || v < i64::MIN {
                Err(Error::MissingLogArgument)
            } else {
                Ok((v, q))
            },
        },
        RecordCodec::Platform(d) => {
            let n = spec_width(d, w);
            if apos + n > args.len() {
                Err(Error::MissingLogArgument)
            } else {
                Ok((le_signed(args.subrange(apos, apos + n)), apos + n))
            }
        },
    }
}

/// The text a directive appends and the argument cursor after it.
pub open spec fn spec_apply_at(
    codec: RecordCodec,
    table: Seq<u8>,
    dir: Directive,
    args: Seq<u8>,
    apos: int,
) -> Result<(Seq<u8>, int), Error> {
    match dir {
        Directive::Signed(w) => match spec_arg_signed_at(codec, w, args, apos) {
            Err(e) => Err(e),
            Ok((v, q)) => Ok((spec_signed(v), q)),
        },
        Directive::Unsigned(w) => match spec_arg_unsigned_at(codec, w, args, apos) {
            Err(e) => Err(e),
            Ok((v, q)) => Ok((spec_radix(v, 10), q)),
        },
        Directive::Octal(w) => match spec_arg_unsigned_at(codec, w, args, apos) {
            Err(e) => Err(e),
            Ok((v, q)) => Ok((spec_radix(v, 8), q)),
        },
        Directive::Hex(w) => match spec_arg_unsigned_at(codec, w, args, apos) {
            Err(e) => Err(e),
            Ok((v, q)) => Ok((spec_radix(v, 16), q)),
        },
        Directive::Pointer => match spec_arg_unsigned_at(codec, WidthClass::Ptr, args, apos) {
            Err(e) => Err(e),
            Ok((v, q)) => Ok((seq![48u8, 120u8] + spec_radix(v, 16), q)),
        },
        Directive::Str => {
            let e = find_from(args, apos, 0);
            let sb = args.subrange(apos, e);
            if !valid_utf8(sb) {
                Err(Error::MissingLogArgument)
            } else if e < args.len() {
                Ok((sb, e + 1))
            } else {
                Ok((sb, args.len() as int))
            }
        },
        Directive::Interned => match spec_arg_unsigned_at(codec, WidthClass::Ptr, args, apos) {
            Err(e) => Err(e),
            Ok((v, q)) => if valid_user_string(table, v as int) {
                Ok((user_string_bytes(table, v as int), q))
            } else {
                Err(Error::InvalidFormatString)
            },
        },
        Directive::Percent => Ok((seq![37u8], apos)),
    }
}

/// The full engine: text produced from `fmt[fpos..]` against `args[apos..]`
/// and the final argument cursor, or the first error.
pub open spec fn spec_format_at(
    codec: RecordCodec,
    table: Seq<u8>,
    fmt: Seq<u8>,
    fpos: int,
    args: Seq<u8>,
    apos: int,
) -> Result<(Seq<u8>, int), Error>
    decreases fmt.len() - fpos,
    when 0 <= fpos
    via spec_format_at_decreases
{
    if fpos >= fmt.len() {
        Ok((Seq::empty(), apos))
    } else if fmt[fpos] == 37 {
        match spec_match_at(fmt, fpos) {
            Err(c) => Err(Error::InvalidFormatSpecifier(c as char)),
            Ok((dir, k)) => match spec_apply_at(codec, table, dir, args, apos) {
                Err(e) => Err(e),
                Ok((piece, ap)) => match spec_format_at(codec, table, fmt, k, args, ap) {
                    Err(e) => Err(e),
                    Ok((rest, ap2)) => Ok((piece + rest, ap2)),
                },
            },
        }
    } else {
        let p = find_from(fmt, fpos, 37);
        match spec_format_at(codec, table, fmt, p, args, apos) {
            Err(e) => Err(e),
            Ok((rest, ap)) => Ok((fmt.subrange(fpos, p) + rest, ap)),
        }
    }
}

#[via_fn]
proof fn spec_format_at_decreases(
    codec: RecordCodec,
    table: Seq<u8>,
    fmt: Seq<u8>,
    fpos: int,
    args: Seq<u8>,
    apos: int,
) {
    if 0 <= fpos < fmt.len() {
        if fmt[fpos] == 37 {
            lemma_match_at_bounds(fmt, fpos);
        } else {
            lemma_find_from(fmt, fpos + 1, 37);
            assert(find_from(fmt, fpos, 37) == find_from(fmt, fpos + 1, 37));
        }
    }
}

fn width_of(d: &PlatformDescriptor, w: WidthClass) -> (r: u32)
    ensures
        r as nat == spec_width(*d, w),
{
    match w {
        WidthClass::Char => d.char_size,
        WidthClass::Short => d.short_size,
        WidthClass::Int => d.int_size,
        WidthClass::Long => d.long_size,
        WidthClass::LongLong => d.long_long_size,
        WidthClass::Ptr => d.ptr_size,
    }
}

fn match_directive(fmt: &[u8], i: usize) -> (r: Result<(Directive, usize), u8>)
    requires
        i < fmt@.len(),
        fmt@[i as int] == 37,
    ensures
        match r {
            Ok((d, k)) => spec_match_at(fmt@, i as int) == Ok::<_, u8>((d, k as int)) && i + 2 <= k
                <= fmt@.len(),
            Err(c) => spec_match_at(fmt@, i as int) == Err::<(Directive, int), _>(c),
        },
{
    proof {
        lemma_match_at_bounds(fmt@, i as int);
    }
    let n = fmt.len();
    if i + 1 >= n {
        return Err(fmt[n - 1]);
    }
    let c = fmt[i + 1];
    if c == 104 {
        if i + 2 < n && fmt[i + 2] == 104 {
            conv_directive(fmt, i + 3, WidthClass::Char)
        } else {
            conv_directive(fmt, i + 2, WidthClass::Short)
        }
    } else if c == 108 {
        if i + 2 < n && fmt[i + 2] == 108 {
            conv_directive(fmt, i + 3, WidthClass::LongLong)
        } else {
            conv_directive(fmt, i + 2, WidthClass::Long)
        }
    } else if c == 115 {
        Ok((Directive::Str, i + 2))
    } else if c == 112 {
        Ok((Directive::Pointer, i + 2))
    } else if c == 107 {
        Ok((Directive::Interned, i + 2))
    } else if c == 37 {
        Ok((Directive::Percent, i + 2))
    } else {
        conv_directive(fmt, i + 1, WidthClass::Int)
    }
}

fn conv_directive(fmt: &[u8], j: usize, w: WidthClass) -> (r: Result<(Directive, usize), u8>)
    requires
        0 < fmt@.len(),
        0 < j,
    ensures
        match r {
            Ok((d, k)) => spec_conv_at(fmt@, j as int, w) == Ok::<_, u8>((d, k as int)) && j < k
                <= fmt@.len(),
            Err(c) => spec_conv_at(fmt@, j as int, w) == Err::<(Directive, int), _>(c),
        },
{
    let n = fmt.len();
    if j >= n {
        return Err(fmt[n - 1]);
    }
    let c = fmt[j];
    if c == 100 {
        Ok((Directive::Signed(w), j + 1))
    } else if c == 117 {
        Ok((Directive::Unsigned(w), j + 1))
    } else if c == 111 {
        Ok((Directive::Octal(w), j + 1))
    } else if c == 120 {
        Ok((Directive::Hex(w), j + 1))
    } else {
        Err(c)
    }
}

fn read_arg_unsigned(codec: &RecordCodec, w: WidthClass, args: &[u8], apos: usize) -> (r: Result<
    (u64, usize),
    Error,
>)
    requires
        codec_valid(*codec),
        apos <= args@.len(),
    ensures
        match r {
            Ok((v, q)) => spec_arg_unsigned_at(*codec, w, args@, apos as int) == Ok::<_, Error>(
                (v as nat, q as int),
            ) && apos <= q <= args@.len(),
            Err(e) => spec_arg_unsigned_at(*codec, w, args@, apos as int) == Err::<(nat, int), _>(
                e,
            ),
        },
{
    match codec {
        RecordCodec::Leb128 => match read_leb_unsigned(args, apos) {
            Option::None => Err(Error::MissingLogArgument),
            Option::Some((v, q)) => Ok((v, q)),
        },
        RecordCodec::Platform(d) => {
            let n = width_of(d, w) as usize;
            if n > args.len() - apos {
                Err(Error::MissingLogArgument)
            } else {
                proof {
                    lemma_le_unsigned_bound(args@.subrange(apos as int, apos + n));
                    lemma_pow256_le_u64(n as nat);
                }
                let v = read_le_unsigned(args, apos, n);
                Ok((v, apos + n))
            }
        },
    }
}

fn read_arg_signed(codec: &RecordCodec, w: WidthClass, args: &[u8], apos: usize) -> (r: Result<
    (i64, usize),
    Error,
>)
    requires
        codec_valid(*codec),
        apos <= args@.len(),
    ensures
        match r {
            Ok((v, q)) => spec_arg_signed_at(*codec, w, args@, apos as int) == Ok::<_, Error>(
                (v as int, q as int),
            ) && apos <= q <= args@.len(),
            Err(e) => spec_arg_signed_at(*codec, w, args@, apos as int) == Err::<(int, int), _>(e),
        },
{
    match codec {
        RecordCodec::Leb128 => match read_leb_signed(args, apos) {
            Option::None => Err(Error::MissingLogArgument),
            Option::Some((v, q)) => Ok((v, q)),
        },
        RecordCodec::Platform(d) => {
            let n = width_of(d, w) as usize;
            if n > args.len() - apos {
                Err(Error::MissingLogArgument)
            } else {
                proof {
                    lemma_le_unsigned_bound(args@.subrange(apos as int, apos + n));
                    lemma_pow256_le_u64(n as nat);
                    assert(pow256(1) == 256 && pow256(2) == 0x1_0000 && pow256(4)
                        == 0x1_0000_0000) by {
                        assert(pow256(0) == 1);
                        assert(pow256(1) == 256);
                        assert(pow256(2) == 0x1_0000);
                        assert(pow256(3) == 0x100_0000);
                        assert(pow256(4) == 0x1_0000_0000);
                    }
                }
                let v = read_le_unsigned(args, apos, n);
                let sv: i64 = if n == 8 {
                    if v >= 0x8000_0000_0000_0000u64 {
                        let offset = v - 0x8000_0000_0000_0000u64;
                        i64::MIN + (offset as i64)
                    } else {
                        v as i64
                    }
                } else {
                    let full: i64 = if n == 1 {
                        256
                    } else if n == 2 {
                        65536
                    } else {
                        4294967296
                    };
                    if (v as i64) >= full / 2 {
                        (v as i64) - full
                    } else {
                        v as i64
                    }
                };
                proof {
                    assert(pow256(8) == 0x1_0000_0000_0000_0000) by {
                        assert(pow256(0) == 1);
                        assert(pow256(1) == 256);
                        assert(pow256(2) == 0x1_0000);
                        assert(pow256(3) == 0x100_0000);
                        assert(pow256(4) == 0x1_0000_0000);
                        assert(pow256(5) == 0x100_0000_0000);
                        assert(pow256(6) == 0x1_0000_0000_0000);
                        assert(pow256(7) == 0x100_0000_0000_0000);
                        assert(pow256(8) == 0x1_0000_0000_0000_0000);
                    }
                }
                Ok((sv, apos + n))
            }
        },
    }
}

/// Appends all of `s` to `out`.
pub fn push_bytes(out: &mut Vec<u8>, s: &[u8])
    ensures
        final(out)@ == old(out)@ + s@,
{
    let n = s.len();
    let mut i: usize = 0;
    while i < n
        invariant
            n == s@.len(),
            0 <= i <= n,
            out@ == old(out)@ + s@.take(i as int),
        decreases n - i,
    {
        out.push(s[i]);
        i = i + 1;
        proof {
            assert(old(out)@ + s@.take(i as int) =~= (old(out)@ + s@.take(i - 1)).push(
                s@[i - 1],
            ));
        }
    }
    proof {
        assert(s@.take(n as int) =~= s@);
    }
}

fn apply_directive(
    codec: &RecordCodec,
    table: &InternedStringTable,
    dir: Directive,
    args: &[u8],
    apos: usize,
    out: &mut Vec<u8>,
) -> (r: Result<usize, Error>)
    requires
        codec_valid(*codec),
        apos <= args@.len(),
    ensures
        match r {
            Ok(np) => {
                &&& spec_apply_at(*codec, table@, dir, args@, apos as int) == Ok::<_, Error>(
                    (final(out)@.skip(old(out)@.len() as int), np as int),
                )
                &&& final(out)@.len() >= old(out)@.len()
                &&& final(out)@.take(old(out)@.len() as int) == old(out)@
                &&& apos <= np <= args@.len()
            },
            Err(e) => {
                &&& spec_apply_at(*codec, table@, dir, args@, apos as int) == Err::<
                    (Seq<u8>, int),
                    _,
                >(e)
                &&& final(out)@ == old(out)@
            },
        },
{
    let ghost base = out@;
    match dir {
        Directive::Signed(w) => match read_arg_signed(codec, w, args, apos) {
            Err(e) => Err(e),
            Ok((v, q)) => {
                push_signed(out, v);
                proof {
                    assert(out@.skip(base.len() as int) =~= spec_signed(v as int));
                    assert(out@.take(base.len() as int) =~= base);
                }
                Ok(q)
            },
        },
        Directive::Unsigned(w) => match read_arg_unsigned(codec, w, args, apos) {
            Err(e) => Err(e),
            Ok((v, q)) => {
                push_radix(out, v, 10);
                proof {
                    assert(out@.skip(base.len() as int) =~= spec_radix(v as nat, 10));
                    assert(out@.take(base.len() as int) =~= base);
                }
                Ok(q)
            },
        },
        Directive::Octal(w) => match read_arg_unsigned(codec, w, args, apos) {
            Err(e) => Err(e),
            Ok((v, q)) => {
                push_radix(out, v, 8);
                proof {
                    assert(out@.skip(base.len() as int) =~= spec_radix(v as nat, 8));
                    assert(out@.take(base.len() as int) =~= base);
                }
                Ok(q)
            },
        },
        Directive::Hex(w) => match read_arg_unsigned(codec, w, args, apos) {
            Err(e) => Err(e),
            Ok((v, q)) => {
                push_radix(out, v, 16);
                proof {
                    assert(out@.skip(base.len() as int) =~= spec_radix(v as nat, 16));
                    assert(out@.take(base.len() as int) =~= base);
                }
                Ok(q)
            },
        },
        Directive::Pointer => match read_arg_unsigned(codec, WidthClass::Ptr, args, apos) {
            Err(e) => Err(e),
            Ok((v, q)) => {
                out.push(48);
                out.push(120);
                push_radix(out, v, 16);
                proof {
                    assert(out@.skip(base.len() as int) =~= seq![48u8, 120u8] + spec_radix(
                        v as nat,
                        16,
                    ));
                    assert(out@.take(base.len() as int) =~= base);
                }
                Ok(q)
            },
        },
        Directive::Str => {
            let e = find_from_position(args, apos, 0);
            let sb: &[u8] = &args[apos..e];
            if !utf8_is_valid(sb) {
                Err(Error::MissingLogArgument)
            } else {
                push_bytes(out, sb);
                proof {
                    assert(out@.skip(base.len() as int) =~= sb@);
                    assert(out@.take(base.len() as int) =~= base);
                }
                if e < args.len() {
                    Ok(e + 1)
                } else {
                    Ok(e)
                }
            }
        },
        Directive::Interned => match read_arg_unsigned(codec, WidthClass::Ptr, args, apos) {
            Err(e) => Err(e),
            Ok((v, q)) => {
                if v > (table.len() as u64) {
                    return Err(Error::InvalidFormatString);
                }
                match table.user_string(v as usize) {
                    Err(e) => Err(e),
                    Ok(us) => {
                        push_bytes(out, us.as_slice());
                        proof {
                            assert(out@.skip(base.len() as int) =~= us@);
                            assert(out@.take(base.len() as int) =~= base);
                        }
                        Ok(q)
                    },
                }
            },
        },
        Directive::Percent => {
            out.push(37);
            proof {
                assert(out@.skip(base.len() as int) =~= seq![37u8]);
                assert(out@.take(base.len() as int) =~= base);
            }
            Ok(apos)
        },
    }
}

/// Runs the engine from `fmt[fpos..]`, appending to `out`; returns the
/// argument cursor after the last substitution.
fn run_format(
    codec: &RecordCodec,
    table: &InternedStringTable,
    fmt: &[u8],
    fpos: usize,
    args: &[u8],
    apos: usize,
    out: &mut Vec<u8>,
) -> (r: Result<usize, Error>)
    requires
        codec_valid(*codec),
        fpos <= fmt@.len(),
        apos <= args@.len(),
    ensures
        match r {
            Ok(np) => {
                &&& spec_format_at(*codec, table@, fmt@, fpos as int, args@, apos as int) == Ok::<
                    _,
                    Error,
                >((final(out)@.skip(old(out)@.len() as int), np as int))
                &&& final(out)@.len() >= old(out)@.len()
                &&& final(out)@.take(old(out)@.len() as int) == old(out)@
                &&& apos <= np <= args@.len()
            },
            Err(e) => spec_format_at(*codec, table@, fmt@, fpos as int, args@, apos as int)
                == Err::<(Seq<u8>, int), _>(e),
        },
    decreases fmt@.len() - fpos,
{
    let ghost base = out@;
    if fpos >= fmt.len() {
        proof {
            assert(out@.skip(base.len() as int) =~= Seq::<u8>::empty());
            assert(out@.take(base.len() as int) =~= base);
        }
        return Ok(apos);
    }
    let b = fmt[fpos];
    if b == 37 {
        match match_directive(fmt, fpos) {
            Err(c) => Err(Error::InvalidFormatSpecifier(c as char)),
            Ok((dir, k)) => match apply_directive(codec, table, dir, args, apos, out) {
                Err(e) => Err(e),
                Ok(ap) => {
                    let ghost mid = out@;
                    match run_format(codec, table, fmt, k, args, ap, out) {
                        Err(e) => Err(e),
                        Ok(np) => {
                            proof {
                                assert(out@.skip(base.len() as int) =~= mid.skip(
                                    base.len() as int,
                                ) + out@.skip(mid.len() as int));
                                assert(out@.take(base.len() as int) =~= base);
                            }
                            Ok(np)
                        },
                    }
                },
            },
        }
    } else {
        let p = find_from_position(fmt, fpos, 37);
        push_bytes(out, &fmt[fpos..p]);
        let ghost mid = out@;
        match run_format(codec, table, fmt, p, args, apos, out) {
            Err(e) => Err(e),
            Ok(np) => {
                proof {
                    assert(mid.skip(base.len() as int) =~= fmt@.subrange(fpos as int, p as int));
                    assert(out@.skip(base.len() as int) =~= mid.skip(base.len() as int)
                        + out@.skip(mid.len() as int));
                    assert(out@.take(base.len() as int) =~= base);
                }
                Ok(np)
            },
        }
    }
}

/// Formats `fmt` against `args` under the given codec, resolving `%k`
/// references through `table`.  Returns the produced text and how many
/// argument bytes were consumed.
pub fn format_with_args(
    codec: &RecordCodec,
    table: &InternedStringTable,
    fmt: &[u8],
    args: &[u8],
) -> (r: Result<(Vec<u8>, usize), Error>)
    requires
        codec_valid(*codec),
    ensures
        match r {
            Ok((v, np)) => spec_format_at(*codec, table@, fmt@, 0, args@, 0) == Ok::<_, Error>(
                (v@, np as int),
            ) && np <= args@.len(),
            Err(e) => spec_format_at(*codec, table@, fmt@, 0, args@, 0) == Err::<
                (Seq<u8>, int),
                _,
            >(e),
        },
{
    let mut out: Vec<u8> = Vec::new();
    match run_format(codec, table, fmt, 0, args, 0, &mut out) {
        Err(e) => Err(e),
        Ok(np) => {
            proof {
                assert(out@.skip(0) =~= out@);
            }
            Ok((out, np))
        },
    }
}

/// Formats a raw format string against fixed-width little-endian argument
/// bytes using the widths of a common 32-bit target (4-byte int and
/// pointer, 8-byte long long).
pub fn format_string(format: &[u8], arguments: &[u8]) -> (r: Result<Vec<u8>, Error>)
    ensures
        match r {
            Ok(v) => spec_format_at(
                RecordCodec::Platform(default_descriptor()),
                Seq::empty(),
                format@,
                0,
                arguments@,
                0,
            ) matches Ok((o, np)) && v@ == o,
            Err(e) => spec_format_at(
                RecordCodec::Platform(default_descriptor()),
                Seq::empty(),
                format@,
                0,
                arguments@,
                0,
            ) == Err::<(Seq<u8>, int), _>(e),
        },
{
    let codec = RecordCodec::Platform(
        PlatformDescriptor {
            char_size: 1,
            short_size: 2,
            int_size: 4,
            long_size: 4,
            long_long_size: 8,
            ptr_size: 4,
        },
    );
    let table = InternedStringTable::new(Vec::new());
    match format_with_args(&codec, &table, format, arguments) {
        Err(e) => Err(e),
        Ok((v, _np)) => Ok(v),
    }
}

/// Decodes one unsigned LEB128 argument at `pos` and appends its decimal
/// digits.
pub fn format_unsigned(out: &mut Vec<u8>, args: &[u8], pos: usize) -> (r: Result<usize, Error>)
    ensures
        match r {
            Ok(np) => leb_unsigned_at(args@, pos as int) matches Some((v, q)) && np == q && v
                <= u64::MAX && final(out)@ == old(out)@ + spec_radix(v, 10),
            Err(e) => e == Error::MissingLogArgument && final(out)@ == old(out)@ && (match
            leb_unsigned_at(args@, pos as int) {
                Option::None => true,
                Option::Some((v, q)) => v > u64::MAX,
            }),
        },
{
    match read_leb_unsigned(args, pos) {
        Option::None => Err(Error::MissingLogArgument),
        Option::Some((v, q)) => {
            push_radix(out, v, 10);
            Ok(q)
        },
    }
}

/// Decodes one signed LEB128 argument at `pos` and appends its decimal
/// digits, `-`-prefixed when negative.
pub fn format_signed(out: &mut Vec<u8>, args: &[u8], pos: usize) -> (r: Result<usize, Error>)
    ensures
        match r {
            Ok(np) => leb_signed_at(args@, pos as int) matches Some((v, q)) && np == q
                && i64::MIN <= v <= i64::MAX && final(out)@ == old(out)@ + spec_signed(v),
            Err(e) => e == Error::MissingLogArgument && final(out)@ == old(out)@ && (match
            leb_signed_at(args@, pos as int) {
                Option::None => true,
                Option::Some((v, q)) => v > i64::MAX || v < i64::MIN,
            }),
        },
{
    match read_leb_signed(args, pos) {
        Option::None => Err(Error::MissingLogArgument),
        Option::Some((v, q)) => {
            push_signed(out, v);
            Ok(q)
        },
    }
}

/// Decodes one unsigned LEB128 argument at `pos` and appends its octal
/// digits.
pub fn format_octal(out: &mut Vec<u8>, args: &[u8], pos: usize) -> (r: Result<usize, Error>)
    ensures
        match r {
            Ok(np) => leb_unsigned_at(args@, pos as int) matches Some((v, q)) && np == q && v
                <= u64::MAX && final(out)@ == old(out)@ + spec_radix(v, 8),
            Err(e) => e == Error::MissingLogArgument && final(out)@ == old(out)@,
        },
{
    match read_leb_unsigned(args, pos) {
        Option::None => Err(Error::MissingLogArgument),
        Option::Some((v, q)) => {
            push_radix(out, v, 8);
            Ok(q)
        },
    }
}

/// Decodes one unsigned LEB128 argument at `pos` and appends its lowercase
/// hexadecimal digits.
pub fn format_hex(out: &mut Vec<u8>, args: &[u8], pos: usize) -> (r: Result<usize, Error>)
    ensures
        match r {
            Ok(np) => leb_unsigned_at(args@, pos as int) matches Some((v, q)) && np == q && v
                <= u64::MAX && final(out)@ == old(out)@ + spec_radix(v, 16),
            Err(e) => e == Error::MissingLogArgument && final(out)@ == old(out)@,
        },
{
    match read_leb_unsigned(args, pos) {
        Option::None => Err(Error::MissingLogArgument),
        Option::Some((v, q)) => {
            push_radix(out, v, 16);
            Ok(q)
        },
    }
}

/// Decodes one unsigned LEB128 argument at `pos` and appends it as a
/// `0x`-prefixed lowercase hexadecimal pointer.
pub fn format_pointer(out: &mut Vec<u8>, args: &[u8], pos: usize) -> (r: Result<usize, Error>)
    ensures
        match r {
            Ok(np) => leb_unsigned_at(args@, pos as int) matches Some((v, q)) && np == q && v
                <= u64::MAX && final(out)@ == old(out)@ + (seq![48u8, 120u8] + spec_radix(v, 16)),
            Err(e) => e == Error::MissingLogArgument && final(out)@ == old(out)@,
        },
{
    match read_leb_unsigned(args, pos) {
        Option::None => Err(Error::MissingLogArgument),
        Option::Some((v, q)) => {
            out.push(48);
            out.push(120);
            push_radix(out, v, 16);
            proof {
                assert(out@ =~= old(out)@ + (seq![48u8, 120u8] + spec_radix(v as nat, 16)));
            }
            Ok(q)
        },
    }
}

/// How many argument bytes a format string demands under the fixed-width
/// dialect: the sum of its specifiers' widths.  Undefined (`None`) when
/// the format holds an invalid specifier or one whose consumption depends
/// on the argument data itself (`%s`, `%k`).
pub open spec fn spec_demand(d: PlatformDescriptor, fmt: Seq<u8>, fpos: int) -> Option<int>
    decreases fmt.len() - fpos,
    when 0 <= fpos
    via spec_demand_decreases
{
    if fpos >= fmt.len() {
        Some(0)
    } else if fmt[fpos] == 37 {
        match spec_match_at(fmt, fpos) {
            Err(_) => None,
            Ok((dir, k)) => {
                let w = match dir {
                    Directive::Signed(wc) => Some(spec_width(d, wc) as int),
                    Directive::Unsigned(wc) => Some(spec_width(d, wc) as int),
                    Directive::Octal(wc) => Some(spec_width(d, wc) as int),
                    Directive::Hex(wc) => Some(spec_width(d, wc) as int),
                    Directive::Pointer => Some(spec_width(d, WidthClass::Ptr) as int),
                    Directive::Percent => Some(0),
                    Directive::Str => None,
                    Directive::Interned => None,
                };
                match (w, spec_demand(d, fmt, k)) {
                    (Some(a), Some(b)) => Some(a + b),
                    _ => None,
                }
            },
        }
    } else {
        spec_demand(d, fmt, find_from(fmt, fpos, 37))
    }
}

#[via_fn]
proof fn spec_demand_decreases(d: PlatformDescriptor, fmt: Seq<u8>, fpos: int) {
    if 0 <= fpos < fmt.len() {
        if fmt[fpos] == 37 {
            lemma_match_at_bounds(fmt, fpos);
        } else {
            lemma_find_from(fmt, fpos + 1, 37);
            assert(find_from(fmt, fpos, 37) == find_from(fmt, fpos + 1, 37));
        }
    }
}

pub proof fn lemma_demand_nonneg(d: PlatformDescriptor, fmt: Seq<u8>, fpos: int)
    requires
        0 <= fpos <= fmt.len(),
    ensures
        match spec_demand(d, fmt, fpos) {
            Some(w) => w >= 0,
            None => true,
        },
    decreases fmt.len() - fpos,
{
    if fpos < fmt.len() {
        if fmt[fpos] == 37 {
            lemma_match_at_bounds(fmt, fpos);
            match spec_match_at(fmt, fpos) {
                Err(_) => {},
                Ok((dir, k)) => {
                    lemma_demand_nonneg(d, fmt, k);
                },
            }
        } else {
            lemma_find_from(fmt, fpos, 37);
            lemma_demand_nonneg(d, fmt, find_from(fmt, fpos, 37));
        }
    }
}

/// A format whose specifiers together demand exactly the available
/// argument bytes formats successfully and consumes every one of them.
pub proof fn lemma_format_consumes_exactly(
    d: PlatformDescriptor,
    table: Seq<u8>,
    fmt: Seq<u8>,
    fpos: int,
    args: Seq<u8>,
    apos: int,
    w: int,
)
    requires
        0 <= fpos <= fmt.len(),
        0 <= apos <= args.len(),
        spec_demand(d, fmt, fpos) == Some(w),
        apos + w <= args.len(),
    ensures
        spec_format_at(RecordCodec::Platform(d), table, fmt, fpos, args, apos) matches Ok((o, np))
            && np == apos + w,
    decreases fmt.len() - fpos,
{
    if fpos >= fmt.len() {
    } else if fmt[fpos] == 37 {
        lemma_match_at_bounds(fmt, fpos);
        match spec_match_at(fmt, fpos) {
            Err(_) => {},
            Ok((dir, k)) => {
                let n: int = match dir {
                    Directive::Signed(wc) => spec_width(d, wc) as int,
                    Directive::Unsigned(wc) => spec_width(d, wc) as int,
                    Directive::Octal(wc) => spec_width(d, wc) as int,
                    Directive::Hex(wc) => spec_width(d, wc) as int,
                    Directive::Pointer => spec_width(d, WidthClass::Ptr) as int,
                    _ => 0,
                };
                lemma_demand_nonneg(d, fmt, k);
                lemma_format_consumes_exactly(d, table, fmt, k, args, apos + n, w - n);
            },
        }
    } else {
        lemma_find_from(fmt, fpos, 37);
        let p = find_from(fmt, fpos, 37);
        lemma_format_consumes_exactly(d, table, fmt, p, args, apos, w);
    }
}

/// The platform descriptor `format_string` assumes.
pub open spec fn default_descriptor() -> PlatformDescriptor {
    PlatformDescriptor {
        char_size: 1,
        short_size: 2,
        int_size: 4,
        long_size: 4,
        long_long_size: 8,
        ptr_size: 4,
    }
}

} // verus!
