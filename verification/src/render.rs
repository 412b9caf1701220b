//! Rendering of decoded integer arguments as ASCII decimal, octal and
//! lowercase hexadecimal digits.

use vstd::prelude::*;

verus! {

/// ASCII digit for one place value; `a`..`f` above nine.
pub open spec fn spec_digit(d: nat) -> u8 {
    if d < 10 {
        (48 + d) as u8
    } else {
        (87 + d) as u8
    }
}

/// ASCII representation of `n` in the given base, most significant digit
/// first, without leading zeros (a lone `0` for zero).
pub open spec fn spec_radix(n: nat, base: nat) -> Seq<u8>
    decreases n,
    when base >= 2
    via spec_radix_decreases
{
    if n < base {
        seq![spec_digit(n)]
    } else {
        spec_radix(n / base, base).push(spec_digit(n % base))
    }
}

#[via_fn]
proof fn spec_radix_decreases(n: nat, base: nat) {
    if n >= base {
        assert(n / base < n) by (nonlinear_arith)
            requires
                base >= 2 && n >= base,
        ;
    }
}

/// Decimal representation of a signed value: a `-` sign followed by the
/// magnitude's digits, or just the digits when non-negative.
pub open spec fn spec_signed(v: int) -> Seq<u8> {
    if v < 0 {
        seq![45u8] + spec_radix((-v) as nat, 10)
    } else {
        spec_radix(v as nat, 10)
    }
}

fn digit_ascii(d: u64) -> (r: u8)
    requires
        d < 16,
    ensures
        r == spec_digit(d as nat),
{
    if d < 10 {
        48 + (d as u8)
    } else {
        87 + (d as u8)
    }
}

/// Appends the digits of `n` in the given base to `out`.
pub fn push_radix(out: &mut Vec<u8>, n: u64, base: u64)
    requires
        base == 8 || base == 10 || base == 16,
    ensures
        final(out)@ == old(out)@ + spec_radix(n as nat, base as nat),
    decreases n,
{
    if n < base {
        out.push(digit_ascii(n));
        assert(out@ =~= old(out)@ + spec_radix(n as nat, base as nat));
    } else {
        proof {
            assert(n / base < n && n % base < base) by (nonlinear_arith)
                requires
                    base >= 2 && n >= base,
            ;
        }
        push_radix(out, n / base, base);
        out.push(digit_ascii(n % base));
        assert(out@ =~= old(out)@ + spec_radix(n as nat, base as nat));
    }
}

/// Appends the decimal digits of a signed value to `out`.
pub fn push_signed(out: &mut Vec<u8>, v: i64)
    ensures
        final(out)@ == old(out)@ + spec_signed(v as int),
{
    if v < 0 {
        out.push(45);
        let mag: u64 = if v == i64::MIN {
            9223372036854775808u64
        } else {
            (-v) as u64
        };
        push_radix(out, mag, 10);
        assert(out@ =~= old(out)@ + spec_signed(v as int));
    } else {
        push_radix(out, v as u64, 10);
    }
}

} // verus!
