//! Serial-port configuration parsing: the textual `--parity` and
//! `--stop-bits` options, mapped to the library's own settings values.

use vstd::prelude::*;
use crate::text::str_eq;
use vstd::string::StringExecFns;

verus! {

broadcast use vstd::string::group_string_axioms;

/// Serial errors for Postform serial.
#[derive(Debug)]
pub enum SerialError {
    /// An unrecognized parity request; carries the offending string.
    InvalidParityString(String),
    /// An unrecognized stop-bits request; carries the offending string.
    InvalidStopBitsString(String),
}

/// Parity setting of a serial port.
#[derive(Copy, Clone, Debug, PartialEq, Eq, Structural)]
pub enum Parity {
    Odd,
    Even,
    Disabled,
}

/// Stop-bits setting of a serial port.
#[derive(Copy, Clone, Debug, PartialEq, Eq, Structural)]
pub enum StopBits {
    One,
    Two,
}

/// Parses a `--parity` argument: `odd`, `even` or `none`.
pub fn try_to_serial_parity(parity: &str) -> (r: Result<Parity, SerialError>)
    ensures
        parity@ == "odd"@ ==> r == Ok::<Parity, SerialError>(Parity::Odd),
        parity@ == "even"@ ==> r == Ok::<Parity, SerialError>(Parity::Even),
        parity@ == "none"@ ==> r == Ok::<Parity, SerialError>(Parity::Disabled),
        parity@ != "odd"@ && parity@ != "even"@ && parity@ != "none"@ ==> (r matches Err(e) && (
        e matches SerialError::InvalidParityString(s) && s@ == parity@)),
{
    proof {
        reveal_strlit("odd");
        reveal_strlit("even");
        reveal_strlit("none");
        assert(("odd"@).len() == 3);
        assert(("even"@).len() == 4);
        assert(("none"@).len() == 4);
        assert(("even"@)[0] == 'e');
        assert(("none"@)[0] == 'n');
        assert("odd"@ != "even"@ && "odd"@ != "none"@ && "even"@ != "none"@);
    }
    if str_eq(parity, "odd") {
        Ok(Parity::Odd)
    } else if str_eq(parity, "even") {
        Ok(Parity::Even)
    } else if str_eq(parity, "none") {
        Ok(Parity::Disabled)
    } else {
        Err(SerialError::InvalidParityString(String::from_str(parity)))
    }
}

/// Parses a `--stop-bits` argument: `1` or `2`.
pub fn try_to_serial_stop_bits(stop_bits: &str) -> (r: Result<StopBits, SerialError>)
    ensures
        stop_bits@ == "1"@ ==> r == Ok::<StopBits, SerialError>(StopBits::One),
        stop_bits@ == "2"@ ==> r == Ok::<StopBits, SerialError>(StopBits::Two),
        stop_bits@ != "1"@ && stop_bits@ != "2"@ ==> (r matches Err(e) && (
        e matches SerialError::InvalidStopBitsString(s) && s@ == stop_bits@)),
{
    proof {
        reveal_strlit("1");
        reveal_strlit("2");
        assert(("1"@)[0] == '1');
        assert(("2"@)[0] == '2');
        assert("1"@ != "2"@);
    }
    if str_eq(stop_bits, "1") {
        Ok(StopBits::One)
    } else if str_eq(stop_bits, "2") {
        Ok(StopBits::Two)
    } else {
        Err(SerialError::InvalidStopBitsString(String::from_str(stop_bits)))
    }
}

} // verus!
