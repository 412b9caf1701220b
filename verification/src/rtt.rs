//! RTT control-block arithmetic.  The host flips a channel's mode flag by
//! writing one word into target memory; the flag's address is computed
//! from a mirror of the control block's C layout.

use vstd::prelude::*;

verus! {

/// RTT errors for Postform RTT.
#[derive(Debug)]
pub enum RttError {
    /// A required symbol is absent from the firmware ELF.
    MissingSymbol(&'static str),
}

/// Selects the execution mode for RTT in the target.
#[derive(Copy, Clone, Debug, PartialEq, Eq, Structural)]
pub enum RttMode {
    /// The target does not block when the buffer is full, overflowing it.
    NonBlocking,
    /// The target blocks until the buffer is ready to receive more data.
    Blocking,
}

impl RttMode {
    /// The word written into the channel's flags field for this mode.
    pub fn value(&self) -> (r: u32)
        ensures
            *self is NonBlocking ==> r == 1,
            *self is Blocking ==> r == 2,
    {
        match self {
            RttMode::NonBlocking => 1,
            RttMode::Blocking => 2,
        }
    }
}

/// Size of the control block header: a 16-byte id plus two `u32` channel
/// counts.
pub const RTT_HEADER_BYTES: u64 = 24;

/// Size of one channel descriptor: six `u32` fields.
pub const RTT_CHANNEL_BYTES: u64 = 24;

/// Offset of the `flags` field inside a channel descriptor.
pub const RTT_FLAGS_OFFSET: u64 = 20;

/// Address of the mode-flags word of channel `channel_idx` in a control
/// block at `rtt_addr`.
pub open spec fn spec_mode_flags_addr(rtt_addr: u64, channel_idx: nat) -> int {
    rtt_addr + RTT_HEADER_BYTES + RTT_CHANNEL_BYTES * channel_idx + RTT_FLAGS_OFFSET
}

/// Computes where a channel's mode flag lives, from the control block's
/// address and the channel index; `None` when the address arithmetic
/// leaves the 64-bit address space.
pub fn rtt_mode_flags_address(rtt_addr: u64, channel_idx: u64) -> (r: Option<u64>)
    ensures
        spec_mode_flags_addr(rtt_addr, channel_idx as nat) <= u64::MAX ==> r == Some(
            spec_mode_flags_addr(rtt_addr, channel_idx as nat) as u64,
        ),
        spec_mode_flags_addr(rtt_addr, channel_idx as nat) > u64::MAX ==> r is None,
{
    let fixed: u64 = RTT_HEADER_BYTES + RTT_FLAGS_OFFSET;
    if channel_idx > (u64::MAX - fixed) / RTT_CHANNEL_BYTES {
        proof {
            assert(24 * channel_idx > u64::MAX - 44) by (nonlinear_arith)
                requires
                    channel_idx > (u64::MAX - 44) / 24,
            ;
        }
        return None;
    }
    proof {
        assert(24 * channel_idx <= u64::MAX - 44) by (nonlinear_arith)
            requires
                channel_idx <= (u64::MAX - 44) / 24,
        ;
    }
    let rel: u64 = fixed + RTT_CHANNEL_BYTES * channel_idx;
    if rtt_addr > u64::MAX - rel {
        None
    } else {
        Some(rtt_addr + rel)
    }
}

} // verus!
