//! Target platform descriptor: the six C integer widths of the firmware's
//! ABI, copied bit-for-bit out of the `.postform_platform_descriptors`
//! section as six little-endian `u32` fields.

use vstd::prelude::*;
use crate::errors::Error;
use crate::scan::{le_unsigned, lemma_le_unsigned_bound, lemma_pow256_le_u64, pow256, read_le_unsigned};

verus! {

/// Byte widths of the target's C integer types, in the order they appear in
/// the ELF section: char, short, int, long, long long, pointer.
#[derive(Copy, Clone, Debug, PartialEq, Eq, Structural)]
pub struct PlatformDescriptor {
    pub char_size: u32,
    pub short_size: u32,
    pub int_size: u32,
    pub long_size: u32,
    pub long_long_size: u32,
    pub ptr_size: u32,
}

/// Number of bytes in the `.postform_platform_descriptors` section.
pub const DESCRIPTOR_BYTES: usize = 24;

pub open spec fn valid_width(w: u32) -> bool {
    w == 1 || w == 2 || w == 4 || w == 8
}

impl PlatformDescriptor {
    /// Every width must be one of the sizes a C implementation can give its
    /// integer types.
    pub open spec fn is_valid(&self) -> bool {
        &&& valid_width(self.char_size)
        &&& valid_width(self.short_size)
        &&& valid_width(self.int_size)
        &&& valid_width(self.long_size)
        &&& valid_width(self.long_long_size)
        &&& valid_width(self.ptr_size)
    }
}

/// The descriptor encoded by the first 24 bytes of `b`.
pub open spec fn spec_descriptor_of(b: Seq<u8>) -> PlatformDescriptor {
    PlatformDescriptor {
        char_size: le_unsigned(b.subrange(0, 4)) as u32,
        short_size: le_unsigned(b.subrange(4, 8)) as u32,
        int_size: le_unsigned(b.subrange(8, 12)) as u32,
        long_size: le_unsigned(b.subrange(12, 16)) as u32,
        long_long_size: le_unsigned(b.subrange(16, 20)) as u32,
        ptr_size: le_unsigned(b.subrange(20, 24)) as u32,
    }
}

fn read_field(b: &[u8], pos: usize) -> (r: u32)
    requires
        pos + 4 <= b@.len(),
    ensures
        r == le_unsigned(b@.subrange(pos as int, pos + 4)),
{
    proof {
        lemma_le_unsigned_bound(b@.subrange(pos as int, pos + 4));
        assert(pow256(4) == 256 * pow256(3));
        assert(pow256(3) == 256 * pow256(2));
        assert(pow256(2) == 256 * pow256(1));
        assert(pow256(1) == 256 * pow256(0));
        assert(pow256(0) == 1);
    }
    read_le_unsigned(b, pos, 4) as u32
}

impl PlatformDescriptor {
    /// Reads the descriptor out of the raw section bytes.  A section shorter
    /// than the C struct is reported as a missing description; widths outside
    /// {1, 2, 4, 8} make the descriptor invalid.
    pub fn from_bytes(b: &[u8]) -> (r: Result<PlatformDescriptor, Error>)
        ensures
            b@.len() < DESCRIPTOR_BYTES ==> r == Err::<PlatformDescriptor, Error>(
                Error::MissingPostformPlatformDescription,
            ),
            b@.len() >= DESCRIPTOR_BYTES && spec_descriptor_of(b@).is_valid() ==> r == Ok::<
                PlatformDescriptor,
                Error,
            >(spec_descriptor_of(b@)),
            b@.len() >= DESCRIPTOR_BYTES && !spec_descriptor_of(b@).is_valid() ==> r == Err::<
                PlatformDescriptor,
                Error,
            >(Error::InvalidPlatformDescriptors(spec_descriptor_of(b@))),
    {
        if b.len() < DESCRIPTOR_BYTES {
            return Err(Error::MissingPostformPlatformDescription);
        }
        let d = PlatformDescriptor {
            char_size: read_field(b, 0),
            short_size: read_field(b, 4),
            int_size: read_field(b, 8),
            long_size: read_field(b, 12),
            long_long_size: read_field(b, 16),
            ptr_size: read_field(b, 20),
        };
        if check_width(d.char_size) && check_width(d.short_size) && check_width(d.int_size)
            && check_width(d.long_size) && check_width(d.long_long_size) && check_width(
            d.ptr_size,
        ) {
            Ok(d)
        } else {
            Err(Error::InvalidPlatformDescriptors(d))
        }
    }
}

fn check_width(w: u32) -> (r: bool)
    ensures
        r == valid_width(w),
{
    w == 1 || w == 2 || w == 4 || w == 8
}

} // verus!
