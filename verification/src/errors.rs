//! Error taxonomy shared by the metadata loader, the frame decoders and the
//! record decoder.

use vstd::prelude::*;
use crate::descriptor::PlatformDescriptor;

verus! {

/// Everything that can go wrong while loading ELF metadata or decoding a
/// log record.
#[derive(Debug)]
pub enum Error {
    /// An operating-system I/O failure while reading a file or stream.
    IoError,
    /// The ELF container itself could not be parsed.
    ElfParseError,
    /// The `.interned_strings` section is absent.
    MissingInternedStrings,
    /// The `.postform_config` section is absent or too short.
    MissingPostformConfiguration,
    /// The `.postform_platform_descriptors` section is absent or too short.
    MissingPostformPlatformDescription,
    /// The `.postform_version` section is absent.
    MissingPostformVersion,
    /// The firmware's version string differs from the host's supported one:
    /// carries (firmware, host).
    MismatchedPostformVersions(String, String),
    /// A severity level's start/end symbols are absent from the ELF.
    LevelNotFound,
    /// An interned string lacks its `@` separators or terminating NUL, or
    /// its line number is not a decimal `u32`.
    InvalidFormatString,
    /// The wire record ended before its timestamp or string pointer.
    InvalidLogMessage,
    /// The format string asked for more argument bytes than were sent.
    MissingLogArgument,
    /// A `%` escape that names no known specifier; carries the offending
    /// character.
    InvalidFormatSpecifier(char),
    /// Platform descriptor widths outside {1, 2, 4, 8}.
    InvalidPlatformDescriptors(PlatformDescriptor),
}

} // verus!
