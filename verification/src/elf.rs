//! Loading `ElfMetadata` out of a firmware image.  The `object` crate does
//! the container parsing behind small trusted wrappers; everything the
//! sections and symbols yield is validated and assembled here.

use vstd::prelude::*;
use object::read::{Object, ObjectSection, ObjectSymbol};
use crate::descriptor::{spec_descriptor_of, PlatformDescriptor, DESCRIPTOR_BYTES};
use crate::engine::RecordCodec;
use crate::errors::Error;
use crate::levels::{spec_end_label, spec_start_label, LogLevel};
use crate::metadata::ElfMetadata;
use crate::scan::{
    find_byte, find_first_character_position, le_unsigned, lemma_le_unsigned_bound,
    lemma_pow256_le_u64, pow256, read_le_unsigned,
};
use crate::severity::LogSection;
use crate::text::{bytes_eq_str, bytes_to_string_lossy, utf8_lossy};
use vstd::string::StringExecFns;
use vstd::utf8::encode_utf8;

verus! {

/// The Postform wire/metadata revision this host build understands.
pub open spec fn spec_postform_version() -> Seq<char> {
    "0.6.0"@
}

/// Version string this decoder supports; the firmware's
/// `.postform_version` section must match it exactly.
pub fn postform_version() -> (r: &'static str)
    ensures
        r@ == spec_postform_version(),
{
    "0.6.0"
}

/// Whether `object::read::File::parse` accepts these bytes: parsing is a
/// pure function of the input, so the outcome can be named.
pub uninterp spec fn elf_parses(data: Seq<u8>) -> bool;

/// The bytes of the named section that the `object` crate recovers from
/// this image, or `None` when the image does not parse, the section is
/// absent, or its data cannot be read.
pub uninterp spec fn elf_section_of(data: Seq<u8>, name: Seq<char>) -> Option<Seq<u8>>;

/// The address of the named symbol in this image, or `None` when the
/// image does not parse or no symbol of that name exists.
pub uninterp spec fn elf_symbol_addr_of(data: Seq<u8>, name: Seq<char>) -> Option<u64>;

/// Relies on `object::read::File::parse`: whether the bytes parse as a
/// supported object container.
#[verifier::external_body]
fn elf_is_object(data: &[u8]) -> (r: bool)
    ensures
        r == elf_parses(data@),
{
    object::read::File::parse(data).is_ok()
}

/// Relies on `object::read::File::parse`, `Object::section_by_name` and
/// `ObjectSection::data`: the raw bytes of the named section, a function
/// of `data` and `name` alone.
#[verifier::external_body]
fn elf_section_bytes(data: &[u8], name: &str) -> (r: Option<Vec<u8>>)
    ensures
        match r {
            Some(v) => elf_section_of(data@, name@) == Some(v@),
            None => elf_section_of(data@, name@) is None,
        },
{
    let file = object::read::File::parse(data).ok()?;
    file.section_by_name(name).and_then(|s| s.data().ok()).map(|d| d.to_vec())
}

/// Relies on `object::read::File::parse`, `Object::symbols`,
/// `ObjectSymbol::name` and `ObjectSymbol::address`: the address of the
/// named symbol, a function of `data` and `name` alone.
#[verifier::external_body]
fn elf_symbol_address(data: &[u8], name: &str) -> (r: Option<u64>)
    ensures
        r == elf_symbol_addr_of(data@, name@),
{
    let file = object::read::File::parse(data).ok()?;
    file.symbols().find(|s| s.name() == Ok(name)).map(|s| s.address())
}

/// Address of the firmware's `main` symbol, where the flashing
/// collaborator halts the core after download.
pub fn firmware_entry_point(elf_data: &[u8]) -> (r: Option<u64>)
    ensures
        r == elf_symbol_addr_of(elf_data@, "main"@),
{
    elf_symbol_address(elf_data, "main")
}

/// Address of the `_SEGGER_RTT` control block the RTT collaborator
/// attaches to.
pub fn rtt_control_block_address(elf_data: &[u8]) -> (r: Option<u64>)
    ensures
        r == elf_symbol_addr_of(elf_data@, "_SEGGER_RTT"@),
{
    elf_symbol_address(elf_data, "_SEGGER_RTT")
}

/// Raw metadata parts pulled out of one firmware image: the four wellknown
/// sections and the start/end addresses of each severity's interned range.
pub struct ElfSections {
    pub version: Option<Vec<u8>>,
    pub strings: Option<Vec<u8>>,
    pub config: Option<Vec<u8>>,
    pub descriptors: Option<Vec<u8>>,
    pub debug_bounds: (Option<u64>, Option<u64>),
    pub info_bounds: (Option<u64>, Option<u64>),
    pub warning_bounds: (Option<u64>, Option<u64>),
    pub error_bounds: (Option<u64>, Option<u64>),
}

/// The firmware's version string: section bytes up to the first NUL.
pub open spec fn version_bytes(v: Seq<u8>) -> Seq<u8> {
    v.take(find_byte(v, 0))
}

pub open spec fn version_matches(v: Seq<u8>) -> bool {
    version_bytes(v) == encode_utf8(spec_postform_version())
}

/// The severity range a level pair contributes: one section when both
/// symbols are present, none otherwise.
pub open spec fn maybe_section(level: LogLevel, b: (Option<u64>, Option<u64>)) -> Seq<LogSection> {
    match b {
        (Some(st), Some(en)) => seq![LogSection { level, start: st, end: en }],
        _ => Seq::empty(),
    }
}

/// Severity ranges in the fixed level order; a level with a missing symbol
/// is skipped, not fatal.
pub open spec fn spec_level_sections(s: ElfSections) -> Seq<LogSection> {
    maybe_section(LogLevel::Debug, s.debug_bounds) + maybe_section(LogLevel::Info, s.info_bounds)
        + maybe_section(LogLevel::Warning, s.warning_bounds) + maybe_section(
        LogLevel::Error,
        s.error_bounds,
    )
}

/// Codec selection by sniffing: a platform descriptor section selects the
/// fixed-width dialect, its absence the LEB128 dialect.
pub open spec fn spec_codec_of(s: ElfSections) -> RecordCodec {
    match s.descriptors {
        Option::None => RecordCodec::Leb128,
        Option::Some(db) => RecordCodec::Platform(spec_descriptor_of(db@)),
    }
}

pub open spec fn version_stage_ok(s: ElfSections, disable_version_check: bool) -> bool {
    match s.version {
        Option::Some(v) => disable_version_check || version_matches(v@),
        Option::None => false,
    }
}

/// Exactly when assembly succeeds: version present and accepted, interned
/// strings present, at least four config bytes, and any descriptor section
/// complete and valid.
pub open spec fn assemble_ok(s: ElfSections, disable_version_check: bool) -> bool {
    &&& version_stage_ok(s, disable_version_check)
    &&& s.strings is Some
    &&& match s.config {
        Option::Some(c) => c@.len() >= 4,
        Option::None => false,
    }
    &&& match s.descriptors {
        Option::Some(db) => db@.len() >= DESCRIPTOR_BYTES && spec_descriptor_of(db@).is_valid(),
        Option::None => true,
    }
}

impl ElfMetadata {
    /// Validates the extracted parts and assembles the metadata.  Succeeds
    /// exactly on `assemble_ok` inputs; each failure names the first stage
    /// that was missing or malformed.
    pub fn assemble(s: ElfSections, disable_version_check: bool) -> (r: Result<ElfMetadata, Error>)
        ensures
            s.version is None ==> r == Err::<ElfMetadata, Error>(Error::MissingPostformVersion),
            (s.version is Some && !disable_version_check && !version_matches(
                s.version.unwrap()@,
            )) ==> (r matches Err(e) && e matches Error::MismatchedPostformVersions(f, h) && f@
                == utf8_lossy(version_bytes(s.version.unwrap()@)) && h@
                == spec_postform_version()),
            version_stage_ok(s, disable_version_check) && s.strings is None ==> r == Err::<
                ElfMetadata,
                Error,
            >(Error::MissingInternedStrings),
            version_stage_ok(s, disable_version_check) && s.strings is Some && (match s.config {
                Option::None => true,
                Option::Some(c) => c@.len() < 4,
            }) ==> r == Err::<ElfMetadata, Error>(Error::MissingPostformConfiguration),
            version_stage_ok(s, disable_version_check) && s.strings is Some && (match s.config {
                Option::None => false,
                Option::Some(c) => c@.len() >= 4,
            }) && (s.descriptors matches Some(db) && db@.len() < DESCRIPTOR_BYTES) ==> r == Err::<
                ElfMetadata,
                Error,
            >(Error::MissingPostformPlatformDescription),
            version_stage_ok(s, disable_version_check) && s.strings is Some && (match s.config {
                Option::None => false,
                Option::Some(c) => c@.len() >= 4,
            }) && (s.descriptors matches Some(db) && db@.len() >= DESCRIPTOR_BYTES
                && !spec_descriptor_of(db@).is_valid()) ==> r == Err::<ElfMetadata, Error>(
                Error::InvalidPlatformDescriptors(
                    match s.descriptors {
                        Option::Some(db) => spec_descriptor_of(db@),
                        Option::None => spec_descriptor_of(Seq::empty()),
                    },
                ),
            ),
            assemble_ok(s, disable_version_check) ==> (r matches Ok(m) && m.wf() && (
            s.strings matches Some(sv) && m.spec_strings() == sv@) && (s.config matches Some(c)
                && m.spec_freq() == le_unsigned(c@.subrange(0, 4))) && m.spec_sections()
                == spec_level_sections(s) && m.spec_codec() == spec_codec_of(s)),
            !assemble_ok(s, disable_version_check) ==> r is Err,
    {
        let ElfSections {
            version,
            strings,
            config,
            descriptors,
            debug_bounds,
            info_bounds,
            warning_bounds,
            error_bounds,
        } = s;
        let version = match version {
            Option::None => {
                return Err(Error::MissingPostformVersion);
            },
            Option::Some(v) => v,
        };
        let e = find_first_character_position(version.as_slice(), 0);
        let trimmed: &[u8] = &version.as_slice()[0..e];
        proof {
            assert(trimmed@ =~= version_bytes(version@));
        }
        if !disable_version_check && !bytes_eq_str(trimmed, postform_version()) {
            return Err(
                Error::MismatchedPostformVersions(
                    bytes_to_string_lossy(trimmed),
                    String::from_str(postform_version()),
                ),
            );
        }
        let strings = match strings {
            Option::None => {
                return Err(Error::MissingInternedStrings);
            },
            Option::Some(v) => v,
        };
        let config = match config {
            Option::None => {
                return Err(Error::MissingPostformConfiguration);
            },
            Option::Some(c) => c,
        };
        if config.len() < 4 {
            return Err(Error::MissingPostformConfiguration);
        }
        proof {
            lemma_le_unsigned_bound(config@.subrange(0, 4));
            lemma_pow256_le_u64(4);
            assert(pow256(4) == 0x1_0000_0000) by {
                assert(pow256(0) == 1);
                assert(pow256(1) == 256);
                assert(pow256(2) == 0x1_0000);
                assert(pow256(3) == 0x100_0000);
                assert(pow256(4) == 0x1_0000_0000);
            }
        }
        let timestamp_freq = read_le_unsigned(config.as_slice(), 0, 4) as u32;
        let codec = match descriptors {
            Option::None => RecordCodec::Leb128,
            Option::Some(db) => match PlatformDescriptor::from_bytes(db.as_slice()) {
                Err(e) => {
                    return Err(e);
                },
                Ok(d) => RecordCodec::Platform(d),
            },
        };
        let mut sections: Vec<LogSection> = Vec::new();
        push_level(&mut sections, LogLevel::Debug, debug_bounds);
        push_level(&mut sections, LogLevel::Info, info_bounds);
        push_level(&mut sections, LogLevel::Warning, warning_bounds);
        push_level(&mut sections, LogLevel::Error, error_bounds);
        proof {
            assert(sections@ =~= spec_level_sections(s));
        }
        Ok(ElfMetadata::new(timestamp_freq, strings, sections, codec))
    }

    /// Loads the metadata from the raw contents of a firmware ELF file.
    /// Whatever the `object` crate recovers is validated by `assemble`;
    /// loading succeeds exactly on `load_ok` images, and the metadata's
    /// parts are the image's sections.
    pub fn from_elf_data(elf_data: &[u8], disable_version_check: bool) -> (r: Result<
        ElfMetadata,
        Error,
    >)
        ensures
            r is Ok <==> load_ok(elf_data@, disable_version_check),
            !elf_parses(elf_data@) ==> r == Err::<ElfMetadata, Error>(Error::ElfParseError),
            r matches Ok(m) ==> m.wf() && (elf_section_of(elf_data@, ".interned_strings"@)
                matches Some(sv) && m.spec_strings() == sv) && (elf_section_of(
                elf_data@,
                ".postform_config"@,
            ) matches Some(c) && m.spec_freq() == le_unsigned(c.subrange(0, 4)))
                && m.spec_codec() == spec_elf_codec(elf_data@) && m.spec_sections()
                == spec_elf_sections_list(elf_data@),
    {
        if !elf_is_object(elf_data) {
            return Err(Error::ElfParseError);
        }
        let sections = ElfSections {
            version: elf_section_bytes(elf_data, ".postform_version"),
            strings: elf_section_bytes(elf_data, ".interned_strings"),
            config: elf_section_bytes(elf_data, ".postform_config"),
            descriptors: elf_section_bytes(elf_data, ".postform_platform_descriptors"),
            debug_bounds: level_bounds(elf_data, LogLevel::Debug),
            info_bounds: level_bounds(elf_data, LogLevel::Info),
            warning_bounds: level_bounds(elf_data, LogLevel::Warning),
            error_bounds: level_bounds(elf_data, LogLevel::Error),
        };
        ElfMetadata::assemble(sections, disable_version_check)
    }
}

/// Start and end addresses of one level's interned range in an image, as
/// the `object` crate resolves its symbol pair.
pub open spec fn spec_elf_level_bounds(data: Seq<u8>, level: LogLevel) -> (
    Option<u64>,
    Option<u64>,
) {
    (
        elf_symbol_addr_of(data, spec_start_label(level)),
        elf_symbol_addr_of(data, spec_end_label(level)),
    )
}

/// The severity ranges an image yields, in the fixed level order.
pub open spec fn spec_elf_sections_list(data: Seq<u8>) -> Seq<LogSection> {
    maybe_section(LogLevel::Debug, spec_elf_level_bounds(data, LogLevel::Debug)) + maybe_section(
        LogLevel::Info,
        spec_elf_level_bounds(data, LogLevel::Info),
    ) + maybe_section(LogLevel::Warning, spec_elf_level_bounds(data, LogLevel::Warning))
        + maybe_section(LogLevel::Error, spec_elf_level_bounds(data, LogLevel::Error))
}

/// The codec an image selects: a platform descriptor section means the
/// fixed-width dialect, its absence the LEB128 dialect.
pub open spec fn spec_elf_codec(data: Seq<u8>) -> RecordCodec {
    match elf_section_of(data, ".postform_platform_descriptors"@) {
        Option::None => RecordCodec::Leb128,
        Option::Some(db) => RecordCodec::Platform(spec_descriptor_of(db)),
    }
}

/// Exactly when loading an image succeeds: it parses as an object file,
/// its version section is present and accepted, the interned strings are
/// present, the configuration holds at least four bytes, and any platform
/// descriptor section is complete and valid.
pub open spec fn load_ok(data: Seq<u8>, disable_version_check: bool) -> bool {
    &&& elf_parses(data)
    &&& match elf_section_of(data, ".postform_version"@) {
        Option::Some(v) => disable_version_check || version_matches(v),
        Option::None => false,
    }
    &&& elf_section_of(data, ".interned_strings"@) is Some
    &&& match elf_section_of(data, ".postform_config"@) {
        Option::Some(c) => c.len() >= 4,
        Option::None => false,
    }
    &&& match elf_section_of(data, ".postform_platform_descriptors"@) {
        Option::Some(db) => db.len() >= DESCRIPTOR_BYTES && spec_descriptor_of(db).is_valid(),
        Option::None => true,
    }
}

/// Start and end addresses of one level's interned range, looked up by its
/// symbol pair.
fn level_bounds(data: &[u8], level: LogLevel) -> (r: (Option<u64>, Option<u64>))
    ensures
        r == spec_elf_level_bounds(data@, level),
{
    (
        elf_symbol_address(data, level.get_start_section_label()),
        elf_symbol_address(data, level.get_end_section_label()),
    )
}

fn push_level(out: &mut Vec<LogSection>, level: LogLevel, b: (Option<u64>, Option<u64>))
    ensures
        final(out)@ == old(out)@ + maybe_section(level, b),
{
    match b {
        (Option::Some(st), Option::Some(en)) => {
            out.push(LogSection { level, start: st, end: en });
            assert(out@ =~= old(out)@ + maybe_section(level, b));
        },
        _ => {
            assert(out@ =~= old(out)@ + maybe_section(level, b));
        },
    }
}

} // verus!
