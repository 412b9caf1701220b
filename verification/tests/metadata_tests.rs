use postform_decoder::descriptor::PlatformDescriptor;
use postform_decoder::elf::{postform_version, ElfSections};
use postform_decoder::engine::{format_with_args, RecordCodec};
use postform_decoder::table::InternedStringTable;
use postform_decoder::levels::LogLevel;
use postform_decoder::severity::LogSection;
use postform_decoder::{Decoder, ElfMetadata, Error};

fn section(level: LogLevel, start: u64, end: u64) -> LogSection {
    LogSection { level, start, end }
}

#[test]
fn severity_classification_first_match() {
    let table = b"a@1@x\0".to_vec();
    let sections = vec![
        section(LogLevel::Debug, 100, 200),
        section(LogLevel::Info, 200, 300),
    ];
    let meta = ElfMetadata::new(1_000, table, sections, RecordCodec::Leb128);
    assert_eq!(meta.get_log_section(150).level, LogLevel::Debug);
    assert_eq!(meta.get_log_section(250).level, LogLevel::Info);
    assert_eq!(meta.get_log_section(999).level, LogLevel::Unknown);
}

#[test]
fn severity_boundaries_are_half_open() {
    let meta = ElfMetadata::new(
        1,
        vec![],
        vec![section(LogLevel::Warning, 100, 200)],
        RecordCodec::Leb128,
    );
    assert_eq!(meta.get_log_section(100).level, LogLevel::Warning);
    assert_eq!(meta.get_log_section(199).level, LogLevel::Warning);
    assert_eq!(meta.get_log_section(200).level, LogLevel::Unknown);
    assert_eq!(meta.get_log_section(99).level, LogLevel::Unknown);
}

fn good_sections() -> ElfSections {
    let mut version = postform_version().as_bytes().to_vec();
    version.push(0);
    ElfSections {
        version: Some(version),
        strings: Some(b"file.cpp@3@boot done\0".to_vec()),
        config: Some(vec![0xe8, 0x03, 0x00, 0x00]), // 1000 Hz
        descriptors: None,
        debug_bounds: (Some(0), Some(100)),
        info_bounds: (None, None),
        warning_bounds: (None, Some(7)),
        error_bounds: (Some(300), Some(400)),
    }
}

#[test]
fn assemble_accepts_matching_version() {
    let meta = ElfMetadata::assemble(good_sections(), false).unwrap();
    assert_eq!(meta.timestamp_freq(), 1000);
    assert_eq!(meta.get_log_section(50).level, LogLevel::Debug);
    // The warning level had only one symbol: it is skipped.
    assert_eq!(meta.get_log_section(7).level, LogLevel::Debug);
    assert_eq!(meta.get_log_section(350).level, LogLevel::Error);
}

#[test]
fn assemble_rejects_version_drift() {
    let mut s = good_sections();
    s.version = Some(b"9.9.9\0".to_vec());
    match ElfMetadata::assemble(s, false) {
        Err(Error::MismatchedPostformVersions(firmware, host)) => {
            assert_eq!(firmware, "9.9.9");
            assert_eq!(host, postform_version());
        }
        other => panic!("expected version mismatch, got {:?}", other.map(|_| ())),
    }
}

#[test]
fn assemble_version_check_can_be_disabled() {
    let mut s = good_sections();
    s.version = Some(b"9.9.9\0".to_vec());
    assert!(ElfMetadata::assemble(s, true).is_ok());
}

#[test]
fn assemble_missing_version_section() {
    let mut s = good_sections();
    s.version = None;
    assert!(matches!(
        ElfMetadata::assemble(s, false),
        Err(Error::MissingPostformVersion)
    ));
}

#[test]
fn assemble_missing_interned_strings() {
    let mut s = good_sections();
    s.strings = None;
    assert!(matches!(
        ElfMetadata::assemble(s, false),
        Err(Error::MissingInternedStrings)
    ));
}

#[test]
fn assemble_missing_configuration() {
    let mut s = good_sections();
    s.config = None;
    assert!(matches!(
        ElfMetadata::assemble(s, false),
        Err(Error::MissingPostformConfiguration)
    ));
    let mut s = good_sections();
    s.config = Some(vec![1, 2]);
    assert!(matches!(
        ElfMetadata::assemble(s, false),
        Err(Error::MissingPostformConfiguration)
    ));
}

#[test]
fn assemble_short_descriptor_section() {
    let mut s = good_sections();
    s.descriptors = Some(vec![4; 10]);
    assert!(matches!(
        ElfMetadata::assemble(s, false),
        Err(Error::MissingPostformPlatformDescription)
    ));
}

#[test]
fn assemble_invalid_descriptor_widths() {
    let mut s = good_sections();
    let mut db = vec![0u8; 24];
    db[0] = 1; // char
    db[4] = 2; // short
    db[8] = 3; // int: not a power of two
    db[12] = 4;
    db[16] = 8;
    db[20] = 4;
    s.descriptors = Some(db);
    match ElfMetadata::assemble(s, false) {
        Err(Error::InvalidPlatformDescriptors(d)) => {
            assert_eq!(d.int_size, 3);
        }
        _ => panic!("expected invalid platform descriptors"),
    }
}

fn platform_descriptor_bytes() -> Vec<u8> {
    let mut db = vec![0u8; 24];
    for (i, w) in [1u8, 2, 4, 4, 8, 4].iter().enumerate() {
        db[4 * i] = *w;
    }
    db
}

#[test]
fn assemble_selects_platform_dialect() {
    let mut s = good_sections();
    s.descriptors = Some(platform_descriptor_bytes());
    let meta = ElfMetadata::assemble(s, false).unwrap();
    // Platform dialect record: u64 LE timestamp, 4-byte LE pointer, then
    // fixed-width args.
    let mut record: Vec<u8> = vec![];
    record.extend_from_slice(&42u64.to_le_bytes());
    record.extend_from_slice(&0u32.to_le_bytes());
    let log = meta.parse(&record).unwrap();
    assert_eq!(log.timestamp_ticks, 42);
    assert_eq!(log.message, "boot done");
    assert_eq!(log.file_name, "file.cpp");
    assert_eq!(log.line_number, 3);
}

#[test]
fn platform_dialect_fixed_width_arguments() {
    let table = b"m.cpp@9@%d plus %hhu gives %llx\0".to_vec();
    let descriptor = PlatformDescriptor {
        char_size: 1,
        short_size: 2,
        int_size: 4,
        long_size: 4,
        long_long_size: 8,
        ptr_size: 4,
    };
    let meta = ElfMetadata::new(1, table, vec![], RecordCodec::Platform(descriptor));
    let decoder = Decoder::new(&meta);
    let mut args: Vec<u8> = vec![];
    args.extend_from_slice(&(-4000230i32).to_le_bytes());
    args.push(200u8);
    args.extend_from_slice(&0xdeadbeef_cafef00du64.to_le_bytes());
    let msg = decoder
        .format_string("%d plus %hhu gives %llx", &args)
        .unwrap();
    assert_eq!(msg, "-4000230 plus 200 gives deadbeefcafef00d");
}

#[test]
fn platform_dialect_missing_bytes() {
    let descriptor = PlatformDescriptor {
        char_size: 1,
        short_size: 2,
        int_size: 4,
        long_size: 4,
        long_long_size: 8,
        ptr_size: 4,
    };
    let meta = ElfMetadata::new(1, vec![], vec![], RecordCodec::Platform(descriptor));
    let decoder = Decoder::new(&meta);
    let err = decoder.format_string("%d", &[1, 2]).unwrap_err();
    assert!(matches!(err, Error::MissingLogArgument));
}

#[test]
fn fixed_width_specifiers_consume_exactly_their_bytes() {
    let descriptor = PlatformDescriptor {
        char_size: 1,
        short_size: 2,
        int_size: 4,
        long_size: 4,
        long_long_size: 8,
        ptr_size: 4,
    };
    let codec = RecordCodec::Platform(descriptor);
    let table = InternedStringTable::new(vec![]);
    let mut args: Vec<u8> = vec![];
    args.extend_from_slice(&7i32.to_le_bytes());
    args.push(9u8);
    let (text, consumed) = format_with_args(&codec, &table, b"%d then %hhu", &args).unwrap();
    assert_eq!(consumed, args.len());
    assert_eq!(text, b"7 then 9");
}

#[test]
fn recover_interned_string_requires_nul() {
    let meta = ElfMetadata::new(1, b"dangling".to_vec(), vec![], RecordCodec::Leb128);
    assert!(matches!(
        meta.recover_interned_string(0),
        Err(Error::InvalidFormatString)
    ));
}
