use object::write::{Object, Symbol, SymbolSection};
use object::{Architecture, BinaryFormat, Endianness, SectionKind, SymbolFlags, SymbolKind,
    SymbolScope};
use postform_decoder::elf::{firmware_entry_point, postform_version, rtt_control_block_address};
use postform_decoder::levels::LogLevel;
use postform_decoder::{Decoder, ElfMetadata, Error};

fn add_data_section(obj: &mut Object, name: &[u8], data: &[u8]) {
    let id = obj.add_section(vec![], name.to_vec(), SectionKind::ReadOnlyData);
    obj.append_section_data(id, data, 1);
}

fn add_absolute_symbol(obj: &mut Object, name: &str, value: u64) {
    obj.add_symbol(Symbol {
        name: name.as_bytes().to_vec(),
        value,
        size: 0,
        kind: SymbolKind::Data,
        scope: SymbolScope::Linkage,
        weak: false,
        section: SymbolSection::Absolute,
        flags: SymbolFlags::None,
    });
}

fn firmware_image(version: &[u8]) -> Vec<u8> {
    let mut obj = Object::new(BinaryFormat::Elf, Architecture::Arm, Endianness::Little);
    add_data_section(&mut obj, b".postform_version", version);
    add_data_section(
        &mut obj,
        b".interned_strings",
        b"boot.cpp@11@up in %u ms\0fault.cpp@99@oops\0",
    );
    add_data_section(&mut obj, b".postform_config", &1000u32.to_le_bytes());
    add_absolute_symbol(&mut obj, "__InternedDebugStart", 0);
    add_absolute_symbol(&mut obj, "__InternedDebugEnd", 24);
    add_absolute_symbol(&mut obj, "__InternedErrorStart", 24);
    add_absolute_symbol(&mut obj, "__InternedErrorEnd", 43);
    add_absolute_symbol(&mut obj, "main", 0x0800_0101);
    add_absolute_symbol(&mut obj, "_SEGGER_RTT", 0x2000_0400);
    obj.write().unwrap()
}

#[test]
fn collaborator_symbols_resolved() {
    let mut version = postform_version().as_bytes().to_vec();
    version.push(0);
    let elf = firmware_image(&version);
    assert_eq!(firmware_entry_point(&elf), Some(0x0800_0101));
    assert_eq!(rtt_control_block_address(&elf), Some(0x2000_0400));
    assert_eq!(firmware_entry_point(b"not an elf"), None);
}

#[test]
fn load_firmware_elf_and_decode() {
    let mut version = postform_version().as_bytes().to_vec();
    version.push(0);
    let elf = firmware_image(&version);
    let meta = ElfMetadata::from_elf_data(&elf, false).unwrap();
    assert_eq!(meta.timestamp_freq(), 1000);

    let mut decoder = Decoder::new(&meta);
    let mut record: Vec<u8> = vec![];
    leb128::write::unsigned(&mut record, 2_000).unwrap();
    leb128::write::unsigned(&mut record, 0).unwrap();
    leb128::write::unsigned(&mut record, 250).unwrap();
    let log = decoder.decode(&record).unwrap();
    assert_eq!(log.message, "up in 250 ms");
    assert_eq!(log.file_name, "boot.cpp");
    assert_eq!(log.line_number, 11);
    assert_eq!(log.level, LogLevel::Debug);

    let mut record: Vec<u8> = vec![];
    leb128::write::unsigned(&mut record, 1).unwrap();
    leb128::write::unsigned(&mut record, 24).unwrap();
    let log = decoder.decode(&record).unwrap();
    assert_eq!(log.message, "oops");
    assert_eq!(log.level, LogLevel::Error);
}

#[test]
fn load_rejects_wrong_version() {
    let elf = firmware_image(b"0.0.1\0");
    match ElfMetadata::from_elf_data(&elf, false) {
        Err(Error::MismatchedPostformVersions(firmware, host)) => {
            assert_eq!(firmware, "0.0.1");
            assert_eq!(host, postform_version());
        }
        _ => panic!("expected a version mismatch"),
    }
    assert!(ElfMetadata::from_elf_data(&elf, true).is_ok());
}

#[test]
fn load_rejects_non_object_bytes() {
    assert!(matches!(
        ElfMetadata::from_elf_data(b"not an elf at all", false),
        Err(Error::ElfParseError)
    ));
}

#[test]
fn load_missing_sections() {
    let mut obj = Object::new(BinaryFormat::Elf, Architecture::Arm, Endianness::Little);
    add_data_section(&mut obj, b".postform_version", b"0.6.0\0");
    let elf = obj.write().unwrap();
    assert!(matches!(
        ElfMetadata::from_elf_data(&elf, true),
        Err(Error::MissingInternedStrings)
    ));
}
