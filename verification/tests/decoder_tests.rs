use postform_decoder::engine::RecordCodec;
use postform_decoder::{Decoder, ElfMetadata, Error};

fn create_elf_metadata() -> ElfMetadata {
    ElfMetadata::new(
        1_000,
        b"test/my_file.cpp@1234@This is my log message\0test/my_file2.cpp@12343@This is my second log message\0"
            .to_vec(),
        vec![],
        RecordCodec::Leb128,
    )
}

#[test]
fn test_recover_interned_string() {
    let elf_metadata = create_elf_metadata();
    let format_string = elf_metadata.recover_interned_string(45usize).unwrap();
    let (file_name, line, msg) = Decoder::new(&elf_metadata)
        .decode_format_string(format_string)
        .unwrap();
    assert_eq!(file_name, "test/my_file2.cpp");
    assert_eq!(line, 12343u32);
    assert_eq!(msg, "This is my second log message");
}

#[test]
fn test_format_string_signed_integer() {
    let elf_metadata = create_elf_metadata();
    let decoder = Decoder::new(&elf_metadata);
    let format = "This is the log message %d and some data after";
    let mut args = [0u8; 5];
    let mut args_slice = &mut args[..];
    leb128::write::signed(&mut args_slice, -4000230).expect("Couldn't format arg");
    let log = decoder.format_string(format, &args).unwrap();
    assert_eq!(log, "This is the log message -4000230 and some data after");
}

#[test]
fn test_format_string_unsigned_integer() {
    let elf_metadata = create_elf_metadata();
    let decoder = Decoder::new(&elf_metadata);
    let format = "This is the log message %u";
    let mut args = [0u8; 5];
    let mut args_slice = &mut args[..];
    leb128::write::unsigned(&mut args_slice, 4000230).expect("Couldn't format arg");
    let log = decoder.format_string(format, &args).unwrap();
    assert_eq!(log, "This is the log message 4000230");
}

#[test]
fn test_format_string_string_argument() {
    let elf_metadata = create_elf_metadata();
    let decoder = Decoder::new(&elf_metadata);
    let format = "This is the log message %s";
    let args = b"And another string goes here\0 some other data";
    let log = decoder.format_string(format, args).unwrap();
    assert_eq!(log, "This is the log message And another string goes here");
}

#[test]
fn empty_args_no_specifiers_verbatim() {
    let elf_metadata = create_elf_metadata();
    let decoder = Decoder::new(&elf_metadata);
    let log = decoder.format_string("A plain message with no arguments", &[]).unwrap();
    assert_eq!(log, "A plain message with no arguments");
}

#[test]
fn format_ending_in_percent_is_invalid_specifier() {
    let elf_metadata = create_elf_metadata();
    let decoder = Decoder::new(&elf_metadata);
    let err = decoder.format_string("ends with %", &[]).unwrap_err();
    assert!(matches!(err, Error::InvalidFormatSpecifier('%')));
}

#[test]
fn unknown_specifier_names_the_character() {
    let elf_metadata = create_elf_metadata();
    let decoder = Decoder::new(&elf_metadata);
    let err = decoder.format_string("what is %z", &[]).unwrap_err();
    assert!(matches!(err, Error::InvalidFormatSpecifier('z')));
}

#[test]
fn string_argument_without_nul_consumes_to_end() {
    let elf_metadata = create_elf_metadata();
    let decoder = Decoder::new(&elf_metadata);
    let log = decoder.format_string("msg: %s", b"unterminated").unwrap();
    assert_eq!(log, "msg: unterminated");
}

#[test]
fn missing_argument_reported() {
    let elf_metadata = create_elf_metadata();
    let decoder = Decoder::new(&elf_metadata);
    let err = decoder.format_string("%u", &[]).unwrap_err();
    assert!(matches!(err, Error::MissingLogArgument));
}

#[test]
fn escaped_percent_is_literal() {
    let elf_metadata = create_elf_metadata();
    let decoder = Decoder::new(&elf_metadata);
    let log = decoder.format_string("100%% done", &[]).unwrap();
    assert_eq!(log, "100% done");
}

#[test]
fn octal_hex_and_pointer_renderings() {
    let elf_metadata = create_elf_metadata();
    let decoder = Decoder::new(&elf_metadata);
    let mut args: Vec<u8> = vec![];
    leb128::write::unsigned(&mut args, 0o755).unwrap();
    leb128::write::unsigned(&mut args, 0xdeadbeef).unwrap();
    leb128::write::unsigned(&mut args, 0x2000_0000).unwrap();
    let log = decoder.format_string("mode %o word %x at %p", &args).unwrap();
    assert_eq!(log, "mode 755 word deadbeef at 0x20000000");
}

#[test]
fn interned_string_specifier_reads_the_table() {
    let elf_metadata = create_elf_metadata();
    let decoder = Decoder::new(&elf_metadata);
    // Offset 22 points at "This is my log message" inside the first
    // interned call site.
    let mut args: Vec<u8> = vec![];
    leb128::write::unsigned(&mut args, 22).unwrap();
    let log = decoder.format_string("quoting: %k", &args).unwrap();
    assert_eq!(log, "quoting: This is my log message");
}

#[test]
fn width_modifiers_accepted_in_leb_dialect() {
    let elf_metadata = create_elf_metadata();
    let decoder = Decoder::new(&elf_metadata);
    let mut args: Vec<u8> = vec![];
    leb128::write::signed(&mut args, -7).unwrap();
    leb128::write::unsigned(&mut args, 1000).unwrap();
    leb128::write::signed(&mut args, 123456789).unwrap();
    let log = decoder.format_string("%hhd %hu %lld", &args).unwrap();
    assert_eq!(log, "-7 1000 123456789");
}

#[test]
fn decode_leb_record_end_to_end() {
    let table = b"src/app.cpp@42@Value is %u\0".to_vec();
    let elf_metadata = ElfMetadata::new(1_000, table, vec![], RecordCodec::Leb128);
    let mut decoder = Decoder::new(&elf_metadata);
    let mut record: Vec<u8> = vec![];
    leb128::write::unsigned(&mut record, 123456).unwrap(); // timestamp ticks
    leb128::write::unsigned(&mut record, 0).unwrap(); // str_ptr
    leb128::write::unsigned(&mut record, 4000230).unwrap(); // argument
    let log = decoder.decode(&record).unwrap();
    assert_eq!(log.timestamp_ticks, 123456);
    assert_eq!(log.timestamp_freq, 1_000);
    assert_eq!(log.message, "Value is 4000230");
    assert_eq!(log.file_name, "src/app.cpp");
    assert_eq!(log.line_number, 42);
}

#[test]
fn decode_timestamp_zero_and_max() {
    let table = b"f.cpp@1@hi\0".to_vec();
    let elf_metadata = ElfMetadata::new(1_000, table, vec![], RecordCodec::Leb128);
    let mut decoder = Decoder::new(&elf_metadata);

    let mut record: Vec<u8> = vec![];
    leb128::write::unsigned(&mut record, 0).unwrap();
    leb128::write::unsigned(&mut record, 0).unwrap();
    let log = decoder.decode(&record).unwrap();
    assert_eq!(log.timestamp_ticks, 0);

    let mut record: Vec<u8> = vec![];
    leb128::write::unsigned(&mut record, u64::MAX).unwrap();
    leb128::write::unsigned(&mut record, 0).unwrap();
    let log = decoder.decode(&record).unwrap();
    assert_eq!(log.timestamp_ticks, u64::MAX);
}

#[test]
fn truncated_record_is_invalid_log_message() {
    let elf_metadata = create_elf_metadata();
    let mut decoder = Decoder::new(&elf_metadata);
    let err = decoder.decode(&[]).unwrap_err();
    assert!(matches!(err, Error::InvalidLogMessage));
}

#[test]
fn pointer_outside_table_is_invalid_format_string() {
    let elf_metadata = create_elf_metadata();
    let mut decoder = Decoder::new(&elf_metadata);
    let mut record: Vec<u8> = vec![];
    leb128::write::unsigned(&mut record, 1).unwrap();
    leb128::write::unsigned(&mut record, 100_000).unwrap();
    let err = decoder.decode(&record).unwrap_err();
    assert!(matches!(err, Error::InvalidFormatString));
}

#[test]
fn interned_string_without_separators_is_invalid() {
    let elf_metadata = create_elf_metadata();
    let decoder = Decoder::new(&elf_metadata);
    let err = decoder
        .decode_format_string(String::from("no separators here"))
        .unwrap_err();
    assert!(matches!(err, Error::InvalidFormatString));
}

#[test]
fn non_numeric_line_number_is_invalid() {
    let elf_metadata = create_elf_metadata();
    let decoder = Decoder::new(&elf_metadata);
    let err = decoder
        .decode_format_string(String::from("file.cpp@twelve@message"))
        .unwrap_err();
    assert!(matches!(err, Error::InvalidFormatString));
}
