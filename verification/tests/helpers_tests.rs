use postform_decoder::engine::{format_hex, format_octal, format_pointer, format_signed,
    format_string, format_unsigned};
use postform_decoder::levels::{color_for_level, LevelColor, LogLevel};
use postform_decoder::rtt::{rtt_mode_flags_address, RttMode};
use postform_decoder::scan::find_first_character_position;
use postform_decoder::serial::{try_to_serial_parity, try_to_serial_stop_bits, Parity,
    SerialError, StopBits};
use postform_decoder::table::recover_format_string;

#[test]
fn find_first_character_position_examples() {
    assert_eq!(find_first_character_position(b"hello", b'l'), 2);
    assert_eq!(find_first_character_position(b"hello", b'z'), 5);
    assert_eq!(find_first_character_position(b"", b'a'), 0);
}

#[test]
fn recover_format_string_splits_three_fields() {
    let (file, line, fmt) = recover_format_string(b"dir/file.cpp@77@hi %d there\0trailing");
    assert_eq!(file, b"dir/file.cpp");
    assert_eq!(line, b"77");
    assert_eq!(fmt, b"hi %d there");
}

#[test]
fn recover_format_string_without_delimiters() {
    let (file, line, fmt) = recover_format_string(b"no delimiters");
    assert_eq!(file, b"no delimiters");
    assert_eq!(line, b"");
    assert_eq!(fmt, b"");
}

#[test]
fn format_helpers_render_each_base() {
    let mut args: Vec<u8> = vec![];
    leb128::write::unsigned(&mut args, 4000230).unwrap();

    let mut out: Vec<u8> = vec![];
    let next = format_unsigned(&mut out, &args, 0).unwrap();
    assert_eq!(out, b"4000230");
    assert_eq!(next, args.len());

    let mut out: Vec<u8> = vec![];
    format_octal(&mut out, &args, 0).unwrap();
    assert_eq!(out, b"17204746");

    let mut out: Vec<u8> = vec![];
    format_hex(&mut out, &args, 0).unwrap();
    assert_eq!(out, b"3d09e6");

    let mut out: Vec<u8> = vec![];
    format_pointer(&mut out, &args, 0).unwrap();
    assert_eq!(out, b"0x3d09e6");

    let mut args: Vec<u8> = vec![];
    leb128::write::signed(&mut args, -4000230).unwrap();
    let mut out: Vec<u8> = vec![];
    format_signed(&mut out, &args, 0).unwrap();
    assert_eq!(out, b"-4000230");
}

#[test]
fn format_helpers_report_missing_bytes() {
    let mut out: Vec<u8> = vec![];
    assert!(format_unsigned(&mut out, &[0x80], 0).is_err());
    assert!(out.is_empty());
}

#[test]
fn free_format_string_uses_fixed_widths() {
    let mut args: Vec<u8> = vec![];
    args.extend_from_slice(&(-7i32).to_le_bytes());
    args.extend_from_slice(&1000u32.to_le_bytes());
    let out = format_string(b"%d and %u", &args).unwrap();
    assert_eq!(out, b"-7 and 1000");
}

#[test]
fn rtt_mode_values() {
    assert_eq!(RttMode::NonBlocking.value(), 1);
    assert_eq!(RttMode::Blocking.value(), 2);
}

#[test]
fn rtt_flags_address_layout() {
    // Header of 24 bytes, 24-byte channels, flags at offset 20.
    assert_eq!(rtt_mode_flags_address(0x2000_0000, 0), Some(0x2000_0000 + 44));
    assert_eq!(rtt_mode_flags_address(0x2000_0000, 1), Some(0x2000_0000 + 68));
    assert_eq!(rtt_mode_flags_address(u64::MAX - 10, 0), None);
}

#[test]
fn serial_parity_parsing() {
    assert_eq!(try_to_serial_parity("odd").unwrap(), Parity::Odd);
    assert_eq!(try_to_serial_parity("even").unwrap(), Parity::Even);
    assert_eq!(try_to_serial_parity("none").unwrap(), Parity::Disabled);
    match try_to_serial_parity("banana") {
        Err(SerialError::InvalidParityString(s)) => assert_eq!(s, "banana"),
        _ => panic!("expected an invalid parity error"),
    }
}

#[test]
fn serial_stop_bits_parsing() {
    assert_eq!(try_to_serial_stop_bits("1").unwrap(), StopBits::One);
    assert_eq!(try_to_serial_stop_bits("2").unwrap(), StopBits::Two);
    match try_to_serial_stop_bits("3") {
        Err(SerialError::InvalidStopBitsString(s)) => assert_eq!(s, "3"),
        _ => panic!("expected an invalid stop bits error"),
    }
}

#[test]
fn level_colors() {
    assert_eq!(color_for_level(LogLevel::Debug), LevelColor::Green);
    assert_eq!(color_for_level(LogLevel::Info), LevelColor::Yellow);
    assert_eq!(color_for_level(LogLevel::Warning), LevelColor::Rgb(255, 165, 0));
    assert_eq!(color_for_level(LogLevel::Error), LevelColor::Red);
    assert_eq!(color_for_level(LogLevel::Unknown), LevelColor::Red);
}

#[test]
fn level_section_labels() {
    assert_eq!(LogLevel::Debug.get_start_section_label(), "__InternedDebugStart");
    assert_eq!(LogLevel::Warning.get_end_section_label(), "__InternedWarningEnd");
    assert_eq!(LogLevel::Error.name(), "Error");
}
