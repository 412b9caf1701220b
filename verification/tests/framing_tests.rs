use postform_decoder::engine::RecordCodec;
use postform_decoder::framing::decode_persisted;
use postform_decoder::{CobsStreamDecoder, ElfMetadata, Error, Log, SerialDecoder};

fn test_metadata() -> ElfMetadata {
    ElfMetadata::new(
        1_000,
        b"a.cpp@1@first %u\0b.cpp@2@second %s\0".to_vec(),
        vec![],
        RecordCodec::Leb128,
    )
}

fn record(ptr: u64, args: &[u8]) -> Vec<u8> {
    let mut r: Vec<u8> = vec![];
    leb128::write::unsigned(&mut r, 5).unwrap();
    leb128::write::unsigned(&mut r, ptr).unwrap();
    r.extend_from_slice(args);
    r
}

fn first_record() -> Vec<u8> {
    let mut args: Vec<u8> = vec![];
    leb128::write::unsigned(&mut args, 17).unwrap();
    record(0, &args)
}

fn second_record() -> Vec<u8> {
    record(17, b"hello\0")
}

#[test]
fn serial_decoder_decodes_rcobs_frames() {
    let meta = test_metadata();
    let mut dec = SerialDecoder::new(&meta);
    let mut stream: Vec<u8> = vec![];
    stream.extend_from_slice(&rcobs::encode(&first_record()));
    stream.push(0);
    stream.extend_from_slice(&rcobs::encode(&second_record()));
    stream.push(0);
    let out = dec.feed(&stream);
    assert_eq!(out.len(), 2);
    let logs: Vec<&Log> = out.iter().map(|r| r.as_ref().unwrap()).collect();
    assert_eq!(logs[0].message, "first 17");
    assert_eq!(logs[0].file_name, "a.cpp");
    assert_eq!(logs[1].message, "second hello");
    assert_eq!(logs[1].line_number, 2);
}

#[test]
fn serial_decoder_is_chunking_insensitive() {
    let meta = test_metadata();
    let mut stream: Vec<u8> = vec![];
    stream.extend_from_slice(&rcobs::encode(&first_record()));
    stream.push(0);
    stream.extend_from_slice(&rcobs::encode(&second_record()));
    stream.push(0);

    let mut whole = SerialDecoder::new(&meta);
    let all_at_once: Vec<String> = whole
        .feed(&stream)
        .into_iter()
        .map(|r| r.unwrap().message)
        .collect();

    let mut bytewise = SerialDecoder::new(&meta);
    let mut one_at_a_time: Vec<String> = vec![];
    for b in &stream {
        for r in bytewise.feed(std::slice::from_ref(b)) {
            one_at_a_time.push(r.unwrap().message);
        }
    }
    assert_eq!(all_at_once, one_at_a_time);
    assert_eq!(all_at_once, vec!["first 17", "second hello"]);
}

#[test]
fn serial_decoder_recovers_after_bad_frame() {
    let meta = test_metadata();
    let mut dec = SerialDecoder::new(&meta);
    let mut stream: Vec<u8> = vec![];
    // A frame rcobs rejects: a run header claiming bytes before the start.
    stream.push(0x05);
    stream.push(0);
    stream.extend_from_slice(&rcobs::encode(&first_record()));
    stream.push(0);
    let out = dec.feed(&stream);
    assert_eq!(out.len(), 2);
    assert!(matches!(out[0], Err(Error::InvalidLogMessage)));
    assert_eq!(out[1].as_ref().unwrap().message, "first 17");
}

#[test]
fn cobs_stream_decoder_decodes_frames() {
    let meta = test_metadata();
    let mut dec = CobsStreamDecoder::new(&meta);
    let mut stream: Vec<u8> = vec![];
    stream.extend_from_slice(&cobs::encode_vec(&first_record()));
    stream.push(0);
    stream.extend_from_slice(&cobs::encode_vec(&second_record()));
    stream.push(0);
    let out = dec.feed(&stream);
    assert_eq!(out.len(), 2);
    assert_eq!(out[0].as_ref().unwrap().message, "first 17");
    assert_eq!(out[1].as_ref().unwrap().message, "second hello");
}

#[test]
fn persisted_file_two_records_then_truncation() {
    let meta = test_metadata();
    let r1 = first_record();
    let r2 = second_record();
    let mut file: Vec<u8> = vec![];
    file.extend_from_slice(&(r1.len() as u32).to_le_bytes());
    file.extend_from_slice(&r1);
    file.extend_from_slice(&(r2.len() as u32).to_le_bytes());
    file.extend_from_slice(&r2);
    // A third record whose length runs past the end of the file.
    file.extend_from_slice(&100u32.to_le_bytes());
    file.extend_from_slice(&[1, 2, 3]);

    let out = decode_persisted(&meta, &file);
    assert_eq!(out.len(), 3);
    assert_eq!(out[0].as_ref().unwrap().message, "first 17");
    assert_eq!(out[0].as_ref().unwrap().timestamp_ticks, 5);
    assert_eq!(out[1].as_ref().unwrap().message, "second hello");
    assert!(matches!(out[2], Err(Error::InvalidLogMessage)));
}

#[test]
fn persisted_file_empty_is_no_records() {
    let meta = test_metadata();
    assert!(decode_persisted(&meta, &[]).is_empty());
}

#[test]
fn persisted_file_short_header() {
    let meta = test_metadata();
    let out = decode_persisted(&meta, &[7, 0]);
    assert_eq!(out.len(), 1);
    assert!(matches!(out[0], Err(Error::InvalidLogMessage)));
}
