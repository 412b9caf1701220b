//! Decoding one framed wire record into a structured log: header fields,
//! call-site lookup, format substitution and severity classification.

use vstd::prelude::*;
use crate::engine::{format_with_args, spec_format_at, RecordCodec};
use crate::errors::Error;
use crate::levels::LogLevel;
use crate::metadata::ElfMetadata;
use crate::scan::{find_byte, le_unsigned, read_le_unsigned};
use crate::severity::{spec_classify, LogSection};
use crate::table::{
    after_byte, call_site_file, call_site_format, call_site_line, cs_file, cs_line_bytes,
    dec_value, is_dec_u32, valid_call_site,
};
use crate::text::{bytes_to_string_lossy, utf8_lossy};
use crate::scan::find_first_character_position;
use crate::table::parse_line_number;
use crate::varint::{leb_unsigned_at, read_leb_unsigned};
use vstd::utf8::encode_utf8;

verus! {

/// One decoded log record.  The timestamp is kept as raw ticks together
/// with the tick frequency; dividing the two gives the time in seconds.
#[derive(Debug)]
pub struct Log {
    pub timestamp_ticks: u64,
    pub timestamp_freq: u32,
    pub level: LogLevel,
    pub message: String,
    pub file_name: String,
    pub line_number: u32,
}

/// Ghost-level image of a decoded record, over raw byte sequences.
pub struct SpecLog {
    pub ts: u64,
    pub level: LogLevel,
    pub message: Seq<u8>,
    pub file: Seq<u8>,
    pub line: u32,
}

/// Header of a record: timestamp ticks, string pointer, and the offset of
/// the argument bytes.  LEB128 dialect reads two varints; the platform
/// dialect reads eight little-endian bytes then `ptr_size` bytes.
pub open spec fn spec_header(codec: RecordCodec, msg: Seq<u8>) -> Result<(nat, nat, int), Error> {
    match codec {
        RecordCodec::Leb128 => match leb_unsigned_at(msg, 0) {
            Option::None => Err(Error::InvalidLogMessage),
            Option::Some((ts, p1)) => if ts > u64::MAX {
                Err(Error::InvalidLogMessage)
            } else {
                match leb_unsigned_at(msg, p1) {
                    Option::None => Err(Error::InvalidLogMessage),
                    Option::Some((ptr, p2)) => if ptr > u64::MAX {
                        Err(Error::InvalidLogMessage)
                    } else {
                        Ok((ts, ptr, p2))
                    },
                }
            },
        },
        RecordCodec::Platform(d) => {
            if msg.len() < 8 {
                Err(Error::InvalidLogMessage)
            } else if 8 + d.ptr_size > msg.len() {
                Err(Error::InvalidLogMessage)
            } else {
                Ok(
                    (
                        le_unsigned(msg.subrange(0, 8)),
                        le_unsigned(msg.subrange(8, 8 + d.ptr_size)),
                        8 + d.ptr_size,
                    ),
                )
            }
        },
    }
}

/// Full record decode against the image's table, severity ranges and
/// codec.
pub open spec fn spec_decode(
    codec: RecordCodec,
    table: Seq<u8>,
    sections: Seq<LogSection>,
    msg: Seq<u8>,
) -> Result<SpecLog, Error> {
    match spec_header(codec, msg) {
        Err(e) => Err(e),
        Ok((ts, ptr, apos)) => if !valid_call_site(table, ptr as int) {
            Err(Error::InvalidFormatString)
        } else {
            match spec_format_at(codec, table, call_site_format(table, ptr as int), 0, msg.skip(
                apos,
            ), 0) {
                Err(e) => Err(e),
                Ok((o, _np)) => Ok(
                    SpecLog {
                        ts: ts as u64,
                        level: spec_classify(sections, ptr as u64).level,
                        message: o,
                        file: call_site_file(table, ptr as int),
                        line: call_site_line(table, ptr as int),
                    },
                ),
            }
        },
    }
}

/// How an exec `Log` mirrors its ghost image: equal fields, with the text
/// fields produced by lossy UTF-8 decoding.
pub open spec fn log_matches(sl: SpecLog, freq: u32, log: Log) -> bool {
    &&& log.timestamp_ticks == sl.ts
    &&& log.timestamp_freq == freq
    &&& log.level == sl.level
    &&& log.message@ == utf8_lossy(sl.message)
    &&& log.file_name@ == utf8_lossy(sl.file)
    &&& log.line_number == sl.line
}

/// The decoder's contract for one framed payload: the result is exactly
/// what `spec_decode` prescribes.
pub open spec fn record_outcome(
    codec: RecordCodec,
    table: Seq<u8>,
    sections: Seq<LogSection>,
    freq: u32,
    msg: Seq<u8>,
    out: Result<Log, Error>,
) -> bool {
    match spec_decode(codec, table, sections, msg) {
        Err(e) => out == Err::<Log, Error>(e),
        Ok(sl) => out matches Ok(log) && log_matches(sl, freq, log),
    }
}

impl ElfMetadata {
    /// Parses one Postform record from the framed payload.
    pub fn parse(&self, message: &[u8]) -> (r: Result<Log, Error>)
        requires
            self.wf(),
        ensures
            record_outcome(
                self.spec_codec(),
                self.spec_strings(),
                self.spec_sections(),
                self.spec_freq(),
                message@,
                r,
            ),
    {
        let (ts, ptr, apos): (u64, u64, usize) = match self.codec() {
            RecordCodec::Leb128 => {
                match read_leb_unsigned(message, 0) {
                    Option::None => {
                        return Err(Error::InvalidLogMessage);
                    },
                    Option::Some((ts, p1)) => match read_leb_unsigned(message, p1) {
                        Option::None => {
                            return Err(Error::InvalidLogMessage);
                        },
                        Option::Some((ptr, p2)) => (ts, ptr, p2),
                    },
                }
            },
            RecordCodec::Platform(d) => {
                if message.len() < 8 {
                    return Err(Error::InvalidLogMessage);
                }
                let n = d.ptr_size as usize;
                if n > message.len() - 8 {
                    return Err(Error::InvalidLogMessage);
                }
                let ts = read_le_unsigned(message, 0, 8);
                let ptr = read_le_unsigned(message, 8, n);
                (ts, ptr, 8 + n)
            },
        };
        if ptr > (self.strings().len() as u64) {
            return Err(Error::InvalidFormatString);
        }
        match self.strings().call_site(ptr as usize) {
            Err(e) => Err(e),
            Ok((file, line, fmtv)) => {
                let args: &[u8] = &message[apos..message.len()];
                proof {
                    assert(args@ =~= message@.skip(apos as int));
                }
                match format_with_args(self.codec(), self.strings(), fmtv.as_slice(), args) {
                    Err(e) => Err(e),
                    Ok((msgv, _np)) => {
                        let section = self.get_log_section(ptr);
                        Ok(
                            Log {
                                timestamp_ticks: ts,
                                timestamp_freq: self.timestamp_freq(),
                                level: section.level,
                                message: bytes_to_string_lossy(msgv.as_slice()),
                                file_name: bytes_to_string_lossy(file.as_slice()),
                                line_number: line,
                            },
                        )
                    },
                }
            },
        }
    }
}

/// The byte string of a lossily decoded call site can still be split into
/// three fields: both `@` separators exist and the line field is a `u32`
/// numeral.
pub open spec fn call_site_splits(bs: Seq<u8>) -> bool {
    &&& find_byte(bs, 64) < bs.len()
    &&& find_byte(after_byte(bs, 64), 64) < after_byte(bs, 64).len()
    &&& is_dec_u32(cs_line_bytes(bs))
}

/// Everything after the second `@`.
pub open spec fn cs_format_tail(bs: Seq<u8>) -> Seq<u8> {
    after_byte(after_byte(bs, 64), 64)
}

/// Decodes Postform logs from the `ElfMetadata` and framed record buffers.
pub struct Decoder<'a> {
    elf_metadata: &'a ElfMetadata,
}

impl<'a> Decoder<'a> {
    pub closed spec fn spec_meta(&self) -> &'a ElfMetadata {
        self.elf_metadata
    }

    pub open spec fn wf(&self) -> bool {
        self.spec_meta().wf()
    }

    /// Creates a new decoder borrowing the `ElfMetadata`.
    pub fn new(elf_metadata: &'a ElfMetadata) -> (r: Decoder<'a>)
        ensures
            r.spec_meta() == elf_metadata,
    {
        Decoder { elf_metadata }
    }

    pub(crate) fn metadata(&self) -> (r: &'a ElfMetadata)
        ensures
            r == self.spec_meta(),
    {
        self.elf_metadata
    }

    /// Parses a Postform record from the passed buffer.
    pub fn decode(&mut self, buffer: &[u8]) -> (r: Result<Log, Error>)
        requires
            old(self).wf(),
        ensures
            *final(self) == *old(self),
            record_outcome(
                old(self).spec_meta().spec_codec(),
                old(self).spec_meta().spec_strings(),
                old(self).spec_meta().spec_sections(),
                old(self).spec_meta().spec_freq(),
                buffer@,
                r,
            ),
    {
        self.elf_metadata.parse(buffer)
    }

    /// Splits a recovered interned string into its file name, line number
    /// and format string.
    pub fn decode_format_string(&self, interned_string: String) -> (r: Result<
        (String, u32, String),
        Error,
    >)
        ensures
            call_site_splits(encode_utf8(interned_string@)) ==> (r matches Ok(t) && t.0@
                == utf8_lossy(cs_file(encode_utf8(interned_string@))) && t.1 == dec_value(
                cs_line_bytes(encode_utf8(interned_string@)),
            ) as u32 && t.2@ == utf8_lossy(cs_format_tail(encode_utf8(interned_string@)))),
            !call_site_splits(encode_utf8(interned_string@)) ==> (r matches Err(e) && e
                == Error::InvalidFormatString),
    {
        let bs: &[u8] = interned_string.as_str().as_bytes();
        let a1 = find_first_character_position(bs, 64);
        if a1 >= bs.len() {
            return Err(Error::InvalidFormatString);
        }
        let r1: &[u8] = &bs[a1 + 1..bs.len()];
        proof {
            assert(r1@ =~= after_byte(bs@, 64));
        }
        let a2 = find_first_character_position(r1, 64);
        if a2 >= r1.len() {
            return Err(Error::InvalidFormatString);
        }
        let lb: &[u8] = &r1[0..a2];
        proof {
            assert(lb@ =~= cs_line_bytes(bs@));
        }
        match parse_line_number(lb) {
            Option::None => Err(Error::InvalidFormatString),
            Option::Some(line) => {
                let fb: &[u8] = &bs[0..a1];
                let tb: &[u8] = &r1[a2 + 1..r1.len()];
                proof {
                    assert(fb@ =~= cs_file(bs@));
                    assert(tb@ =~= cs_format_tail(bs@));
                }
                Ok(
                    (
                        bytes_to_string_lossy(fb),
                        line,
                        bytes_to_string_lossy(tb),
                    ),
                )
            },
        }
    }

    /// Runs the format engine on `format` with `arguments` under the
    /// borrowed image's codec and string table.
    pub fn format_string(&self, format: &str, arguments: &[u8]) -> (r: Result<String, Error>)
        requires
            self.wf(),
        ensures
            match r {
                Ok(s) => (spec_format_at(
                    self.spec_meta().spec_codec(),
                    self.spec_meta().spec_strings(),
                    encode_utf8(format@),
                    0,
                    arguments@,
                    0,
                ) matches Ok((o, np)) && s@ == utf8_lossy(o)),
                Err(e) => spec_format_at(
                    self.spec_meta().spec_codec(),
                    self.spec_meta().spec_strings(),
                    encode_utf8(format@),
                    0,
                    arguments@,
                    0,
                ) == Err::<(Seq<u8>, int), _>(e),
            },
    {
        self.elf_metadata.format_string(format.as_bytes(), arguments)
    }
}

} // verus!
