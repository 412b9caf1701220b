//! `ElfMetadata` bundles everything the decoders need from the firmware
//! image: the timestamp tick frequency, the interned string table, the
//! severity ranges and the wire codec the firmware speaks.

use vstd::prelude::*;
use crate::engine::{codec_valid, format_with_args, spec_format_at, RecordCodec};
use crate::errors::Error;
use crate::severity::{spec_classify, LogSection};
use crate::table::{user_string_bytes, valid_user_string, InternedStringTable};
use crate::text::{bytes_to_string_lossy, utf8_lossy};
use vstd::utf8::{decode_utf8, valid_utf8};

verus! {

/// Log metadata of one firmware image, immutable once constructed.
pub struct ElfMetadata {
    timestamp_freq: u32,
    strings: InternedStringTable,
    log_sections: Vec<LogSection>,
    codec: RecordCodec,
}

impl ElfMetadata {
    pub closed spec fn spec_freq(&self) -> u32 {
        self.timestamp_freq
    }

    pub closed spec fn spec_strings(&self) -> Seq<u8> {
        self.strings@
    }

    pub closed spec fn spec_sections(&self) -> Seq<LogSection> {
        self.log_sections@
    }

    pub closed spec fn spec_codec(&self) -> RecordCodec {
        self.codec
    }

    /// A platform codec always carries validated widths.
    pub open spec fn wf(&self) -> bool {
        codec_valid(self.spec_codec())
    }

    /// Assembles metadata from already-extracted parts.
    pub fn new(
        timestamp_freq: u32,
        strings: Vec<u8>,
        log_sections: Vec<LogSection>,
        codec: RecordCodec,
    ) -> (r: ElfMetadata)
        requires
            codec_valid(codec),
        ensures
            r.spec_freq() == timestamp_freq,
            r.spec_strings() == strings@,
            r.spec_sections() == log_sections@,
            r.spec_codec() == codec,
            r.wf(),
    {
        ElfMetadata {
            timestamp_freq,
            strings: InternedStringTable::new(strings),
            log_sections,
            codec,
        }
    }

    /// Timestamp tick frequency in Hz, from `.postform_config`.
    pub fn timestamp_freq(&self) -> (r: u32)
        ensures
            r == self.spec_freq(),
    {
        self.timestamp_freq
    }

    pub(crate) fn strings(&self) -> (r: &InternedStringTable)
        ensures
            r@ == self.spec_strings(),
    {
        &self.strings
    }

    pub(crate) fn codec(&self) -> (r: &RecordCodec)
        ensures
            *r == self.spec_codec(),
    {
        &self.codec
    }

    /// The severity range holding `str_ptr`, or the `Unknown` fallback.
    pub fn get_log_section(&self, str_ptr: u64) -> (r: LogSection)
        ensures
            r == spec_classify(self.spec_sections(), str_ptr),
    {
        crate::severity::classify(&self.log_sections, str_ptr)
    }

    /// The user string interned at `str_ptr`, decoded lossily.
    pub fn recover_interned_string(&self, str_ptr: usize) -> (r: Result<String, Error>)
        ensures
            valid_user_string(self.spec_strings(), str_ptr as int) ==> (r matches Ok(s) && s@
                == utf8_lossy(user_string_bytes(self.spec_strings(), str_ptr as int)) && (
            valid_utf8(user_string_bytes(self.spec_strings(), str_ptr as int)) ==> s@
                == decode_utf8(user_string_bytes(self.spec_strings(), str_ptr as int)))),
            !valid_user_string(self.spec_strings(), str_ptr as int) ==> (r matches Err(e) && e
                == Error::InvalidFormatString),
    {
        match self.strings.user_string(str_ptr) {
            Err(e) => Err(e),
            Ok(v) => Ok(bytes_to_string_lossy(v.as_slice())),
        }
    }

    /// Runs the format engine on `format` with `arguments` under this
    /// image's codec and string table.
    pub fn format_string(&self, format: &[u8], arguments: &[u8]) -> (r: Result<String, Error>)
        requires
            self.wf(),
        ensures
            match r {
                Ok(s) => (spec_format_at(
                    self.spec_codec(),
                    self.spec_strings(),
                    format@,
                    0,
                    arguments@,
                    0,
                ) matches Ok((o, np)) && s@ == utf8_lossy(o)),
                Err(e) => spec_format_at(
                    self.spec_codec(),
                    self.spec_strings(),
                    format@,
                    0,
                    arguments@,
                    0,
                ) == Err::<(Seq<u8>, int), _>(e),
            },
    {
        match format_with_args(&self.codec, &self.strings, format, arguments) {
            Err(e) => Err(e),
            Ok((v, _np)) => Ok(bytes_to_string_lossy(v.as_slice())),
        }
    }
}

} // verus!
