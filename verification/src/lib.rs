//! Host-side decoder for the Postform deferred-logging wire format.
//!
//! Firmware images intern every log call site (file, line and format string)
//! into dedicated ELF sections; at runtime the target only transmits a
//! timestamp, a pointer into the interned string table and the raw argument
//! bytes.  This crate recovers the metadata from the ELF, de-frames the
//! transport byte stream and decodes each record back into a readable log.

pub mod decode;
pub mod descriptor;
pub mod elf;
pub mod engine;
pub mod errors;
pub mod framing;
pub mod levels;
pub mod metadata;
pub mod render;
pub mod rtt;
pub mod scan;
pub mod serial;
pub mod severity;
pub mod table;
pub mod text;
pub mod varint;

pub use crate::decode::Decoder;
pub use crate::decode::Log;
pub use crate::errors::Error;
pub use crate::framing::CobsStreamDecoder;
pub use crate::framing::SerialDecoder;
pub use crate::levels::LogLevel;
pub use crate::metadata::ElfMetadata;
