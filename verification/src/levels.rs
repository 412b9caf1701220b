//! Log severity levels and their presentation attributes.

use vstd::prelude::*;

verus! {

/// Available log levels of Postform.  `Unknown` is the virtual level used
/// when an interned-string pointer lies outside every severity range.
#[derive(Copy, Clone, Debug, PartialEq, Eq, Structural)]
pub enum LogLevel {
    Debug,
    Info,
    Warning,
    Error,
    Unknown,
}

/// Terminal color associated with a severity level.
#[derive(Copy, Clone, Debug, PartialEq, Eq, Structural)]
pub enum LevelColor {
    Green,
    Yellow,
    Red,
    Rgb(u8, u8, u8),
}

pub open spec fn spec_level_name(level: LogLevel) -> Seq<char> {
    match level {
        LogLevel::Debug => "Debug"@,
        LogLevel::Info => "Info"@,
        LogLevel::Warning => "Warning"@,
        LogLevel::Error => "Error"@,
        LogLevel::Unknown => "Unknown"@,
    }
}

pub open spec fn spec_start_label(level: LogLevel) -> Seq<char> {
    match level {
        LogLevel::Debug => "__InternedDebugStart"@,
        LogLevel::Info => "__InternedInfoStart"@,
        LogLevel::Warning => "__InternedWarningStart"@,
        LogLevel::Error => "__InternedErrorStart"@,
        LogLevel::Unknown => "__InternedUnknownStart"@,
    }
}

pub open spec fn spec_end_label(level: LogLevel) -> Seq<char> {
    match level {
        LogLevel::Debug => "__InternedDebugEnd"@,
        LogLevel::Info => "__InternedInfoEnd"@,
        LogLevel::Warning => "__InternedWarningEnd"@,
        LogLevel::Error => "__InternedErrorEnd"@,
        LogLevel::Unknown => "__InternedUnknownEnd"@,
    }
}

impl LogLevel {
    /// Human-readable name of the level.
    pub fn name(&self) -> (r: &'static str)
        ensures
            r@ == spec_level_name(*self),
    {
        match self {
            LogLevel::Debug => "Debug",
            LogLevel::Info => "Info",
            LogLevel::Warning => "Warning",
            LogLevel::Error => "Error",
            LogLevel::Unknown => "Unknown",
        }
    }

    /// ELF symbol marking the start of this level's interned-string range.
    pub fn get_start_section_label(&self) -> (r: &'static str)
        ensures
            r@ == spec_start_label(*self),
    {
        match self {
            LogLevel::Debug => "__InternedDebugStart",
            LogLevel::Info => "__InternedInfoStart",
            LogLevel::Warning => "__InternedWarningStart",
            LogLevel::Error => "__InternedErrorStart",
            LogLevel::Unknown => "__InternedUnknownStart",
        }
    }

    /// ELF symbol marking the end of this level's interned-string range.
    pub fn get_end_section_label(&self) -> (r: &'static str)
        ensures
            r@ == spec_end_label(*self),
    {
        match self {
            LogLevel::Debug => "__InternedDebugEnd",
            LogLevel::Info => "__InternedInfoEnd",
            LogLevel::Warning => "__InternedWarningEnd",
            LogLevel::Error => "__InternedErrorEnd",
            LogLevel::Unknown => "__InternedUnknownEnd",
        }
    }
}

/// Terminal color used when printing a log of the given severity.
pub fn color_for_level(level: LogLevel) -> (r: LevelColor)
    ensures
        level is Debug ==> r == LevelColor::Green,
        level is Info ==> r == LevelColor::Yellow,
        level is Warning ==> r == LevelColor::Rgb(255u8, 165u8, 0u8),
        level is Error ==> r == LevelColor::Red,
        level is Unknown ==> r == LevelColor::Red,
{
    match level {
        LogLevel::Debug => LevelColor::Green,
        LogLevel::Info => LevelColor::Yellow,
        LogLevel::Warning => LevelColor::Rgb(255, 165, 0),
        LogLevel::Error => LevelColor::Red,
        LogLevel::Unknown => LevelColor::Red,
    }
}

} // verus!
