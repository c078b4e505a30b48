//! The library's error type.
use vstd::prelude::*;

verus! {

/// Everything that can go wrong while configuring or running a conversion.
#[derive(Debug, Clone, PartialEq)]
pub enum TranscoderError {
    /// A call into FFmpeg failed; the value is FFmpeg's (negative) `AVERROR` code.
    FfmpegError(i32),
    /// One comma-separated part of an option string has no `=`; `part` is
    /// that part with surrounding white space removed.
    OptionParseError { part: String },
    /// The input path names no file.
    NotAFileError { path: String },
    /// No encoder is registered under `name`.
    InvalidEncoderError { name: String },
    /// No output format could be found.
    NoAvailableFormatError,
}

} // verus!
