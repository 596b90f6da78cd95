//! The error taxonomy and process exit codes.

use vstd::prelude::*;

verus! {

/// Exit code for successful execution.
pub const EXIT_SUCCESS: i32 = 0;

/// Exit code for general errors: missing input, I/O, binary or encoding
/// trouble.
pub const EXIT_ERROR: i32 = 1;

/// Exit code for invalid arguments: a bad regex or a bad line range.
pub const EXIT_INVALID_ARGS: i32 = 2;

/// The error taxonomy. `InvalidRegex` carries the regex engine's own error
/// as its cause.
#[derive(Debug)]
pub enum MatError {
    /// A file or stream could not be read or written.
    Io { path: String },
    /// The pattern did not compile.
    InvalidRegex { pattern: String, cause: regex::Error },
    /// An empty search or grep pattern was supplied.
    EmptyPattern,
    /// The input looks binary and binary display was not forced.
    BinaryFile { path: String },
    /// The line-range argument does not follow the range grammar.
    InvalidLineRange { range: String },
    /// The input bytes could not be decoded.
    EncodingError { path: String },
}

impl MatError {
    /// The exit code this error maps to: invalid arguments give
    /// `EXIT_INVALID_ARGS`, everything else `EXIT_ERROR`.
    pub fn exit_code(&self) -> (r: i32)
        ensures
            r == if self is InvalidRegex || self is InvalidLineRange {
                EXIT_INVALID_ARGS
            } else {
                EXIT_ERROR
            },
    {
        match self {
            MatError::InvalidRegex { .. } => EXIT_INVALID_ARGS,
            MatError::InvalidLineRange { .. } => EXIT_INVALID_ARGS,
            _ => EXIT_ERROR,
        }
    }
}

} // verus!
