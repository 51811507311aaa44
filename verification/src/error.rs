use vstd::prelude::*;

verus! {

/// The error taxonomy of the library.
///
/// Device probing reports `NotFound` and `PermissionDenied`, which the
/// enumeration skips silently; `OsIo` carries the raw OS error number of a
/// failed device write; `InvalidInput` marks mismatched control vectors;
/// `InvalidStreamFormat` marks a capture format the driver did not honour;
/// `ChannelClosed` marks a dead peer; `AnalyzerSizeMismatch` marks a frame
/// whose pixel count differs from the analyzer's first frame.
#[derive(Debug, PartialEq, Eq, Structural)]
pub enum Error {
    NotFound,
    PermissionDenied,
    OsIo(i32),
    InvalidInput,
    InvalidStreamFormat,
    ChannelClosed,
    AnalyzerSizeMismatch,
}

impl Error {
    /// A short description, in place of a `Display` implementation.
    pub fn message(&self) -> (r: &'static str)
    {
        match self {
            Error::NotFound => "not found",
            Error::PermissionDenied => "permission denied",
            Error::OsIo(_) => "device input/output error",
            Error::InvalidInput => "invalid input",
            Error::InvalidStreamFormat => "the stream format is not supported",
            Error::ChannelClosed => "channel closed while communicating",
            Error::AnalyzerSizeMismatch => "image size does not match stream analyzer config",
        }
    }
}

} // verus!
