//! The errors that the codec and the cabinet writer report.

use vstd::prelude::*;

verus! {

/// What went wrong while encoding, decoding or writing a cabinet.
#[derive(Clone, Copy, Debug, PartialEq, Eq, Structural)]
pub enum ErrorKind {
    /// The underlying file system or I/O layer failed.
    Io,
    /// The input has no file name, or the name is not valid text.
    BadFilename,
    /// A block handed to the decoder is longer than the format allows.
    BlockSizeTooLarge,
    /// A block handed to the decoder does not begin with `CK`.
    InvalidBlockSignature,
    /// The DEFLATE layer could not make progress on a block.
    BufferError,
    /// The DEFLATE layer did not reach the end of the stream in a block.
    DecompressionError,
    /// The DEFLATE layer failed while compressing.
    Compression,
    /// The DEFLATE layer rejected the contents of a block.
    Flate,
    /// The input does not fit the 32-bit and 16-bit fields of a cabinet.
    FileTooLarge,
}

impl ErrorKind {
    /// A short human-readable account of the error.
    pub fn description(&self) -> (text: &'static str)
        ensures
            text@ == self.description_spec(),
    {
        match self {
            ErrorKind::Io => "I/O error",
            ErrorKind::BadFilename => "bad file name",
            ErrorKind::BlockSizeTooLarge => "block size too large",
            ErrorKind::InvalidBlockSignature => "invalid block signature",
            ErrorKind::BufferError => "buffer error",
            ErrorKind::DecompressionError => "decompression error",
            ErrorKind::Compression => "compression error",
            ErrorKind::Flate => "invalid deflate data",
            ErrorKind::FileTooLarge => "file too large for a cabinet",
        }
    }

    /// The text that [`ErrorKind::description`] returns.
    pub open spec fn description_spec(&self) -> Seq<char> {
        match self {
            ErrorKind::Io => "I/O error"@,
            ErrorKind::BadFilename => "bad file name"@,
            ErrorKind::BlockSizeTooLarge => "block size too large"@,
            ErrorKind::InvalidBlockSignature => "invalid block signature"@,
            ErrorKind::BufferError => "buffer error"@,
            ErrorKind::DecompressionError => "decompression error"@,
            ErrorKind::Compression => "compression error"@,
            ErrorKind::Flate => "invalid deflate data"@,
            ErrorKind::FileTooLarge => "file too large for a cabinet"@,
        }
    }
}

} // verus!
