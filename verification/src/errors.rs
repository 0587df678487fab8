//! Error taxonomy for the codecs: structural parse failures, naming
//! failures that skip one entry, unsupported compression methods, I/O
//! reported by the callers that do the filesystem work, and a catch-all.
use vstd::prelude::*;

verus! {

/// Failure while unpacking: parse errors are fatal to the parse call,
/// naming errors skip one entry of a batch, compression errors come from
/// the compressed-container codec.
#[derive(Debug)]
pub enum UnpackError {
    Io(String),
    Parsing(String),
    Compression(String),
    Naming(String),
    Unknown(String),
}

impl UnpackError {
    /// Build the parse-failure variant with a message naming the format
    /// and the underlying reason.
    pub fn parsing_err(filetype: &str, reason: &str) -> (r: UnpackError)
        ensures
            r matches UnpackError::Parsing(m) && m@ == filetype@ + " parsing failed: "@
                + reason@,
    {
        let mut message = filetype.to_owned();
        message.append(" parsing failed: ");
        message.append(reason);
        UnpackError::Parsing(message)
    }
}

/// Failure while repacking.
#[derive(Debug)]
pub enum PackError {
    Io(String),
    Compression(String),
    Unknown(String),
}

} // verus!
