//! Error taxonomy of the archive engine.
//!
//! Parsing, decryption and decompression faults abort the whole archive and
//! surface as [`SfsError::Format`]; lookup misses and per-entry problems are
//! recoverable and carry their own variants.

use vstd::prelude::*;

verus! {

/// A way in which the raw bytes of an archive can fail validation.
#[derive(Clone, Copy, Debug, PartialEq, Eq, Structural)]
pub enum FormatFault {
    /// The buffer is shorter than a region the header declares.
    Truncated,
    /// The magic number is not the expected `S F S \0`.
    BadMagic,
    /// The stored checksum does not match the summed header bytes.
    ChecksumMismatch,
    /// An offset, count or region in the header or tables does not fit the file.
    BadLayout,
    /// A deflate-framed chunk failed to decode.
    BadDeflate,
}

/// Error returned by the archive engine.
#[derive(Clone, Copy, Debug, PartialEq, Eq, Structural)]
pub enum SfsError {
    /// The archive bytes are corrupt or malformed; the archive is unusable.
    Format(FormatFault),
    /// A chunk uses the LZSS scheme, which is recognized but not supported.
    UnsupportedCompression,
    /// No entry matches the requested fingerprint, path or class name.
    NotFound,
    /// The matching entry is a zero-size directory marker and has no bytes.
    InvalidEntry,
    /// The given path is absolute; lookups take paths relative to the archive root.
    InvalidPath,
    /// No open file is registered under the given handle.
    BadHandle,
    /// A seek target lies outside the open file.
    InvalidSeek,
}

} // verus!
