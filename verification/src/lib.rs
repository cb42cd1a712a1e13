//! A verified engine for the SFS game-archive container.
//!
//! The crate decodes the format's fixed header and table of contents, derives
//! decryption keys with a dual-lane running-hash fingerprint, reverses the two
//! XOR obfuscation passes, reassembles the decompressed payload from its
//! chunk table, and resolves logical files by fingerprint, path or compiled
//! class name.  A small handle registry exposes open/read/seek semantics over
//! extracted contents for a virtual-filesystem front end.

use vstd::prelude::*;

pub mod archive;
pub mod crypt;
pub mod decompress;
pub mod error;
pub mod finger;
pub mod lookup;
pub mod parse;
pub mod repack;
pub mod text;
pub mod vfs;

verus! {

/// Number of decompressed bytes covered by one full chunk of the payload.
pub const CHUNK_SIZE: u32 = 32768;

} // verus!
