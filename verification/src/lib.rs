//! Decoder and query layer for MDX dictionary files: a binary,
//! block-compressed, optionally encrypted container of headword/definition
//! pairs. The decoder parses the multi-layer header / key-block / record-block
//! structure, reconciles entry offsets with block sizes, and reconstructs
//! definitions on demand; a persistence layer mirrors the catalog into an
//! embedded relational store and answers queries from it.

use vstd::prelude::*;

pub mod block;
pub mod checksum;
pub mod compress;
pub mod crypto;
pub mod header;
pub mod keyblock;
pub mod mdx;
pub mod number;
pub mod query;
pub mod recordblock;
pub mod store;
pub mod text;
pub mod unpack;

verus! {

/// Everything that can go wrong while decoding an MDX file or serving a
/// query from a persistent store.
#[derive(Clone, Copy, Debug, PartialEq, Eq, Structural)]
pub enum MdxError {
    /// Structural fault: short read, bad text, missing attribute,
    /// inconsistent sizes, offsets out of bounds.
    Malformed,
    /// An Adler-32 checksum disagreed with its stored value.
    ChecksumMismatch,
    /// Engine version, encryption method or compression method that the
    /// format does not define (or that no key is available for).
    Unsupported,
    /// A deflate or LZO stream failed to expand.
    Decompress,
    /// I/O or SQL failure inside the persistent store.
    StoreError,
    /// Transient store congestion; the caller may retry.
    Busy,
}

impl MdxError {
    /// Short description, for callers that print errors.
    pub fn describe(&self) -> (r: &'static str)
    {
        match self {
            MdxError::Malformed => "malformed data",
            MdxError::ChecksumMismatch => "checksum mismatch",
            MdxError::Unsupported => "unsupported feature",
            MdxError::Decompress => "decompression failed",
            MdxError::StoreError => "store error",
            MdxError::Busy => "store busy",
        }
    }
}

} // verus!
