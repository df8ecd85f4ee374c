//! Decoders for the metadata framing of three audio container formats:
//! FLAC metadata blocks, ID3v1/ID3v2 tags, and OGG-encapsulated
//! Vorbis/Opus headers. Each decoder walks an in-memory byte buffer and
//! produces a list of typed records; every fallible read is bounds-checked
//! and surfaces as an explicit error instead of a panic.

use vstd::prelude::*;

pub mod base64;
pub mod crc32;
pub mod flac;
pub mod id3;
pub mod ogg;
pub mod reader;
pub mod summary;
pub mod text;
pub mod vorbis_comment;

verus! {

/// Error reported by every decoder in this crate. Each variant carries the
/// byte offset at which the problem was detected — into the buffer being
/// decoded or, for the decoders that work on one record's payload, into
/// that payload.
#[derive(Clone, Copy, Debug, PartialEq, Eq, Structural)]
pub enum DecodeError {
    /// The buffer does not start with the expected magic bytes.
    SignatureMismatch { offset: usize },
    /// A read or skip would run past the end of the buffer.
    BoundsViolation { offset: usize },
    /// A declared text encoding is unrecognized, or text bytes are not
    /// valid for the claimed encoding.
    EncodingViolation { offset: usize },
    /// A record violates the format's structure (a comment without its
    /// delimiter, a page without its signature, an impossible size field).
    StructuralViolation { offset: usize },
}

} // verus!
