//! Error taxonomy for decoding TDF payloads.

use vstd::prelude::*;
use crate::tag::TdfType;

verus! {

/// Error type for errors that can occur while decoding a value.
#[derive(Debug)]
pub enum DecodeError {
    /// The tag that was expected could not be found before the reader ended.
    MissingTag {
        /// The label that was being searched for
        tag: Vec<u8>,
        /// The kind of the tag being searched for
        ty: TdfType,
    },
    /// The expected tag was found but its kind was not the expected one.
    InvalidTagType {
        /// The label whose kind was wrong
        tag: Vec<u8>,
        /// The expected kind
        expected: TdfType,
        /// The kind found on the wire
        actual: TdfType,
    },
    /// A list element kind, or a map key or value kind, differed from the
    /// kind the caller expected.
    InvalidType {
        /// The expected kind
        expected: TdfType,
        /// The kind found on the wire
        actual: TdfType,
    },
    /// A kind discriminant byte outside the range of the eleven kinds.
    UnknownType {
        /// The discriminant byte found
        ty: u8,
    },
    /// The reader reached the end of its bytes before a value was complete.
    UnexpectedEof {
        /// The reader position at the failed read
        cursor: usize,
        /// The number of bytes the read asked for
        wanted: usize,
        /// The number of bytes that remained
        remaining: usize,
    },
    /// Free-form message from a custom codec.
    Other(&'static str),
}

/// Result alias for decoding.
pub type DecodeResult<T> = Result<T, DecodeError>;

} // verus!
