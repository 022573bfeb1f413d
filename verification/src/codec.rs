//! Traits tying every codec-capable type to its wire form: a spec-level
//! encoding and decoding, the executable writer and reader that realize
//! them, and the round-trip law.

use vstd::prelude::*;
use crate::error::DecodeResult;
use crate::reader::TdfReader;
use crate::tag::TdfType;
use crate::writer::TdfWriter;

verus! {

/// Something that can be encoded onto a TdfWriter.
pub trait Encodable: Sized {
    /// The bytes this value takes on the wire.
    spec fn enc(&self) -> Seq<u8>;

    /// Appends the wire form of this value to the writer.
    fn encode(&self, writer: &mut TdfWriter)
        ensures
            final(writer).buffer@ == old(writer).buffer@ + self.enc(),
    ;

    /// Encodes this value directly into a fresh byte vector.
    fn encode_bytes(&self) -> (r: Vec<u8>)
        ensures
            r@ == self.enc(),
    {
        let mut output = TdfWriter::new();
        self.encode(&mut output);
        output.buffer
    }
}

/// Something that can be decoded from a TdfReader. The decoded value is
/// described through its deep view, since containers such as `Vec` and
/// `String` have no spec-level constructors.
pub trait Decodable: Sized + DeepView {
    /// View of the value and consumed byte count decoded from the head of
    /// `s`, or `None` when the head of `s` is not a wire form of this type.
    spec fn dec(s: Seq<u8>) -> Option<(Self::V, int)>;

    /// Reads one value of this type, advancing the reader past exactly the
    /// bytes the value occupies.
    fn decode(reader: &mut TdfReader) -> (r: DecodeResult<Self>)
        requires
            old(reader).wf(),
        ensures
            final(reader).wf(),
            final(reader).buffer == old(reader).buffer,
            final(reader).cursor >= old(reader).cursor,
            match r {
                Ok(v) => Self::dec(old(reader).rem()) matches Some((w, n)) && v.deep_view() == w
                    && final(reader).cursor == old(reader).cursor + n,
                Err(e) => Self::dec(old(reader).rem()) is None,
            },
    ;
}

impl<'a> TdfReader<'a> {
    /// Reads one value of any decodable type.
    pub fn read<C: Decodable>(&mut self) -> (r: DecodeResult<C>)
        requires
            old(self).wf(),
        ensures
            final(self).wf(),
            final(self).buffer == old(self).buffer,
            final(self).cursor >= old(self).cursor,
            match r {
                Ok(v) => C::dec(old(self).rem()) matches Some((w, n)) && v.deep_view() == w
                    && final(self).cursor == old(self).cursor + n,
                Err(e) => C::dec(old(self).rem()) is None,
            },
    {
        C::decode(self)
    }
}

/// A type whose values are tagged with one fixed kind.
pub trait ValueType {
    /// The kind, at the spec level.
    spec fn spec_value_type() -> TdfType;

    /// The kind of value this type encodes as.
    fn value_type() -> (t: TdfType)
        ensures
            t == Self::spec_value_type(),
    ;
}

/// A type whose encoding and decoding invert one another: decoding the
/// wire form of a value gives the value back and consumes exactly its
/// bytes, whatever bytes follow.
pub trait Codec: Encodable + Decodable {
    /// The values whose round trip holds: all of them, unless the wire
    /// format itself loses information (a string ending in NUL sheds it).
    open spec fn round_trip_ok(&self) -> bool {
        true
    }

    /// Round trip: `dec` after `enc` gives the value back and consumes
    /// exactly its encoding.
    proof fn lemma_round_trip(v: Self, rest: Seq<u8>)
        requires
            v.round_trip_ok(),
        ensures
            Self::dec(v.enc() + rest) == Some((v.deep_view(), v.enc().len() as int)),
    ;
}

} // verus!
