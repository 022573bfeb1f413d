//! Codec implementations for the value kinds: integers, booleans, strings,
//! blobs, lists, unions, maps, VarInt lists, pairs and triples.

use vstd::prelude::*;
use vstd::utf8::encode_utf8;
use crate::codec::{Codec, Decodable, Encodable, ValueType};
use crate::error::{DecodeError, DecodeResult};
use crate::reader::{string_dec, TdfReader};
use crate::tag::TdfType;
use crate::varint::{
    trunc_u16, trunc_u32, trunc_u64, trunc_u8, trunc_usize, varint_dec, varint_enc,
};
use crate::writer::{str_enc, TdfWriter};

verus! {

/// The key byte marking a union with no value.
pub const UNION_UNSET: u8 = 0x7F;

// ----------------------------------------------------------------------
// Unsigned integers
// ----------------------------------------------------------------------
impl Encodable for u64 {
    open spec fn enc(&self) -> Seq<u8> {
        varint_enc(*self)
    }

    fn encode(&self, writer: &mut TdfWriter) {
        writer.write_u64(*self);
    }
}

impl Decodable for u64 {
    open spec fn dec(s: Seq<u8>) -> Option<(u64, int)> {
        match varint_dec(s) {
            Some((v, n)) => Some((trunc_u64(v), n)),
            None => None,
        }
    }

    fn decode(reader: &mut TdfReader) -> (r: DecodeResult<u64>) {
        reader.read_u64()
    }
}

impl ValueType for u64 {
    open spec fn spec_value_type() -> TdfType {
        TdfType::VarInt
    }

    fn value_type() -> TdfType {
        TdfType::VarInt
    }
}

impl Codec for u64 {
    proof fn lemma_round_trip(v: u64, rest: Seq<u8>) {
        crate::varint::lemma_varint_round_trip(v, rest);
    }
}

impl Encodable for u8 {
    open spec fn enc(&self) -> Seq<u8> {
        varint_enc(*self as u64)
    }

    fn encode(&self, writer: &mut TdfWriter) {
        writer.write_u8(*self);
    }
}

impl Decodable for u8 {
    open spec fn dec(s: Seq<u8>) -> Option<(u8, int)> {
        match varint_dec(s) {
            Some((v, n)) => Some((trunc_u8(v), n)),
            None => None,
        }
    }

    fn decode(reader: &mut TdfReader) -> (r: DecodeResult<u8>) {
        reader.read_u8()
    }
}

impl ValueType for u8 {
    open spec fn spec_value_type() -> TdfType {
        TdfType::VarInt
    }

    fn value_type() -> TdfType {
        TdfType::VarInt
    }
}

impl Codec for u8 {
    proof fn lemma_round_trip(v: u8, rest: Seq<u8>) {
        crate::varint::lemma_varint_round_trip(v as u64, rest);
    }
}

impl Encodable for u16 {
    open spec fn enc(&self) -> Seq<u8> {
        varint_enc(*self as u64)
    }

    fn encode(&self, writer: &mut TdfWriter) {
        writer.write_u16(*self);
    }
}

impl Decodable for u16 {
    open spec fn dec(s: Seq<u8>) -> Option<(u16, int)> {
        match varint_dec(s) {
            Some((v, n)) => Some((trunc_u16(v), n)),
            None => None,
        }
    }

    fn decode(reader: &mut TdfReader) -> (r: DecodeResult<u16>) {
        reader.read_u16()
    }
}

impl ValueType for u16 {
    open spec fn spec_value_type() -> TdfType {
        TdfType::VarInt
    }

    fn value_type() -> TdfType {
        TdfType::VarInt
    }
}

impl Codec for u16 {
    proof fn lemma_round_trip(v: u16, rest: Seq<u8>) {
        crate::varint::lemma_varint_round_trip(v as u64, rest);
    }
}

impl Encodable for u32 {
    open spec fn enc(&self) -> Seq<u8> {
        varint_enc(*self as u64)
    }

    fn encode(&self, writer: &mut TdfWriter) {
        writer.write_u32(*self);
    }
}

impl Decodable for u32 {
    open spec fn dec(s: Seq<u8>) -> Option<(u32, int)> {
        match varint_dec(s) {
            Some((v, n)) => Some((trunc_u32(v), n)),
            None => None,
        }
    }

    fn decode(reader: &mut TdfReader) -> (r: DecodeResult<u32>) {
        reader.read_u32()
    }
}

impl ValueType for u32 {
    open spec fn spec_value_type() -> TdfType {
        TdfType::VarInt
    }

    fn value_type() -> TdfType {
        TdfType::VarInt
    }
}

impl Codec for u32 {
    proof fn lemma_round_trip(v: u32, rest: Seq<u8>) {
        crate::varint::lemma_varint_round_trip(v as u64, rest);
    }
}

impl Encodable for usize {
    open spec fn enc(&self) -> Seq<u8> {
        varint_enc(*self as u64)
    }

    fn encode(&self, writer: &mut TdfWriter) {
        writer.write_usize(*self);
    }
}

impl Decodable for usize {
    open spec fn dec(s: Seq<u8>) -> Option<(usize, int)> {
        match varint_dec(s) {
            Some((v, n)) => Some((trunc_usize(v), n)),
            None => None,
        }
    }

    fn decode(reader: &mut TdfReader) -> (r: DecodeResult<usize>) {
        reader.read_usize()
    }
}

impl ValueType for usize {
    open spec fn spec_value_type() -> TdfType {
        TdfType::VarInt
    }

    fn value_type() -> TdfType {
        TdfType::VarInt
    }
}

impl Codec for usize {
    proof fn lemma_round_trip(v: usize, rest: Seq<u8>) {
        crate::varint::lemma_varint_round_trip(v as u64, rest);
        lemma_trunc_usize_small(v as nat);
    }
}

/// Reducing a value that already fits a usize changes nothing.
pub proof fn lemma_trunc_usize_small(v: nat)
    requires
        v <= usize::MAX,
    ensures
        trunc_usize(v) == v,
{
    vstd::arithmetic::div_mod::lemma_small_mod(v, 0x1_0000_0000_0000_0000);
    vstd::arithmetic::div_mod::lemma_small_mod(v, usize::MAX as nat + 1);
}

// ----------------------------------------------------------------------
// Signed integers: two's complement reinterpretation at each width,
// sharing the unsigned wire form.
// ----------------------------------------------------------------------
/// The unsigned wire value of an i8: its two's complement bits.
pub open spec fn i8_wire(v: i8) -> u8 {
    if v >= 0 {
        v as u8
    } else {
        (v + 0x100) as u8
    }
}

/// The i8 whose two's complement bits are `w`.
pub open spec fn i8_unwire(w: u8) -> i8 {
    if w < 0x80 {
        w as i8
    } else {
        (w - 0x100) as i8
    }
}

impl Encodable for i8 {
    open spec fn enc(&self) -> Seq<u8> {
        varint_enc(i8_wire(*self) as u64)
    }

    fn encode(&self, writer: &mut TdfWriter) {
        let w: u8 = if *self >= 0 {
            *self as u8
        } else {
            ((*self as i16) + 0x100) as u8
        };
        writer.write_u8(w);
    }
}

impl Decodable for i8 {
    open spec fn dec(s: Seq<u8>) -> Option<(i8, int)> {
        match varint_dec(s) {
            Some((v, n)) => Some((i8_unwire(trunc_u8(v)), n)),
            None => None,
        }
    }

    fn decode(reader: &mut TdfReader) -> (r: DecodeResult<i8>) {
        match reader.read_u8() {
            Ok(w) => Ok(
                if w < 0x80 {
                    w as i8
                } else {
                    ((w as i16) - 0x100) as i8
                },
            ),
            Err(e) => Err(e),
        }
    }
}

impl ValueType for i8 {
    open spec fn spec_value_type() -> TdfType {
        TdfType::VarInt
    }

    fn value_type() -> TdfType {
        TdfType::VarInt
    }
}

impl Codec for i8 {
    proof fn lemma_round_trip(v: i8, rest: Seq<u8>) {
        crate::varint::lemma_varint_round_trip(i8_wire(v) as u64, rest);
    }
}

/// The unsigned wire value of an i16: its two's complement bits.
pub open spec fn i16_wire(v: i16) -> u16 {
    if v >= 0 {
        v as u16
    } else {
        (v + 0x1_0000) as u16
    }
}

/// The i16 whose two's complement bits are `w`.
pub open spec fn i16_unwire(w: u16) -> i16 {
    if w < 0x8000 {
        w as i16
    } else {
        (w - 0x1_0000) as i16
    }
}

impl Encodable for i16 {
    open spec fn enc(&self) -> Seq<u8> {
        varint_enc(i16_wire(*self) as u64)
    }

    fn encode(&self, writer: &mut TdfWriter) {
        let w: u16 = if *self >= 0 {
            *self as u16
        } else {
            ((*self as i32) + 0x1_0000) as u16
        };
        writer.write_u16(w);
    }
}

impl Decodable for i16 {
    open spec fn dec(s: Seq<u8>) -> Option<(i16, int)> {
        match varint_dec(s) {
            Some((v, n)) => Some((i16_unwire(trunc_u16(v)), n)),
            None => None,
        }
    }

    fn decode(reader: &mut TdfReader) -> (r: DecodeResult<i16>) {
        match reader.read_u16() {
            Ok(w) => Ok(
                if w < 0x8000 {
                    w as i16
                } else {
                    ((w as i32) - 0x1_0000) as i16
                },
            ),
            Err(e) => Err(e),
        }
    }
}

impl ValueType for i16 {
    open spec fn spec_value_type() -> TdfType {
        TdfType::VarInt
    }

    fn value_type() -> TdfType {
        TdfType::VarInt
    }
}

impl Codec for i16 {
    proof fn lemma_round_trip(v: i16, rest: Seq<u8>) {
        crate::varint::lemma_varint_round_trip(i16_wire(v) as u64, rest);
    }
}

/// The unsigned wire value of an i32: its two's complement bits.
pub open spec fn i32_wire(v: i32) -> u32 {
    if v >= 0 {
        v as u32
    } else {
        (v + 0x1_0000_0000) as u32
    }
}

/// The i32 whose two's complement bits are `w`.
pub open spec fn i32_unwire(w: u32) -> i32 {
    if w < 0x8000_0000 {
        w as i32
    } else {
        (w - 0x1_0000_0000) as i32
    }
}

impl Encodable for i32 {
    open spec fn enc(&self) -> Seq<u8> {
        varint_enc(i32_wire(*self) as u64)
    }

    fn encode(&self, writer: &mut TdfWriter) {
        let w: u32 = if *self >= 0 {
            *self as u32
        } else {
            ((*self as i64) + 0x1_0000_0000) as u32
        };
        writer.write_u32(w);
    }
}

impl Decodable for i32 {
    open spec fn dec(s: Seq<u8>) -> Option<(i32, int)> {
        match varint_dec(s) {
            Some((v, n)) => Some((i32_unwire(trunc_u32(v)), n)),
            None => None,
        }
    }

    fn decode(reader: &mut TdfReader) -> (r: DecodeResult<i32>) {
        match reader.read_u32() {
            Ok(w) => Ok(
                if w < 0x8000_0000 {
                    w as i32
                } else {
                    ((w as i64) - 0x1_0000_0000) as i32
                },
            ),
            Err(e) => Err(e),
        }
    }
}

impl ValueType for i32 {
    open spec fn spec_value_type() -> TdfType {
        TdfType::VarInt
    }

    fn value_type() -> TdfType {
        TdfType::VarInt
    }
}

impl Codec for i32 {
    proof fn lemma_round_trip(v: i32, rest: Seq<u8>) {
        crate::varint::lemma_varint_round_trip(i32_wire(v) as u64, rest);
    }
}

/// The unsigned wire value of an i64: its two's complement bits.
pub open spec fn i64_wire(v: i64) -> u64 {
    if v >= 0 {
        v as u64
    } else {
        (v + 0x1_0000_0000_0000_0000) as u64
    }
}

/// The i64 whose two's complement bits are `w`.
pub open spec fn i64_unwire(w: u64) -> i64 {
    if w < 0x8000_0000_0000_0000 {
        w as i64
    } else {
        (w - 0x1_0000_0000_0000_0000) as i64
    }
}

impl Encodable for i64 {
    open spec fn enc(&self) -> Seq<u8> {
        varint_enc(i64_wire(*self))
    }

    fn encode(&self, writer: &mut TdfWriter) {
        let w: u64 = if *self >= 0 {
            *self as u64
        } else {
            ((*self as i128) + 0x1_0000_0000_0000_0000i128) as u64
        };
        writer.write_u64(w);
    }
}

impl Decodable for i64 {
    open spec fn dec(s: Seq<u8>) -> Option<(i64, int)> {
        match varint_dec(s) {
            Some((v, n)) => Some((i64_unwire(trunc_u64(v)), n)),
            None => None,
        }
    }

    fn decode(reader: &mut TdfReader) -> (r: DecodeResult<i64>) {
        match reader.read_u64() {
            Ok(w) => Ok(
                if w < 0x8000_0000_0000_0000 {
                    w as i64
                } else {
                    ((w as i128) - 0x1_0000_0000_0000_0000i128) as i64
                },
            ),
            Err(e) => Err(e),
        }
    }
}

impl ValueType for i64 {
    open spec fn spec_value_type() -> TdfType {
        TdfType::VarInt
    }

    fn value_type() -> TdfType {
        TdfType::VarInt
    }
}

impl Codec for i64 {
    proof fn lemma_round_trip(v: i64, rest: Seq<u8>) {
        crate::varint::lemma_varint_round_trip(i64_wire(v), rest);
    }
}

/// The unsigned wire value of an isize: its two's complement bits.
pub open spec fn isize_wire(v: isize) -> usize {
    if v >= 0 {
        v as usize
    } else {
        (v + usize::MAX + 1) as usize
    }
}

/// The isize whose two's complement bits are `w`.
pub open spec fn isize_unwire(w: usize) -> isize {
    if w <= usize::MAX / 2 {
        w as isize
    } else {
        (w - usize::MAX - 1) as isize
    }
}

impl Encodable for isize {
    open spec fn enc(&self) -> Seq<u8> {
        varint_enc(isize_wire(*self) as u64)
    }

    fn encode(&self, writer: &mut TdfWriter) {
        let w: usize = if *self >= 0 {
            *self as usize
        } else {
            ((*self as i128) + (usize::MAX as i128) + 1) as usize
        };
        writer.write_usize(w);
    }
}

impl Decodable for isize {
    open spec fn dec(s: Seq<u8>) -> Option<(isize, int)> {
        match varint_dec(s) {
            Some((v, n)) => Some((isize_unwire(trunc_usize(v)), n)),
            None => None,
        }
    }

    fn decode(reader: &mut TdfReader) -> (r: DecodeResult<isize>) {
        match reader.read_usize() {
            Ok(w) => Ok(
                if w <= usize::MAX / 2 {
                    w as isize
                } else {
                    ((w as i128) - (usize::MAX as i128) - 1) as isize
                },
            ),
            Err(e) => Err(e),
        }
    }
}

impl ValueType for isize {
    open spec fn spec_value_type() -> TdfType {
        TdfType::VarInt
    }

    fn value_type() -> TdfType {
        TdfType::VarInt
    }
}

impl Codec for isize {
    proof fn lemma_round_trip(v: isize, rest: Seq<u8>) {
        crate::varint::lemma_varint_round_trip(isize_wire(v) as u64, rest);
        lemma_trunc_usize_small(isize_wire(v) as nat);
    }
}

// ----------------------------------------------------------------------
// bool
// ----------------------------------------------------------------------
impl Encodable for bool {
    open spec fn enc(&self) -> Seq<u8> {
        seq![if *self { 1u8 } else { 0u8 }]
    }

    fn encode(&self, writer: &mut TdfWriter) {
        writer.write_bool(*self);
    }
}

impl Decodable for bool {
    open spec fn dec(s: Seq<u8>) -> Option<(bool, int)> {
        match varint_dec(s) {
            Some((v, n)) => Some((v % 2 == 1, n)),
            None => None,
        }
    }

    fn decode(reader: &mut TdfReader) -> (r: DecodeResult<bool>) {
        reader.read_bool()
    }
}

impl ValueType for bool {
    open spec fn spec_value_type() -> TdfType {
        TdfType::VarInt
    }

    fn value_type() -> TdfType {
        TdfType::VarInt
    }
}

impl Codec for bool {
    proof fn lemma_round_trip(v: bool, rest: Seq<u8>) {
        crate::varint::lemma_varint_round_trip(if v { 1u64 } else { 0u64 }, rest);
    }
}

// ----------------------------------------------------------------------
// Strings
// ----------------------------------------------------------------------
impl Encodable for String {
    open spec fn enc(&self) -> Seq<u8> {
        str_enc(self@)
    }

    fn encode(&self, writer: &mut TdfWriter) {
        writer.write_str(self.as_str());
    }
}

impl Decodable for String {
    open spec fn dec(s: Seq<u8>) -> Option<(Seq<char>, int)> {
        string_dec(s)
    }

    fn decode(reader: &mut TdfReader) -> (r: DecodeResult<String>) {
        reader.read_string()
    }
}

impl ValueType for String {
    open spec fn spec_value_type() -> TdfType {
        TdfType::String
    }

    fn value_type() -> TdfType {
        TdfType::String
    }
}

impl Codec for String {
    /// A string round-trips unless it ends in the NUL character, which the
    /// wire form sheds, or its bytes leave no room for the terminator.
    open spec fn round_trip_ok(&self) -> bool {
        &&& encode_utf8(self@).len() + 1 <= usize::MAX
        &&& (encode_utf8(self@).len() == 0 || encode_utf8(self@)[encode_utf8(self@).len() - 1]
            != 0)
    }

    proof fn lemma_round_trip(v: String, rest: Seq<u8>) {
        lemma_string_round_trip(v@, rest);
    }
}

/// String round trip at the character level: the wire form of a character
/// sequence (not ending in a NUL byte, with room for the terminator)
/// decodes back to it.
pub proof fn lemma_string_round_trip(cs: Seq<char>, rest: Seq<u8>)
    requires
        encode_utf8(cs).len() + 1 <= usize::MAX,
        encode_utf8(cs).len() == 0 || encode_utf8(cs)[encode_utf8(cs).len() - 1] != 0,
    ensures
        string_dec(str_enc(cs) + rest) == Some((cs, str_enc(cs).len() as int)),
{
    let b = encode_utf8(cs);
    let payload = crate::writer::str_payload(cs);
    assert(payload == b + seq![0u8]);
    let plen = payload.len() as u64;
    let s = str_enc(cs) + rest;
    assert(s =~= varint_enc(plen) + (payload + rest));
    crate::varint::lemma_varint_round_trip(plen, payload + rest);
    let n = varint_enc(plen).len() as int;
    assert(varint_dec(s) == Some((plen as nat, n)));
    assert(trunc_usize(plen as nat) == payload.len());
    assert(s.len() >= n + payload.len());
    let body = s.subrange(n, n + payload.len() - 1);
    assert(body =~= b);
    vstd::utf8::encode_utf8_valid_utf8(cs);
    vstd::utf8::encode_utf8_decode_utf8(cs);
}

impl Encodable for &str {
    open spec fn enc(&self) -> Seq<u8> {
        str_enc(self@)
    }

    fn encode(&self, writer: &mut TdfWriter) {
        writer.write_str(self);
    }
}

impl ValueType for &str {
    open spec fn spec_value_type() -> TdfType {
        TdfType::String
    }

    fn value_type() -> TdfType {
        TdfType::String
    }
}

// ----------------------------------------------------------------------
// Blob
// ----------------------------------------------------------------------
/// Opaque byte sequence: framed like a string but with no terminator
/// discipline, decoded as raw bytes.
#[derive(Default, Debug, Clone)]
pub struct Blob(pub Vec<u8>);

impl View for Blob {
    type V = Seq<u8>;

    open spec fn view(&self) -> Seq<u8> {
        self.0@
    }
}

impl DeepView for Blob {
    type V = Seq<u8>;

    open spec fn deep_view(&self) -> Seq<u8> {
        self.0@
    }
}

/// The wire form of a blob: VarInt length, then the bytes.
pub open spec fn blob_enc(b: Seq<u8>) -> Seq<u8> {
    varint_enc(b.len() as u64) + b
}

/// Bytes and consumed count of the blob at the head of `s`.
pub open spec fn blob_dec(s: Seq<u8>) -> Option<(Seq<u8>, int)> {
    match varint_dec(s) {
        None => None,
        Some((lv, n)) => {
            let len = trunc_usize(lv) as int;
            if s.len() < n + len {
                None
            } else {
                Some((s.subrange(n, n + len), n + len))
            }
        },
    }
}

impl Encodable for Blob {
    open spec fn enc(&self) -> Seq<u8> {
        blob_enc(self.0@)
    }

    fn encode(&self, writer: &mut TdfWriter) {
        writer.write_usize(self.0.len());
        writer.write_slice(self.0.as_slice());
    }
}

impl Decodable for Blob {
    open spec fn dec(s: Seq<u8>) -> Option<(Seq<u8>, int)> {
        blob_dec(s)
    }

    fn decode(reader: &mut TdfReader) -> (r: DecodeResult<Blob>) {
        let ghost entry = *reader;
        let length = match reader.read_usize() {
            Ok(v) => v,
            Err(e) => {
                return Err(e);
            },
        };
        let ghost mid = *reader;
        let ghost nlen: int = mid.cursor - entry.cursor;
        let bytes = match reader.read_slice(length) {
            Ok(v) => v,
            Err(e) => {
                proof {
                    crate::varint::lemma_varint_dec_bounds(entry.rem());
                    assert(mid.rem() =~= entry.rem().skip(nlen));
                }
                return Err(e);
            },
        };
        proof {
            crate::varint::lemma_varint_dec_bounds(entry.rem());
            assert(mid.rem() =~= entry.rem().skip(nlen));
            assert(bytes@ =~= entry.rem().subrange(nlen, nlen + length));
        }
        Ok(Blob(vstd::slice::slice_to_vec(bytes)))
    }
}

impl ValueType for Blob {
    open spec fn spec_value_type() -> TdfType {
        TdfType::Blob
    }

    fn value_type() -> TdfType {
        TdfType::Blob
    }
}

// ----------------------------------------------------------------------
// Lists
// ----------------------------------------------------------------------
/// Bytes of a run of encoded values, in order, with nothing between them.
pub open spec fn enc_list<C: Encodable>(elems: Seq<C>) -> Seq<u8>
    decreases elems.len(),
{
    if elems.len() == 0 {
        Seq::<u8>::empty()
    } else {
        elems[0].enc() + enc_list(elems.skip(1))
    }
}

/// Extending the encoded prefix of a list by one element appends that
/// element's bytes.
pub proof fn lemma_enc_list_snoc<C: Encodable>(elems: Seq<C>, i: int)
    requires
        0 <= i < elems.len(),
    ensures
        enc_list(elems.take(i + 1)) == enc_list(elems.take(i)) + elems[i].enc(),
    decreases i,
{
    if i == 0 {
        assert(elems.take(1) =~= seq![elems[0]]);
        assert(elems.take(1).skip(1) =~= Seq::<C>::empty());
        assert(enc_list(elems.take(1)) =~= Seq::<u8>::empty() + elems[0].enc() + enc_list(
            Seq::<C>::empty(),
        ));
        assert(enc_list(elems.take(0)) =~= Seq::<u8>::empty());
        assert(enc_list(elems.take(1)) =~= enc_list(elems.take(0)) + elems[0].enc());
    } else {
        let tail = elems.skip(1);
        lemma_enc_list_snoc(tail, i - 1);
        assert(elems.take(i + 1).skip(1) =~= tail.take(i));
        assert(elems.take(i).skip(1) =~= tail.take(i - 1));
        assert(elems.take(i + 1)[0] == elems[0]);
        assert(elems.take(i)[0] == elems[0]);
        assert(tail[i - 1] == elems[i]);
        assert(enc_list(elems.take(i + 1)) == elems[0].enc() + (enc_list(tail.take(i - 1))
            + elems[i].enc()));
        assert(elems[0].enc() + (enc_list(tail.take(i - 1)) + elems[i].enc()) =~= (elems[0].enc()
            + enc_list(tail.take(i - 1))) + elems[i].enc());
    }
}

/// Views and byte count of `count` values decoded one after another from
/// the head of `s`.
pub open spec fn dec_elems<C: Decodable>(count: int, s: Seq<u8>) -> Option<(Seq<C::V>, int)>
    decreases count,
{
    if count <= 0 {
        Some((Seq::<C::V>::empty(), 0))
    } else {
        match C::dec(s) {
            None => None,
            Some((v, n)) => match dec_elems::<C>(count - 1, s.skip(n)) {
                None => None,
                Some((vs, m)) => Some((seq![v] + vs, n + m)),
            },
        }
    }
}

/// Wire form of a list: element kind byte, VarInt length, then the
/// elements with no per-element framing.
pub open spec fn list_enc<C: Encodable + ValueType>(elems: Seq<C>) -> Seq<u8> {
    seq![C::spec_value_type().spec_value()] + varint_enc(elems.len() as u64) + enc_list(elems)
}

impl<C: Encodable + ValueType> Encodable for Vec<C> {
    open spec fn enc(&self) -> Seq<u8> {
        list_enc(self@)
    }

    fn encode(&self, writer: &mut TdfWriter) {
        writer.write_type(C::value_type());
        writer.write_usize(self.len());
        let ghost base = writer.buffer@;
        let mut i: usize = 0;
        while i < self.len()
            invariant
                i <= self@.len(),
                writer.buffer@ == base + enc_list(self@.take(i as int)),
                base == old(writer).buffer@ + seq![C::spec_value_type().spec_value()]
                    + varint_enc(self@.len() as u64),
            decreases self@.len() - i,
        {
            let elem = &self[i];
            elem.encode(writer);
            proof {
                lemma_enc_list_snoc(self@, i as int);
                assert(writer.buffer@ =~= base + enc_list(self@.take(i + 1)));
            }
            i = i + 1;
        }
        proof {
            assert(self@.take(self@.len() as int) =~= self@);
            assert(writer.buffer@ =~= old(writer).buffer@ + list_enc(self@));
        }
    }
}

impl<C: Decodable + ValueType> Decodable for Vec<C> {
    open spec fn dec(s: Seq<u8>) -> Option<(Seq<C::V>, int)> {
        if s.len() == 0 {
            None
        } else {
            match TdfType::spec_from_value(s[0]) {
                None => None,
                Some(t) => {
                    if t != C::spec_value_type() {
                        None
                    } else {
                        match varint_dec(s.skip(1)) {
                            None => None,
                            Some((lv, n)) => match dec_elems::<C>(
                                trunc_usize(lv) as int,
                                s.skip(1 + n),
                            ) {
                                None => None,
                                Some((vs, m)) => Some((vs, 1 + n + m)),
                            },
                        }
                    }
                },
            }
        }
    }

    #[verifier::loop_isolation(false)]
    fn decode(reader: &mut TdfReader) -> (r: DecodeResult<Vec<C>>)
        ensures
            ({
                let s = old(reader).rem();
                (s.len() >= 1 && TdfType::spec_from_value(s[0]) is Some && TdfType::spec_from_value(
                    s[0],
                )->Some_0 != C::spec_value_type()) ==> {
                    let found = TdfType::spec_from_value(s[0])->Some_0;
                    &&& (r matches Err(e) && (e matches DecodeError::InvalidType {
                        expected,
                        actual,
                    } && expected == C::spec_value_type() && actual == found))
                    &&& final(reader).cursor == old(reader).cursor + 1
                }
            }),
    {
        let ghost entry = *reader;
        let t = match reader.read_type() {
            Ok(t) => t,
            Err(e) => {
                return Err(e);
            },
        };
        let expected = C::value_type();
        if t != expected {
            return Err(DecodeError::InvalidType { expected, actual: t });
        }
        let ghost s1 = *reader;
        proof {
            assert(s1.rem() =~= entry.rem().skip(1));
        }
        let length = match reader.read_usize() {
            Ok(v) => v,
            Err(e) => {
                return Err(e);
            },
        };
        let ghost s2 = *reader;
        proof {
            crate::varint::lemma_varint_dec_bounds(s1.rem());
            assert(s2.rem() =~= s1.rem().skip(s2.cursor - s1.cursor));
            assert(s2.rem() =~= entry.rem().skip(1 + (s2.cursor - s1.cursor)));
        }
        let mut values: Vec<C> = Vec::new();
        let mut i: usize = 0;
        proof {
            assert(values.deep_view() =~= Seq::<C::V>::empty());
        }
        while i < length
            invariant
                i <= length,
                reader.wf(),
                reader.buffer == entry.buffer,
                reader.cursor >= s2.cursor,
                s2.wf(),
                s2.buffer == entry.buffer,
                match dec_elems::<C>(length - i, reader.rem()) {
                    Some((vs, m)) => dec_elems::<C>(length as int, s2.rem()) == Some(
                        (values.deep_view() + vs, (reader.cursor - s2.cursor) + m),
                    ),
                    None => dec_elems::<C>(length as int, s2.rem()) is None,
                },
            decreases length - i,
        {
            let ghost cur = *reader;
            let ghost vals_before = values.deep_view();
            match C::decode(reader) {
                Ok(v) => {
                    proof {
                        let n = reader.cursor - cur.cursor;
                        assert(reader.rem() =~= cur.rem().skip(n));
                        assert(dec_elems::<C>(length - i, cur.rem()) matches Some((vs0, m0))
                            ==> vs0 == seq![v.deep_view()] + dec_elems::<C>(
                            (length - i) - 1,
                            cur.rem().skip(n),
                        )->Some_0.0);
                    }
                    values.push(v);
                    proof {
                        assert(values.deep_view() =~= vals_before + seq![v.deep_view()]);
                        match dec_elems::<C>((length - i) as int - 1, reader.rem()) {
                            Some((vs, m)) => {
                                assert(dec_elems::<C>(length - i, cur.rem()) == Some(
                                    (seq![v.deep_view()] + vs, (reader.cursor - cur.cursor) + m),
                                ));
                                assert(vals_before + (seq![v.deep_view()] + vs) =~= values.deep_view()
                                    + vs);
                            },
                            None => {
                                assert(dec_elems::<C>(length - i, cur.rem()) is None);
                            },
                        }
                    }
                    i = i + 1;
                },
                Err(e) => {
                    proof {
                        assert(dec_elems::<C>(length - i, cur.rem()) is None);
                        assert(dec_elems::<C>(length as int, s2.rem()) is None);
                        assert(<Vec<C> as Decodable>::dec(entry.rem()) is None);
                    }
                    return Err(e);
                },
            }
        }
        proof {
            assert(dec_elems::<C>(0, reader.rem()) == Some((Seq::<C::V>::empty(), 0int)));
            assert(values.deep_view() + Seq::<C::V>::empty() =~= values.deep_view());
            assert(dec_elems::<C>(length as int, s2.rem()) == Some(
                (values.deep_view(), reader.cursor - s2.cursor),
            ));
            assert(<Vec<C> as Decodable>::dec(entry.rem()) == Some(
                (values.deep_view(), reader.cursor - entry.cursor),
            ));
        }
        Ok(values)
    }
}

impl<C> ValueType for Vec<C> {
    open spec fn spec_value_type() -> TdfType {
        TdfType::List
    }

    fn value_type() -> TdfType {
        TdfType::List
    }
}

/// The deep views of a sequence of values, element by element.
pub open spec fn deep_seq<C: DeepView>(elems: Seq<C>) -> Seq<C::V> {
    Seq::new(elems.len(), |i: int| elems[i].deep_view())
}

/// Decoding a run of encodings of known values gives those values back.
pub proof fn lemma_dec_elems_round_trip<C: Codec>(elems: Seq<C>, rest: Seq<u8>)
    requires
        forall|i: int| 0 <= i < elems.len() ==> #[trigger] elems[i].round_trip_ok(),
    ensures
        dec_elems::<C>(elems.len() as int, enc_list(elems) + rest) == Some(
            (deep_seq(elems), enc_list(elems).len() as int),
        ),
    decreases elems.len(),
{
    if elems.len() == 0 {
        assert(deep_seq(elems) =~= Seq::<C::V>::empty());
    } else {
        let head = elems[0];
        let tail = elems.skip(1);
        assert(enc_list(elems) + rest =~= head.enc() + (enc_list(tail) + rest));
        C::lemma_round_trip(head, enc_list(tail) + rest);
        assert(forall|i: int|
            0 <= i < tail.len() ==> #[trigger] tail[i].round_trip_ok() && tail[i] == elems[i + 1]);
        lemma_dec_elems_round_trip(tail, rest);
        assert((head.enc() + (enc_list(tail) + rest)).skip(head.enc().len() as int) =~= enc_list(
            tail,
        ) + rest);
        assert(seq![head.deep_view()] + deep_seq(tail) =~= deep_seq(elems));
    }
}

/// A list of round-trippable values round-trips, provided its length fits
/// the machine word the length prefix is read into.
impl<C: Codec + ValueType> Codec for Vec<C> {
    open spec fn round_trip_ok(&self) -> bool {
        forall|i: int| 0 <= i < self@.len() ==> #[trigger] self@[i].round_trip_ok()
    }

    proof fn lemma_round_trip(v: Vec<C>, rest: Seq<u8>) {
        vstd::std_specs::vec::axiom_spec_len(&v);
        let elems = v@;
        let s = v.enc() + rest;
        let tb = C::spec_value_type().spec_value();
        assert(s[0] == tb);
        crate::tag::lemma_type_value_round_trip(C::spec_value_type());
        assert(s.skip(1) =~= varint_enc(elems.len() as u64) + (enc_list(elems) + rest));
        crate::varint::lemma_varint_round_trip(elems.len() as u64, enc_list(elems) + rest);
        let n = varint_enc(elems.len() as u64).len() as int;
        lemma_trunc_usize_small(elems.len());
        assert(s.skip(1 + n) =~= enc_list(elems) + rest);
        lemma_dec_elems_round_trip(elems, rest);
        assert(v.deep_view() =~= deep_seq(elems));
    }
}

impl Codec for Blob {
    proof fn lemma_round_trip(v: Blob, rest: Seq<u8>) {
        vstd::std_specs::vec::axiom_spec_len(&v.0);
        let b = v.0@;
        let s = v.enc() + rest;
        assert(s =~= varint_enc(b.len() as u64) + (b + rest));
        crate::varint::lemma_varint_round_trip(b.len() as u64, b + rest);
        let n = varint_enc(b.len() as u64).len() as int;
        lemma_trunc_usize_small(b.len());
        assert(s.subrange(n, n + b.len()) =~= b);
    }
}

// ----------------------------------------------------------------------
// VarInt lists, unions, pairs and triples
// ----------------------------------------------------------------------
pub trait VarInt: Codec {

}

impl VarInt for u8 {

}

impl VarInt for u16 {

}

impl VarInt for u32 {

}

impl VarInt for u64 {

}

impl VarInt for usize {

}

impl VarInt for i8 {

}

impl VarInt for i16 {

}

impl VarInt for i32 {

}

impl VarInt for i64 {

}

impl VarInt for isize {

}

/// Wire form of a VarInt list: a VarInt count, then the values, with no
/// element kind byte.
pub open spec fn varintlist_enc<T: Encodable>(elems: Seq<T>) -> Seq<u8> {
    varint_enc(elems.len() as u64) + enc_list(elems)
}

/// List of VarInt values with its own framing on the wire.
#[derive(Debug)]
pub struct VarIntList<T>(pub Vec<T>);

impl<T: DeepView> View for VarIntList<T> {
    type V = Seq<T::V>;

    open spec fn view(&self) -> Seq<T::V> {
        self.0.deep_view()
    }
}

impl<T: DeepView> DeepView for VarIntList<T> {
    type V = Seq<T::V>;

    open spec fn deep_view(&self) -> Seq<T::V> {
        self.0.deep_view()
    }
}

impl<T> VarIntList<T> {
    /// Creates an empty list.
    pub fn new() -> (r: VarIntList<T>)
        ensures
            r.0@ == Seq::<T>::empty(),
    {
        VarIntList(Vec::new())
    }

    /// Creates an empty list with no capacity reserved.
    pub fn empty() -> (r: VarIntList<T>)
        ensures
            r.0@ == Seq::<T>::empty(),
    {
        VarIntList(Vec::new())
    }

    /// Creates a list holding one value.
    pub fn only(value: T) -> (r: VarIntList<T>)
        ensures
            r.0@ == seq![value],
    {
        let mut values = Vec::new();
        values.push(value);
        VarIntList(values)
    }

    /// Creates an empty list with the provided capacity reserved.
    pub fn with_capacity(capacity: usize) -> (r: VarIntList<T>)
        ensures
            r.0@ == Seq::<T>::empty(),
    {
        VarIntList(Vec::with_capacity(capacity))
    }

    /// Appends a value at the end of the list.
    pub fn insert(&mut self, value: T)
        ensures
            final(self).0@ == old(self).0@.push(value),
    {
        self.0.push(value);
    }

    /// Removes the value at the provided index, returning it, or `None`
    /// when the index is out of range.
    pub fn remove(&mut self, index: usize) -> (r: Option<T>)
        ensures
            match r {
                Some(v) => index < old(self).0@.len() && v == old(self).0@[index as int]
                    && final(self).0@ == old(self).0@.remove(index as int),
                None => index >= old(self).0@.len() && final(self).0@ == old(self).0@,
            },
    {
        if index < self.0.len() {
            Some(self.0.remove(index))
        } else {
            None
        }
    }

    /// Borrows the value at the provided index, or `None` when the index
    /// is out of range.
    pub fn get(&self, index: usize) -> (r: Option<&T>)
        ensures
            match r {
                Some(v) => index < self.0@.len() && v == self.0@[index as int],
                None => index >= self.0@.len(),
            },
    {
        if index < self.0.len() {
            Some(&self.0[index])
        } else {
            None
        }
    }
}

impl<T: VarInt> Encodable for VarIntList<T> {
    open spec fn enc(&self) -> Seq<u8> {
        varintlist_enc(self.0@)
    }

    fn encode(&self, writer: &mut TdfWriter) {
        writer.write_usize(self.0.len());
        let ghost base = writer.buffer@;
        let mut i: usize = 0;
        while i < self.0.len()
            invariant
                i <= self.0@.len(),
                writer.buffer@ == base + enc_list(self.0@.take(i as int)),
                base == old(writer).buffer@ + varint_enc(self.0@.len() as u64),
            decreases self.0@.len() - i,
        {
            let elem = &self.0[i];
            elem.encode(writer);
            proof {
                lemma_enc_list_snoc(self.0@, i as int);
                assert(writer.buffer@ =~= base + enc_list(self.0@.take(i + 1)));
            }
            i = i + 1;
        }
        proof {
            assert(self.0@.take(self.0@.len() as int) =~= self.0@);
            assert(writer.buffer@ =~= old(writer).buffer@ + varintlist_enc(self.0@));
        }
    }
}

impl<T: VarInt> Decodable for VarIntList<T> {
    open spec fn dec(s: Seq<u8>) -> Option<(Seq<T::V>, int)> {
        match varint_dec(s) {
            None => None,
            Some((lv, n)) => match dec_elems::<T>(trunc_usize(lv) as int, s.skip(n)) {
                None => None,
                Some((vs, m)) => Some((vs, n + m)),
            },
        }
    }

    #[verifier::loop_isolation(false)]
    fn decode(reader: &mut TdfReader) -> (r: DecodeResult<VarIntList<T>>) {
        let ghost entry = *reader;
        let length = match reader.read_usize() {
            Ok(v) => v,
            Err(e) => {
                return Err(e);
            },
        };
        let ghost s2 = *reader;
        proof {
            crate::varint::lemma_varint_dec_bounds(entry.rem());
            assert(s2.rem() =~= entry.rem().skip(s2.cursor - entry.cursor));
        }
        let mut values: Vec<T> = Vec::new();
        let mut i: usize = 0;
        proof {
            assert(values.deep_view() =~= Seq::<T::V>::empty());
        }
        while i < length
            invariant
                i <= length,
                reader.wf(),
                reader.buffer == entry.buffer,
                reader.cursor >= s2.cursor,
                match dec_elems::<T>(length - i, reader.rem()) {
                    Some((vs, m)) => dec_elems::<T>(length as int, s2.rem()) == Some(
                        (values.deep_view() + vs, (reader.cursor - s2.cursor) + m),
                    ),
                    None => dec_elems::<T>(length as int, s2.rem()) is None,
                },
            decreases length - i,
        {
            let ghost cur = *reader;
            let ghost vals_before = values.deep_view();
            match T::decode(reader) {
                Ok(v) => {
                    proof {
                        let n = reader.cursor - cur.cursor;
                        assert(reader.rem() =~= cur.rem().skip(n));
                    }
                    values.push(v);
                    proof {
                        assert(values.deep_view() =~= vals_before + seq![v.deep_view()]);
                        match dec_elems::<T>((length - i) as int - 1, reader.rem()) {
                            Some((vs, m)) => {
                                assert(vals_before + (seq![v.deep_view()] + vs) =~= values.deep_view()
                                    + vs);
                            },
                            None => {
                            },
                        }
                    }
                    i = i + 1;
                },
                Err(e) => {
                    proof {
                        assert(dec_elems::<T>(length - i, cur.rem()) is None);
                        assert(<VarIntList<T> as Decodable>::dec(entry.rem()) is None);
                    }
                    return Err(e);
                },
            }
        }
        proof {
            assert(dec_elems::<T>(0, reader.rem()) == Some((Seq::<T::V>::empty(), 0int)));
            assert(values.deep_view() + Seq::<T::V>::empty() =~= values.deep_view());
            assert(<VarIntList<T> as Decodable>::dec(entry.rem()) == Some(
                (values.deep_view(), reader.cursor - entry.cursor),
            ));
        }
        Ok(VarIntList(values))
    }
}

impl<T> ValueType for VarIntList<T> {
    open spec fn spec_value_type() -> TdfType {
        TdfType::VarIntList
    }

    fn value_type() -> TdfType {
        TdfType::VarIntList
    }
}

impl<T: VarInt + ValueType> Codec for VarIntList<T> {
    open spec fn round_trip_ok(&self) -> bool {
        forall|i: int| 0 <= i < self.0@.len() ==> #[trigger] self.0@[i].round_trip_ok()
    }

    proof fn lemma_round_trip(v: VarIntList<T>, rest: Seq<u8>) {
        vstd::std_specs::vec::axiom_spec_len(&v.0);
        let elems = v.0@;
        let s = v.enc() + rest;
        assert(s =~= varint_enc(elems.len() as u64) + (enc_list(elems) + rest));
        crate::varint::lemma_varint_round_trip(elems.len() as u64, enc_list(elems) + rest);
        let n = varint_enc(elems.len() as u64).len() as int;
        lemma_trunc_usize_small(elems.len());
        assert(s.skip(n) =~= enc_list(elems) + rest);
        lemma_dec_elems_round_trip(elems, rest);
        assert(v.deep_view() =~= deep_seq(elems));
    }
}

// ----------------------------------------------------------------------
// Unions
// ----------------------------------------------------------------------
/// Two-state tagged value: either unset, or an opaque key byte with one
/// tagged value.
#[derive(Debug)]
pub enum Union<C> {
    /// A key byte below the unset marker, the inner value's own tag, and
    /// the value.
    Valued { key: u8, tag: Vec<u8>, value: C },
    /// No value; the key byte on the wire is the unset marker.
    Unset,
}

/// Spec-level shape of a union: the label as a sequence and the value as
/// its deep view.
pub enum UnionView<V> {
    /// Key byte, label bytes, and the viewed value.
    Valued { key: u8, tag: Seq<u8>, value: V },
    /// No value.
    Unset,
}

impl<C: DeepView> DeepView for Union<C> {
    type V = UnionView<C::V>;

    open spec fn deep_view(&self) -> UnionView<C::V> {
        match self {
            Union::Valued { key, tag, value } => UnionView::Valued {
                key: *key,
                tag: tag@,
                value: value.deep_view(),
            },
            Union::Unset => UnionView::Unset,
        }
    }
}

impl<C> Union<C> {
    /// Creates a union with no value.
    pub fn unset() -> (r: Union<C>)
        ensures
            r is Unset,
    {
        Union::Unset
    }

    /// Creates a set union with the provided key, inner tag and value.
    pub fn set(key: u8, tag: &str, value: C) -> (r: Union<C>)
        ensures
            r matches Union::Valued { key: k, tag: t, value: v } && k == key && t@
                == vstd::utf8::encode_utf8(tag@) && v == value,
    {
        Union::Valued { key, tag: vstd::slice::slice_to_vec(tag.as_bytes()), value }
    }

    /// Whether the union holds a value.
    pub fn is_set(&self) -> (r: bool)
        ensures
            r == (*self is Valued),
    {
        match self {
            Union::Valued { .. } => true,
            Union::Unset => false,
        }
    }

    /// Whether the union holds no value.
    pub fn is_unset(&self) -> (r: bool)
        ensures
            r == (*self is Unset),
    {
        match self {
            Union::Valued { .. } => false,
            Union::Unset => true,
        }
    }

    /// Takes the value out of a set union. A union known to be unset must
    /// not be unwrapped.
    pub fn unwrap(self) -> (r: C)
        requires
            self is Valued,
        ensures
            self matches Union::Valued { key, tag, value } && r == value,
    {
        match self {
            Union::Valued { value, .. } => value,
            Union::Unset => unreached(),
        }
    }
}

/// Wire form of a set union: the key byte, the inner tag, the value.
pub open spec fn union_enc<C: Encodable + ValueType>(u: &Union<C>) -> Seq<u8> {
    match u {
        Union::Valued { key, tag, value } => seq![*key] + crate::tag::tag_enc(
            tag@,
            C::spec_value_type(),
        ) + value.enc(),
        Union::Unset => seq![UNION_UNSET],
    }
}

impl<C: Encodable + ValueType> Encodable for Union<C> {
    open spec fn enc(&self) -> Seq<u8> {
        union_enc(self)
    }

    fn encode(&self, writer: &mut TdfWriter) {
        match self {
            Union::Valued { key, tag, value } => {
                writer.write_byte(*key);
                writer.tag(tag.as_slice(), C::value_type());
                value.encode(writer);
                assert(writer.buffer@ =~= old(writer).buffer@ + union_enc(self));
            },
            Union::Unset => {
                writer.write_byte(UNION_UNSET);
            },
        }
    }
}

impl<C: Decodable + ValueType> Decodable for Union<C> {
    open spec fn dec(s: Seq<u8>) -> Option<(UnionView<C::V>, int)> {
        if s.len() == 0 {
            None
        } else if s[0] == UNION_UNSET {
            Some((UnionView::Unset, 1))
        } else {
            match crate::reader::tag_dec(s.skip(1)) {
                None => None,
                Some((label, ty)) => {
                    if ty != C::spec_value_type() {
                        None
                    } else {
                        match C::dec(s.skip(5)) {
                            None => None,
                            Some((v, n)) => Some(
                                (UnionView::Valued { key: s[0], tag: label, value: v }, 5 + n),
                            ),
                        }
                    }
                },
            }
        }
    }

    fn decode(reader: &mut TdfReader) -> (r: DecodeResult<Union<C>>)
        ensures
            ({
                let s = old(reader).rem();
                (s.len() >= 1 && s[0] != UNION_UNSET && crate::reader::tag_dec(s.skip(1)) is Some
                    && crate::reader::tag_dec(s.skip(1))->Some_0.1 != C::spec_value_type()) ==> {
                    let found = crate::reader::tag_dec(s.skip(1))->Some_0.1;
                    &&& (r matches Err(e) && (e matches DecodeError::InvalidType {
                        expected,
                        actual,
                    } && expected == C::spec_value_type() && actual == found))
                    &&& final(reader).cursor == old(reader).cursor + 5
                }
            }),
    {
        let ghost entry = *reader;
        let key = match reader.read_byte() {
            Ok(b) => b,
            Err(e) => {
                return Err(e);
            },
        };
        if key == UNION_UNSET {
            return Ok(Union::Unset);
        }
        let ghost s1 = *reader;
        proof {
            assert(s1.rem() =~= entry.rem().skip(1));
        }
        let tag = match reader.read_tag() {
            Ok(t) => t,
            Err(e) => {
                return Err(e);
            },
        };
        let expected = C::value_type();
        if tag.1 != expected {
            return Err(DecodeError::InvalidType { expected, actual: tag.1 });
        }
        let ghost s2 = *reader;
        proof {
            assert(s2.rem() =~= entry.rem().skip(5));
        }
        let value = match C::decode(reader) {
            Ok(v) => v,
            Err(e) => {
                return Err(e);
            },
        };
        Ok(Union::Valued { key, tag: tag.0, value })
    }
}

impl<C> ValueType for Union<C> {
    open spec fn spec_value_type() -> TdfType {
        TdfType::Union
    }

    fn value_type() -> TdfType {
        TdfType::Union
    }
}

impl<C: Codec + ValueType> Codec for Union<C> {
    /// A set union round-trips when its key is not the unset marker, its
    /// label is one to four bytes of the six-bit alphabet, and the value
    /// itself round-trips.
    open spec fn round_trip_ok(&self) -> bool {
        match self {
            Union::Valued { key, tag, value } => *key != UNION_UNSET && crate::tag::label_ok(tag@)
                && value.round_trip_ok(),
            Union::Unset => true,
        }
    }

    proof fn lemma_round_trip(v: Union<C>, rest: Seq<u8>) {
        match v {
            Union::Valued { key, tag, value } => {
                let te = crate::tag::tag_enc(tag@, C::spec_value_type());
                let s = v.enc() + rest;
                crate::tag::lemma_tag_round_trip(tag@, C::spec_value_type());
                assert(s.skip(1) =~= te + (value.enc() + rest));
                assert(crate::reader::tag_dec(te + (value.enc() + rest)) == Some(
                    (tag@, C::spec_value_type()),
                )) by {
                    let w = te + (value.enc() + rest);
                    assert(w[3] == te[3]);
                    assert(crate::tag::tag_unpack(w) =~= crate::tag::tag_unpack(te));
                }
                C::lemma_round_trip(value, rest);
                assert(s.skip(5) =~= value.enc() + rest);
                assert(s[0] == key);
            },
            Union::Unset => {
                let s = v.enc() + rest;
                assert(s[0] == UNION_UNSET);
            },
        }
    }
}

// ----------------------------------------------------------------------
// Pairs and triples of VarInts
// ----------------------------------------------------------------------
impl<A: VarInt, B: VarInt> Encodable for (A, B) {
    open spec fn enc(&self) -> Seq<u8> {
        self.0.enc() + self.1.enc()
    }

    fn encode(&self, writer: &mut TdfWriter) {
        self.0.encode(writer);
        self.1.encode(writer);
        assert(writer.buffer@ =~= old(writer).buffer@ + (self.0.enc() + self.1.enc()));
    }
}

impl<A: VarInt, B: VarInt> Decodable for (A, B) {
    open spec fn dec(s: Seq<u8>) -> Option<((A::V, B::V), int)> {
        match A::dec(s) {
            None => None,
            Some((a, n)) => match B::dec(s.skip(n)) {
                None => None,
                Some((b, m)) => Some(((a, b), n + m)),
            },
        }
    }

    fn decode(reader: &mut TdfReader) -> (r: DecodeResult<(A, B)>) {
        let ghost entry = *reader;
        let a = match A::decode(reader) {
            Ok(v) => v,
            Err(e) => {
                return Err(e);
            },
        };
        proof {
            assert(reader.rem() =~= entry.rem().skip(reader.cursor - entry.cursor));
        }
        let b = match B::decode(reader) {
            Ok(v) => v,
            Err(e) => {
                return Err(e);
            },
        };
        Ok((a, b))
    }
}

impl<A, B> ValueType for (A, B) {
    open spec fn spec_value_type() -> TdfType {
        TdfType::Pair
    }

    fn value_type() -> TdfType {
        TdfType::Pair
    }
}

impl<A: VarInt, B: VarInt> Codec for (A, B) {
    open spec fn round_trip_ok(&self) -> bool {
        self.0.round_trip_ok() && self.1.round_trip_ok()
    }

    proof fn lemma_round_trip(v: (A, B), rest: Seq<u8>) {
        A::lemma_round_trip(v.0, v.1.enc() + rest);
        assert(v.enc() + rest =~= v.0.enc() + (v.1.enc() + rest));
        assert((v.enc() + rest).skip(v.0.enc().len() as int) =~= v.1.enc() + rest);
        B::lemma_round_trip(v.1, rest);
    }
}

impl<A: VarInt, B: VarInt, C: VarInt> Encodable for (A, B, C) {
    open spec fn enc(&self) -> Seq<u8> {
        self.0.enc() + self.1.enc() + self.2.enc()
    }

    fn encode(&self, writer: &mut TdfWriter) {
        self.0.encode(writer);
        self.1.encode(writer);
        self.2.encode(writer);
        assert(writer.buffer@ =~= old(writer).buffer@ + (self.0.enc() + self.1.enc()
            + self.2.enc()));
    }
}

impl<A: VarInt, B: VarInt, C: VarInt> Decodable for (A, B, C) {
    open spec fn dec(s: Seq<u8>) -> Option<((A::V, B::V, C::V), int)> {
        match A::dec(s) {
            None => None,
            Some((a, n)) => match B::dec(s.skip(n)) {
                None => None,
                Some((b, m)) => match C::dec(s.skip(n + m)) {
                    None => None,
                    Some((c, k)) => Some(((a, b, c), n + m + k)),
                },
            },
        }
    }

    fn decode(reader: &mut TdfReader) -> (r: DecodeResult<(A, B, C)>) {
        let ghost entry = *reader;
        let a = match A::decode(reader) {
            Ok(v) => v,
            Err(e) => {
                return Err(e);
            },
        };
        proof {
            assert(reader.rem() =~= entry.rem().skip(reader.cursor - entry.cursor));
        }
        let b = match B::decode(reader) {
            Ok(v) => v,
            Err(e) => {
                return Err(e);
            },
        };
        proof {
            assert(reader.rem() =~= entry.rem().skip(reader.cursor - entry.cursor));
        }
        let c = match C::decode(reader) {
            Ok(v) => v,
            Err(e) => {
                return Err(e);
            },
        };
        Ok((a, b, c))
    }
}

impl<A, B, C> ValueType for (A, B, C) {
    open spec fn spec_value_type() -> TdfType {
        TdfType::Triple
    }

    fn value_type() -> TdfType {
        TdfType::Triple
    }
}

impl<A: VarInt, B: VarInt, C: VarInt> Codec for (A, B, C) {
    open spec fn round_trip_ok(&self) -> bool {
        self.0.round_trip_ok() && self.1.round_trip_ok() && self.2.round_trip_ok()
    }

    proof fn lemma_round_trip(v: (A, B, C), rest: Seq<u8>) {
        let tail = v.1.enc() + (v.2.enc() + rest);
        A::lemma_round_trip(v.0, tail);
        assert(v.enc() + rest =~= v.0.enc() + tail);
        assert((v.enc() + rest).skip(v.0.enc().len() as int) =~= tail);
        B::lemma_round_trip(v.1, v.2.enc() + rest);
        assert(tail.skip(v.1.enc().len() as int) =~= v.2.enc() + rest);
        C::lemma_round_trip(v.2, rest);
        assert((v.enc() + rest).skip(v.0.enc().len() + v.1.enc().len() as int) =~= v.2.enc() + rest);
    }
}

} // verus!
