//! Free functions for writing tagged values straight into a byte vector.
//! Labels are given as text; their bytes are packed as the tag codec says.

use vstd::prelude::*;
use vstd::utf8::encode_utf8;
use crate::codec::{Decodable, Encodable, ValueType};
use crate::error::{DecodeError, DecodeResult};
use crate::lookup::{lemma_until_tag_exclusive, until_tag_clash, until_tag_dec};
use crate::reader::TdfReader;
use crate::tag::{tag_enc, TdfType};
use crate::varint::{trunc_usize, varint_dec};
use crate::types::{enc_list, varintlist_enc, VarInt, UNION_UNSET};
use crate::varint::varint_enc;
use crate::writer::{str_enc, TdfWriter};

verus! {

/// Wraps the output vector in a writer for the span of one operation.
fn with_writer(output: &mut Vec<u8>) -> (w: TdfWriter)
    ensures
        w.buffer@ == old(output)@,
        final(output)@ == Seq::<u8>::empty(),
{
    let mut w = TdfWriter { buffer: Vec::new() };
    core::mem::swap(&mut w.buffer, output);
    w
}

/// Puts the writer's buffer back into the output vector.
fn put_back(output: &mut Vec<u8>, w: TdfWriter)
    ensures
        final(output)@ == w.buffer@,
{
    let mut w = w;
    core::mem::swap(&mut w.buffer, output);
}

/// Writes a tag whose value is a bool.
pub fn tag_bool(output: &mut Vec<u8>, tag: &str, value: bool)
    ensures
        final(output)@ == old(output)@ + tag_enc(encode_utf8(tag@), TdfType::VarInt) + seq![
            if value { 1u8 } else { 0u8 },
        ],
{
    let mut w = with_writer(output);
    w.tag_bool(tag.as_bytes(), value);
    put_back(output, w);
}

/// Writes a tag whose value is the VarInt zero.
pub fn tag_zero(output: &mut Vec<u8>, tag: &str)
    ensures
        final(output)@ == old(output)@ + tag_enc(encode_utf8(tag@), TdfType::VarInt) + seq![0u8],
{
    let mut w = with_writer(output);
    w.tag_zero(tag.as_bytes());
    put_back(output, w);
}

/// Writes a tag whose value is a u8 VarInt.
pub fn tag_u8(output: &mut Vec<u8>, tag: &str, value: u8)
    ensures
        final(output)@ == old(output)@ + tag_enc(encode_utf8(tag@), TdfType::VarInt) + varint_enc(
            value as u64,
        ),
{
    let mut w = with_writer(output);
    w.tag_u8(tag.as_bytes(), value);
    put_back(output, w);
}

/// Writes a tag whose value is a u16 VarInt.
pub fn tag_u16(output: &mut Vec<u8>, tag: &str, value: u16)
    ensures
        final(output)@ == old(output)@ + tag_enc(encode_utf8(tag@), TdfType::VarInt) + varint_enc(
            value as u64,
        ),
{
    let mut w = with_writer(output);
    w.tag_u16(tag.as_bytes(), value);
    put_back(output, w);
}

/// Writes a tag whose value is a u32 VarInt.
pub fn tag_u32(output: &mut Vec<u8>, tag: &str, value: u32)
    ensures
        final(output)@ == old(output)@ + tag_enc(encode_utf8(tag@), TdfType::VarInt) + varint_enc(
            value as u64,
        ),
{
    let mut w = with_writer(output);
    w.tag_u32(tag.as_bytes(), value);
    put_back(output, w);
}

/// Writes a tag whose value is a usize VarInt.
pub fn tag_usize(output: &mut Vec<u8>, tag: &str, value: usize)
    ensures
        final(output)@ == old(output)@ + tag_enc(encode_utf8(tag@), TdfType::VarInt) + varint_enc(
            value as u64,
        ),
{
    let mut w = with_writer(output);
    w.tag_usize(tag.as_bytes(), value);
    put_back(output, w);
}

/// Writes a tag whose value is a u64 VarInt.
pub fn tag_u64(output: &mut Vec<u8>, tag: &str, value: u64)
    ensures
        final(output)@ == old(output)@ + tag_enc(encode_utf8(tag@), TdfType::VarInt) + varint_enc(
            value,
        ),
{
    let mut w = with_writer(output);
    w.tag_u64(tag.as_bytes(), value);
    put_back(output, w);
}

/// Writes a tag whose value is the empty string.
pub fn tag_empty_str(output: &mut Vec<u8>, tag: &str)
    ensures
        final(output)@ == old(output)@ + tag_enc(encode_utf8(tag@), TdfType::String) + seq![
            1u8,
            0u8,
        ],
{
    let mut w = with_writer(output);
    w.tag_str_empty(tag.as_bytes());
    put_back(output, w);
}

/// Writes a tag whose value is an empty blob.
pub fn tag_empty_blob(output: &mut Vec<u8>, tag: &str)
    ensures
        final(output)@ == old(output)@ + tag_enc(encode_utf8(tag@), TdfType::Blob) + seq![0u8],
{
    let mut w = with_writer(output);
    w.tag_empty_blob(tag.as_bytes());
    put_back(output, w);
}

/// Writes a tag whose value is a string.
pub fn tag_str(output: &mut Vec<u8>, tag: &str, value: &str)
    ensures
        final(output)@ == old(output)@ + tag_enc(encode_utf8(tag@), TdfType::String) + str_enc(
            value@,
        ),
{
    let mut w = with_writer(output);
    w.tag_str(tag.as_bytes(), value);
    put_back(output, w);
}

/// Writes the two bytes of an empty string with no tag.
pub fn encode_empty_str(output: &mut Vec<u8>)
    ensures
        final(output)@ == old(output)@ + seq![1u8, 0u8],
{
    let mut w = with_writer(output);
    w.write_empty_str();
    put_back(output, w);
}

/// Writes a tag that opens a group.
pub fn tag_group_start(output: &mut Vec<u8>, tag: &str)
    ensures
        final(output)@ == old(output)@ + tag_enc(encode_utf8(tag@), TdfType::Group),
{
    let mut w = with_writer(output);
    w.tag_group(tag.as_bytes());
    put_back(output, w);
}

/// Writes a tag of the provided kind with no value after it.
pub fn tag_start(output: &mut Vec<u8>, tag: &str, ty: TdfType)
    ensures
        final(output)@ == old(output)@ + tag_enc(encode_utf8(tag@), ty),
{
    let mut w = with_writer(output);
    w.tag(tag.as_bytes(), ty);
    put_back(output, w);
}

/// Writes a tag followed by any encodable value, under its own kind.
pub fn tag_value<T: Encodable + ValueType>(output: &mut Vec<u8>, tag: &str, value: &T)
    ensures
        final(output)@ == old(output)@ + tag_enc(encode_utf8(tag@), T::spec_value_type())
            + value.enc(),
{
    let mut w = with_writer(output);
    w.tag_value(tag.as_bytes(), value);
    put_back(output, w);
}

/// Writes a tag that opens a list of the provided kind and length.
pub fn tag_list_start(output: &mut Vec<u8>, tag: &str, ty: TdfType, len: usize)
    ensures
        final(output)@ == old(output)@ + tag_enc(encode_utf8(tag@), TdfType::List) + seq![
            ty.spec_value(),
        ] + varint_enc(len as u64),
{
    let mut w = with_writer(output);
    w.tag_list_start(tag.as_bytes(), ty, len);
    put_back(output, w);
}

/// Writes a tag that opens a union with the provided key byte.
pub fn tag_union_start(output: &mut Vec<u8>, tag: &str, key: u8)
    ensures
        final(output)@ == old(output)@ + tag_enc(encode_utf8(tag@), TdfType::Union) + seq![key],
{
    let mut w = with_writer(output);
    w.tag_union_start(tag.as_bytes(), key);
    put_back(output, w);
}

/// Writes a full union tag: key byte, the inner value's tag, the value.
pub fn tag_union_value<T: Encodable + ValueType>(
    output: &mut Vec<u8>,
    tag: &str,
    key: u8,
    value_tag: &str,
    value: &T,
)
    ensures
        final(output)@ == old(output)@ + tag_enc(encode_utf8(tag@), TdfType::Union) + seq![key]
            + tag_enc(encode_utf8(value_tag@), T::spec_value_type()) + value.enc(),
{
    let mut w = with_writer(output);
    w.tag_union_value(tag.as_bytes(), key, value_tag.as_bytes(), value);
    put_back(output, w);
}

/// Writes a tag for a union with no value.
pub fn tag_union_unset(output: &mut Vec<u8>, tag: &str)
    ensures
        final(output)@ == old(output)@ + tag_enc(encode_utf8(tag@), TdfType::Union) + seq![
            UNION_UNSET,
        ],
{
    let mut w = with_writer(output);
    w.tag_union_unset(tag.as_bytes());
    put_back(output, w);
}

/// Writes a tag whose value is a full list: kind, length and elements.
pub fn tag_list<T: Encodable + ValueType>(output: &mut Vec<u8>, tag: &str, value: &Vec<T>)
    ensures
        final(output)@ == old(output)@ + tag_enc(encode_utf8(tag@), TdfType::List) + value.enc(),
{
    let mut w = with_writer(output);
    w.tag_value(tag.as_bytes(), value);
    put_back(output, w);
}

/// Writes a tag for a list with no elements.
pub fn tag_list_empty(output: &mut Vec<u8>, tag: &str, ty: TdfType)
    ensures
        final(output)@ == old(output)@ + tag_enc(encode_utf8(tag@), TdfType::List) + seq![
            ty.spec_value(),
            0u8,
        ],
{
    let mut w = with_writer(output);
    w.tag_list_empty(tag.as_bytes(), ty);
    put_back(output, w);
}

/// Writes a tag for a VarInt list with no elements.
pub fn tag_var_int_list_empty(output: &mut Vec<u8>, tag: &str)
    ensures
        final(output)@ == old(output)@ + tag_enc(encode_utf8(tag@), TdfType::VarIntList) + seq![
            0u8,
        ],
{
    let mut w = with_writer(output);
    w.tag_var_int_list_empty(tag.as_bytes());
    put_back(output, w);
}

/// Writes a tag whose value is a full VarInt list: length and values.
pub fn tag_var_int_list<T: VarInt>(output: &mut Vec<u8>, tag: &str, values: &Vec<T>)
    ensures
        final(output)@ == old(output)@ + tag_enc(encode_utf8(tag@), TdfType::VarIntList)
            + varintlist_enc(values@),
{
    let mut w = with_writer(output);
    w.tag(tag.as_bytes(), TdfType::VarIntList);
    w.write_usize(values.len());
    let ghost base = w.buffer@;
    let mut i: usize = 0;
    while i < values.len()
        invariant
            i <= values@.len(),
            w.buffer@ == base + enc_list(values@.take(i as int)),
        decreases values@.len() - i,
    {
        let elem = &values[i];
        elem.encode(&mut w);
        proof {
            crate::types::lemma_enc_list_snoc(values@, i as int);
            assert(w.buffer@ =~= base + enc_list(values@.take(i + 1)));
        }
        i = i + 1;
    }
    proof {
        assert(values@.take(values@.len() as int) =~= values@);
    }
    put_back(output, w);
}

/// Writes a tag that opens a map of the provided kinds and length.
pub fn tag_map_start(output: &mut Vec<u8>, tag: &str, key: TdfType, value: TdfType, len: usize)
    ensures
        final(output)@ == old(output)@ + tag_enc(encode_utf8(tag@), TdfType::Mapping) + seq![
            key.spec_value(),
            value.spec_value(),
        ] + varint_enc(len as u64),
{
    let mut w = with_writer(output);
    w.tag_map_start(tag.as_bytes(), key, value, len);
    put_back(output, w);
}

/// Writes one key and one value of a map body.
pub fn map_value<K: Encodable, V: Encodable>(output: &mut Vec<u8>, key: &K, value: &V)
    ensures
        final(output)@ == old(output)@ + key.enc() + value.enc(),
{
    let mut w = with_writer(output);
    key.encode(&mut w);
    value.encode(&mut w);
    put_back(output, w);
}

/// Writes a tag whose value is a full map: kinds, length and pairs.
pub fn tag_map<K: Encodable + ValueType, V: Encodable + ValueType>(
    output: &mut Vec<u8>,
    tag: &str,
    value: &crate::maps::TdfMap<K, V>,
)
    ensures
        final(output)@ == old(output)@ + tag_enc(encode_utf8(tag@), TdfType::Mapping)
            + value.enc(),
{
    let mut w = with_writer(output);
    w.tag_value(tag.as_bytes(), value);
    put_back(output, w);
}

/// Writes the zero byte that closes a group.
pub fn tag_group_end(output: &mut Vec<u8>)
    ensures
        final(output)@ == old(output)@ + seq![0u8],
{
    let mut w = with_writer(output);
    w.tag_group_end();
    put_back(output, w);
}

/// Writes a tag whose value is a triple of VarInts.
pub fn tag_triple<A: VarInt, B: VarInt, C: VarInt>(
    output: &mut Vec<u8>,
    tag: &str,
    value: &(A, B, C),
)
    ensures
        final(output)@ == old(output)@ + tag_enc(encode_utf8(tag@), TdfType::Triple) + value.enc(),
{
    let mut w = with_writer(output);
    w.tag_triple(tag.as_bytes(), value);
    put_back(output, w);
}

/// Writes a tag whose value is a pair of VarInts.
pub fn tag_pair<A: VarInt, B: VarInt>(output: &mut Vec<u8>, tag: &str, value: &(A, B))
    ensures
        final(output)@ == old(output)@ + tag_enc(encode_utf8(tag@), TdfType::Pair) + value.enc(),
{
    let mut w = with_writer(output);
    w.tag_pair(tag.as_bytes(), value);
    put_back(output, w);
}

/// Scans for a tag of the list kind, checks the element kind against the
/// expected one, and returns the element count that follows.
pub fn expect_list(reader: &mut TdfReader, tag: &str, value_type: TdfType) -> (r: DecodeResult<
    usize,
>)
    requires
        old(reader).wf(),
    ensures
        final(reader).wf(),
        final(reader).buffer == old(reader).buffer,
        final(reader).cursor >= old(reader).cursor,
        match r {
            Ok(count) => until_tag_dec(encode_utf8(tag@), TdfType::List, old(reader).rem())
                matches Some(n) && {
                let s2 = old(reader).rem().skip(n);
                &&& s2.len() >= 1
                &&& TdfType::spec_from_value(s2[0]) == Some(value_type)
                &&& (varint_dec(s2.skip(1)) matches Some((lv, m)) && count == trunc_usize(lv)
                    && final(reader).cursor == old(reader).cursor + n + 1 + m)
            },
            Err(e) => {
                let lbl = encode_utf8(tag@);
                let s = old(reader).rem();
                &&& !(until_tag_dec(lbl, TdfType::List, s) matches Some(n) && {
                    let s2 = s.skip(n);
                    &&& s2.len() >= 1
                    &&& TdfType::spec_from_value(s2[0]) == Some(value_type)
                    &&& varint_dec(s2.skip(1)) is Some
                })
                &&& (until_tag_clash(lbl, TdfType::List, s) matches Some(found) ==> (e matches
                DecodeError::InvalidTagType { tag: l, expected, actual } && l@ == lbl && expected
                    == TdfType::List && actual == found))
                &&& ((until_tag_dec(lbl, TdfType::List, s) matches Some(n) && {
                    let s2 = s.skip(n);
                    s2.len() >= 1 && (TdfType::spec_from_value(s2[0]) matches Some(t) && t
                        != value_type)
                }) ==> {
                    let n = until_tag_dec(lbl, TdfType::List, s)->Some_0;
                    let found = TdfType::spec_from_value(s.skip(n)[0])->Some_0;
                    &&& e matches DecodeError::InvalidType { expected, actual } && expected
                        == value_type && actual == found
                    &&& final(reader).cursor == old(reader).cursor + n + 1
                })
            },
        },
{
    proof {
        lemma_until_tag_exclusive(encode_utf8(tag@), TdfType::List, old(reader).rem());
    }
    let ghost entry = *reader;
    match reader.until_tag(tag.as_bytes(), TdfType::List) {
        Ok(u) => {},
        Err(e) => {
            return Err(e);
        },
    }
    let ghost s2 = *reader;
    proof {
        assert(s2.rem() =~= entry.rem().skip(s2.cursor - entry.cursor));
    }
    let list_type = match reader.read_type() {
        Ok(t) => t,
        Err(e) => {
            return Err(e);
        },
    };
    if list_type != value_type {
        return Err(DecodeError::InvalidType { expected: value_type, actual: list_type });
    }
    let ghost s3 = *reader;
    proof {
        assert(s3.rem() =~= s2.rem().skip(1));
    }
    reader.read_usize()
}

/// Scans for a tag of the map kind, checks both kinds against the expected
/// ones, and returns the entry count that follows.
pub fn expect_map(reader: &mut TdfReader, tag: &str, key_type: TdfType, value_type: TdfType) -> (r:
    DecodeResult<usize>)
    requires
        old(reader).wf(),
    ensures
        final(reader).wf(),
        final(reader).buffer == old(reader).buffer,
        final(reader).cursor >= old(reader).cursor,
        match r {
            Ok(count) => until_tag_dec(encode_utf8(tag@), TdfType::Mapping, old(reader).rem())
                matches Some(n) && {
                let s2 = old(reader).rem().skip(n);
                &&& s2.len() >= 2
                &&& TdfType::spec_from_value(s2[0]) == Some(key_type)
                &&& TdfType::spec_from_value(s2[1]) == Some(value_type)
                &&& (varint_dec(s2.skip(2)) matches Some((lv, m)) && count == trunc_usize(lv)
                    && final(reader).cursor == old(reader).cursor + n + 2 + m)
            },
            Err(e) => {
                let lbl = encode_utf8(tag@);
                let s = old(reader).rem();
                &&& !(until_tag_dec(lbl, TdfType::Mapping, s) matches Some(n) && {
                    let s2 = s.skip(n);
                    &&& s2.len() >= 2
                    &&& TdfType::spec_from_value(s2[0]) == Some(key_type)
                    &&& TdfType::spec_from_value(s2[1]) == Some(value_type)
                    &&& varint_dec(s2.skip(2)) is Some
                })
                &&& (until_tag_clash(lbl, TdfType::Mapping, s) matches Some(found) ==> (e matches
                DecodeError::InvalidTagType { tag: l, expected, actual } && l@ == lbl && expected
                    == TdfType::Mapping && actual == found))
                &&& ((until_tag_dec(lbl, TdfType::Mapping, s) matches Some(n) && {
                    let s2 = s.skip(n);
                    s2.len() >= 1 && (TdfType::spec_from_value(s2[0]) matches Some(t) && t
                        != key_type)
                }) ==> {
                    let n = until_tag_dec(lbl, TdfType::Mapping, s)->Some_0;
                    let found = TdfType::spec_from_value(s.skip(n)[0])->Some_0;
                    &&& e matches DecodeError::InvalidType { expected, actual } && expected
                        == key_type && actual == found
                    &&& final(reader).cursor == old(reader).cursor + n + 1
                })
                &&& ((until_tag_dec(lbl, TdfType::Mapping, s) matches Some(n) && {
                    let s2 = s.skip(n);
                    s2.len() >= 2 && TdfType::spec_from_value(s2[0]) == Some(key_type) && (
                    TdfType::spec_from_value(s2[1]) matches Some(t) && t != value_type)
                }) ==> {
                    let n = until_tag_dec(lbl, TdfType::Mapping, s)->Some_0;
                    let found = TdfType::spec_from_value(s.skip(n)[1])->Some_0;
                    &&& e matches DecodeError::InvalidType { expected, actual } && expected
                        == value_type && actual == found
                    &&& final(reader).cursor == old(reader).cursor + n + 2
                })
            },
        },
{
    proof {
        lemma_until_tag_exclusive(encode_utf8(tag@), TdfType::Mapping, old(reader).rem());
    }
    let ghost entry = *reader;
    match reader.until_tag(tag.as_bytes(), TdfType::Mapping) {
        Ok(u) => {},
        Err(e) => {
            return Err(e);
        },
    }
    let ghost s2 = *reader;
    proof {
        assert(s2.rem() =~= entry.rem().skip(s2.cursor - entry.cursor));
    }
    reader.read_map_header(key_type, value_type)
}

/// Scans for a tag carrying the expected kind of the result type, then
/// decodes the value that follows it.
pub fn expect_tag<T: Decodable + ValueType>(reader: &mut TdfReader, tag: &str) -> (r: DecodeResult<
    T,
>)
    requires
        old(reader).wf(),
    ensures
        final(reader).wf(),
        final(reader).buffer == old(reader).buffer,
        final(reader).cursor >= old(reader).cursor,
        match r {
            Ok(v) => until_tag_dec(encode_utf8(tag@), T::spec_value_type(), old(reader).rem())
                matches Some(n) && (T::dec(old(reader).rem().skip(n)) matches Some((w, m))
                && v.deep_view() == w && final(reader).cursor == old(reader).cursor + n + m),
            Err(e) => {
                let lbl = encode_utf8(tag@);
                let s = old(reader).rem();
                &&& !(until_tag_dec(lbl, T::spec_value_type(), s) matches Some(n) && T::dec(
                    s.skip(n),
                ) is Some)
                &&& (until_tag_clash(lbl, T::spec_value_type(), s) matches Some(found) ==> (e
                    matches DecodeError::InvalidTagType { tag: l, expected, actual } && l@ == lbl
                    && expected == T::spec_value_type() && actual == found))
                &&& (until_tag_dec(lbl, T::spec_value_type(), s) is None && until_tag_clash(
                    lbl,
                    T::spec_value_type(),
                    s,
                ) is None ==> (e is MissingTag || e is UnexpectedEof || e is UnknownType))
            },
        },
{
    proof {
        lemma_until_tag_exclusive(encode_utf8(tag@), T::spec_value_type(), old(reader).rem());
    }
    let ghost entry = *reader;
    let vt = T::value_type();
    match reader.until_tag(tag.as_bytes(), vt) {
        Ok(u) => {},
        Err(e) => {
            return Err(e);
        },
    }
    let ghost s2 = *reader;
    proof {
        assert(s2.rem() =~= entry.rem().skip(s2.cursor - entry.cursor));
    }
    T::decode(reader)
}

} // verus!
