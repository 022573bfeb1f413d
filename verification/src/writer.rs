//! Writer for values in their Blaze wire form, appending to a growable
//! byte buffer.

use vstd::prelude::*;
use vstd::utf8::encode_utf8;
use crate::codec::{Encodable, ValueType};
use crate::tag::{tag_enc, TdfType};
use crate::varint::{varint_cont_enc, varint_enc};

verus! {

/// The bytes of an encoded string: its UTF-8 bytes with a NUL terminator
/// (none is added when the string already ends in one).
pub open spec fn str_payload(s: Seq<char>) -> Seq<u8> {
    let b = encode_utf8(s);
    if b.len() > 0 && b[b.len() - 1] == 0 {
        b
    } else if b.len() < usize::MAX {
        b + seq![0u8]
    } else {
        b
    }
}

/// The wire form of a string: the payload length as a VarInt, then the
/// payload, NUL terminator included in both.
pub open spec fn str_enc(s: Seq<char>) -> Seq<u8> {
    varint_enc(str_payload(s).len() as u64) + str_payload(s)
}

/// Writer for composing a TDF payload. Every operation appends bytes to
/// the underlying buffer and cannot fail.
#[derive(Default)]
pub struct TdfWriter {
    /// The buffer that is written to
    pub buffer: Vec<u8>,
}

impl TdfWriter {
    /// Creates a writer with an empty buffer.
    pub fn new() -> (r: TdfWriter)
        ensures
            r.buffer@ == Seq::<u8>::empty(),
    {
        TdfWriter { buffer: Vec::new() }
    }

    /// Appends a single byte to the buffer.
    pub fn write_byte(&mut self, value: u8)
        ensures
            final(self).buffer@ == old(self).buffer@ + seq![value],
    {
        self.buffer.push(value);
    }

    /// Appends a slice of bytes to the buffer.
    pub fn write_slice(&mut self, value: &[u8])
        ensures
            final(self).buffer@ == old(self).buffer@ + value@,
    {
        let mut i: usize = 0;
        while i < value.len()
            invariant
                i <= value.len(),
                self.buffer@ == old(self).buffer@ + value@.take(i as int),
            decreases value.len() - i,
        {
            self.buffer.push(value[i]);
            i = i + 1;
            assert(old(self).buffer@ + value@.take(i as int) =~= self.buffer@);
        }
        assert(old(self).buffer@ + value@.take(value@.len() as int) =~= old(self).buffer@
            + value@);
    }

    /// Writes the discriminant byte of the provided kind.
    pub fn write_type(&mut self, ty: TdfType)
        ensures
            final(self).buffer@ == old(self).buffer@ + seq![ty.spec_value()],
    {
        let b = ty.value();
        self.write_byte(b);
    }

    /// Writes a tag: three bytes packing the label (of which the first four
    /// bytes are used, shorter labels padding with zeros) and the kind's
    /// discriminant byte.
    pub fn tag(&mut self, tag: &[u8], value_type: TdfType)
        ensures
            final(self).buffer@ == old(self).buffer@ + tag_enc(tag@, value_type),
    {
        let t0: u8 = if tag.len() > 0 { tag[0] } else { 0 };
        let t1: u8 = if tag.len() > 1 { tag[1] } else { 0 };
        let t2: u8 = if tag.len() > 2 { tag[2] } else { 0 };
        let t3: u8 = if tag.len() > 3 { tag[3] } else { 0 };
        let b0: u8 = ((t0 & 0x40) << 1) | ((t0 & 0x10) << 2) | ((t0 & 0x0F) << 2) | ((t1 & 0x40)
            >> 5) | ((t1 & 0x10) >> 4);
        let b1: u8 = ((t1 & 0x0F) << 4) | ((t2 & 0x40) >> 3) | ((t2 & 0x10) >> 2) | ((t2 & 0x0C)
            >> 2);
        let b2: u8 = ((t2 & 0x03) << 6) | ((t3 & 0x40) >> 1) | (t3 & 0x1F);
        self.buffer.push(b0);
        self.buffer.push(b1);
        self.buffer.push(b2);
        let tb = value_type.value();
        self.buffer.push(tb);
        assert(self.buffer@ =~= old(self).buffer@ + tag_enc(tag@, value_type));
    }

    /// Writes a u64 in the VarInt form.
    pub fn write_u64(&mut self, value: u64)
        ensures
            final(self).buffer@ == old(self).buffer@ + varint_enc(value),
    {
        if value < 64 {
            self.buffer.push(value as u8);
            assert(self.buffer@ =~= old(self).buffer@ + varint_enc(value));
        } else {
            self.buffer.push((value % 64 + 128) as u8);
            self.write_varint_cont(value / 64);
            assert(self.buffer@ =~= old(self).buffer@ + varint_enc(value));
        }
    }

    /// Writes the continuation bytes of a VarInt, seven bits at a time.
    fn write_varint_cont(&mut self, value: u64)
        ensures
            final(self).buffer@ == old(self).buffer@ + varint_cont_enc(value),
        decreases value,
    {
        if value < 128 {
            self.buffer.push(value as u8);
            assert(self.buffer@ =~= old(self).buffer@ + varint_cont_enc(value));
        } else {
            self.buffer.push((value % 128 + 128) as u8);
            self.write_varint_cont(value / 128);
            assert(self.buffer@ =~= old(self).buffer@ + varint_cont_enc(value));
        }
    }

    /// Writes a u8 in the VarInt form.
    pub fn write_u8(&mut self, value: u8)
        ensures
            final(self).buffer@ == old(self).buffer@ + varint_enc(value as u64),
    {
        self.write_u64(value as u64);
    }

    /// Writes a u16 in the VarInt form.
    pub fn write_u16(&mut self, value: u16)
        ensures
            final(self).buffer@ == old(self).buffer@ + varint_enc(value as u64),
    {
        self.write_u64(value as u64);
    }

    /// Writes a u32 in the VarInt form.
    pub fn write_u32(&mut self, value: u32)
        ensures
            final(self).buffer@ == old(self).buffer@ + varint_enc(value as u64),
    {
        self.write_u64(value as u64);
    }

    /// Writes a usize in the VarInt form.
    pub fn write_usize(&mut self, value: usize)
        ensures
            final(self).buffer@ == old(self).buffer@ + varint_enc(value as u64),
    {
        self.write_u64(value as u64);
    }

    /// Writes a bool as the VarInt 1 or 0.
    pub fn write_bool(&mut self, value: bool)
        ensures
            final(self).buffer@ == old(self).buffer@ + seq![if value { 1u8 } else { 0u8 }],
    {
        if value {
            self.buffer.push(1);
        } else {
            self.buffer.push(0);
        }
    }

    /// Writes the two bytes of an empty string: length one, then the NUL
    /// terminator alone.
    pub fn write_empty_str(&mut self)
        ensures
            final(self).buffer@ == old(self).buffer@ + seq![1u8, 0u8],
    {
        self.buffer.push(1);
        self.buffer.push(0);
        assert(self.buffer@ =~= old(self).buffer@ + seq![1u8, 0u8]);
    }

    /// Writes a string: VarInt length counting the NUL terminator, the
    /// UTF-8 bytes, then the terminator unless the string already ends in
    /// one.
    pub fn write_str(&mut self, value: &str)
        ensures
            final(self).buffer@ == old(self).buffer@ + str_enc(value@),
    {
        let bytes: &[u8] = value.as_bytes();
        let n: usize = bytes.len();
        if n > 0 && bytes[n - 1] == 0 {
            self.write_usize(n);
            self.write_slice(bytes);
        } else if n < usize::MAX {
            self.write_usize(n + 1);
            self.write_slice(bytes);
            self.buffer.push(0);
        } else {
            self.write_usize(n);
            self.write_slice(bytes);
        }
        assert(self.buffer@ =~= old(self).buffer@ + str_enc(value@));
    }

    /// Writes the header of a map: key kind, value kind, then the entry
    /// count as a VarInt.
    pub fn write_map_header(&mut self, key_type: TdfType, value_type: TdfType, length: usize)
        ensures
            final(self).buffer@ == old(self).buffer@ + seq![
                key_type.spec_value(),
                value_type.spec_value(),
            ] + varint_enc(length as u64),
    {
        self.write_type(key_type);
        self.write_type(value_type);
        self.write_usize(length);
        assert(self.buffer@ =~= old(self).buffer@ + seq![
            key_type.spec_value(),
            value_type.spec_value(),
        ] + varint_enc(length as u64));
    }

    /// Writes a tag whose value is a bool.
    pub fn tag_bool(&mut self, tag: &[u8], value: bool)
        ensures
            final(self).buffer@ == old(self).buffer@ + tag_enc(tag@, TdfType::VarInt) + seq![
                if value { 1u8 } else { 0u8 },
            ],
    {
        self.tag(tag, TdfType::VarInt);
        self.write_bool(value);
    }

    /// Writes a tag whose value is the VarInt zero, written directly as
    /// one zero byte.
    pub fn tag_zero(&mut self, tag: &[u8])
        ensures
            final(self).buffer@ == old(self).buffer@ + tag_enc(tag@, TdfType::VarInt) + seq![0u8],
    {
        self.tag(tag, TdfType::VarInt);
        self.write_byte(0);
    }

    /// Writes a tag whose value is a u8 VarInt.
    pub fn tag_u8(&mut self, tag: &[u8], value: u8)
        ensures
            final(self).buffer@ == old(self).buffer@ + tag_enc(tag@, TdfType::VarInt) + varint_enc(
                value as u64,
            ),
    {
        self.tag(tag, TdfType::VarInt);
        self.write_u8(value);
    }

    /// Writes a tag whose value is a u16 VarInt.
    pub fn tag_u16(&mut self, tag: &[u8], value: u16)
        ensures
            final(self).buffer@ == old(self).buffer@ + tag_enc(tag@, TdfType::VarInt) + varint_enc(
                value as u64,
            ),
    {
        self.tag(tag, TdfType::VarInt);
        self.write_u16(value);
    }

    /// Writes a tag whose value is a u32 VarInt.
    pub fn tag_u32(&mut self, tag: &[u8], value: u32)
        ensures
            final(self).buffer@ == old(self).buffer@ + tag_enc(tag@, TdfType::VarInt) + varint_enc(
                value as u64,
            ),
    {
        self.tag(tag, TdfType::VarInt);
        self.write_u32(value);
    }

    /// Writes a tag whose value is a u64 VarInt.
    pub fn tag_u64(&mut self, tag: &[u8], value: u64)
        ensures
            final(self).buffer@ == old(self).buffer@ + tag_enc(tag@, TdfType::VarInt) + varint_enc(
                value,
            ),
    {
        self.tag(tag, TdfType::VarInt);
        self.write_u64(value);
    }

    /// Writes a tag whose value is a usize VarInt.
    pub fn tag_usize(&mut self, tag: &[u8], value: usize)
        ensures
            final(self).buffer@ == old(self).buffer@ + tag_enc(tag@, TdfType::VarInt) + varint_enc(
                value as u64,
            ),
    {
        self.tag(tag, TdfType::VarInt);
        self.write_usize(value);
    }

    /// Writes a tag whose value is the empty string.
    pub fn tag_str_empty(&mut self, tag: &[u8])
        ensures
            final(self).buffer@ == old(self).buffer@ + tag_enc(tag@, TdfType::String) + seq![
                1u8,
                0u8,
            ],
    {
        self.tag(tag, TdfType::String);
        self.write_empty_str();
    }

    /// Writes a tag whose value is an empty blob: just a zero length.
    pub fn tag_empty_blob(&mut self, tag: &[u8])
        ensures
            final(self).buffer@ == old(self).buffer@ + tag_enc(tag@, TdfType::Blob) + seq![0u8],
    {
        self.tag(tag, TdfType::Blob);
        self.write_byte(0);
    }

    /// Writes a tag whose value is a string.
    pub fn tag_str(&mut self, tag: &[u8], value: &str)
        ensures
            final(self).buffer@ == old(self).buffer@ + tag_enc(tag@, TdfType::String) + str_enc(
                value@,
            ),
    {
        self.tag(tag, TdfType::String);
        self.write_str(value);
    }

    /// Writes a tag that opens a group.
    pub fn tag_group(&mut self, tag: &[u8])
        ensures
            final(self).buffer@ == old(self).buffer@ + tag_enc(tag@, TdfType::Group),
    {
        self.tag(tag, TdfType::Group);
    }

    /// Writes the zero byte that closes a group.
    pub fn tag_group_end(&mut self)
        ensures
            final(self).buffer@ == old(self).buffer@ + seq![0u8],
    {
        self.write_byte(0);
    }

    /// Writes a tag that opens a list: element kind and element count
    /// follow, and the caller then writes that many elements.
    pub fn tag_list_start(&mut self, tag: &[u8], ty: TdfType, length: usize)
        ensures
            final(self).buffer@ == old(self).buffer@ + tag_enc(tag@, TdfType::List) + seq![
                ty.spec_value(),
            ] + varint_enc(length as u64),
    {
        self.tag(tag, TdfType::List);
        self.write_type(ty);
        self.write_usize(length);
    }

    /// Writes a tag that opens a union with the provided key byte.
    pub fn tag_union_start(&mut self, tag: &[u8], key: u8)
        ensures
            final(self).buffer@ == old(self).buffer@ + tag_enc(tag@, TdfType::Union) + seq![key],
    {
        self.tag(tag, TdfType::Union);
        self.write_byte(key);
    }

    /// Writes a full union tag: the union tag, the key, the inner value's
    /// tag, then the value.
    pub fn tag_union_value<C: Encodable + ValueType>(
        &mut self,
        tag: &[u8],
        key: u8,
        value_tag: &[u8],
        value: &C,
    )
        ensures
            final(self).buffer@ == old(self).buffer@ + tag_enc(tag@, TdfType::Union) + seq![key]
                + tag_enc(value_tag@, C::spec_value_type()) + value.enc(),
    {
        self.tag_union_start(tag, key);
        let vt = C::value_type();
        self.tag(value_tag, vt);
        value.encode(self);
    }

    /// Writes a tag for a union with no value.
    pub fn tag_union_unset(&mut self, tag: &[u8])
        ensures
            final(self).buffer@ == old(self).buffer@ + tag_enc(tag@, TdfType::Union) + seq![
                crate::types::UNION_UNSET,
            ],
    {
        self.tag_union_start(tag, crate::types::UNION_UNSET);
    }

    /// Writes a tag followed by any encodable value, under that value's
    /// own kind.
    pub fn tag_value<C: Encodable + ValueType>(&mut self, tag: &[u8], value: &C)
        ensures
            final(self).buffer@ == old(self).buffer@ + tag_enc(tag@, C::spec_value_type())
                + value.enc(),
    {
        let vt = C::value_type();
        self.tag(tag, vt);
        value.encode(self);
    }

    /// Writes a tag for a list with no elements.
    pub fn tag_list_empty(&mut self, tag: &[u8], ty: TdfType)
        ensures
            final(self).buffer@ == old(self).buffer@ + tag_enc(tag@, TdfType::List) + seq![
                ty.spec_value(),
                0u8,
            ],
    {
        self.tag(tag, TdfType::List);
        self.write_type(ty);
        self.write_byte(0);
        assert(final(self).buffer@ =~= old(self).buffer@ + tag_enc(tag@, TdfType::List) + seq![
            ty.spec_value(),
            0u8,
        ]);
    }

    /// Writes a tag for a VarInt list with no elements.
    pub fn tag_var_int_list_empty(&mut self, tag: &[u8])
        ensures
            final(self).buffer@ == old(self).buffer@ + tag_enc(tag@, TdfType::VarIntList) + seq![
                0u8,
            ],
    {
        self.tag(tag, TdfType::VarIntList);
        self.write_byte(0);
    }

    /// Writes a tag that opens a map: key kind, value kind, entry count
    /// follow, and the caller then writes that many pairs.
    pub fn tag_map_start(&mut self, tag: &[u8], key: TdfType, value: TdfType, length: usize)
        ensures
            final(self).buffer@ == old(self).buffer@ + tag_enc(tag@, TdfType::Mapping) + seq![
                key.spec_value(),
                value.spec_value(),
            ] + varint_enc(length as u64),
    {
        self.tag(tag, TdfType::Mapping);
        self.write_map_header(key, value, length);
        assert(final(self).buffer@ =~= old(self).buffer@ + tag_enc(tag@, TdfType::Mapping) + seq![
            key.spec_value(),
            value.spec_value(),
        ] + varint_enc(length as u64));
    }

    /// Writes a tag whose value is a pair of VarInts.
    pub fn tag_pair<A: crate::types::VarInt, B: crate::types::VarInt>(
        &mut self,
        tag: &[u8],
        value: &(A, B),
    )
        ensures
            final(self).buffer@ == old(self).buffer@ + tag_enc(tag@, TdfType::Pair) + value.enc(),
    {
        self.tag(tag, TdfType::Pair);
        value.encode(self);
    }

    /// Writes a tag whose value is a triple of VarInts.
    pub fn tag_triple<A: crate::types::VarInt, B: crate::types::VarInt, C: crate::types::VarInt>(
        &mut self,
        tag: &[u8],
        value: &(A, B, C),
    )
        ensures
            final(self).buffer@ == old(self).buffer@ + tag_enc(tag@, TdfType::Triple) + value.enc(),
    {
        self.tag(tag, TdfType::Triple);
        value.encode(self);
    }

    /// Empties the buffer.
    pub fn clear(&mut self)
        ensures
            final(self).buffer@ == Seq::<u8>::empty(),
    {
        self.buffer.clear();
    }
}

} // verus!
