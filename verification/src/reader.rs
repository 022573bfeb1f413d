//! Cursor-based reader for values in their Blaze wire form.

use vstd::prelude::*;
use vstd::arithmetic::div_mod::{lemma_add_mod_noop, lemma_mod_mod, lemma_mul_mod_noop_left};
use vstd::slice::slice_subrange;
use vstd::utf8::{decode_utf8, valid_utf8};
use crate::error::{DecodeError, DecodeResult};
use crate::tag::{tag_dec_label, Tag, TdfType};
use crate::varint::{
    trunc_u16, trunc_u32, trunc_u64, trunc_u8, trunc_usize, varint_cont_dec, varint_dec,
};

verus! {

/// Value and byte count of the string at the head of `s`: a VarInt length,
/// that many payload bytes whose last is the terminator, and the rest
/// valid UTF-8.
pub open spec fn string_dec(s: Seq<u8>) -> Option<(Seq<char>, int)> {
    match varint_dec(s) {
        None => None,
        Some((lv, n)) => {
            let len = trunc_usize(lv) as int;
            if s.len() < n + len {
                None
            } else {
                let body = if len == 0 {
                    Seq::<u8>::empty()
                } else {
                    s.subrange(n, n + len - 1)
                };
                if valid_utf8(body) {
                    Some((decode_utf8(body), n + len))
                } else {
                    None
                }
            }
        },
    }
}

/// Label and kind of the tag whose four bytes head `s`.
pub open spec fn tag_dec(s: Seq<u8>) -> Option<(Seq<u8>, TdfType)> {
    if s.len() < 4 {
        None
    } else {
        match TdfType::spec_from_value(s[3]) {
            Some(ty) => Some((tag_dec_label(s), ty)),
            None => None,
        }
    }
}

/// Reader over a borrowed byte slice, tracking how far it has read.
pub struct TdfReader<'a> {
    /// The underlying buffer to read from
    pub buffer: &'a [u8],
    /// The number of bytes consumed so far
    pub cursor: usize,
}

impl<'a> TdfReader<'a> {
    /// The reader's cursor has not run past the end of its buffer.
    pub open spec fn wf(self) -> bool {
        self.cursor <= self.buffer@.len()
    }

    /// The bytes not yet consumed.
    pub open spec fn rem(self) -> Seq<u8> {
        self.buffer@.skip(self.cursor as int)
    }

    /// Creates a reader over the provided bytes with the cursor at zero.
    pub fn new(buffer: &'a [u8]) -> (r: TdfReader<'a>)
        ensures
            r.wf(),
            r.buffer@ == buffer@,
            r.cursor == 0,
            r.rem() == buffer@,
    {
        let r = TdfReader { buffer, cursor: 0 };
        assert(r.rem() =~= buffer@);
        r
    }

    /// The number of bytes left after the cursor.
    pub fn len(&self) -> (r: usize)
        requires
            self.wf(),
        ensures
            r == self.rem().len(),
    {
        self.buffer.len() - self.cursor
    }

    /// Takes the next byte; fails with the end-of-buffer error when none
    /// is left.
    pub fn read_byte(&mut self) -> (r: DecodeResult<u8>)
        requires
            old(self).wf(),
        ensures
            final(self).wf(),
            final(self).buffer == old(self).buffer,
            final(self).cursor >= old(self).cursor,
            match r {
                Ok(b) => old(self).rem().len() >= 1 && b == old(self).rem()[0]
                    && final(self).cursor == old(self).cursor + 1,
                Err(e) => old(self).rem().len() == 0 && e is UnexpectedEof && *final(self)
                    == *old(self),
            },
    {
        if self.cursor >= self.buffer.len() {
            return Err(DecodeError::UnexpectedEof { cursor: self.cursor, wanted: 1, remaining: 0 });
        }
        let b = self.buffer[self.cursor];
        self.cursor = self.cursor + 1;
        Ok(b)
    }

    /// Takes a slice of the provided length from the unread portion; fails
    /// with the end-of-buffer error when fewer bytes are left.
    pub fn read_slice(&mut self, length: usize) -> (r: DecodeResult<&'a [u8]>)
        requires
            old(self).wf(),
        ensures
            final(self).wf(),
            final(self).buffer == old(self).buffer,
            final(self).cursor >= old(self).cursor,
            match r {
                Ok(s) => old(self).rem().len() >= length && s@ == old(self).rem().take(
                    length as int,
                ) && final(self).cursor == old(self).cursor + length,
                Err(e) => old(self).rem().len() < length && e is UnexpectedEof && *final(self)
                    == *old(self),
            },
    {
        if length > self.buffer.len() - self.cursor {
            return Err(
                DecodeError::UnexpectedEof {
                    cursor: self.cursor,
                    wanted: length,
                    remaining: self.buffer.len() - self.cursor,
                },
            );
        }
        let s = slice_subrange(self.buffer, self.cursor, self.cursor + length);
        self.cursor = self.cursor + length;
        assert(s@ =~= old(self).rem().take(length as int));
        Ok(s)
    }

    /// Reads a VarInt and returns its value reduced to u64 width. The whole
    /// VarInt is consumed even when it carries more bits than fit.
    pub fn read_u64(&mut self) -> (r: DecodeResult<u64>)
        requires
            old(self).wf(),
        ensures
            final(self).wf(),
            final(self).buffer == old(self).buffer,
            final(self).cursor >= old(self).cursor,
            match r {
                Ok(v) => varint_dec(old(self).rem()) matches Some((val, n)) && v == trunc_u64(val)
                    && final(self).cursor == old(self).cursor + n,
                Err(e) => varint_dec(old(self).rem()) is None && e is UnexpectedEof,
            },
    {
        let ghost entry = *self;
        let first = match self.read_byte() {
            Ok(b) => b,
            Err(e) => {
                return Err(e);
            },
        };
        if first < 128 {
            return Ok((first % 64) as u64);
        }
        let ghost mid = *self;
        let rest = match self.read_varint_cont() {
            Ok(v) => v,
            Err(e) => {
                proof {
                    assert(mid.rem() =~= entry.rem().skip(1));
                }
                return Err(e);
            },
        };
        proof {
            let s = entry.rem();
            assert(mid.rem() =~= s.skip(1));
            let val_rest = varint_cont_dec(s.skip(1))->Some_0.0;
            lemma_trunc_combine((first as nat) % 64, val_rest, 64);
        }
        let combined: u128 = ((first % 64) as u128) + (rest as u128) * 64;
        Ok((combined % 0x1_0000_0000_0000_0000) as u64)
    }

    /// Reads the continuation bytes of a VarInt, returning their value
    /// reduced to u64 width.
    fn read_varint_cont(&mut self) -> (r: DecodeResult<u64>)
        requires
            old(self).wf(),
        ensures
            final(self).wf(),
            final(self).buffer == old(self).buffer,
            final(self).cursor >= old(self).cursor,
            match r {
                Ok(v) => varint_cont_dec(old(self).rem()) matches Some((val, n))
                    && v == trunc_u64(val) && final(self).cursor == old(self).cursor + n,
                Err(e) => varint_cont_dec(old(self).rem()) is None && e is UnexpectedEof,
            },
        decreases self.buffer@.len() - self.cursor,
    {
        let ghost entry = *self;
        let b = match self.read_byte() {
            Ok(b) => b,
            Err(e) => {
                return Err(e);
            },
        };
        if b < 128 {
            return Ok(b as u64);
        }
        let ghost mid = *self;
        let rest = match self.read_varint_cont() {
            Ok(v) => v,
            Err(e) => {
                proof {
                    assert(mid.rem() =~= entry.rem().skip(1));
                }
                return Err(e);
            },
        };
        proof {
            let s = entry.rem();
            assert(mid.rem() =~= s.skip(1));
            let val_rest = varint_cont_dec(s.skip(1))->Some_0.0;
            lemma_trunc_combine(((b as nat) - 128) as nat, val_rest, 128);
        }
        let combined: u128 = ((b - 128) as u128) + (rest as u128) * 128;
        Ok((combined % 0x1_0000_0000_0000_0000) as u64)
    }

    /// Reads a VarInt reduced to u8 width.
    pub fn read_u8(&mut self) -> (r: DecodeResult<u8>)
        requires
            old(self).wf(),
        ensures
            final(self).wf(),
            final(self).buffer == old(self).buffer,
            final(self).cursor >= old(self).cursor,
            match r {
                Ok(v) => varint_dec(old(self).rem()) matches Some((val, n)) && v == trunc_u8(val)
                    && final(self).cursor == old(self).cursor + n,
                Err(e) => varint_dec(old(self).rem()) is None && e is UnexpectedEof,
            },
    {
        let ghost entry = *self;
        match self.read_u64() {
            Ok(v) => {
                proof {
                    lemma_trunc_narrow(
                        varint_dec(entry.rem())->Some_0.0,
                        0x100,
                        0x100_0000_0000_0000,
                    );
                }
                Ok((v % 0x100) as u8)
            },
            Err(e) => Err(e),
        }
    }

    /// Reads a VarInt reduced to u16 width.
    pub fn read_u16(&mut self) -> (r: DecodeResult<u16>)
        requires
            old(self).wf(),
        ensures
            final(self).wf(),
            final(self).buffer == old(self).buffer,
            final(self).cursor >= old(self).cursor,
            match r {
                Ok(v) => varint_dec(old(self).rem()) matches Some((val, n)) && v == trunc_u16(val)
                    && final(self).cursor == old(self).cursor + n,
                Err(e) => varint_dec(old(self).rem()) is None && e is UnexpectedEof,
            },
    {
        let ghost entry = *self;
        match self.read_u64() {
            Ok(v) => {
                proof {
                    lemma_trunc_narrow(
                        varint_dec(entry.rem())->Some_0.0,
                        0x1_0000,
                        0x1_0000_0000_0000,
                    );
                }
                Ok((v % 0x1_0000) as u16)
            },
            Err(e) => Err(e),
        }
    }

    /// Reads a VarInt reduced to u32 width.
    pub fn read_u32(&mut self) -> (r: DecodeResult<u32>)
        requires
            old(self).wf(),
        ensures
            final(self).wf(),
            final(self).buffer == old(self).buffer,
            final(self).cursor >= old(self).cursor,
            match r {
                Ok(v) => varint_dec(old(self).rem()) matches Some((val, n)) && v == trunc_u32(val)
                    && final(self).cursor == old(self).cursor + n,
                Err(e) => varint_dec(old(self).rem()) is None && e is UnexpectedEof,
            },
    {
        let ghost entry = *self;
        match self.read_u64() {
            Ok(v) => {
                proof {
                    lemma_trunc_narrow(
                        varint_dec(entry.rem())->Some_0.0,
                        0x1_0000_0000,
                        0x1_0000_0000,
                    );
                }
                Ok((v % 0x1_0000_0000) as u32)
            },
            Err(e) => Err(e),
        }
    }

    /// Reads a VarInt reduced to usize width.
    pub fn read_usize(&mut self) -> (r: DecodeResult<usize>)
        requires
            old(self).wf(),
        ensures
            final(self).wf(),
            final(self).buffer == old(self).buffer,
            final(self).cursor >= old(self).cursor,
            match r {
                Ok(v) => varint_dec(old(self).rem()) matches Some((val, n))
                    && v == trunc_usize(val) && final(self).cursor == old(self).cursor + n,
                Err(e) => varint_dec(old(self).rem()) is None && e is UnexpectedEof,
            },
    {
        match self.read_u64() {
            Ok(v) => Ok((v as u128 % (usize::MAX as u128 + 1)) as usize),
            Err(e) => Err(e),
        }
    }

    /// Reads a bool: a VarInt whose low bit is the value.
    pub fn read_bool(&mut self) -> (r: DecodeResult<bool>)
        requires
            old(self).wf(),
        ensures
            final(self).wf(),
            final(self).buffer == old(self).buffer,
            final(self).cursor >= old(self).cursor,
            match r {
                Ok(v) => varint_dec(old(self).rem()) matches Some((val, n)) && v == (val % 2 == 1)
                    && final(self).cursor == old(self).cursor + n,
                Err(e) => varint_dec(old(self).rem()) is None && e is UnexpectedEof,
            },
    {
        let ghost entry = *self;
        match self.read_u8() {
            Ok(v) => {
                proof {
                    lemma_mod_mod(varint_dec(entry.rem())->Some_0.0 as int, 2, 0x80);
                }
                Ok(v % 2 == 1)
            },
            Err(e) => Err(e),
        }
    }

    /// Reads a string: a VarInt length, that many bytes, the trailing NUL
    /// stripped, the rest decoded as UTF-8. Bytes that are not UTF-8 are
    /// rejected.
    pub fn read_string(&mut self) -> (r: DecodeResult<String>)
        requires
            old(self).wf(),
        ensures
            final(self).wf(),
            final(self).buffer == old(self).buffer,
            final(self).cursor >= old(self).cursor,
            match r {
                Ok(v) => string_dec(old(self).rem()) matches Some((cs, n)) && v@ == cs
                    && final(self).cursor == old(self).cursor + n,
                Err(e) => {
                    let s = old(self).rem();
                    &&& string_dec(s) is None
                    &&& (e is UnexpectedEof || e is Other)
                    &&& ((varint_dec(s) is Some && s.len() >= varint_dec(s)->Some_0.1
                        + trunc_usize(varint_dec(s)->Some_0.0)) ==> e is Other
                        && final(self).cursor == old(self).cursor + varint_dec(s)->Some_0.1
                        + trunc_usize(varint_dec(s)->Some_0.0))
                },
            },
    {
        let ghost entry = *self;
        let length = match self.read_usize() {
            Ok(v) => v,
            Err(e) => {
                return Err(e);
            },
        };
        let ghost mid = *self;
        let ghost nlen: int = mid.cursor - entry.cursor;
        let bytes = match self.read_slice(length) {
            Ok(v) => v,
            Err(e) => {
                proof {
                    crate::varint::lemma_varint_dec_bounds(entry.rem());
                    assert(mid.rem() =~= entry.rem().skip(nlen));
                }
                return Err(e);
            },
        };
        proof {
            crate::varint::lemma_varint_dec_bounds(entry.rem());
            assert(mid.rem() =~= entry.rem().skip(nlen));
        }
        let body: &[u8] = if length == 0 {
            bytes
        } else {
            slice_subrange(bytes, 0, length - 1)
        };
        assert(body@ =~= {
            let s = entry.rem();
            let (lv, n) = varint_dec(s)->Some_0;
            if trunc_usize(lv) == 0 {
                Seq::<u8>::empty()
            } else {
                s.subrange(n, n + trunc_usize(lv) - 1)
            }
        });
        match string_from_utf8(body) {
            Some(text) => Ok(text),
            None => Err(DecodeError::Other("string bytes are not UTF-8")),
        }
    }

    /// Reads a kind discriminant byte; discriminants that name no kind are
    /// rejected with the unknown-kind error, never with end-of-buffer.
    pub fn read_type(&mut self) -> (r: DecodeResult<TdfType>)
        requires
            old(self).wf(),
        ensures
            final(self).wf(),
            final(self).buffer == old(self).buffer,
            final(self).cursor >= old(self).cursor,
            match r {
                Ok(t) => old(self).rem().len() >= 1 && TdfType::spec_from_value(old(self).rem()[0])
                    == Some(t) && final(self).cursor == old(self).cursor + 1,
                Err(e) => (old(self).rem().len() == 0 && e is UnexpectedEof) || (old(self).rem().len()
                    >= 1 && TdfType::spec_from_value(old(self).rem()[0]) is None && (e matches
                DecodeError::UnknownType { ty } && ty == old(self).rem()[0])),
            },
    {
        let b = match self.read_byte() {
            Ok(b) => b,
            Err(e) => {
                return Err(e);
            },
        };
        match TdfType::from_value(b) {
            Some(t) => Ok(t),
            None => Err(DecodeError::UnknownType { ty: b }),
        }
    }

    /// Reads a tag: four bytes holding a packed label and a kind
    /// discriminant. The label comes back with its zero padding elided.
    pub fn read_tag(&mut self) -> (r: DecodeResult<Tag>)
        requires
            old(self).wf(),
        ensures
            final(self).wf(),
            final(self).buffer == old(self).buffer,
            final(self).cursor >= old(self).cursor,
            match r {
                Ok(t) => tag_dec(old(self).rem()) == Some((t.0@, t.1))
                    && final(self).cursor == old(self).cursor + 4,
                Err(e) => tag_dec(old(self).rem()) is None && (old(self).rem().len() < 4
                    && e is UnexpectedEof || old(self).rem().len() >= 4 && (e matches
                DecodeError::UnknownType { ty } && ty == old(self).rem()[3])),
            },
    {
        let ghost entry = *self;
        let bytes = match self.read_slice(4) {
            Ok(v) => v,
            Err(e) => {
                return Err(e);
            },
        };
        let i0 = bytes[0];
        let i1 = bytes[1];
        let i2 = bytes[2];
        let ty = match TdfType::from_value(bytes[3]) {
            Some(t) => t,
            None => {
                return Err(DecodeError::UnknownType { ty: bytes[3] });
            },
        };
        let b0: u8 = ((i0 & 0x80) >> 1) | ((i0 & 0x40) >> 2) | ((i0 & 0x30) >> 2) | ((i0 & 0x0C)
            >> 2);
        let b1: u8 = ((i0 & 0x02) << 5) | ((i0 & 0x01) << 4) | ((i1 & 0xF0) >> 4);
        let b2: u8 = ((i1 & 0x08) << 3) | ((i1 & 0x04) << 2) | ((i1 & 0x03) << 2) | ((i2 & 0xC0)
            >> 6);
        let b3: u8 = ((i2 & 0x20) << 1) | (i2 & 0x1F);
        let mut label: Vec<u8> = Vec::new();
        if b0 != 0 {
            label.push(b0);
        }
        if b1 != 0 {
            label.push(b1);
        }
        if b2 != 0 {
            label.push(b2);
        }
        if b3 != 0 {
            label.push(b3);
        }
        proof {
            let s = entry.rem();
            lemma_strip_zeros4(crate::tag::tag_unpack(s));
            assert(crate::tag::tag_unpack(s) =~= seq![b0, b1, b2, b3]);
            assert(label@ =~= crate::tag::strip_zeros(crate::tag::tag_unpack(s)));
        }
        Ok(Tag(label, ty))
    }
}

/// Filtering zeros out of a four-byte sequence keeps its nonzero bytes
/// in order.
proof fn lemma_strip_zeros4(s: Seq<u8>)
    requires
        s.len() == 4,
    ensures
        crate::tag::strip_zeros(s) =~= one_nonzero(s[0]) + one_nonzero(s[1]) + one_nonzero(s[2])
            + one_nonzero(s[3]),
{
    reveal_with_fuel(Seq::filter, 5);
    assert(s.drop_last() =~= seq![s[0], s[1], s[2]]);
    assert(seq![s[0], s[1], s[2]].drop_last() =~= seq![s[0], s[1]]);
    assert(seq![s[0], s[1]].drop_last() =~= seq![s[0]]);
    assert(seq![s[0]].drop_last() =~= Seq::<u8>::empty());
}

/// A byte as a sequence: empty when the byte is zero.
spec fn one_nonzero(b: u8) -> Seq<u8> {
    if b == 0 {
        Seq::<u8>::empty()
    } else {
        seq![b]
    }
}

/// Reducing a combination to u64 width may first reduce the high part:
/// the result is unchanged.
proof fn lemma_trunc_combine(a: nat, x: nat, c: nat)
    requires
        0 < c,
    ensures
        trunc_u64((a + trunc_u64(x) * c) as nat) == trunc_u64((a + x * c) as nat),
{
    let m: int = 0x1_0000_0000_0000_0000;
    lemma_mul_mod_noop_left(x as int, c as int, m as int);
    lemma_add_mod_noop(a as int, ((x % (m as nat)) * c) as int, m as int);
    lemma_add_mod_noop(a as int, (x * c) as int, m as int);
}

/// Reducing to u64 width and then to a narrower width equals reducing to
/// the narrower width at once, for widths dividing u64's.
proof fn lemma_trunc_narrow(v: nat, m: nat, k: nat)
    requires
        0 < m,
        0 < k,
        m * k == 0x1_0000_0000_0000_0000,
    ensures
        (trunc_u64(v) as nat) % m == v % m,
{
    lemma_mod_mod(v as int, m as int, k as int);
}

/// Relies on String::from_utf8: conversion succeeds exactly on valid
/// UTF-8 bytes and yields the characters those bytes encode.
#[verifier::external_body]
fn string_from_utf8(v: &[u8]) -> (r: Option<String>)
    ensures
        match r {
            Some(s) => valid_utf8(v@) && s@ == decode_utf8(v@),
            None => !valid_utf8(v@),
        },
{
    String::from_utf8(v.to_vec()).ok()
}

} // verus!
