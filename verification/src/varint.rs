//! Specification of the asymmetric VarInt wire form: the first byte carries
//! the low six bits of the value (with the high bit set when more follow),
//! and every later byte carries seven bits, low bits first.

use vstd::prelude::*;
use vstd::arithmetic::div_mod::*;

verus! {

/// Bytes of the canonical encoding of `v`: one byte below 64, otherwise a
/// six-bit first byte followed by seven-bit continuation bytes.
pub open spec fn varint_enc(v: u64) -> Seq<u8>
    decreases v,
{
    if v < 64 {
        seq![v as u8]
    } else {
        seq![(v % 64 + 128) as u8] + varint_cont_enc(v / 64)
    }
}

/// Continuation bytes carrying `v` in seven-bit groups, terminated by the
/// first byte whose high bit is clear.
pub open spec fn varint_cont_enc(v: u64) -> Seq<u8>
    decreases v,
{
    if v < 128 {
        seq![v as u8]
    } else {
        seq![(v % 128 + 128) as u8] + varint_cont_enc(v / 128)
    }
}

/// Value and byte count of the VarInt at the head of `s`, or `None` when the
/// stream ends before the terminal byte. The value is unbounded: what an
/// integer reader of a given width returns is this value reduced mod 2^width.
pub open spec fn varint_dec(s: Seq<u8>) -> Option<(nat, int)> {
    if s.len() == 0 {
        None
    } else if s[0] < 128 {
        Some((((s[0] as nat) % 64), 1))
    } else {
        match varint_cont_dec(s.skip(1)) {
            Some((v, n)) => Some((((s[0] as nat) % 64 + v * 64) as nat, n + 1)),
            None => None,
        }
    }
}

/// Value and byte count of a run of continuation bytes at the head of `s`.
pub open spec fn varint_cont_dec(s: Seq<u8>) -> Option<(nat, int)>
    decreases s.len(),
{
    if s.len() == 0 {
        None
    } else if s[0] < 128 {
        Some(((s[0] as nat), 1))
    } else {
        match varint_cont_dec(s.skip(1)) {
            Some((v, n)) => Some((((s[0] as nat) - 128 + v * 128) as nat, n + 1)),
            None => None,
        }
    }
}

/// `v` reduced to the width of a `u64`.
pub open spec fn trunc_u64(v: nat) -> u64 {
    (v % 0x1_0000_0000_0000_0000) as u64
}

/// `v` reduced to the width of a `u8`.
pub open spec fn trunc_u8(v: nat) -> u8 {
    (v % 0x100) as u8
}

/// `v` reduced to the width of a `u16`.
pub open spec fn trunc_u16(v: nat) -> u16 {
    (v % 0x1_0000) as u16
}

/// `v` reduced to the width of a `u32`.
pub open spec fn trunc_u32(v: nat) -> u32 {
    (v % 0x1_0000_0000) as u32
}

/// `v` reduced to the width of a `usize` (through u64 width first, which
/// changes nothing).
pub open spec fn trunc_usize(v: nat) -> usize {
    ((v % 0x1_0000_0000_0000_0000) % (usize::MAX as nat + 1)) as usize
}

/// Decoding a canonical continuation run gives back the value and consumes
/// exactly the run, whatever bytes follow it.
pub proof fn lemma_varint_cont_round_trip(v: u64, rest: Seq<u8>)
    ensures
        varint_cont_dec(varint_cont_enc(v) + rest) == Some(
            (v as nat, varint_cont_enc(v).len() as int),
        ),
    decreases v,
{
    let s = varint_cont_enc(v) + rest;
    if v < 128 {
        assert(s[0] == v as u8);
    } else {
        let first = (v % 128 + 128) as u8;
        assert(s[0] == first);
        assert(s.skip(1) =~= varint_cont_enc(v / 128) + rest);
        lemma_varint_cont_round_trip(v / 128, rest);
        lemma_fundamental_div_mod(v as int, 128);
        assert((first as nat) - 128 + (v / 128) as nat * 128 == v as nat);
    }
}

/// Decoding a canonical encoding gives back the value and consumes exactly
/// the encoding, whatever bytes follow it.
pub proof fn lemma_varint_round_trip(v: u64, rest: Seq<u8>)
    ensures
        varint_dec(varint_enc(v) + rest) == Some((v as nat, varint_enc(v).len() as int)),
{
    let s = varint_enc(v) + rest;
    if v < 64 {
        assert(s[0] == v as u8);
        assert((s[0] as nat) % 64 == v as nat);
    } else {
        let first = (v % 64 + 128) as u8;
        assert(s[0] == first);
        assert(s.skip(1) =~= varint_cont_enc(v / 64) + rest);
        lemma_varint_cont_round_trip(v / 64, rest);
        lemma_fundamental_div_mod(v as int, 64);
        assert((first as nat) % 64 == (v % 64) as nat);
        assert((first as nat) % 64 + (v / 64) as nat * 64 == v as nat);
    }
}

/// A decoded VarInt occupies at least one byte and no more than the stream.
pub proof fn lemma_varint_dec_bounds(s: Seq<u8>)
    ensures
        varint_dec(s) matches Some((v, n)) ==> 1 <= n <= s.len(),
{
    if s.len() > 0 && s[0] >= 128 {
        lemma_varint_cont_dec_bounds(s.skip(1));
    }
}

/// A run of continuation bytes occupies at least one byte and no more than
/// the stream.
pub proof fn lemma_varint_cont_dec_bounds(s: Seq<u8>)
    ensures
        varint_cont_dec(s) matches Some((v, n)) ==> 1 <= n <= s.len(),
    decreases s.len(),
{
    if s.len() > 0 && s[0] >= 128 {
        lemma_varint_cont_dec_bounds(s.skip(1));
    }
}

} // verus!
