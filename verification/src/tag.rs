//! Field tags and the eleven TDF value kinds.

use vstd::prelude::*;

verus! {

/// The eleven value kinds of the tagged data format, identified on the wire
/// by a one-byte discriminant.
#[derive(Debug, PartialEq, Eq, Clone, Copy, Structural)]
pub enum TdfType {
    /// Variable length integer value
    VarInt,
    /// Length-prefixed, NUL-terminated string
    String,
    /// Length-prefixed opaque byte sequence
    Blob,
    /// Group of tagged values, terminated by a zero byte
    Group,
    /// Homogeneous list of values
    List,
    /// Map from one kind to another
    Mapping,
    /// Either unset, or a key byte with one tagged value
    Union,
    /// Length-prefixed sequence of VarInts
    VarIntList,
    /// Two VarInts
    Pair,
    /// Three VarInts
    Triple,
    /// Four-byte big-endian IEEE-754 single
    Float,
}

impl TdfType {
    /// The on-wire discriminant byte of this kind.
    pub open spec fn spec_value(self) -> u8 {
        match self {
            TdfType::VarInt => 0x00,
            TdfType::String => 0x01,
            TdfType::Blob => 0x02,
            TdfType::Group => 0x03,
            TdfType::List => 0x04,
            TdfType::Mapping => 0x05,
            TdfType::Union => 0x06,
            TdfType::VarIntList => 0x07,
            TdfType::Pair => 0x08,
            TdfType::Triple => 0x09,
            TdfType::Float => 0x0A,
        }
    }

    /// The kind named by a discriminant byte, if the byte names one.
    pub open spec fn spec_from_value(value: u8) -> Option<TdfType> {
        match value {
            0x00 => Some(TdfType::VarInt),
            0x01 => Some(TdfType::String),
            0x02 => Some(TdfType::Blob),
            0x03 => Some(TdfType::Group),
            0x04 => Some(TdfType::List),
            0x05 => Some(TdfType::Mapping),
            0x06 => Some(TdfType::Union),
            0x07 => Some(TdfType::VarIntList),
            0x08 => Some(TdfType::Pair),
            0x09 => Some(TdfType::Triple),
            0x0A => Some(TdfType::Float),
            _ => None,
        }
    }

    /// Writes the kind as its discriminant byte.
    pub fn value(self) -> (r: u8)
        ensures
            r == self.spec_value(),
    {
        match self {
            TdfType::VarInt => 0x00,
            TdfType::String => 0x01,
            TdfType::Blob => 0x02,
            TdfType::Group => 0x03,
            TdfType::List => 0x04,
            TdfType::Mapping => 0x05,
            TdfType::Union => 0x06,
            TdfType::VarIntList => 0x07,
            TdfType::Pair => 0x08,
            TdfType::Triple => 0x09,
            TdfType::Float => 0x0A,
        }
    }

    /// Reads a discriminant byte back into a kind; discriminants outside
    /// the range of the eleven kinds are rejected.
    pub fn from_value(value: u8) -> (r: Option<TdfType>)
        ensures
            r == TdfType::spec_from_value(value),
    {
        match value {
            0x00 => Some(TdfType::VarInt),
            0x01 => Some(TdfType::String),
            0x02 => Some(TdfType::Blob),
            0x03 => Some(TdfType::Group),
            0x04 => Some(TdfType::List),
            0x05 => Some(TdfType::Mapping),
            0x06 => Some(TdfType::Union),
            0x07 => Some(TdfType::VarIntList),
            0x08 => Some(TdfType::Pair),
            0x09 => Some(TdfType::Triple),
            0x0A => Some(TdfType::Float),
            _ => None,
        }
    }
}

/// The discriminant of every kind reads back as that kind.
pub proof fn lemma_type_value_round_trip(ty: TdfType)
    ensures
        TdfType::spec_from_value(ty.spec_value()) == Some(ty),
{
}

/// A field tag read off the wire: the label bytes (one to four of them,
/// zero padding elided) and the kind of the value that follows.
#[derive(Debug, Clone)]
pub struct Tag(pub Vec<u8>, pub TdfType);

/// Byte `i` of a label padded with zeros to four bytes.
pub open spec fn pad4(l: Seq<u8>, i: int) -> u8 {
    if i < l.len() {
        l[i]
    } else {
        0
    }
}

/// The three on-wire bytes of a packed label: a fixed permutation that
/// scatters six bits of each label byte (all bits but 0x80 and 0x20)
/// across the output.
pub open spec fn tag_pack(l: Seq<u8>) -> Seq<u8> {
    let t0 = pad4(l, 0);
    let t1 = pad4(l, 1);
    let t2 = pad4(l, 2);
    let t3 = pad4(l, 3);
    seq![
        ((t0 & 0x40) << 1) | ((t0 & 0x10) << 2) | ((t0 & 0x0F) << 2) | ((t1 & 0x40) >> 5) | ((t1
            & 0x10) >> 4),
        ((t1 & 0x0F) << 4) | ((t2 & 0x40) >> 3) | ((t2 & 0x10) >> 2) | ((t2 & 0x0C) >> 2),
        ((t2 & 0x03) << 6) | ((t3 & 0x40) >> 1) | (t3 & 0x1F),
    ]
}

/// A packed label followed by the kind's discriminant byte: the four bytes
/// a tag occupies on the wire.
pub open spec fn tag_enc(l: Seq<u8>, ty: TdfType) -> Seq<u8> {
    tag_pack(l) + seq![ty.spec_value()]
}

/// The four label bytes recovered from three packed bytes, zero padding
/// still in place.
pub open spec fn tag_unpack(s: Seq<u8>) -> Seq<u8> {
    let i0 = s[0];
    let i1 = s[1];
    let i2 = s[2];
    seq![
        ((i0 & 0x80) >> 1) | ((i0 & 0x40) >> 2) | ((i0 & 0x30) >> 2) | ((i0 & 0x0C) >> 2),
        ((i0 & 0x02) << 5) | ((i0 & 0x01) << 4) | ((i1 & 0xF0) >> 4),
        ((i1 & 0x08) << 3) | ((i1 & 0x04) << 2) | ((i1 & 0x03) << 2) | ((i2 & 0xC0) >> 6),
        ((i2 & 0x20) << 1) | (i2 & 0x1F),
    ]
}

/// Label bytes as materialized: the zero bytes that padding decodes to
/// are elided.
pub open spec fn strip_zeros(s: Seq<u8>) -> Seq<u8> {
    s.filter(|b: u8| b != 0)
}

/// The label of the tag whose four wire bytes start `s`.
pub open spec fn tag_dec_label(s: Seq<u8>) -> Seq<u8> {
    strip_zeros(tag_unpack(s))
}

/// A label byte survives the pack/unpack permutation exactly when it uses
/// none of the two dropped bits (0x80 and 0x20).
pub open spec fn label_byte_ok(b: u8) -> bool {
    b & 0xA0 == 0 && b != 0
}

/// A label of one to four bytes, each from the six-bit alphabet.
pub open spec fn label_ok(l: Seq<u8>) -> bool {
    1 <= l.len() <= 4 && forall|i: int| 0 <= i < l.len() ==> label_byte_ok(#[trigger] l[i])
}

/// A packed alphabet label never begins with a group terminator or group
/// marker byte: its first wire byte is at least four.
pub proof fn lemma_label_pack_leading(l: Seq<u8>)
    requires
        label_ok(l),
    ensures
        tag_pack(l)[0] >= 4,
{
    let t0 = pad4(l, 0);
    let t1 = pad4(l, 1);
    assert(t0 & 0xA0 == 0 && t0 != 0 ==> (((t0 & 0x40) << 1) | ((t0 & 0x10) << 2) | ((t0 & 0x0F)
        << 2) | ((t1 & 0x40) >> 5) | ((t1 & 0x10) >> 4)) >= 4) by (bit_vector);
}

/// Unpacking a packed label restores each padded byte: the permutation is
/// inverted position by position for alphabet bytes, and padding returns
/// as zero.
proof fn lemma_tag_unpack_pack_bytes(l: Seq<u8>)
    requires
        forall|i: int| 0 <= i < l.len() ==> label_byte_ok(#[trigger] l[i]),
    ensures
        forall|i: int|
            0 <= i < 4 ==> #[trigger] tag_unpack(tag_pack(l))[i] == pad4(l, i),
{
    let t0 = pad4(l, 0);
    let t1 = pad4(l, 1);
    let t2 = pad4(l, 2);
    let t3 = pad4(l, 3);
    assert(t0 & 0xA0 == 0 && t1 & 0xA0 == 0 && t2 & 0xA0 == 0 && t3 & 0xA0 == 0) by {
        assert(0u8 & 0xA0 == 0) by (bit_vector);
    }
    assert(t0 & 0xA0 == 0 && t1 & 0xA0 == 0 ==> ((((((t0 & 0x40) << 1) | ((t0 & 0x10) << 2) | ((t0
        & 0x0F) << 2) | ((t1 & 0x40) >> 5) | ((t1 & 0x10) >> 4)) & 0x80) >> 1) | (((((t0 & 0x40)
        << 1) | ((t0 & 0x10) << 2) | ((t0 & 0x0F) << 2) | ((t1 & 0x40) >> 5) | ((t1 & 0x10) >> 4))
        & 0x40) >> 2) | (((((t0 & 0x40) << 1) | ((t0 & 0x10) << 2) | ((t0 & 0x0F) << 2) | ((t1
        & 0x40) >> 5) | ((t1 & 0x10) >> 4)) & 0x30) >> 2) | (((((t0 & 0x40) << 1) | ((t0 & 0x10)
        << 2) | ((t0 & 0x0F) << 2) | ((t1 & 0x40) >> 5) | ((t1 & 0x10) >> 4)) & 0x0C) >> 2)) == t0)
        by (bit_vector);
    assert(t1 & 0xA0 == 0 ==> ((((((t0 & 0x40) << 1) | ((t0 & 0x10) << 2) | ((t0 & 0x0F) << 2) | ((
    t1 & 0x40) >> 5) | ((t1 & 0x10) >> 4)) & 0x02) << 5) | (((((t0 & 0x40) << 1) | ((t0 & 0x10)
        << 2) | ((t0 & 0x0F) << 2) | ((t1 & 0x40) >> 5) | ((t1 & 0x10) >> 4)) & 0x01) << 4) | (((((
    t1 & 0x0F) << 4) | ((t2 & 0x40) >> 3) | ((t2 & 0x10) >> 2) | ((t2 & 0x0C) >> 2)) & 0xF0) >> 4))
        == t1) by (bit_vector);
    assert(t2 & 0xA0 == 0 ==> ((((((t1 & 0x0F) << 4) | ((t2 & 0x40) >> 3) | ((t2 & 0x10) >> 2) | ((
    t2 & 0x0C) >> 2)) & 0x08) << 3) | (((((t1 & 0x0F) << 4) | ((t2 & 0x40) >> 3) | ((t2 & 0x10)
        >> 2) | ((t2 & 0x0C) >> 2)) & 0x04) << 2) | (((((t1 & 0x0F) << 4) | ((t2 & 0x40) >> 3) | ((
    t2 & 0x10) >> 2) | ((t2 & 0x0C) >> 2)) & 0x03) << 2) | (((((t2 & 0x03) << 6) | ((t3 & 0x40)
        >> 1) | (t3 & 0x1F)) & 0xC0) >> 6)) == t2) by (bit_vector);
    assert(t3 & 0xA0 == 0 ==> ((((((t2 & 0x03) << 6) | ((t3 & 0x40) >> 1) | (t3 & 0x1F)) & 0x20)
        << 1) | ((((t2 & 0x03) << 6) | ((t3 & 0x40) >> 1) | (t3 & 0x1F)) & 0x1F)) == t3)
        by (bit_vector);
    assert(tag_pack(l)[0] == ((t0 & 0x40) << 1) | ((t0 & 0x10) << 2) | ((t0 & 0x0F) << 2) | ((t1
        & 0x40) >> 5) | ((t1 & 0x10) >> 4));
    assert(tag_pack(l)[1] == ((t1 & 0x0F) << 4) | ((t2 & 0x40) >> 3) | ((t2 & 0x10) >> 2) | ((t2
        & 0x0C) >> 2));
    assert(tag_pack(l)[2] == ((t2 & 0x03) << 6) | ((t3 & 0x40) >> 1) | (t3 & 0x1F));
}

/// Tag round trip: a label of one to four bytes from the six-bit alphabet,
/// packed and unpacked, comes back unchanged with the padding elided, and
/// its kind byte reads back as the same kind.
pub proof fn lemma_tag_round_trip(l: Seq<u8>, ty: TdfType)
    requires
        label_ok(l),
    ensures
        tag_dec_label(tag_enc(l, ty)) == l,
        tag_enc(l, ty).len() == 4,
        TdfType::spec_from_value(tag_enc(l, ty)[3]) == Some(ty),
{
    let e = tag_enc(l, ty);
    assert(e[0] == tag_pack(l)[0] && e[1] == tag_pack(l)[1] && e[2] == tag_pack(l)[2]);
    assert(tag_unpack(e) =~= tag_unpack(tag_pack(l)));
    lemma_tag_unpack_pack_bytes(l);
    let u = tag_unpack(tag_pack(l));
    assert(u =~= Seq::new(4, |i: int| pad4(l, i)));
    lemma_strip_padded(l, u);
}

/// Filtering the zero padding out of a padded label gives the label back,
/// byte for byte, when no label byte is zero.
proof fn lemma_strip_padded(l: Seq<u8>, u: Seq<u8>)
    requires
        l.len() <= 4,
        forall|i: int| 0 <= i < l.len() ==> #[trigger] l[i] != 0,
        u =~= Seq::new(4, |i: int| pad4(l, i)),
    ensures
        strip_zeros(u) == l,
    decreases l.len(),
{
    if l.len() == 0 {
        assert(u =~= seq![0u8, 0u8, 0u8, 0u8]);
        reveal_with_fuel(Seq::filter, 5);
        assert(strip_zeros(u) =~= Seq::<u8>::empty());
    } else {
        let l1 = l.drop_last();
        let u1 = u.update(l.len() - 1, 0);
        assert(u1 =~= Seq::new(4, |i: int| pad4(l1, i)));
        lemma_strip_padded(l1, u1);
        lemma_filter_update_last(u, l.len() - 1, l.last());
        assert(strip_zeros(u) =~= strip_zeros(u1) + seq![l.last()]);
        assert(strip_zeros(u) =~= l1 + seq![l.last()]);
        assert(l1 + seq![l.last()] =~= l);
    }
}

/// Setting one nonzero byte in place of a zero, after which only zeros
/// follow, appends that byte to the filtered sequence.
proof fn lemma_filter_update_last(u: Seq<u8>, k: int, b: u8)
    requires
        0 <= k < u.len(),
        b != 0,
        u[k] == b,
        forall|j: int| k < j < u.len() ==> #[trigger] u[j] == 0,
    ensures
        strip_zeros(u) == strip_zeros(u.update(k, 0)) + seq![b],
    decreases u.len(),
{
    reveal_with_fuel(Seq::filter, 2);
    if k == u.len() - 1 {
        let u0 = u.drop_last();
        assert(u.update(k, 0).drop_last() =~= u0);
        assert(strip_zeros(u) =~= strip_zeros(u0) + seq![b]);
        assert(strip_zeros(u.update(k, 0)) =~= strip_zeros(u0));
    } else {
        let u0 = u.drop_last();
        assert(u.last() == 0);
        assert(strip_zeros(u) =~= strip_zeros(u0));
        assert(u.update(k, 0).drop_last() =~= u0.update(k, 0));
        assert(u.update(k, 0).last() == 0);
        assert(strip_zeros(u.update(k, 0)) =~= strip_zeros(u0.update(k, 0)));
        lemma_filter_update_last(u0, k, b);
    }
}

} // verus!
