//! Packet framing: the fixed header with its optional extended length,
//! packets with shared payload bytes, and the stream codec over growable
//! byte buffers.

use vstd::prelude::*;
use crate::codec::{Decodable, Encodable};
use crate::error::DecodeResult;
use crate::payload::{
    bytes_as_slice, bytes_clone, bytes_from_vec, bytes_mut_advance, bytes_mut_as_slice,
    bytes_mut_extend, bytes_mut_split_to, bytes_mut_freeze, bytes_mut_view, bytes_new, bytes_view,
};
use crate::reader::TdfReader;

verus! {

/// The four kinds of packets.
#[derive(Debug, Copy, Clone, PartialEq, Eq, Structural)]
pub enum PacketType {
    /// Id-counted request packets
    Request,
    /// Packets responding to requests
    Response,
    /// Unsolicited packets coming from the server
    Notify,
    /// Error responses
    Error,
}

impl PacketType {
    /// The low nibble value naming this kind.
    pub open spec fn spec_value(self) -> u8 {
        match self {
            PacketType::Request => 0x0,
            PacketType::Response => 0x1,
            PacketType::Notify => 0x2,
            PacketType::Error => 0x3,
        }
    }

    /// The high byte of the on-wire packet-type field.
    pub open spec fn spec_hi(self) -> u8 {
        match self {
            PacketType::Request => 0x00,
            PacketType::Response => 0x10,
            PacketType::Notify => 0x20,
            PacketType::Error => 0x30,
        }
    }

    /// The kind named by a packet-type value; unknown values fall back to
    /// the request kind.
    pub open spec fn spec_from_value(value: u8) -> PacketType {
        match value {
            0x0 => PacketType::Request,
            0x1 => PacketType::Response,
            0x2 => PacketType::Notify,
            0x3 => PacketType::Error,
            _ => PacketType::Request,
        }
    }

    /// Reads a packet-type value back into a kind, unknown values falling
    /// back to the request kind.
    pub fn from_value(value: u8) -> (r: PacketType)
        ensures
            r == PacketType::spec_from_value(value),
    {
        match value {
            0x0 => PacketType::Request,
            0x1 => PacketType::Response,
            0x2 => PacketType::Notify,
            0x3 => PacketType::Error,
            _ => PacketType::Request,
        }
    }

    /// The high byte of the on-wire packet-type field.
    pub fn hi_value(self) -> (r: u8)
        ensures
            r == self.spec_hi(),
    {
        match self {
            PacketType::Request => 0x00,
            PacketType::Response => 0x10,
            PacketType::Notify => 0x20,
            PacketType::Error => 0x30,
        }
    }
}

/// The fixed-shape header that precedes every packet's payload.
#[derive(Debug, Copy, Clone, PartialEq, Eq, Structural)]
pub struct PacketHeader {
    /// The subsystem this packet belongs to
    pub component: u16,
    /// The command within the subsystem
    pub command: u16,
    /// An error code; zero except on error packets
    pub error: u16,
    /// The kind of this packet
    pub ty: PacketType,
    /// The request/response correlation id; zero for notify packets
    pub id: u16,
}

/// The two big-endian bytes of a u16.
pub open spec fn u16_be(v: u16) -> Seq<u8> {
    seq![(v / 0x100) as u8, (v % 0x100) as u8]
}

/// Whether a payload of this length needs the extended length suffix.
pub open spec fn needs_ext(len: nat) -> bool {
    len > 0xFFFF
}

/// The header bytes for a payload of the provided length: six big-endian
/// u16 fields and the type bytes, then the extended length suffix holding
/// bits 16 to 31 of the length exactly when the length does not fit the
/// first field.
pub open spec fn header_enc(h: PacketHeader, len: nat) -> Seq<u8> {
    u16_be((len % 0x10000) as u16) + u16_be(h.component) + u16_be(h.command) + u16_be(h.error)
        + seq![h.ty.spec_hi(), if needs_ext(len) { 0x10u8 } else { 0x00u8 }] + u16_be(h.id) + if needs_ext(
        len,
    ) {
        u16_be(((len / 0x10000) % 0x10000) as u16)
    } else {
        Seq::<u8>::empty()
    }
}

/// The u16 read from two big-endian bytes at position `i` of `s`.
pub open spec fn be16_at(s: Seq<u8>, i: int) -> u16 {
    ((s[i] as u16) * 0x100 + (s[i + 1] as u16)) as u16
}

/// Header, payload length and consumed byte count parsed from the head of
/// `s`, or `None` when the bytes for the header (and its extension, when
/// flagged) are not all there yet.
pub open spec fn header_dec(s: Seq<u8>) -> Option<(PacketHeader, nat, int)> {
    if s.len() < 12 {
        None
    } else {
        let low = be16_at(s, 0);
        let h = PacketHeader {
            component: be16_at(s, 2),
            command: be16_at(s, 4),
            error: be16_at(s, 6),
            ty: PacketType::spec_from_value(s[8] / 0x10),
            id: be16_at(s, 10),
        };
        if s[9] == 0x10 {
            if s.len() < 14 {
                None
            } else {
                Some((h, (be16_at(s, 12) as nat) * 0x10000 + low as nat, 14))
            }
        } else {
            Some((h, low as nat, 12))
        }
    }
}

impl PacketHeader {
    /// A notify header for the provided component and command.
    pub fn notify(component: u16, command: u16) -> (r: PacketHeader)
        ensures
            r == (PacketHeader { component, command, error: 0, ty: PacketType::Notify, id: 0 }),
    {
        PacketHeader { component, command, error: 0, ty: PacketType::Notify, id: 0 }
    }

    /// A request header for the provided id, component and command.
    pub fn request(id: u16, component: u16, command: u16) -> (r: PacketHeader)
        ensures
            r == (PacketHeader { component, command, error: 0, ty: PacketType::Request, id }),
    {
        PacketHeader { component, command, error: 0, ty: PacketType::Request, id }
    }

    /// The same header with the kind spec.
    pub open spec fn spec_with_type(self, ty: PacketType) -> PacketHeader {
        PacketHeader { ty, ..self }
    }

    /// The same header with the provided error code and the error kind.
    pub open spec fn spec_with_error(self, error: u16) -> PacketHeader {
        PacketHeader { error, ty: PacketType::Error, ..self }
    }

    /// This header, turned into the matching response header.
    pub fn response(&self) -> (r: PacketHeader)
        ensures
            r == self.spec_with_type(PacketType::Response),
    {
        self.with_type(PacketType::Response)
    }

    /// This header with another packet kind.
    pub fn with_type(&self, ty: PacketType) -> (r: PacketHeader)
        ensures
            r == self.spec_with_type(ty),
    {
        PacketHeader {
            component: self.component,
            command: self.command,
            error: self.error,
            ty,
            id: self.id,
        }
    }

    /// This header with the provided error code, as an error packet.
    pub fn with_error(&self, error: u16) -> (r: PacketHeader)
        ensures
            r == self.spec_with_error(error),
    {
        PacketHeader {
            component: self.component,
            command: self.command,
            error,
            ty: PacketType::Error,
            id: self.id,
        }
    }

    /// Whether this header addresses the same component and command as the
    /// other.
    pub fn path_matches(&self, other: &PacketHeader) -> (r: bool)
        ensures
            r == (self.component == other.component && self.command == other.command),
    {
        self.component == other.component && self.command == other.command
    }

    /// The header bytes for a payload of the provided length.
    pub fn header_bytes(&self, length: usize) -> (r: Vec<u8>)
        ensures
            r@ == header_enc(*self, length as nat),
    {
        let mut out: Vec<u8> = Vec::new();
        push_u16_be(&mut out, (length % 0x10000) as u16);
        push_u16_be(&mut out, self.component);
        push_u16_be(&mut out, self.command);
        push_u16_be(&mut out, self.error);
        out.push(self.ty.hi_value());
        let is_extended = length > 0xFFFF;
        if is_extended {
            out.push(0x10);
        } else {
            out.push(0x00);
        }
        push_u16_be(&mut out, self.id);
        if is_extended {
            push_u16_be(&mut out, ((length / 0x10000) % 0x10000) as u16);
        }
        proof {
            assert(out@ =~= header_enc(*self, length as nat));
        }
        out
    }

    /// Appends the header for a payload of the provided length to the
    /// stream buffer.
    pub fn write(&self, dst: &mut bytes::BytesMut, length: usize)
        ensures
            bytes_mut_view(*final(dst)) == bytes_mut_view(*old(dst)) + header_enc(
                *self,
                length as nat,
            ),
    {
        let bytes = self.header_bytes(length);
        bytes_mut_extend(dst, bytes.as_slice());
    }

    /// Takes a header off the front of the stream buffer, returning it with
    /// the payload length it announces, or `None` (leaving the buffer
    /// whole) when the header's bytes are not all there yet.
    pub fn read(src: &mut bytes::BytesMut) -> (r: Option<(PacketHeader, usize)>)
        ensures
            match r {
                Some(hl) => header_dec(bytes_mut_view(*old(src))) matches Some((h, plen, n)) && hl.0
                    == h && hl.1 == plen && bytes_mut_view(*final(src)) == bytes_mut_view(
                    *old(src),
                ).skip(n),
                None => header_dec(bytes_mut_view(*old(src))) is None && *final(src) == *old(src),
            },
    {
        let ghost s = bytes_mut_view(*src);
        let consumed: usize;
        let header: PacketHeader;
        let length: usize;
        {
            let slice = bytes_mut_as_slice(src);
            match parse_header(slice) {
                Some(hl) => {
                    header = hl.0;
                    length = hl.1;
                    consumed = hl.2;
                },
                None => {
                    return None;
                },
            }
        }
        bytes_mut_advance(src, consumed);
        Some((header, length))
    }
}

/// Appends the two big-endian bytes of a u16.
pub fn push_u16_be(out: &mut Vec<u8>, v: u16)
    ensures
        final(out)@ == old(out)@ + u16_be(v),
{
    out.push((v / 0x100) as u8);
    out.push((v % 0x100) as u8);
    assert(out@ =~= old(out)@ + u16_be(v));
}

/// Reads the two big-endian bytes at `i` as a u16.
pub fn decode_u16_be(s: &[u8], i: usize) -> (r: u16)
    requires
        i + 2 <= s@.len(),
    ensures
        r == be16_at(s@, i as int),
{
    (s[i] as u16) * 0x100 + (s[i + 1] as u16)
}

/// Appends the two big-endian bytes of a u16 to a byte vector.
pub fn encode_u16_be(value: &u16, output: &mut Vec<u8>)
    ensures
        final(output)@ == old(output)@ + u16_be(*value),
{
    push_u16_be(output, *value);
}

/// Parses a header from the head of a byte slice: the fields, the payload
/// length it announces, and the bytes the header occupies.
pub fn parse_header(s: &[u8]) -> (r: Option<(PacketHeader, usize, usize)>)
    ensures
        match r {
            Some(hl) => header_dec(s@) matches Some((h, plen, n)) && hl.0 == h && hl.1 == plen
                && hl.2 == n && plen <= usize::MAX,
            None => header_dec(s@) is None,
        },
{
    if s.len() < 12 {
        return None;
    }
    let low = decode_u16_be(s, 0);
    let header = PacketHeader {
        component: decode_u16_be(s, 2),
        command: decode_u16_be(s, 4),
        error: decode_u16_be(s, 6),
        ty: PacketType::from_value(s[8] / 0x10),
        id: decode_u16_be(s, 10),
    };
    if s[9] == 0x10 {
        if s.len() < 14 {
            return None;
        }
        let ext = decode_u16_be(s, 12);
        let length: u64 = (ext as u64) * 0x10000 + (low as u64);
        proof {
            assert(usize::MAX == 0xFFFF_FFFF || usize::MAX == 0xFFFF_FFFF_FFFF_FFFF);
            assert(length <= usize::MAX);
        }
        Some((header, length as usize, 14))
    } else {
        Some((header, low as usize, 12))
    }
}

/// The wire form of a packet: its header for this payload length, then
/// the payload.
pub open spec fn packet_enc(h: PacketHeader, payload: Seq<u8>) -> Seq<u8> {
    header_enc(h, payload.len()) + payload
}

/// Header, payload and consumed byte count of the packet at the head of
/// `s`, or `None` when the packet's bytes are not all there yet.
pub open spec fn packet_dec(s: Seq<u8>) -> Option<(PacketHeader, Seq<u8>, int)> {
    match header_dec(s) {
        None => None,
        Some((h, plen, n)) => {
            if s.len() < n + plen {
                None
            } else {
                Some((h, s.subrange(n, n + plen), n + plen))
            }
        },
    }
}

/// A packet: its header and its payload bytes, the latter held in a
/// shared buffer so that cloning a packet is cheap.
#[derive(Debug)]
pub struct Packet {
    /// The packet header
    pub header: PacketHeader,
    /// The encoded payload bytes
    pub contents: bytes::Bytes,
}

impl Clone for Packet {
    /// Clones the packet; the payload handle is shared, not copied.
    fn clone(&self) -> (r: Packet)
        ensures
            r.header == self.header,
            bytes_view(r.contents) == bytes_view(self.contents),
    {
        Packet { header: self.header, contents: bytes_clone(&self.contents) }
    }
}

/// Routing keys: a two-level vocabulary of subsystems and their commands,
/// convertible to and from the numeric pair carried in packet headers.
/// Implementations come from the protocol vocabulary of the application.
pub trait PacketComponents: Sized {
    /// The numeric pair of this key.
    spec fn spec_values(&self) -> (u16, u16);

    /// Turns the key into its component and command ids.
    fn values(&self) -> (r: (u16, u16))
        ensures
            r == self.spec_values(),
    ;

    /// Finds the key for the provided component and command ids; the
    /// notify flag tells apart commands that share an id. Unknown ids give
    /// `None`, and a found key carries the ids it was found by.
    fn from_values(component: u16, command: u16, notify: bool) -> (r: Option<Self>)
        ensures
            r matches Some(c) ==> c.spec_values() == (component, command),
    ;

    /// Finds the key a packet header addresses.
    fn from_header(header: &PacketHeader) -> (r: Option<Self>)
        ensures
            r matches Some(c) ==> c.spec_values() == (header.component, header.command),
    {
        Self::from_values(header.component, header.command, header.ty == PacketType::Notify)
    }
}

/// Commands of one subsystem, convertible to and from their numeric ids.
/// Implementations come from the protocol vocabulary of the application.
pub trait PacketComponent: Sized {
    /// The numeric id of this command.
    spec fn spec_command(&self) -> u16;

    /// Turns the command into its id.
    fn command(&self) -> (r: u16)
        ensures
            r == self.spec_command(),
    ;

    /// Finds the command with the provided id; the notify flag tells apart
    /// commands that share an id.
    fn from_value(value: u16, notify: bool) -> (r: Option<Self>)
        ensures
            r matches Some(c) ==> c.spec_command() == value,
    ;
}

impl Packet {
    /// A packet from a header and already-encoded payload bytes.
    pub fn raw(header: PacketHeader, contents: Vec<u8>) -> (r: Packet)
        ensures
            r.header == header,
            bytes_view(r.contents) == contents@,
    {
        Packet { header, contents: bytes_from_vec(contents) }
    }

    /// A packet from a header, with no payload.
    pub fn raw_empty(header: PacketHeader) -> (r: Packet)
        ensures
            r.header == header,
            bytes_view(r.contents) == Seq::<u8>::empty(),
    {
        Packet { header, contents: bytes_new() }
    }

    /// A response to the provided packet, carrying the encoded value.
    pub fn response<C: Encodable>(packet: &Packet, contents: &C) -> (r: Packet)
        ensures
            r.header == packet.header.spec_with_type(PacketType::Response),
            bytes_view(r.contents) == contents.enc(),
    {
        Packet {
            header: packet.header.response(),
            contents: bytes_from_vec(contents.encode_bytes()),
        }
    }

    /// A response to this packet, carrying the encoded value.
    pub fn respond<C: Encodable>(&self, contents: &C) -> (r: Packet)
        ensures
            r.header == self.header.spec_with_type(PacketType::Response),
            bytes_view(r.contents) == contents.enc(),
    {
        Packet::response(self, contents)
    }

    /// A response to the provided packet, with already-encoded payload
    /// bytes.
    pub fn response_raw(packet: &Packet, contents: Vec<u8>) -> (r: Packet)
        ensures
            r.header == packet.header.spec_with_type(PacketType::Response),
            bytes_view(r.contents) == contents@,
    {
        Packet { header: packet.header.response(), contents: bytes_from_vec(contents) }
    }

    /// A response to the provided packet, with no payload.
    pub fn response_empty(packet: &Packet) -> (r: Packet)
        ensures
            r.header == packet.header.spec_with_type(PacketType::Response),
            bytes_view(r.contents) == Seq::<u8>::empty(),
    {
        Packet { header: packet.header.response(), contents: bytes_new() }
    }

    /// A response to this packet, with no payload.
    pub fn respond_empty(&self) -> (r: Packet)
        ensures
            r.header == self.header.spec_with_type(PacketType::Response),
            bytes_view(r.contents) == Seq::<u8>::empty(),
    {
        Packet::response_empty(self)
    }

    /// An error response to the provided packet, carrying the encoded
    /// value.
    pub fn error<C: Encodable>(packet: &Packet, error: u16, contents: &C) -> (r: Packet)
        ensures
            r.header == packet.header.spec_with_error(error),
            bytes_view(r.contents) == contents.enc(),
    {
        Packet {
            header: packet.header.with_error(error),
            contents: bytes_from_vec(contents.encode_bytes()),
        }
    }

    /// An error response to this packet, carrying the encoded value.
    pub fn respond_error<C: Encodable>(&self, error: u16, contents: &C) -> (r: Packet)
        ensures
            r.header == self.header.spec_with_error(error),
            bytes_view(r.contents) == contents.enc(),
    {
        Packet::error(self, error, contents)
    }

    /// An error response to the provided packet, with already-encoded
    /// payload bytes.
    pub fn error_raw(packet: &Packet, error: u16, contents: Vec<u8>) -> (r: Packet)
        ensures
            r.header == packet.header.spec_with_error(error),
            bytes_view(r.contents) == contents@,
    {
        Packet { header: packet.header.with_error(error), contents: bytes_from_vec(contents) }
    }

    /// An error response to the provided packet, with no payload.
    pub fn error_empty(packet: &Packet, error: u16) -> (r: Packet)
        ensures
            r.header == packet.header.spec_with_error(error),
            bytes_view(r.contents) == Seq::<u8>::empty(),
    {
        Packet { header: packet.header.with_error(error), contents: bytes_new() }
    }

    /// An error response to this packet, with no payload.
    pub fn respond_error_empty(&self, error: u16) -> (r: Packet)
        ensures
            r.header == self.header.spec_with_error(error),
            bytes_view(r.contents) == Seq::<u8>::empty(),
    {
        Packet::error_empty(self, error)
    }

    /// A notify packet for the provided routing key, carrying the encoded
    /// value.
    pub fn notify<C: Encodable, T: PacketComponents>(component: &T, contents: &C) -> (r: Packet)
        ensures
            r.header == (PacketHeader {
                component: component.spec_values().0,
                command: component.spec_values().1,
                error: 0,
                ty: PacketType::Notify,
                id: 0,
            }),
            bytes_view(r.contents) == contents.enc(),
    {
        let ids = component.values();
        Packet {
            header: PacketHeader::notify(ids.0, ids.1),
            contents: bytes_from_vec(contents.encode_bytes()),
        }
    }

    /// A notify packet for the provided routing key, with already-encoded
    /// payload bytes.
    pub fn notify_raw<T: PacketComponents>(component: &T, contents: Vec<u8>) -> (r: Packet)
        ensures
            r.header == (PacketHeader {
                component: component.spec_values().0,
                command: component.spec_values().1,
                error: 0,
                ty: PacketType::Notify,
                id: 0,
            }),
            bytes_view(r.contents) == contents@,
    {
        let ids = component.values();
        Packet { header: PacketHeader::notify(ids.0, ids.1), contents: bytes_from_vec(contents) }
    }

    /// A notify packet for the provided routing key, with no payload.
    pub fn notify_empty<T: PacketComponents>(component: &T) -> (r: Packet)
        ensures
            r.header == (PacketHeader {
                component: component.spec_values().0,
                command: component.spec_values().1,
                error: 0,
                ty: PacketType::Notify,
                id: 0,
            }),
            bytes_view(r.contents) == Seq::<u8>::empty(),
    {
        let ids = component.values();
        Packet { header: PacketHeader::notify(ids.0, ids.1), contents: bytes_new() }
    }

    /// A request packet with the provided id for the provided routing key,
    /// carrying the encoded value.
    pub fn request<C: Encodable, T: PacketComponents>(id: u16, component: &T, contents: &C) -> (r:
        Packet)
        ensures
            r.header == (PacketHeader {
                component: component.spec_values().0,
                command: component.spec_values().1,
                error: 0,
                ty: PacketType::Request,
                id,
            }),
            bytes_view(r.contents) == contents.enc(),
    {
        let ids = component.values();
        Packet {
            header: PacketHeader::request(id, ids.0, ids.1),
            contents: bytes_from_vec(contents.encode_bytes()),
        }
    }

    /// A request packet with the provided id for the provided routing key,
    /// with already-encoded payload bytes.
    pub fn request_raw<T: PacketComponents>(id: u16, component: &T, contents: Vec<u8>) -> (r:
        Packet)
        ensures
            r.header == (PacketHeader {
                component: component.spec_values().0,
                command: component.spec_values().1,
                error: 0,
                ty: PacketType::Request,
                id,
            }),
            bytes_view(r.contents) == contents@,
    {
        let ids = component.values();
        Packet { header: PacketHeader::request(id, ids.0, ids.1), contents: bytes_from_vec(contents) }
    }

    /// A request packet with the provided id for the provided routing key,
    /// with no payload.
    pub fn request_empty<T: PacketComponents>(id: u16, component: &T) -> (r: Packet)
        ensures
            r.header == (PacketHeader {
                component: component.spec_values().0,
                command: component.spec_values().1,
                error: 0,
                ty: PacketType::Request,
                id,
            }),
            bytes_view(r.contents) == Seq::<u8>::empty(),
    {
        let ids = component.values();
        Packet { header: PacketHeader::request(id, ids.0, ids.1), contents: bytes_new() }
    }

    /// Decodes this packet's payload as a value of the provided type.
    pub fn decode<C: Decodable>(&self) -> (r: DecodeResult<C>)
        ensures
            match r {
                Ok(v) => C::dec(bytes_view(self.contents)) matches Some((w, n)) && v.deep_view()
                    == w,
                Err(e) => C::dec(bytes_view(self.contents)) is None,
            },
    {
        let slice = bytes_as_slice(&self.contents);
        let mut reader = TdfReader::new(slice);
        C::decode(&mut reader)
    }

    /// Takes one whole packet off the front of the stream buffer, or
    /// returns `None` (leaving the buffer whole) when the packet's bytes
    /// are not all there yet.
    pub fn read(src: &mut bytes::BytesMut) -> (r: Option<Packet>)
        ensures
            match r {
                Some(p) => packet_dec(bytes_mut_view(*old(src))) matches Some((h, payload, n))
                    && p.header == h && bytes_view(p.contents) == payload && bytes_mut_view(
                    *final(src),
                ) == bytes_mut_view(*old(src)).skip(n),
                None => packet_dec(bytes_mut_view(*old(src))) is None && *final(src) == *old(src),
            },
    {
        let ghost s = bytes_mut_view(*src);
        let consumed: usize;
        let header: PacketHeader;
        let length: usize;
        {
            let slice = bytes_mut_as_slice(src);
            match parse_header(slice) {
                Some(hl) => {
                    header = hl.0;
                    length = hl.1;
                    consumed = hl.2;
                },
                None => {
                    return None;
                },
            }
        }
        let remaining = {
            let slice = bytes_mut_as_slice(src);
            slice.len() - consumed
        };
        if remaining < length {
            return None;
        }
        bytes_mut_advance(src, consumed);
        let body = bytes_mut_split_to(src, length);
        let contents = bytes_mut_freeze(body);
        proof {
            assert(bytes_view(contents) =~= s.subrange(consumed as int, consumed + length));
            assert(bytes_mut_view(*final(src)) =~= s.skip(consumed + length));
        }
        Some(Packet { header, contents })
    }

    /// Appends this packet's wire form to the stream buffer: the header
    /// for the payload's length, then the payload.
    pub fn write(&self, dst: &mut bytes::BytesMut)
        ensures
            bytes_mut_view(*final(dst)) == bytes_mut_view(*old(dst)) + packet_enc(
                self.header,
                bytes_view(self.contents),
            ),
    {
        let contents = bytes_as_slice(&self.contents);
        self.header.write(dst, contents.len());
        bytes_mut_extend(dst, contents);
        assert(bytes_mut_view(*dst) =~= bytes_mut_view(*old(dst)) + packet_enc(
            self.header,
            bytes_view(self.contents),
        ));
    }
}

/// Codec over stream buffers: whole packets out of a growable receive
/// buffer, and packets appended to a growable send buffer.
pub struct PacketCodec;

impl PacketCodec {
    /// Takes one whole packet off the front of the buffer, or returns
    /// `None` when more bytes are needed.
    pub fn decode(&mut self, src: &mut bytes::BytesMut) -> (r: Option<Packet>)
        ensures
            match r {
                Some(p) => packet_dec(bytes_mut_view(*old(src))) matches Some((h, payload, n))
                    && p.header == h && bytes_view(p.contents) == payload && bytes_mut_view(
                    *final(src),
                ) == bytes_mut_view(*old(src)).skip(n),
                None => packet_dec(bytes_mut_view(*old(src))) is None && *final(src) == *old(src),
            },
    {
        Packet::read(src)
    }

    /// Appends the packet's wire form to the buffer.
    pub fn encode(&mut self, item: &Packet, dst: &mut bytes::BytesMut)
        ensures
            bytes_mut_view(*final(dst)) == bytes_mut_view(*old(dst)) + packet_enc(
                item.header,
                bytes_view(item.contents),
            ),
    {
        item.write(dst);
    }
}

/// The encoded header is twelve bytes, or fourteen with the extended
/// length suffix, which is present exactly for payloads too long for the
/// plain length field.
pub proof fn lemma_header_len(h: PacketHeader, len: nat)
    ensures
        header_enc(h, len).len() == if len > 0xFFFF { 14int } else { 12int },
        header_enc(h, len)[9] == if len > 0xFFFF { 0x10u8 } else { 0x00u8 },
{
}

/// Packet framing round trip: the wire form of a packet decodes back to
/// its header and payload and consumes exactly the bytes emitted, which
/// number the header's length plus the payload's.
pub proof fn lemma_packet_round_trip(h: PacketHeader, payload: Seq<u8>)
    requires
        payload.len() < 0x1_0000_0000,
    ensures
        packet_enc(h, payload).len() == header_enc(h, payload.len()).len() + payload.len(),
        packet_dec(packet_enc(h, payload)) == Some(
            (h, payload, header_enc(h, payload.len()).len() + payload.len() as int),
        ),
{
    let e = packet_enc(h, payload);
    let hb = header_enc(h, payload.len());
    lemma_header_len(h, payload.len());
    let n = hb.len() as int;
    assert(e[0] == hb[0] && e[1] == hb[1] && e[2] == hb[2] && e[3] == hb[3] && e[4] == hb[4] && e[5]
        == hb[5] && e[6] == hb[6] && e[7] == hb[7] && e[8] == hb[8] && e[9] == hb[9] && e[10]
        == hb[10] && e[11] == hb[11]);
    let len = payload.len();
    let low = (len % 0x10000) as u16;
    assert(be16_at(e, 0) == low);
    assert(be16_at(e, 2) == h.component);
    assert(be16_at(e, 4) == h.command);
    assert(be16_at(e, 6) == h.error);
    assert(be16_at(e, 10) == h.id);
    assert(e[8] == h.ty.spec_hi());
    assert(PacketType::spec_from_value(h.ty.spec_hi() / 0x10) == h.ty);
    if len > 0xFFFF {
        assert(e[12] == hb[12] && e[13] == hb[13]);
        assert(be16_at(e, 12) == ((len / 0x10000) % 0x10000) as u16);
        assert((len / 0x10000) % 0x10000 == len / 0x10000) by {
            vstd::arithmetic::div_mod::lemma_small_mod(len / 0x10000, 0x10000);
        }
        vstd::arithmetic::div_mod::lemma_fundamental_div_mod(len as int, 0x10000);
        assert((be16_at(e, 12) as nat) * 0x10000 + (be16_at(e, 0) as nat) == len);
    }
    assert(header_dec(e) == Some((h, len, n)));
    assert(e.subrange(n, n + len as int) =~= payload);
}

/// Streaming needs-more: every strict prefix of a packet's wire form
/// decodes to nothing; only the whole packet comes out.
pub proof fn lemma_packet_needs_whole(h: PacketHeader, payload: Seq<u8>, k: int)
    requires
        payload.len() < 0x1_0000_0000,
        0 <= k < packet_enc(h, payload).len(),
    ensures
        packet_dec(packet_enc(h, payload).take(k)) is None,
{
    let e = packet_enc(h, payload);
    let t = e.take(k);
    lemma_header_len(h, payload.len());
    let hb = header_enc(h, payload.len());
    let n = hb.len() as int;
    if k < 12 {
    } else {
        assert(t[9] == e[9] && t[8] == e[8]);
        assert(t[0] == e[0] && t[1] == e[1]);
        let len = payload.len();
        if len > 0xFFFF {
            if k < 14 {
            } else {
                assert(t[12] == e[12] && t[13] == e[13]);
                assert(be16_at(t, 12) == be16_at(e, 12));
                assert(be16_at(t, 0) == be16_at(e, 0));
                assert((len / 0x10000) % 0x10000 == len / 0x10000) by {
                    vstd::arithmetic::div_mod::lemma_small_mod(len / 0x10000, 0x10000);
                }
                vstd::arithmetic::div_mod::lemma_fundamental_div_mod(len as int, 0x10000);
                assert(header_dec(t) matches Some((h2, plen, m)) && plen == len && m == 14);
                assert(t.len() < 14 + len);
            }
        } else {
            assert(header_dec(t) matches Some((h2, plen, m)) && plen == len && m == 12);
            assert(t.len() < 12 + len);
        }
    }
}

} // verus!
