//! Tests for maps, field lookup, packet framing and routing.

use blaze_pk::codec::{Decodable, Encodable};
use blaze_pk::error::DecodeError;
use blaze_pk::maps::TdfMap;
use blaze_pk::packet::{Packet, PacketCodec, PacketHeader, PacketType};
use blaze_pk::reader::TdfReader;
use blaze_pk::router::{HandleError, Router};
use blaze_pk::tag::TdfType;
use blaze_pk::tagging;
use blaze_pk::writer::TdfWriter;
use bytes::BytesMut;

#[test]
fn test_map_ord() {
    let mut map = TdfMap::<String, String>::new();

    map.insert(String::from("key1"), String::from("ABC"));
    map.insert(String::from("key2"), String::from("ABC"));
    map.insert(String::from("key4"), String::from("ABC"));
    map.insert(String::from("key24"), String::from("ABC"));
    map.insert(String::from("key11"), String::from("ABC"));
    map.insert(String::from("key17"), String::from("ABC"));

    map.order();

    println!("{map:?}")
}

#[test]
fn test_map_extend() {
    let mut mapa = TdfMap::<String, String>::new();

    mapa.insert(String::from("key1"), String::from("ABC"));
    mapa.insert(String::from("key2"), String::from("ABC"));
    mapa.insert(String::from("key4"), String::from("ABC"));
    mapa.insert(String::from("key24"), String::from("ABC"));
    mapa.insert(String::from("key11"), String::from("ABC"));
    mapa.insert(String::from("key17"), String::from("ABC"));

    let mut mapb = TdfMap::<String, String>::new();

    mapb.insert(String::from("key1"), String::from("DDD"));
    mapb.insert(String::from("key2"), String::from("ABC"));
    mapb.insert(String::from("key4"), String::from("DDD"));
    mapb.insert(String::from("abc"), String::from("ABC"));

    mapa.extend(mapb);
    println!("{mapa:?}")
}

#[test]
fn types_test() {
    let mut map = TdfMap::<String, String>::new();
    map.insert(String::from("Test"), String::from("Abc"));

    let value = map.get(&String::from("Test"));

    assert_eq!(value.unwrap(), "Abc");

    println!("{value:?}")
}

/// Ordering leaves the keys sorted and the pairs intact.
#[test]
fn map_order_sorts_keys() {
    let mut map = TdfMap::<String, String>::new();
    map.insert(String::from("key4"), String::from("d"));
    map.insert(String::from("key1"), String::from("a"));
    map.insert(String::from("key24"), String::from("c"));
    map.insert(String::from("key11"), String::from("b"));
    map.order();
    let keys: Vec<&String> = map.keys().iter().collect();
    assert_eq!(keys, vec!["key1", "key11", "key24", "key4"]);
    // pairing preserved
    assert_eq!(map.get(&String::from("key4")).unwrap(), "d");
    assert_eq!(map.get(&String::from("key11")).unwrap(), "b");
}

/// Ordering also sorts integer keys.
#[test]
fn map_order_sorts_int_keys() {
    let mut map = TdfMap::<u32, u32>::new();
    map.insert(30, 3);
    map.insert(10, 1);
    map.insert(20, 2);
    map.order();
    assert_eq!(map.keys(), &vec![10, 20, 30]);
    assert_eq!(map.values(), &vec![1, 2, 3]);
}

/// Extending replaces values of present keys in place and appends new
/// keys.
#[test]
fn map_extend_semantics() {
    let mut mapa = TdfMap::<String, String>::new();
    mapa.insert(String::from("k1"), String::from("ABC"));
    mapa.insert(String::from("k2"), String::from("ABC"));
    let mut mapb = TdfMap::<String, String>::new();
    mapb.insert(String::from("k1"), String::from("DDD"));
    mapb.insert(String::from("k3"), String::from("EEE"));
    mapa.extend(mapb);
    assert_eq!(mapa.len(), 3);
    assert_eq!(mapa.get(&String::from("k1")).unwrap(), "DDD");
    assert_eq!(mapa.get(&String::from("k2")).unwrap(), "ABC");
    assert_eq!(mapa.get(&String::from("k3")).unwrap(), "EEE");
    assert_eq!(mapa.keys()[0], "k1");
}

/// Map entries survive the wire round trip in order.
#[test]
fn map_round_trip() {
    let mut map = TdfMap::<u32, String>::new();
    map.insert(7, String::from("seven"));
    map.insert(1, String::from("one"));
    let bytes = map.encode_bytes();
    assert_eq!(bytes[0], TdfType::VarInt.value());
    assert_eq!(bytes[1], TdfType::String.value());
    assert_eq!(bytes[2], 2);
    let mut r = TdfReader::new(&bytes);
    let back = TdfMap::<u32, String>::decode(&mut r).unwrap();
    assert_eq!(back.keys(), &vec![7, 1]);
    assert_eq!(back.values()[0], "seven");
    assert_eq!(back.values()[1], "one");
}

/// Mismatched map kinds are rejected as kind errors.
#[test]
fn map_wrong_kind_rejected() {
    let mut map = TdfMap::<u32, u32>::new();
    map.insert(1, 2);
    let bytes = map.encode_bytes();
    let mut r = TdfReader::new(&bytes);
    assert!(matches!(
        TdfMap::<String, u32>::decode(&mut r),
        Err(DecodeError::InvalidType { .. })
    ));
}

/// Map remove, pop and index behave by first match and last entry.
#[test]
fn map_access() {
    let mut map = TdfMap::<u32, String>::new();
    map.insert(5, String::from("five"));
    map.insert(6, String::from("six"));
    let (k, v) = map.remove(&5).unwrap();
    assert_eq!(k, 5);
    assert_eq!(v, "five");
    assert!(map.remove(&5).is_none());
    let (k, v) = map.pop().unwrap();
    assert_eq!(k, 6);
    assert_eq!(v, "six");
    assert!(map.pop().is_none());
}

/// Fields are found whatever order the sender wrote them in: the three
/// orders all decode to the same record.
#[test]
fn field_order_independent() {
    let write_a = |out: &mut Vec<u8>| tagging::tag_u8(out, "A", 9);
    let write_b = |out: &mut Vec<u8>| tagging::tag_str(out, "B", "hey");
    let write_c = |out: &mut Vec<u8>| tagging::tag_u16(out, "C", 4000);

    let orders: [[&dyn Fn(&mut Vec<u8>); 3]; 3] = [
        [&write_a, &write_b, &write_c],
        [&write_c, &write_b, &write_a],
        [&write_b, &write_a, &write_c],
    ];
    for order in orders {
        let mut out: Vec<u8> = Vec::new();
        for write in order {
            write(&mut out);
        }
        let mut r = TdfReader::new(&out);
        let a: u8 = tagging::expect_tag(&mut r, "A").unwrap();
        let mut r = TdfReader::new(&out);
        let b: String = tagging::expect_tag(&mut r, "B").unwrap();
        let mut r = TdfReader::new(&out);
        let c: u16 = tagging::expect_tag(&mut r, "C").unwrap();
        assert_eq!((a, b.as_str(), c), (9, "hey", 4000));
    }
}

/// Skipping passes over whole values of every shape, including nested
/// groups, so later fields stay reachable.
#[test]
fn skip_reaches_later_fields() {
    let mut w = TdfWriter::new();
    w.tag_group(b"GRP");
    w.tag_str(b"INNR", "deep");
    w.tag_list_start(b"LST", TdfType::VarInt, 2);
    w.write_u64(1);
    w.write_u64(2);
    w.tag_group_end();
    w.tag_union_unset(b"OPT");
    w.tag_u32(b"WANT", 1234);

    let mut r = TdfReader::new(&w.buffer);
    r.until_tag(b"WANT", TdfType::VarInt).unwrap();
    assert_eq!(r.read_u32().unwrap(), 1234);

    // a group carrying the opaque leading marker byte also skips whole
    let mut w = TdfWriter::new();
    w.tag_group(b"GRP");
    w.write_byte(2);
    w.tag_u8(b"INNR", 3);
    w.tag_group_end();
    w.tag_u32(b"WANT", 77);
    let mut r = TdfReader::new(&w.buffer);
    r.until_tag(b"WANT", TdfType::VarInt).unwrap();
    assert_eq!(r.read_u32().unwrap(), 77);

    // the speculative variant rewinds on a miss
    let mut r = TdfReader::new(&w.buffer);
    assert!(!r.try_until_tag(b"NOPE", TdfType::VarInt));
    assert_eq!(r.cursor, 0);
    assert!(r.try_until_tag(b"GRP", TdfType::Group));
}

/// A found tag of the wrong kind is a tag-kind error; a missing tag is a
/// missing-tag error.
#[test]
fn until_tag_errors() {
    let mut w = TdfWriter::new();
    w.tag_u8(b"AAA", 1);
    let mut r = TdfReader::new(&w.buffer);
    assert!(matches!(
        r.until_tag(b"AAA", TdfType::String),
        Err(DecodeError::InvalidTagType { .. })
    ));
    let mut r = TdfReader::new(&w.buffer);
    assert!(matches!(
        r.until_tag(b"BBB", TdfType::VarInt),
        Err(DecodeError::MissingTag { .. })
    ));
}

/// The expect helpers find list and map headers and hand back the counts.
#[test]
fn expect_list_and_map() {
    let mut out: Vec<u8> = Vec::new();
    tagging::tag_u8(&mut out, "PAD", 1);
    tagging::tag_list_start(&mut out, "LST", TdfType::VarInt, 3);
    {
        let mut w = TdfWriter::new();
        w.write_u64(5);
        w.write_u64(6);
        w.write_u64(7);
        out.extend_from_slice(&w.buffer);
    }
    let mut r = TdfReader::new(&out);
    let count = tagging::expect_list(&mut r, "LST", TdfType::VarInt).unwrap();
    assert_eq!(count, 3);
    assert_eq!(r.read_u64().unwrap(), 5);

    let mut out: Vec<u8> = Vec::new();
    tagging::tag_map_start(&mut out, "MAP", TdfType::VarInt, TdfType::VarInt, 2);
    let mut r = TdfReader::new(&out);
    let count = tagging::expect_map(&mut r, "MAP", TdfType::VarInt, TdfType::VarInt).unwrap();
    assert_eq!(count, 2);

    // a list of another element kind than expected names both kinds
    let mut out: Vec<u8> = Vec::new();
    tagging::tag_list_start(&mut out, "LST", TdfType::String, 0);
    let mut r = TdfReader::new(&out);
    match tagging::expect_list(&mut r, "LST", TdfType::VarInt) {
        Err(DecodeError::InvalidType { expected, actual }) => {
            assert_eq!(expected, TdfType::VarInt);
            assert_eq!(actual, TdfType::String);
        },
        other => panic!("expected a kind error: {other:?}"),
    }
}

/// The tagging free functions write the same bytes as the writer methods.
#[test]
fn tagging_matches_writer() {
    let mut out: Vec<u8> = Vec::new();
    tagging::tag_u8(&mut out, "TEST", 7);
    tagging::tag_str(&mut out, "VALU", "hi");
    tagging::tag_union_unset(&mut out, "OPT");
    tagging::tag_group_end(&mut out);

    let mut w = TdfWriter::new();
    w.tag_u8(b"TEST", 7);
    w.tag_str(b"VALU", "hi");
    w.tag_union_unset(b"OPT");
    w.tag_group_end();

    assert_eq!(out, w.buffer);
}

/// Packet framing round trip through a stream buffer: the emitted bytes
/// count header plus payload, and decoding returns the same packet.
#[test]
fn packet_round_trip() {
    let header = PacketHeader::request(42, 4, 1);
    let payload = 777u32.encode_bytes();
    let packet = Packet::raw(header, payload.clone());

    let mut buf = BytesMut::new();
    let mut codec = PacketCodec;
    codec.encode(&packet, &mut buf);
    assert_eq!(buf.len(), 12 + payload.len());

    let back = codec.decode(&mut buf).unwrap();
    assert_eq!(back.header, header);
    assert_eq!(back.contents.as_ref(), payload.as_slice());
    assert_eq!(buf.len(), 0);
    assert_eq!(back.decode::<u32>().unwrap(), 777);
}

/// Extended packet: a payload of 70,000 bytes takes the fourteen-byte
/// header, flags the extension, and carries bits 16 to 31 in the suffix.
#[test]
fn extended_packet() {
    let header = PacketHeader::notify(1, 2);
    let hb = header.header_bytes(70_000);
    assert_eq!(hb.len(), 14);
    assert_eq!(&hb[0..2], &[0x11, 0x70]);
    assert_eq!(hb[9], 0x10);
    assert_eq!(&hb[12..14], &[0x00, 0x01]);

    let payload = vec![0xABu8; 70_000];
    let packet = Packet::raw(header, payload.clone());
    let mut buf = BytesMut::new();
    packet.write(&mut buf);
    assert_eq!(buf.len(), 14 + 70_000);
    let back = Packet::read(&mut buf).unwrap();
    assert_eq!(back.header, header);
    assert_eq!(back.contents.len(), 70_000);
    assert_eq!(back.contents.as_ref(), payload.as_slice());
}

/// A short packet uses the plain twelve-byte header and no extension.
#[test]
fn short_packet_no_extension() {
    let header = PacketHeader::notify(1, 2);
    let hb = header.header_bytes(65_535);
    assert_eq!(hb.len(), 12);
    assert_eq!(hb[9], 0x00);
    let hb = header.header_bytes(65_536);
    assert_eq!(hb.len(), 14);
    assert_eq!(hb[9], 0x10);
}

/// Streaming partial decode: every strict prefix of a packet's bytes
/// yields nothing and leaves the buffer whole.
#[test]
fn streaming_needs_whole_packet() {
    let header = PacketHeader::request(7, 9, 2);
    let packet = Packet::raw(header, vec![1, 2, 3, 4, 5]);
    let mut full = BytesMut::new();
    packet.write(&mut full);
    let total = full.len();
    for k in 0..total {
        let mut partial = BytesMut::new();
        partial.extend_from_slice(&full[0..k]);
        assert!(Packet::read(&mut partial).is_none());
        assert_eq!(partial.len(), k);
    }
    let back = Packet::read(&mut full).unwrap();
    assert_eq!(back.header, header);
}

/// Header constructors set their kinds and keep the addressed path.
#[test]
fn header_constructors() {
    let h = PacketHeader::request(3, 10, 20);
    let r = h.response();
    assert_eq!(r.ty, PacketType::Response);
    assert_eq!((r.component, r.command, r.id), (10, 20, 3));
    let e = h.with_error(0xBEEF);
    assert_eq!(e.ty, PacketType::Error);
    assert_eq!(e.error, 0xBEEF);
    assert!(h.path_matches(&r));
    let n = PacketHeader::notify(10, 21);
    assert!(!h.path_matches(&n));
    assert_eq!(PacketType::from_value(0x2), PacketType::Notify);
    assert_eq!(PacketType::from_value(0x9), PacketType::Request);
}

/// Router dispatch: a registered key comes back with its slot, and the
/// response built for the request mirrors its header under the response
/// kind and carries the handler's value.
#[test]
fn router_dispatch() {
    let mut router = Router::new();
    let slot = router.route(4, 1, false);
    assert_eq!(slot, 0);
    // same key keeps its slot; a new key gets the next
    assert_eq!(router.route(4, 1, false), 0);
    assert_eq!(router.route(4, 2, false), 1);

    let request = Packet::raw(PacketHeader::request(42, 4, 1), 777u32.encode_bytes());
    let (found, request) = router.handle(request).unwrap();
    assert_eq!(found, 0);
    assert_eq!(request.decode::<u32>().unwrap(), 777);

    let response = request.respond(&999u32);
    assert_eq!(response.header.ty, PacketType::Response);
    assert_eq!(response.header.component, 4);
    assert_eq!(response.header.command, 1);
    assert_eq!(response.header.id, 42);
    assert_eq!(response.decode::<u32>().unwrap(), 999);
}

/// Router with no route for the packet's key reports the missing handler
/// and returns the packet untouched.
#[test]
fn router_missing_handler() {
    let mut router = Router::new();
    router.route(4, 1, false);
    let packet = Packet::raw(PacketHeader::request(1, 9, 9), Vec::new());
    let header = packet.header;
    match router.handle(packet) {
        Err(HandleError::MissingHandler(p)) => assert_eq!(p.header, header),
        other => panic!("expected a missing handler: {other:?}"),
    }
    // a notify packet does not match a request route with the same ids
    let packet = Packet::raw(PacketHeader::notify(4, 1), Vec::new());
    assert!(matches!(
        router.handle(packet),
        Err(HandleError::MissingHandler(_))
    ));
}

/// Error and empty response constructors mirror the request.
#[test]
fn response_constructors() {
    let request = Packet::raw(PacketHeader::request(5, 1, 2), Vec::new());
    let empty = request.respond_empty();
    assert_eq!(empty.header.ty, PacketType::Response);
    assert_eq!(empty.contents.len(), 0);
    let err = request.respond_error_empty(0x4009);
    assert_eq!(err.header.ty, PacketType::Error);
    assert_eq!(err.header.error, 0x4009);
    assert_eq!(err.header.id, 5);
    let err2 = Packet::error(&request, 7, &1u8);
    assert_eq!(err2.header.error, 7);
    assert_eq!(err2.decode::<u8>().unwrap(), 1);
}

/// The diagnostic dump lists each field with its kind and annotates
/// malformed payloads with the bytes it had to leave.
#[test]
fn stringify_dump() {
    let mut w = TdfWriter::new();
    w.tag_u8(b"AB", 9);
    w.tag_str(b"CD", "x");
    let mut r = TdfReader::new(&w.buffer);
    let mut out: Vec<u8> = Vec::new();
    r.stringify(&mut out).unwrap();
    assert_eq!(String::from_utf8(out).unwrap(), "AB: VarInt\nCD: String\n");

    // a string field whose announced length runs past the buffer
    let mut w = TdfWriter::new();
    w.tag(b"EF", TdfType::String);
    w.write_byte(60);
    let mut r = TdfReader::new(&w.buffer);
    let mut out: Vec<u8> = Vec::new();
    assert!(r.stringify(&mut out).is_err());
    let text = String::from_utf8(out).unwrap();
    assert!(text.starts_with("EF: String\n"), "{text}");
    assert!(
        text.ends_with("remaining: 0 bytes, cause: unexpected end of buffer\n"),
        "{text}"
    );
}

/// Ordering is stable: entries with equal keys keep their relative order.
#[test]
fn map_order_stable() {
    let mut map = TdfMap::<u32, u32>::new();
    map.insert(2, 20);
    map.insert(1, 10);
    map.insert(2, 21);
    map.insert(1, 11);
    map.insert(2, 22);
    map.order();
    assert_eq!(map.keys(), &vec![1, 1, 2, 2, 2]);
    assert_eq!(map.values(), &vec![10, 11, 20, 21, 22]);
}
