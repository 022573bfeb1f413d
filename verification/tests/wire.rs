//! Tests for the tag, VarInt, string and value codecs.

use blaze_pk::codec::{Decodable, Encodable};
use blaze_pk::error::DecodeError;
use blaze_pk::reader::TdfReader;
use blaze_pk::tag::TdfType;
use blaze_pk::types::{Blob, Union, VarIntList};
use blaze_pk::writer::TdfWriter;

/// Tags of one to four characters pack to their known wire bytes.
#[test]
fn test_tagging() {
    const TAGS: [(&[u8], &[u8]); 4] = [
        (b"TEST", &[210, 92, 244]),
        (b"VALU", &[218, 27, 53]),
        (b"IP", &[167, 0, 0]),
        (b"A", &[132, 0, 0]),
    ];
    let mut writer = TdfWriter::default();
    for (tag, expected) in TAGS {
        writer.tag(tag, TdfType::VarInt);
        assert!(
            writer.buffer.len() == 4,
            "Ensuring that buffer length is 4 bytes"
        );
        assert_eq!(
            &writer.buffer[0..3],
            expected,
            "Checking the tag bytes match"
        );
        assert_eq!(
            writer.buffer[3],
            TdfType::VarInt.value(),
            "Checking that tdf type matches VarInt"
        );
        writer.clear();
    }
}

/// Writing a single byte stores exactly that value.
#[test]
fn test_write_byte() {
    let mut writer = TdfWriter::default();
    for i in 0..255 {
        writer.write_byte(i);
        assert_eq!(writer.buffer[0], i);
        writer.clear();
    }
}

/// Writing a slice appends exactly that slice.
#[test]
fn test_write_slice() {
    const SLICE: &[u8] = &[0, 125, 21, 1, 3, 15, 50, 30];
    let mut writer = TdfWriter::default();
    writer.write_slice(SLICE);
    assert_eq!(&writer.buffer, SLICE)
}

/// Every kind writes its own discriminant byte.
#[test]
fn test_write_type() {
    const TYPES: [TdfType; 11] = [
        TdfType::VarInt,
        TdfType::String,
        TdfType::Blob,
        TdfType::Group,
        TdfType::List,
        TdfType::Mapping,
        TdfType::Union,
        TdfType::VarIntList,
        TdfType::Pair,
        TdfType::Triple,
        TdfType::Float,
    ];
    let mut writer = TdfWriter::default();
    for ty in TYPES {
        let value = ty.value();
        writer.write_type(ty);
        assert_eq!(writer.buffer[0], value);
        writer.clear();
    }
}

/// Every u8 survives the VarInt round trip.
#[test]
fn test_u8() {
    for value in u8::MIN..u8::MAX {
        let mut out = TdfWriter { buffer: Vec::new() };
        value.encode(&mut out);
        let mut reader = TdfReader::new(&out.buffer);
        let v2 = u8::decode(&mut reader).unwrap();
        assert_eq!(value, v2)
    }
}

/// Every u16 survives the VarInt round trip.
#[test]
fn test_u16() {
    for value in u16::MIN..u16::MAX {
        let mut out = TdfWriter { buffer: Vec::new() };
        value.encode(&mut out);
        let mut reader = TdfReader::new(&out.buffer);
        let v2 = u16::decode(&mut reader).unwrap();
        assert_eq!(value, v2)
    }
}

/// VarInt boundary: 63 is one byte, 64 rolls into a continuation byte.
#[test]
fn varint_boundary() {
    let mut w = TdfWriter::new();
    w.write_u64(63);
    assert_eq!(w.buffer, vec![0x3F]);
    w.clear();
    w.write_u64(64);
    assert_eq!(w.buffer, vec![0x80, 0x01]);
    let mut r = TdfReader::new(&w.buffer);
    assert_eq!(r.read_u64().unwrap(), 64);
}

/// Large and signed integers survive their round trips.
#[test]
fn integer_round_trips() {
    let values: [u64; 5] = [0, 127, 300, 0xFFFF_FFFF, u64::MAX];
    for v in values {
        let mut w = TdfWriter::new();
        w.write_u64(v);
        let mut r = TdfReader::new(&w.buffer);
        assert_eq!(r.read_u64().unwrap(), v);
    }
    for v in [i64::MIN, -1, 0, 1, i64::MAX] {
        let mut w = TdfWriter::new();
        v.encode(&mut w);
        let mut r = TdfReader::new(&w.buffer);
        assert_eq!(i64::decode(&mut r).unwrap(), v);
    }
    for v in [i8::MIN, -1, 0, i8::MAX] {
        let mut w = TdfWriter::new();
        v.encode(&mut w);
        let mut r = TdfReader::new(&w.buffer);
        assert_eq!(i8::decode(&mut r).unwrap(), v);
    }
    for v in [true, false] {
        let mut w = TdfWriter::new();
        v.encode(&mut w);
        let mut r = TdfReader::new(&w.buffer);
        assert_eq!(bool::decode(&mut r).unwrap(), v);
    }
}

/// Tag pack: the label TEST with the string kind becomes its four known
/// wire bytes, and reading them back gives the label and kind.
#[test]
fn tag_pack_bytes() {
    let mut w = TdfWriter::new();
    w.tag(b"TEST", TdfType::String);
    assert_eq!(w.buffer, vec![0xD2, 0x5C, 0xF4, 0x01]);
    let mut r = TdfReader::new(&w.buffer);
    let tag = r.read_tag().unwrap();
    assert_eq!(tag.0, b"TEST".to_vec());
    assert_eq!(tag.1, TdfType::String);
}

/// Short labels come back with their padding elided.
#[test]
fn tag_short_label_round_trip() {
    let mut w = TdfWriter::new();
    w.tag(b"IP", TdfType::Blob);
    let mut r = TdfReader::new(&w.buffer);
    let tag = r.read_tag().unwrap();
    assert_eq!(tag.0, b"IP".to_vec());
    assert_eq!(tag.1, TdfType::Blob);
}

/// String with terminator: the payload counts the NUL, and decoding
/// strips it.
#[test]
fn string_with_null() {
    let mut w = TdfWriter::new();
    w.write_str("abc");
    assert_eq!(w.buffer, vec![0x04, 0x61, 0x62, 0x63, 0x00]);
    let mut r = TdfReader::new(&w.buffer);
    assert_eq!(r.read_string().unwrap(), "abc");
}

/// Strings with several byte UTF-8 characters survive the round trip.
#[test]
fn string_utf8_round_trip() {
    let text = "h\u{e9}llo \u{1F600}";
    let mut w = TdfWriter::new();
    w.write_str(text);
    let mut r = TdfReader::new(&w.buffer);
    assert_eq!(r.read_string().unwrap(), text);
}

/// Bytes that are not UTF-8 are rejected rather than mangled.
#[test]
fn string_invalid_utf8_rejected() {
    // length 3: two raw bytes and the terminator; 0xFF is not UTF-8
    let data: Vec<u8> = vec![3, 0xFF, 0xFE, 0x00];
    let mut r = TdfReader::new(&data);
    assert!(matches!(r.read_string(), Err(DecodeError::Other(_))));
}

/// Unknown kind discriminants give the unknown-kind error, never the
/// end-of-buffer error.
#[test]
fn unknown_kind_rejected() {
    for b in 0x0Bu8..=0xFF {
        let data = [b];
        let mut r = TdfReader::new(&data);
        match r.read_type() {
            Err(DecodeError::UnknownType { ty }) => assert_eq!(ty, b),
            other => panic!("expected unknown kind for {b}: {other:?}"),
        }
    }
    let mut r = TdfReader::new(&[]);
    assert!(matches!(r.read_type(), Err(DecodeError::UnexpectedEof { .. })));
    let mut r = TdfReader::new(&[0x0A]);
    assert_eq!(r.read_type().unwrap(), TdfType::Float);
}

/// Blobs keep their exact bytes through the round trip.
#[test]
fn blob_round_trip() {
    let blob = Blob(vec![1, 2, 250, 0, 7]);
    let bytes = blob.encode_bytes();
    assert_eq!(bytes, vec![5, 1, 2, 250, 0, 7]);
    let mut r = TdfReader::new(&bytes);
    let back = Blob::decode(&mut r).unwrap();
    assert_eq!(back.0, vec![1, 2, 250, 0, 7]);
}

/// Lists carry their element kind and length and give back their
/// elements.
#[test]
fn list_round_trip() {
    let values: Vec<u32> = vec![1, 70, 300];
    let bytes = values.encode_bytes();
    // element kind, count, then 1, then 70 and 300 as two-byte VarInts
    assert_eq!(bytes[0], 0x00);
    assert_eq!(bytes[1], 3);
    let mut r = TdfReader::new(&bytes);
    let back = Vec::<u32>::decode(&mut r).unwrap();
    assert_eq!(back, values);
}

/// A list of another element kind than expected is a kind error.
#[test]
fn list_wrong_kind_rejected() {
    let values: Vec<u32> = vec![1, 2];
    let bytes = values.encode_bytes();
    let mut r = TdfReader::new(&bytes);
    match Vec::<String>::decode(&mut r) {
        Err(DecodeError::InvalidType { expected, actual }) => {
            assert_eq!(expected, TdfType::String);
            assert_eq!(actual, TdfType::VarInt);
        },
        other => panic!("expected a kind error: {other:?}"),
    }
}

/// VarInt lists frame their values with a bare count.
#[test]
fn varintlist_round_trip() {
    let mut list: VarIntList<u64> = VarIntList::new();
    list.insert(1);
    list.insert(500);
    let bytes = list.encode_bytes();
    assert_eq!(bytes[0], 2);
    let mut r = TdfReader::new(&bytes);
    let back = VarIntList::<u64>::decode(&mut r).unwrap();
    assert_eq!(back.0, vec![1, 500]);
}

/// Union round trip: unset is the single marker byte; a set union carries
/// its key, the inner tag, and the value.
#[test]
fn union_round_trip() {
    let unset: Union<u32> = Union::unset();
    assert_eq!(unset.encode_bytes(), vec![0x7F]);

    let set = Union::set(0x02, "VALU", 42u32);
    let bytes = set.encode_bytes();
    assert_eq!(bytes, vec![0x02, 0xDA, 0x1B, 0x35, 0x00, 42]);

    let mut r = TdfReader::new(&bytes);
    let back = Union::<u32>::decode(&mut r).unwrap();
    match back {
        Union::Valued { key, tag, value } => {
            assert_eq!(key, 0x02);
            assert_eq!(tag, b"VALU".to_vec());
            assert_eq!(value, 42);
        },
        Union::Unset => panic!("union decoded as unset"),
    }

    let mut r = TdfReader::new(&[0x7F]);
    let back = Union::<u32>::decode(&mut r).unwrap();
    assert!(back.is_unset());
}

/// Pairs and triples are bare VarInt runs.
#[test]
fn pair_triple_round_trip() {
    let pair: (u32, u64) = (5, 256);
    let bytes = pair.encode_bytes();
    let mut r = TdfReader::new(&bytes);
    assert_eq!(<(u32, u64)>::decode(&mut r).unwrap(), pair);

    let triple: (u8, u16, u32) = (255, 6000, 6743);
    let bytes = triple.encode_bytes();
    let mut r = TdfReader::new(&bytes);
    assert_eq!(<(u8, u16, u32)>::decode(&mut r).unwrap(), triple);
}

/// A truncated buffer gives the end-of-buffer error.
#[test]
fn eof_reported() {
    let mut r = TdfReader::new(&[0x80]);
    assert!(matches!(r.read_u64(), Err(DecodeError::UnexpectedEof { .. })));
    let mut r = TdfReader::new(&[5, 1, 2]);
    assert!(matches!(r.read_slice(5), Err(DecodeError::UnexpectedEof { .. })));
}
