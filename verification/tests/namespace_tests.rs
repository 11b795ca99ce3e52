use moq_relay_ietf::codec::{DecodeError, EncodeError};
use moq_relay_ietf::namespace::{TrackNamespace, TrackNamespaceError, TupleField, MAX_FIELDS};

#[test]
fn encode_decode() {
    let mut buf: Vec<u8> = Vec::new();

    let t = TrackNamespace::from_utf8_path("test/path/to/resource");
    t.encode(&mut buf).unwrap();
    assert_eq!(
        buf,
        vec![
            0x04, // 4 tuple fields
            // Field 1: "test"
            0x04, 0x74, 0x65, 0x73, 0x74,
            // Field 2: "path"
            0x04, 0x70, 0x61, 0x74, 0x68,
            // Field 3: "to"
            0x02, 0x74, 0x6f,
            // Field 4: "resource"
            0x08, 0x72, 0x65, 0x73, 0x6f, 0x75, 0x72, 0x63, 0x65
        ]
    );
    let (decoded, consumed) = TrackNamespace::decode(&buf, 0).unwrap();
    assert_eq!(consumed, buf.len());
    assert_eq!(decoded, t);

    // Alternate construction
    let mut buf: Vec<u8> = Vec::new();
    let mut t = TrackNamespace::new();
    t.add(TupleField::from_utf8("test"));
    t.encode(&mut buf).unwrap();
    assert_eq!(
        buf,
        vec![
            0x01, // 1 tuple field
            // Field 1: "test"
            0x04, 0x74, 0x65, 0x73, 0x74
        ]
    );
    let (decoded, consumed) = TrackNamespace::decode(&buf, 0).unwrap();
    assert_eq!(consumed, buf.len());
    assert_eq!(decoded, t);
}

#[test]
fn encode_too_large() {
    let mut buf: Vec<u8> = Vec::new();

    let mut t = TrackNamespace::new();
    for i in 0..MAX_FIELDS + 1 {
        t.add(TupleField::from_utf8(&format!("field{}", i)));
    }

    let encoded = t.encode(&mut buf);
    assert!(matches!(encoded.unwrap_err(), EncodeError::FieldBoundsExceeded(_)));
    assert!(buf.is_empty());
}

#[test]
fn decode_too_large() {
    let mut data: Vec<u8> = vec![0x00; 256]; // Create a vector with 256 bytes
    data[0] = (MAX_FIELDS + 1) as u8; // Set first byte (count) to 33 as a VarInt
    let decoded = TrackNamespace::decode(&data, 0);
    assert!(matches!(decoded.unwrap_err(), DecodeError::FieldBoundsExceeded(_)));
}

#[test]
fn decode_truncated() {
    // One field of length 4 announced, but only two payload bytes present.
    let data: Vec<u8> = vec![0x01, 0x04, 0x74, 0x65];
    let decoded = TrackNamespace::decode(&data, 0);
    assert!(matches!(decoded.unwrap_err(), DecodeError::UnexpectedEnd));
}

#[test]
fn encode_decode_long_field() {
    // A field longer than 63 bytes forces a two-byte varint length.
    let long = "x".repeat(100);
    let mut t = TrackNamespace::new();
    t.add(TupleField::from_utf8(&long));
    t.add(TupleField::from_utf8(""));
    let mut buf: Vec<u8> = Vec::new();
    t.encode(&mut buf).unwrap();
    assert_eq!(buf[0], 0x02);
    assert_eq!(buf[1], 0x40); // two-byte varint: 0x40 tag, high bits of 100
    assert_eq!(buf[2], 100);
    let (decoded, consumed) = TrackNamespace::decode(&buf, 0).unwrap();
    assert_eq!(consumed, buf.len());
    assert_eq!(decoded, t);
}

#[test]
fn try_from_str() {
    let ns: TrackNamespace = TrackNamespace::try_from_str("test/path/to/resource").unwrap();
    assert_eq!(ns.fields.len(), 4);
    assert_eq!(ns.to_utf8_path(), "/test/path/to/resource");
}

#[test]
fn try_from_string() {
    let path = String::from("test/path");
    let ns: TrackNamespace = TrackNamespace::try_from_string(path).unwrap();
    assert_eq!(ns.fields.len(), 2);
    assert_eq!(ns.to_utf8_path(), "/test/path");
}

#[test]
fn try_from_vec_str() {
    let parts = vec!["test", "path", "to", "resource"];
    let ns: TrackNamespace = TrackNamespace::try_from_strs(parts).unwrap();
    assert_eq!(ns.fields.len(), 4);
    assert_eq!(ns.to_utf8_path(), "/test/path/to/resource");
}

#[test]
fn try_from_vec_string() {
    let parts = vec![String::from("test"), String::from("path")];
    let ns: TrackNamespace = TrackNamespace::try_from_strings(parts).unwrap();
    assert_eq!(ns.fields.len(), 2);
    assert_eq!(ns.to_utf8_path(), "/test/path");
}

#[test]
fn try_from_vec_tuple_field() {
    let fields = vec![TupleField::from_utf8("test"), TupleField::from_utf8("path")];
    let ns: TrackNamespace = TrackNamespace::try_from_fields(fields).unwrap();
    assert_eq!(ns.fields.len(), 2);
    assert_eq!(ns.to_utf8_path(), "/test/path");
}

#[test]
fn try_from_too_many_fields() {
    let mut fields = Vec::new();
    for i in 0..MAX_FIELDS + 1 {
        fields.push(TupleField::from_utf8(&format!("field{}", i)));
    }
    let result = TrackNamespace::try_from_fields(fields);
    assert!(matches!(result.unwrap_err(), TrackNamespaceError::TooManyFields(33, 32)));
}

#[test]
fn try_from_field_too_large() {
    let large_value = "x".repeat(4096 + 1);
    let fields = vec![TupleField { value: large_value.into_bytes() }];
    let result = TrackNamespace::try_from_fields(fields);
    assert!(matches!(result.unwrap_err(), TrackNamespaceError::FieldTooLarge(4097, 4096)));
}

#[test]
fn from_utf8_path_keeps_empty_segments() {
    // A leading slash yields a leading empty field; try_from_str drops it.
    let ns = TrackNamespace::from_utf8_path("/a/b");
    assert_eq!(ns.fields.len(), 3);
    assert!(ns.fields[0].value.is_empty());

    let ns2 = TrackNamespace::try_from_str("/a/b").unwrap();
    assert_eq!(ns2.fields.len(), 2);
    assert_eq!(ns2.to_utf8_path(), "/a/b");
}

#[test]
fn namespace_equality_is_field_wise() {
    let a = TrackNamespace::try_from_str("a/b").unwrap();
    let b = TrackNamespace::try_from_str("a/b").unwrap();
    let c = TrackNamespace::try_from_str("a/c").unwrap();
    assert_eq!(a, b);
    assert_ne!(a, c);
    let mut d = a.clone();
    assert_eq!(a, d);
    d.clear();
    assert_eq!(d.fields.len(), 0);
    assert_ne!(a, d);
}
