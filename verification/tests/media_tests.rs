use moq_relay_ietf::session::SessionError;
use moq_relay_ietf::subgroup::{
    accept_stream_header, dispatch_datagram, DatagramDispatch, StreamHeader, SubgroupConsumer,
    SubgroupHeader, SubgroupObject,
};
use moq_relay_ietf::varint::{decode_varint, encode_varint, VARINT_MAX};

#[test]
fn object_ids_are_cumulative_sums() {
    // Absolute ids reconstruct as the running sum of the deltas, starting
    // at zero, and never decrease.
    let mut consumer = SubgroupConsumer::new();
    let deltas: Vec<u64> = vec![0, 1, 0, 3, 2];
    let expected: Vec<u64> = vec![0, 1, 1, 4, 6];
    let mut seen: Vec<u64> = Vec::new();
    for d in &deltas {
        let obj = SubgroupObject { object_id_delta: *d, payload_length: 0, status: None };
        seen.push(consumer.begin_object(&obj).unwrap());
    }
    assert_eq!(seen, expected);
    for w in seen.windows(2) {
        assert!(w[0] <= w[1]);
    }
    assert!(consumer.stream_end().is_ok());
}

#[test]
fn truncated_payload_is_wrong_size() {
    let mut consumer = SubgroupConsumer::new();
    let obj = SubgroupObject { object_id_delta: 0, payload_length: 10, status: None };
    consumer.begin_object(&obj).unwrap();
    consumer.feed_payload(4);
    // The stream ends with six payload bytes missing.
    assert!(matches!(consumer.stream_end().unwrap_err(), SessionError::WrongSize));
    // Fully fed, the stream may end.
    consumer.feed_payload(6);
    assert!(consumer.stream_end().is_ok());
}

#[test]
fn only_subgroup_streams_are_served() {
    let h = SubgroupHeader {
        track_alias: 1,
        group_id: 2,
        subgroup_id: 0,
        publisher_priority: 127,
        has_extension_headers: false,
    };
    assert_eq!(accept_stream_header(&StreamHeader::Subgroup(h)).unwrap(), h);
    let r = accept_stream_header(&StreamHeader::Other);
    assert!(matches!(r.unwrap_err(), SessionError::Unimplemented(_)));
}

#[test]
fn unknown_datagram_alias_is_discarded() {
    assert_eq!(dispatch_datagram(None), DatagramDispatch::Discard);
    assert_eq!(dispatch_datagram(Some(8)), DatagramDispatch::Deliver(8));
}

#[test]
fn varint_boundaries_round_trip() {
    let cases: Vec<(u64, usize)> = vec![
        (0, 1),
        (63, 1),
        (64, 2),
        (16383, 2),
        (16384, 4),
        (0x3FFF_FFFF, 4),
        (0x4000_0000, 8),
        (VARINT_MAX, 8),
    ];
    for (v, len) in cases {
        let mut buf: Vec<u8> = Vec::new();
        encode_varint(v, &mut buf);
        assert_eq!(buf.len(), len, "length of varint for {}", v);
        let (decoded, consumed) = decode_varint(&buf, 0).unwrap();
        assert_eq!(decoded, v);
        assert_eq!(consumed, len);
    }
}

#[test]
fn varint_decode_short_buffer() {
    let mut buf: Vec<u8> = Vec::new();
    encode_varint(100000, &mut buf); // four bytes
    buf.truncate(3);
    assert!(decode_varint(&buf, 0).is_none());
    let empty: Vec<u8> = Vec::new();
    assert!(decode_varint(&empty, 0).is_none());
}
