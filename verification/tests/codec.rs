use bytes::BytesMut;
use cbor_cobs::codec::CborCobsCodec;
use cbor_cobs::Error;
use serde_cbor::Value;
use std::collections::BTreeMap;

fn my_struct(val1: u8, val2: u8) -> Value {
    let mut m = BTreeMap::new();
    m.insert(
        Value::Text(String::from("val1")),
        Value::Integer(val1 as i128),
    );
    m.insert(
        Value::Text(String::from("val2")),
        Value::Integer(val2 as i128),
    );
    Value::Map(m)
}

#[test]
fn roundtrip() {
    let msg1 = my_struct(12, 34);
    let msg2 = my_struct(56, 78);
    let mut bytes = BytesMut::new();
    let mut codec = CborCobsCodec::<Value, Value, 1024>::default();
    codec.encode(msg1.clone(), &mut bytes).unwrap();
    codec.encode(msg2.clone(), &mut bytes).unwrap();
    let found1: Option<Value> = codec.decode(&mut bytes).unwrap();
    let found2: Option<Value> = codec.decode(&mut bytes).unwrap();
    assert_eq!(found1, Some(msg1));
    assert_eq!(found2, Some(msg2));
}

#[test]
fn two_frames_then_nothing_pending() {
    let msg1 = my_struct(12, 34);
    let msg2 = my_struct(56, 78);
    let mut bytes = BytesMut::new();
    let mut codec = CborCobsCodec::<Value, Value, 1024>::default();
    codec.encode(msg1.clone(), &mut bytes).unwrap();
    codec.encode(msg2.clone(), &mut bytes).unwrap();
    assert_eq!(codec.decode(&mut bytes).unwrap(), Some(msg1));
    assert_eq!(codec.decode(&mut bytes).unwrap(), Some(msg2));
    // Nothing is left pending: the buffer was fully trimmed.
    assert!(bytes.is_empty());
    assert_eq!(codec.decode(&mut bytes).unwrap(), None);
}

#[test]
fn overflow_reported_and_stream_recovers() {
    // 1025 bytes with no sentinel cannot ever complete a frame of
    // capacity 1024: the first call reports the overflow.
    let mut bytes = BytesMut::new();
    bytes.extend_from_slice(&[0x01u8; 1025]);
    let mut codec = CborCobsCodec::<Value, Value, 1024>::default();
    let r: Result<Option<Value>, Error> = codec.decode(&mut bytes);
    assert_eq!(r, Err(Error::FrameOverflow));
    // The byte the accumulator never accepted is still in the buffer.
    assert_eq!(bytes.len(), 1);
    // The accumulator reset itself. Once the stray byte runs into a
    // sentinel it resolves as a frame whose empty destuffed payload is no
    // valid value, and the stream is realigned.
    bytes.extend_from_slice(&[0x00]);
    let r: Result<Option<Value>, Error> = codec.decode(&mut bytes);
    assert_eq!(r, Err(Error::Deserialization));
    assert!(bytes.is_empty());
    // A well-formed frame now decodes.
    let msg = my_struct(1, 2);
    codec.encode(msg.clone(), &mut bytes).unwrap();
    assert_eq!(codec.decode(&mut bytes).unwrap(), Some(msg));
}

#[test]
fn empty_frame_is_malformed() {
    // Two sentinel bytes back to back: the first resolves an empty frame,
    // whose payload is no valid structured value, and the second does the
    // same.
    let mut bytes = BytesMut::new();
    bytes.extend_from_slice(&[0x00, 0x00]);
    let mut codec = CborCobsCodec::<Value, Value, 1024>::default();
    let r1: Result<Option<Value>, Error> = codec.decode(&mut bytes);
    assert_eq!(r1, Err(Error::Deserialization));
    assert_eq!(bytes.len(), 1);
    let r2: Result<Option<Value>, Error> = codec.decode(&mut bytes);
    assert_eq!(r2, Err(Error::Deserialization));
    assert!(bytes.is_empty());
    // The stream is usable again immediately.
    let msg = my_struct(3, 4);
    codec.encode(msg.clone(), &mut bytes).unwrap();
    assert_eq!(codec.decode(&mut bytes).unwrap(), Some(msg));
}

#[test]
fn corrupt_stuffing_reported() {
    // A run header promising four bytes with only one present before the
    // sentinel: the stuffing itself is corrupt.
    let mut bytes = BytesMut::new();
    bytes.extend_from_slice(&[0x05, 0x01, 0x00]);
    let mut codec = CborCobsCodec::<Value, Value, 1024>::default();
    let r: Result<Option<Value>, Error> = codec.decode(&mut bytes);
    assert_eq!(r, Err(Error::DeserializeBadEncoding));
    assert!(bytes.is_empty());
}

#[test]
fn well_stuffed_but_unparsable_payload_reported() {
    // A well-stuffed frame whose destuffed payload (a truncated 64-bit
    // integer head) is not a complete serialized value.
    let mut bytes = BytesMut::new();
    bytes.extend_from_slice(&[0x02, 0x1b, 0x00]);
    let mut codec = CborCobsCodec::<Value, Value, 1024>::default();
    let r: Result<Option<Value>, Error> = codec.decode(&mut bytes);
    assert_eq!(r, Err(Error::Deserialization));
    assert!(bytes.is_empty());
}

#[test]
fn chunking_does_not_change_outcomes() {
    let msg = my_struct(200, 201);
    let mut whole = BytesMut::new();
    let mut codec = CborCobsCodec::<Value, Value, 1024>::default();
    codec.encode(msg.clone(), &mut whole).unwrap();
    let frame: Vec<u8> = whole.to_vec();

    // Feed the same frame split at every possible point: the sequence of
    // outcomes never changes.
    for split in 0..frame.len() {
        let mut codec = CborCobsCodec::<Value, Value, 1024>::default();
        let mut bytes = BytesMut::new();
        bytes.extend_from_slice(&frame[..split]);
        assert_eq!(codec.decode(&mut bytes).unwrap(), None);
        assert!(bytes.is_empty());
        bytes.extend_from_slice(&frame[split..]);
        assert_eq!(codec.decode(&mut bytes).unwrap(), Some(msg.clone()));
        assert!(bytes.is_empty());
    }
}

#[test]
fn encode_appends_after_existing_bytes() {
    // Encoding appends; whatever the send buffer already holds stays put.
    let mut bytes = BytesMut::new();
    bytes.extend_from_slice(&[0xAA, 0xBB]);
    let mut codec = CborCobsCodec::<Value, Value, 16>::default();
    codec.encode(my_struct(9, 9), &mut bytes).unwrap();
    assert_eq!(&bytes[..2], &[0xAA, 0xBB]);
}
