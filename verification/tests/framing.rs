use cbor_cobs::accumulator::{CobsAccumulator, FeedResult};
use cbor_cobs::{from_bytes, from_bytes_cobs, stuff_frame, to_slice, to_slice_cobs, Error, SENTINEL};
use serde_cbor::Value;

#[test]
fn serializer_roundtrip_through_slice() {
    let v = Value::Text(String::from("hello"));
    let mut buf = vec![0u8; 64];
    let n = to_slice(&v, &mut buf).unwrap();
    assert_eq!(buf.len(), 64);
    let prefix: Vec<u8> = buf[..n].to_vec();
    let back: Value = from_bytes(&prefix).unwrap();
    assert_eq!(back, v);
}

#[test]
fn serializer_rejects_too_small_buffer() {
    let v = Value::Text(String::from("much too long for two bytes"));
    let mut buf = vec![0u8; 2];
    assert_eq!(to_slice(&v, &mut buf), Err(Error::Cbor));
}

#[test]
fn stuffing_rejects_too_small_buffer() {
    let v = Value::Integer(7);
    let mut buf = vec![0u8; 1];
    assert_eq!(to_slice_cobs(&v, &mut buf), Err(Error::Cobs));
}

#[test]
fn encoded_frame_is_sentinel_free_until_terminator() {
    // The serialized form of integer 0 is the byte 0x00 itself, so the
    // stuffing transform must really rewrite it.
    let v = Value::Integer(0);
    let mut buf = vec![0u8; 64];
    let n = to_slice_cobs(&v, &mut buf).unwrap();
    assert!(n >= 2);
    for i in 0..n - 1 {
        assert_ne!(buf[i], SENTINEL);
    }
    assert_eq!(buf[n - 1], SENTINEL);
}

#[test]
fn stuffed_frame_roundtrips() {
    let v = Value::Array(vec![
        Value::Integer(0),
        Value::Integer(255),
        Value::Text(String::from("x")),
    ]);
    let mut buf = vec![0u8; 128];
    let n = to_slice_cobs(&v, &mut buf).unwrap();
    // Everything before the terminator is the stuffed body.
    let mut body: Vec<u8> = buf[..n - 1].to_vec();
    let back: Value = from_bytes_cobs(&mut body).unwrap();
    assert_eq!(back, v);
}

#[test]
fn destuffing_rejects_corrupt_body() {
    // A run header promising more bytes than the body holds.
    let mut body = vec![0x09u8, 0x01];
    let r: Result<Value, Error> = from_bytes_cobs(&mut body);
    assert_eq!(r.unwrap_err(), Error::DeserializeBadEncoding);
}

#[test]
fn accumulator_consumes_until_sentinel() {
    let mut acc = CobsAccumulator::<16>::new();
    let r: FeedResult<Value> = acc.feed(&[0x05, 0x06]);
    assert!(matches!(r, FeedResult::Consumed));
    let r: FeedResult<Value> = acc.feed(&[]);
    assert!(matches!(r, FeedResult::Consumed));
}

#[test]
fn accumulator_overflow_resets_immediately() {
    // Feed one byte more than the capacity, no sentinel anywhere: the
    // first call reports the overflow and the buffer is empty right after.
    let mut acc = CobsAccumulator::<1024>::new();
    let garbage = vec![0x42u8; 1025];
    let r: FeedResult<Value> = acc.feed(&garbage);
    assert!(matches!(r, FeedResult::OverFull { remaining: 1 }));
    // Empty again: a full frame for integer 1 (body 0x02 0x01, terminator)
    // decodes in one call.
    let r: FeedResult<Value> = acc.feed(&[0x02, 0x01, 0x00]);
    match r {
        FeedResult::Success { data, remaining } => {
            assert_eq!(data, Value::Integer(1));
            assert_eq!(remaining, 0);
        }
        _ => panic!("expected a decoded frame"),
    }
}

#[test]
fn accumulator_empty_frame_is_malformed() {
    // An empty frame carries no structured value: a deserialization
    // failure, not a stuffing one.
    let mut acc = CobsAccumulator::<64>::new();
    let r: FeedResult<Value> = acc.feed(&[0x00, 0x00]);
    assert!(matches!(r, FeedResult::DeserError { remaining: 1 }));
    let r: FeedResult<Value> = acc.feed(&[0x00]);
    assert!(matches!(r, FeedResult::DeserError { remaining: 0 }));
}

#[test]
fn accumulator_hands_back_bytes_after_sentinel() {
    let mut acc = CobsAccumulator::<64>::new();
    // One full frame followed by three more bytes.
    let r: FeedResult<Value> = acc.feed(&[0x02, 0x01, 0x00, 0xAA, 0xBB, 0xCC]);
    match r {
        FeedResult::Success { data, remaining } => {
            assert_eq!(data, Value::Integer(1));
            assert_eq!(remaining, 3);
        }
        _ => panic!("expected a decoded frame"),
    }
}

#[test]
fn garbage_then_frame_resyncs() {
    let mut acc = CobsAccumulator::<8>::new();
    // Overflow-triggering garbage.
    let r: FeedResult<Value> = acc.feed(&[0x11u8; 9]);
    assert!(matches!(r, FeedResult::OverFull { remaining: 1 }));
    // Malformed-frame-triggering garbage.
    let r: FeedResult<Value> = acc.feed(&[0x09, 0x01, 0x00]);
    assert!(matches!(r, FeedResult::BadEncoding { remaining: 0 }));
    // A well-formed frame now decodes, chunked however it arrives. The
    // payload 0x18 0x18 is the integer 24; its stuffed body is one run.
    let r: FeedResult<Value> = acc.feed(&[0x03]);
    assert!(matches!(r, FeedResult::Consumed));
    let r: FeedResult<Value> = acc.feed(&[0x18, 0x18, 0x00]);
    match r {
        FeedResult::Success { data, remaining } => {
            assert_eq!(data, Value::Integer(24));
            assert_eq!(remaining, 0);
        }
        _ => panic!("expected a decoded frame"),
    }
}

#[test]
fn exact_frame_bytes_for_integer_zero() {
    // The serialized form of integer 0 is the single byte 0x00; its
    // stuffed form is [0x01, 0x01]; the frame appends the terminator.
    let mut buf = vec![0xFFu8; 8];
    let n = to_slice_cobs(&Value::Integer(0), &mut buf).unwrap();
    assert_eq!(n, 3);
    assert_eq!(&buf[..3], &[0x01, 0x01, 0x00]);
}

#[test]
fn parse_tolerates_trailing_bytes() {
    // A value is parsed from the prefix; bytes after it are ignored.
    let bytes = vec![0x07u8, 0xAA, 0xBB];
    let v: Value = from_bytes(&bytes).unwrap();
    assert_eq!(v, Value::Integer(7));
}

#[test]
fn stuff_frame_exact_bytes() {
    // The payload [0x00] stuffs to [0x01, 0x01]; the frame appends the
    // terminator; the rest of the buffer is left alone.
    let payload = vec![0x00u8];
    let mut buf = vec![0xEEu8; 8];
    let n = stuff_frame(&payload, &mut buf).unwrap();
    assert_eq!(n, 3);
    assert_eq!(&buf[..3], &[0x01, 0x01, 0x00]);
    assert_eq!(buf.len(), 8);
}

#[test]
fn stuff_frame_rejects_short_buffer_untouched() {
    let payload = vec![0x01u8, 0x02];
    let mut buf = vec![0xEEu8; 3];
    assert_eq!(stuff_frame(&payload, &mut buf), Err(Error::Cobs));
    assert_eq!(buf, vec![0xEE; 3]);
}
