//! A framing and serialization layer for point-to-point byte streams:
//! values are serialized to a compact binary form, byte-stuffed so that the
//! sentinel value never occurs inside a frame body, and terminated by a
//! single sentinel byte. The paired accumulator reassembles such frames from
//! arbitrarily chunked input within a fixed capacity.

pub mod accumulator;
pub mod codec;

use vstd::prelude::*;
use crate::accumulator::zero_free;

verus! {

/// The reserved byte value that terminates every frame and may not occur
/// anywhere else in a stuffed frame body.
pub const SENTINEL: u8 = 0x00;

/// Everything that can go wrong while framing, serializing or reassembling.
#[derive(Debug, Clone, Copy, PartialEq, Eq, Structural)]
pub enum Error {
    /// Structured serialization or deserialization failed inside the
    /// serializer itself.
    Cbor,
    /// Byte-stuffing could not encode: the output buffer is too small.
    Cobs,
    /// An incoming frame exceeded the accumulator capacity before a
    /// terminator appeared.
    FrameOverflow,
    /// A complete frame was received whose payload does not parse as the
    /// expected value.
    Deserialization,
    /// A complete frame was received whose byte-stuffing is itself corrupt.
    DeserializeBadEncoding,
}

/// The byte-stuffed form of a payload: what `cobs::encode` writes. It is a
/// function of the payload bytes alone.
pub uninterp spec fn cobs_encoding(payload: Seq<u8>) -> Seq<u8>;

/// The result of reversing the byte-stuffing transform: what
/// `cobs::decode_in_place` computes, `None` when it reports a malformed
/// input. It is a function of the stuffed bytes alone.
pub uninterp spec fn cobs_decoding(stuffed: Seq<u8>) -> Option<Seq<u8>>;

/// Relies on `cobs::encode` (sentinel value 0): writes the stuffed form of
/// `src` into the prefix of `dst` and returns its length. The stuffed form
/// is sentinel-free, at most one byte per 254 longer than the payload plus
/// one lead byte, and `cobs::decode_in_place` reverses it exactly.
#[verifier::external_body]
pub(crate) fn cobs_encode(src: &[u8], dst: &mut Vec<u8>) -> (r: usize)
    requires
        old(dst)@.len() >= src@.len() + src@.len() / 254 + 1,
    ensures
        final(dst)@.len() == old(dst)@.len(),
        src@.len() < r <= src@.len() + src@.len() / 254 + 1,
        r <= final(dst)@.len(),
        final(dst)@.subrange(0, r as int) == cobs_encoding(src@),
        zero_free(final(dst)@.subrange(0, r as int)),
        cobs_decoding(final(dst)@.subrange(0, r as int)) == Some(src@),
{
    cobs::encode(src, dst.as_mut_slice())
}

/// Relies on `cobs::decode_in_place` (sentinel value 0): rewrites the prefix
/// of `data` with the destuffed payload and returns its length, or `None`
/// when the stuffing is malformed — in particular on empty input.
#[verifier::external_body]
pub(crate) fn cobs_decode_in_place(data: &mut Vec<u8>) -> (r: Option<usize>)
    ensures
        final(data)@.len() == old(data)@.len(),
        match r {
            Some(n) => {
                &&& n <= old(data)@.len()
                &&& cobs_decoding(old(data)@) == Some(final(data)@.subrange(0, n as int))
            },
            None => cobs_decoding(old(data)@) is None,
        },
        old(data)@.len() == 0 ==> r is None,
{
    cobs::decode_in_place(data.as_mut_slice()).ok()
}

/// Relies on `serde_cbor::ser::Serializer` over a `SliceWrite`: serializes
/// `value` into the prefix of `buf` and reports how many bytes it wrote,
/// failing when `buf` is too small or the value is unrepresentable. The
/// writer only ever writes sequentially within that prefix, so everything
/// beyond it is untouched.
#[verifier::external_body]
pub(crate) fn cbor_to_slice<T: serde::Serialize + ?Sized>(
    value: &T,
    buf: &mut Vec<u8>,
) -> (r: Option<usize>)
    ensures
        final(buf)@.len() == old(buf)@.len(),
        r matches Some(n) ==> n <= final(buf)@.len() && final(buf)@.skip(n as int) == old(
            buf,
        )@.skip(n as int),
{
    let writer = serde_cbor::ser::SliceWrite::new(buf.as_mut_slice());
    let mut ser = serde_cbor::Serializer::new(writer);
    match serde::Serialize::serialize(value, &mut ser) {
        Ok(()) => Some(ser.into_inner().bytes_written()),
        Err(_) => None,
    }
}

/// Relies on `serde_cbor::to_vec`: serializes `value` into a fresh buffer.
#[verifier::external_body]
pub(crate) fn cbor_to_vec<T: serde::Serialize>(value: &T) -> (r: Option<Vec<u8>>) {
    serde_cbor::to_vec(value).ok()
}

/// Relies on `serde_cbor::Deserializer::from_slice`: parses one value of
/// type `T` from a prefix of the given bytes. Trailing bytes after the
/// parsed value are tolerated and ignored.
#[verifier::external_body]
pub(crate) fn cbor_from_slice<T: serde::de::DeserializeOwned>(data: &[u8]) -> (r: Option<T>) {
    let mut deserializer = serde_cbor::Deserializer::from_slice(data);
    serde::de::Deserialize::deserialize(&mut deserializer).ok()
}

/// Serialize `value` into the prefix of `buf`, returning the number of bytes
/// used. The buffer length never changes; a failure is always `Error::Cbor`.
pub fn to_slice<T: serde::Serialize + ?Sized>(value: &T, buf: &mut Vec<u8>) -> (r: Result<
    usize,
    Error,
>)
    ensures
        final(buf)@.len() == old(buf)@.len(),
        match r {
            Ok(n) => n <= final(buf)@.len() && final(buf)@.skip(n as int) == old(buf)@.skip(
                n as int,
            ),
            Err(e) => e is Cbor,
        },
{
    match cbor_to_slice(value, buf) {
        Some(n) => Ok(n),
        None => Err(Error::Cbor),
    }
}

/// The worst-case room a frame for `payload` needs in a buffer: the
/// stuffed form plus the terminator.
pub open spec fn frame_room(payload_len: nat) -> nat {
    payload_len + payload_len / 254 + 2
}

/// Byte-stuff `payload` into the prefix of `buf` and terminate it with the
/// sentinel, returning the frame length. Succeeds exactly when the payload
/// is below the machine bound and `buf` can hold the worst-case frame; on
/// failure `buf` is untouched.
pub fn stuff_frame(payload: &Vec<u8>, buf: &mut Vec<u8>) -> (r: Result<usize, Error>)
    ensures
        final(buf)@.len() == old(buf)@.len(),
        match r {
            Ok(n) => {
                &&& 2 <= n <= final(buf)@.len()
                &&& n - 1 == cobs_encoding(payload@).len()
                &&& payload@.len() < n - 1 <= payload@.len() + payload@.len() / 254 + 1
                &&& final(buf)@.subrange(0, n - 1) == cobs_encoding(payload@)
                &&& final(buf)@[n - 1] == SENTINEL
                &&& zero_free(final(buf)@.subrange(0, n - 1))
                &&& cobs_decoding(cobs_encoding(payload@)) == Some(payload@)
            },
            Err(e) => e == Error::Cobs && final(buf)@ == old(buf)@,
        },
        r is Ok <==> payload@.len() < usize::MAX / 2 && old(buf)@.len() >= frame_room(
            payload@.len(),
        ),
{
    if payload.len() >= usize::MAX / 2 {
        return Err(Error::Cobs);
    }
    let worst = payload.len() + payload.len() / 254 + 1;
    if buf.len() < worst + 1 {
        return Err(Error::Cobs);
    }
    let sz = cobs_encode(payload.as_slice(), buf);
    let ghost enc = buf@;
    buf[sz] = SENTINEL;
    proof {
        assert(buf@.subrange(0, sz as int) =~= enc.subrange(0, sz as int));
    }
    Ok(sz + 1)
}

/// Serialize `value` and byte-stuff the result into the prefix of `buf`,
/// terminator included, returning the frame length. The frame body is
/// sentinel-free, stays within the standard stuffing overhead of the
/// serialized payload, its last byte is the sentinel, and destuffing it
/// recovers that payload exactly. Fails with `Error::Cbor` when
/// serialization fails and with `Error::Cobs` when `buf` cannot hold the
/// worst-case stuffed frame; `stuff_frame` pins the latter condition down.
pub fn to_slice_cobs<T: serde::Serialize>(value: &T, buf: &mut Vec<u8>) -> (r: Result<
    usize,
    Error,
>)
    ensures
        final(buf)@.len() == old(buf)@.len(),
        match r {
            Ok(n) => {
                &&& 2 <= n <= final(buf)@.len()
                &&& final(buf)@[n - 1] == SENTINEL
                &&& zero_free(final(buf)@.subrange(0, n - 1))
                &&& exists|p: Seq<u8>|
                    {
                        &&& final(buf)@.subrange(0, n - 1) == #[trigger] cobs_encoding(p)
                        &&& cobs_decoding(cobs_encoding(p)) == Some(p)
                        &&& p.len() < n - 1 <= p.len() + p.len() / 254 + 1
                    }
            },
            Err(e) => (e is Cbor || e is Cobs) && final(buf)@ == old(buf)@,
        },
{
    let cbor = match cbor_to_vec(value) {
        Some(v) => v,
        None => { return Err(Error::Cbor); },
    };
    stuff_frame(&cbor, buf)
}

/// Destuff `s` in place and parse the payload as a `T`. When the stuffing is
/// malformed the result is `Error::DeserializeBadEncoding`; otherwise `s` is
/// left holding exactly the destuffed payload and any failure to parse it is
/// `Error::Cbor`.
pub fn from_bytes_cobs<T: serde::de::DeserializeOwned>(s: &mut Vec<u8>) -> (r: Result<T, Error>)
    ensures
        match cobs_decoding(old(s)@) {
            Some(p) => final(s)@ == p && (r matches Ok(_) || r == Err::<T, Error>(Error::Cbor)),
            None => r == Err::<T, Error>(Error::DeserializeBadEncoding),
        },
{
    let n = match cobs_decode_in_place(s) {
        Some(n) => n,
        None => { return Err(Error::DeserializeBadEncoding); },
    };
    s.truncate(n);
    from_bytes::<T>(s)
}

/// Parse one value of type `T` from the prefix of the serialized bytes in
/// `s`; trailing bytes after the value are ignored. Any failure is
/// `Error::Cbor`.
pub fn from_bytes<T: serde::de::DeserializeOwned>(s: &Vec<u8>) -> (r: Result<T, Error>)
    ensures
        r matches Err(e) ==> e is Cbor,
{
    match cbor_from_slice::<T>(s.as_slice()) {
        Some(t) => Ok(t),
        None => Err(Error::Cbor),
    }
}

} // verus!
