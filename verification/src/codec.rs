//! The stream adapter: bridges the accumulator and the encoder to a
//! "decode one item from a receive buffer / encode one item onto a send
//! buffer" contract, tracking consumed bytes as explicit offsets.

use vstd::prelude::*;
use crate::accumulator::{feed_step, zero_free, CobsAccumulator, FeedResult, StepOutcome};
use crate::{cobs_decoding, cobs_encoding, Error, SENTINEL};

verus! {

#[verifier::external_type_specification]
#[verifier::external_body]
pub struct ExBytesMut(bytes::BytesMut);

/// The bytes a `bytes::BytesMut` currently holds, oldest first.
pub uninterp spec fn bytes_view(b: bytes::BytesMut) -> Seq<u8>;

/// Relies on `BytesMut`'s slice view (`AsRef<[u8]>`) and `to_vec`: copies
/// out exactly the held bytes.
#[verifier::external_body]
pub(crate) fn bytes_to_vec(b: &bytes::BytesMut) -> (r: Vec<u8>)
    ensures
        r@ == bytes_view(*b),
{
    b.as_ref().to_vec()
}

/// Relies on `bytes::Buf::advance` for `BytesMut`: discards the first `n`
/// held bytes. Advancing past the end panics, so `n` is bounded.
#[verifier::external_body]
pub(crate) fn bytes_advance(b: &mut bytes::BytesMut, n: usize)
    requires
        n <= bytes_view(*old(b)).len(),
    ensures
        bytes_view(*final(b)) == bytes_view(*old(b)).skip(n as int),
{
    bytes::buf::Buf::advance(b, n);
}

/// Relies on `BytesMut::extend_from_slice`: appends the given bytes after
/// the held ones.
#[verifier::external_body]
pub(crate) fn bytes_extend(b: &mut bytes::BytesMut, data: &[u8])
    ensures
        bytes_view(*final(b)) == bytes_view(*old(b)) + data@,
{
    b.extend_from_slice(data);
}

/// Offset of the first unconsumed byte within a buffer of `whole` bytes of
/// which the last `remaining` are unconsumed.
pub fn offset_from(whole: usize, remaining: usize) -> (r: usize)
    requires
        remaining <= whole,
    ensures
        r == whole - remaining,
{
    whole - remaining
}

/// A `Vec` of `n` zero bytes.
fn zero_vec(n: usize) -> (r: Vec<u8>)
    ensures
        r@.len() == n,
{
    let mut v: Vec<u8> = Vec::new();
    let mut i: usize = 0;
    while i < n
        invariant
            i <= n,
            v@.len() == i,
        decreases n - i,
    {
        v.push(0u8);
        i += 1;
    }
    v
}

/// A codec that decodes frames of serialized `D` values out of a receive
/// buffer through a capacity-`N` accumulator, and encodes `S` values as
/// frames onto a send buffer.
pub struct CborCobsCodec<D, S, const N: usize> {
    deser: core::marker::PhantomData<D>,
    ser: core::marker::PhantomData<S>,
    decoder: CobsAccumulator<N>,
}

impl<D, S, const N: usize> View for CborCobsCodec<D, S, N> {
    type V = Seq<u8>;

    /// The bytes the internal accumulator currently holds.
    closed spec fn view(&self) -> Seq<u8> {
        self.decoder@
    }
}

impl<D, S, const N: usize> CborCobsCodec<D, S, N> {
    pub open spec fn wf(&self) -> bool {
        &&& self@.len() <= N
        &&& zero_free(self@)
    }
}

impl<D, S, const N: usize> Default for CborCobsCodec<D, S, N> {
    /// A codec whose accumulator starts out empty.
    fn default() -> (r: Self)
        ensures
            r@ == Seq::<u8>::empty(),
            r.wf(),
    {
        CborCobsCodec {
            deser: core::marker::PhantomData,
            ser: core::marker::PhantomData,
            decoder: CobsAccumulator::new(),
        }
    }
}

impl<D: serde::de::DeserializeOwned, S, const N: usize> CborCobsCodec<D, S, N> {
    /// Feed everything the receive buffer holds to the accumulator once and
    /// trim off whatever was structurally consumed: everything on no
    /// boundary yet (`Ok(None)`), and everything up to and including the
    /// resolved boundary otherwise. The three decode-side failures are
    /// non-fatal: the accumulator is already reset when they are returned.
    pub fn decode(&mut self, src: &mut bytes::BytesMut) -> (r: Result<Option<D>, Error>)
        requires
            old(self).wf(),
        ensures
            final(self).wf(),
            final(self)@ == feed_step(old(self)@, N as nat, bytes_view(*old(src))).held,
            ({
                let held = bytes_view(*old(src));
                let out = feed_step(old(self)@, N as nat, held).outcome;
                match r {
                    Ok(None) => out == StepOutcome::Consumed && bytes_view(*final(src))
                        == Seq::<u8>::empty(),
                    Ok(Some(_)) => out matches StepOutcome::Frame { frame, remaining }
                        && frame.len() > 0 && cobs_decoding(frame) is Some && bytes_view(
                        *final(src),
                    ) == held.skip(held.len() - remaining),
                    Err(Error::FrameOverflow) => out matches StepOutcome::OverFull { remaining }
                        && bytes_view(*final(src)) == held.skip(held.len() - remaining),
                    Err(Error::DeserializeBadEncoding) => out matches StepOutcome::Frame {
                        frame,
                        remaining,
                    } && frame.len() > 0 && cobs_decoding(frame) is None && bytes_view(*final(src))
                        == held.skip(held.len() - remaining),
                    Err(Error::Deserialization) => out matches StepOutcome::Frame {
                        frame,
                        remaining,
                    } && (frame.len() == 0 || cobs_decoding(frame) is Some) && bytes_view(
                        *final(src),
                    ) == held.skip(held.len() - remaining),
                    _ => false,
                }
            }),
    {
        let data = bytes_to_vec(src);
        let trim_at: usize;
        let ret: Result<Option<D>, Error> = match self.decoder.feed::<D>(data.as_slice()) {
            FeedResult::Consumed => {
                trim_at = data.len();
                Ok(None)
            },
            FeedResult::OverFull { remaining } => {
                trim_at = offset_from(data.len(), remaining);
                Err(Error::FrameOverflow)
            },
            FeedResult::BadEncoding { remaining } => {
                trim_at = offset_from(data.len(), remaining);
                Err(Error::DeserializeBadEncoding)
            },
            FeedResult::DeserError { remaining } => {
                trim_at = offset_from(data.len(), remaining);
                Err(Error::Deserialization)
            },
            FeedResult::Success { data: value, remaining } => {
                trim_at = offset_from(data.len(), remaining);
                Ok(Some(value))
            },
        };
        bytes_advance(src, trim_at);
        proof {
            if ret matches Ok(None) {
                assert(bytes_view(*final(src)) =~= Seq::<u8>::empty());
            }
        }
        ret
    }
}

/// Byte-stuff `payload`, terminate it with the sentinel, and append the
/// resulting frame to the send buffer. Succeeds for every payload below the
/// machine bound; on failure the send buffer is untouched.
pub fn append_frame(payload: &Vec<u8>, final_buf: &mut bytes::BytesMut) -> (r: Result<(), Error>)
    ensures
        match r {
            Ok(_) => bytes_view(*final(final_buf)) == bytes_view(*old(final_buf)) + cobs_encoding(
                payload@,
            ) + seq![SENTINEL],
            Err(e) => e == Error::Cobs && bytes_view(*final(final_buf)) == bytes_view(
                *old(final_buf),
            ),
        },
        r is Ok <==> payload@.len() < usize::MAX / 2,
        zero_free(cobs_encoding(payload@)) || r is Err,
        cobs_decoding(cobs_encoding(payload@)) == Some(payload@) || r is Err,
{
    if payload.len() >= usize::MAX / 2 {
        return Err(Error::Cobs);
    }
    let worst = payload.len() + payload.len() / 254 + 1;
    let mut frame = zero_vec(worst + 1);
    match crate::stuff_frame(payload, &mut frame) {
        Ok(n) => {
            frame.truncate(n);
            proof {
                assert(frame@ =~= cobs_encoding(payload@) + seq![SENTINEL]);
            }
            bytes_extend(final_buf, frame.as_slice());
            Ok(())
        },
        Err(e) => Err(e),
    }
}

impl<D, S: serde::Serialize, const N: usize> CborCobsCodec<D, S, N> {
    /// Serialize `msg`, byte-stuff it, and append the stuffed bytes plus the
    /// terminating sentinel to the send buffer. On failure the send buffer
    /// is untouched; on success exactly one well-formed frame was appended:
    /// a sentinel-free stuffed body that destuffs back to the serialized
    /// payload, then the sentinel.
    pub fn encode(&mut self, msg: S, final_buf: &mut bytes::BytesMut) -> (r: Result<(), Error>)
        requires
            old(self).wf(),
        ensures
            final(self).wf(),
            final(self)@ == old(self)@,
            match r {
                Ok(_) => exists|p: Seq<u8>|
                    {
                        &&& bytes_view(*final(final_buf)) == bytes_view(*old(final_buf))
                            + #[trigger] cobs_encoding(p) + seq![SENTINEL]
                        &&& zero_free(cobs_encoding(p))
                        &&& cobs_decoding(cobs_encoding(p)) == Some(p)
                    },
                Err(e) => (e == Error::Cbor || e == Error::Cobs) && bytes_view(*final(final_buf))
                    == bytes_view(*old(final_buf)),
            },
    {
        let cbor = match crate::cbor_to_vec(&msg) {
            Some(v) => v,
            None => { return Err(Error::Cbor); },
        };
        append_frame(&cbor, final_buf)
    }
}

} // verus!
