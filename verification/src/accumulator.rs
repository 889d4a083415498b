//! The frame accumulator: a bounded-capacity state machine that reassembles
//! sentinel-terminated frames from arbitrarily chunked byte input.

use vstd::prelude::*;
use crate::{cobs_decoding, Error, SENTINEL};

verus! {

/// True when no byte of `s` is the sentinel value.
pub open spec fn zero_free(s: Seq<u8>) -> bool {
    forall|i: int| 0 <= i < s.len() ==> s[i] != SENTINEL
}

/// Index of the first sentinel byte of `s`, or -1 when `s` holds none.
pub open spec fn first_zero(s: Seq<u8>) -> int
    decreases s.len(),
{
    if s.len() == 0 {
        -1
    } else if s[0] == SENTINEL {
        0
    } else {
        let r = first_zero(s.skip(1));
        if r == -1 {
            -1
        } else {
            r + 1
        }
    }
}

pub proof fn lemma_first_zero(s: Seq<u8>)
    ensures
        first_zero(s) >= -1,
        first_zero(s) == -1 ==> zero_free(s),
        first_zero(s) != -1 ==> {
            &&& 0 <= first_zero(s) < s.len()
            &&& s[first_zero(s)] == SENTINEL
            &&& forall|i: int| 0 <= i < first_zero(s) ==> s[i] != SENTINEL
        },
    decreases s.len(),
{
    if s.len() == 0 {
    } else if s[0] == SENTINEL {
    } else {
        let sk = s.skip(1);
        lemma_first_zero(sk);
        assert(forall|i: int| 0 <= i < sk.len() ==> sk[i] == s[i + 1]);
        if first_zero(sk) == -1 {
            assert forall|i: int| 0 <= i < s.len() implies s[i] != SENTINEL by {
                if i >= 1 {
                    assert(sk[i - 1] == s[i]);
                }
            }
        } else {
            let r = first_zero(sk);
            assert(s[r + 1] == sk[r]);
            assert forall|i: int| 0 <= i < r + 1 implies s[i] != SENTINEL by {
                if i >= 1 {
                    assert(sk[i - 1] == s[i]);
                }
            }
        }
    }
}

/// `first_zero` is pinned down by exhibiting the first sentinel position.
pub proof fn lemma_first_zero_is(s: Seq<u8>, j: int)
    requires
        0 <= j < s.len(),
        s[j] == SENTINEL,
        forall|i: int| 0 <= i < j ==> s[i] != SENTINEL,
    ensures
        first_zero(s) == j,
{
    lemma_first_zero(s);
}

pub proof fn lemma_first_zero_none(s: Seq<u8>)
    requires
        zero_free(s),
    ensures
        first_zero(s) == -1,
{
    lemma_first_zero(s);
}

/// How many input bytes one feed call copies in: all of them, or just enough
/// to fill the buffer to capacity.
pub open spec fn take_len(held: nat, cap: nat, input_len: nat) -> nat {
    if cap <= held {
        0
    } else if input_len <= cap - held {
        input_len
    } else {
        (cap - held) as nat
    }
}

/// What one feed call resolves to, at the level of byte sequences.
pub enum StepOutcome {
    /// No sentinel seen and room remains: all input absorbed.
    Consumed,
    /// The buffer filled to capacity with no sentinel in sight; `remaining`
    /// input bytes were never copied in.
    OverFull { remaining: nat },
    /// A sentinel was found: `frame` is everything buffered before it, and
    /// `remaining` input bytes follow the sentinel.
    Frame { frame: Seq<u8>, remaining: nat },
}

/// One feed call: the buffer afterwards, and the outcome.
pub struct Step {
    pub held: Seq<u8>,
    pub outcome: StepOutcome,
}

/// The mathematical model of one `feed` call on a buffer holding `held`
/// (which contains no sentinel) with capacity `cap`, given `input`.
pub open spec fn feed_step(held: Seq<u8>, cap: nat, input: Seq<u8>) -> Step {
    let take = take_len(held.len(), cap, input.len());
    let newly = input.take(take as int);
    let j = first_zero(newly);
    if j >= 0 {
        Step {
            held: Seq::empty(),
            outcome: StepOutcome::Frame {
                frame: held + newly.take(j),
                remaining: (input.len() - j - 1) as nat,
            },
        }
    } else if held.len() + take == cap {
        Step { held: Seq::empty(), outcome: StepOutcome::OverFull { remaining: (input.len() - take) as nat } }
    } else {
        Step { held: held + newly, outcome: StepOutcome::Consumed }
    }
}

/// Law: the internal buffer never grows beyond the capacity, whatever is
/// fed.
pub proof fn lemma_capacity_bound(held: Seq<u8>, cap: nat, input: Seq<u8>)
    requires
        held.len() <= cap,
    ensures
        feed_step(held, cap, input).held.len() <= cap,
{
}

/// Law (round trip of the framing layer): feeding a sentinel-free frame body
/// followed by its terminator to an empty accumulator that can hold it
/// resolves exactly that body as the frame, leaves the buffer empty, and
/// hands back exactly the bytes after the terminator.
pub proof fn lemma_single_frame(cap: nat, body: Seq<u8>, rest: Seq<u8>)
    requires
        zero_free(body),
        body.len() < cap,
    ensures
        feed_step(Seq::empty(), cap, body + seq![SENTINEL] + rest) == (Step {
            held: Seq::<u8>::empty(),
            outcome: StepOutcome::Frame { frame: body, remaining: rest.len() },
        }),
{
    let input = body + seq![SENTINEL] + rest;
    let take = take_len(0, cap, input.len());
    let newly = input.take(take as int);
    assert(body.len() < take <= input.len());
    assert(newly[body.len() as int] == SENTINEL);
    assert(forall|i: int| 0 <= i < body.len() ==> newly[i] == body[i]);
    lemma_first_zero_is(newly, body.len() as int);
    assert(newly.take(body.len() as int) =~= body);
    assert(Seq::<u8>::empty() + body =~= body);
    assert(input.len() - body.len() - 1 == rest.len());
}

/// Where a sentinel-free prefix is prepended, the first sentinel shifts by
/// exactly that prefix's length.
pub proof fn lemma_first_zero_append(u: Seq<u8>, w: Seq<u8>)
    requires
        zero_free(u),
    ensures
        first_zero(u + w) == if first_zero(w) == -1 {
            -1int
        } else {
            u.len() + first_zero(w)
        },
{
    lemma_first_zero(w);
    if first_zero(w) == -1 {
        assert(zero_free(u + w)) by {
            assert(forall|i: int| 0 <= i < u.len() ==> (u + w)[i] == u[i]);
            assert(forall|i: int| u.len() <= i < u.len() + w.len() ==> (u + w)[i] == w[i - u.len()]);
        }
        lemma_first_zero_none(u + w);
    } else {
        let j = first_zero(w);
        assert((u + w)[u.len() + j] == w[j]);
        assert(forall|i: int| 0 <= i < u.len() ==> (u + w)[i] == u[i]);
        assert(forall|i: int| u.len() <= i < u.len() + j ==> (u + w)[i] == w[i - u.len()]);
        lemma_first_zero_is(u + w, u.len() + j);
    }
}

/// Law (chunking invariance): as long as a chunk is merely absorbed, where
/// the input was split cannot matter — feeding `u` and then `v` resolves
/// exactly as feeding `u + v` in one call would have.
pub proof fn lemma_feed_chunking(held: Seq<u8>, cap: nat, u: Seq<u8>, v: Seq<u8>)
    requires
        held.len() <= cap,
        feed_step(held, cap, u).outcome == StepOutcome::Consumed,
    ensures
        feed_step(feed_step(held, cap, u).held, cap, v) == feed_step(held, cap, u + v),
{
    let take_u = take_len(held.len(), cap, u.len());
    let newly_u = u.take(take_u as int);
    // A `Consumed` outcome means all of `u` fit with room to spare and held
    // no sentinel.
    lemma_first_zero(newly_u);
    assert(first_zero(newly_u) == -1);
    assert(held.len() + take_u < cap);
    assert(take_u == u.len());
    assert(newly_u =~= u);
    lemma_first_zero(u);
    let held2 = held + u;
    assert(feed_step(held, cap, u).held == held2);

    let take_v = take_len(held2.len(), cap, v.len());
    let take_c = take_len(held.len(), cap, u.len() + v.len());
    assert(take_c == u.len() + take_v);
    let newly_v = v.take(take_v as int);
    let newly_c = (u + v).take(take_c as int);
    assert(newly_c =~= u + newly_v);
    lemma_first_zero_append(u, newly_v);

    let jv = first_zero(newly_v);
    lemma_first_zero(newly_v);
    if jv >= 0 {
        let jc = first_zero(newly_c);
        assert(jc == u.len() + jv);
        assert(newly_c == u + newly_v);
        assert((u + newly_v).take(u.len() + jv) =~= u + newly_v.take(jv));
        assert(newly_c.take(jc) == u + newly_v.take(jv));
        assert(held + newly_c.take(jc) =~= held2 + newly_v.take(jv));
        assert((u + v).len() - jc - 1 == v.len() - jv - 1);
    } else {
        assert(held.len() + take_c == cap <==> held2.len() + take_v == cap);
        if held2.len() + take_v == cap {
            assert((u + v).len() - take_c == v.len() - take_v);
        } else {
            assert(held + newly_c =~= held2 + newly_v);
        }
    }
}

/// The concatenation of a list of chunks.
pub open spec fn concat_chunks(chunks: Seq<Seq<u8>>) -> Seq<u8>
    decreases chunks.len(),
{
    if chunks.len() == 0 {
        Seq::empty()
    } else {
        chunks[0] + concat_chunks(chunks.skip(1))
    }
}

/// True when feeding the chunks one after another resolves no frame
/// boundary: every call merely absorbs its chunk.
pub open spec fn absorbs_all(held: Seq<u8>, cap: nat, chunks: Seq<Seq<u8>>) -> bool
    decreases chunks.len(),
{
    chunks.len() == 0 || {
        &&& feed_step(held, cap, chunks[0]).outcome == StepOutcome::Consumed
        &&& absorbs_all(feed_step(held, cap, chunks[0]).held, cap, chunks.skip(1))
    }
}

/// The buffer after feeding the chunks one after another.
pub open spec fn held_after(held: Seq<u8>, cap: nat, chunks: Seq<Seq<u8>>) -> Seq<u8>
    decreases chunks.len(),
{
    if chunks.len() == 0 {
        held
    } else {
        held_after(feed_step(held, cap, chunks[0]).held, cap, chunks.skip(1))
    }
}

/// Law (chunking invariance, generalized): however a byte stream was split
/// into chunks, as long as each was merely absorbed, the next call resolves
/// exactly as if the whole stream had arrived at once.
pub proof fn lemma_chunking_general(held: Seq<u8>, cap: nat, chunks: Seq<Seq<u8>>, last: Seq<u8>)
    requires
        held.len() <= cap,
        absorbs_all(held, cap, chunks),
    ensures
        feed_step(held_after(held, cap, chunks), cap, last) == feed_step(
            held,
            cap,
            concat_chunks(chunks) + last,
        ),
    decreases chunks.len(),
{
    if chunks.len() == 0 {
        assert(concat_chunks(chunks) + last =~= last);
    } else {
        let step1 = feed_step(held, cap, chunks[0]);
        let tail = chunks.skip(1);
        // An absorbed chunk leaves a buffer still under capacity.
        assert(step1.held.len() <= cap);
        lemma_feed_chunking(held, cap, chunks[0], concat_chunks(tail) + last);
        lemma_chunking_general(step1.held, cap, tail, last);
        assert(chunks[0] + (concat_chunks(tail) + last) =~= concat_chunks(chunks) + last);
    }
}

/// Law (idempotent resync): any outcome that resolves a frame boundary —
/// an overflow or a found frame, well-formed or not — leaves the
/// accumulator empty, so a following well-formed frame is recovered exactly,
/// whatever garbage came before it.
pub proof fn lemma_resync(held: Seq<u8>, cap: nat, garbage: Seq<u8>, body: Seq<u8>, rest: Seq<u8>)
    requires
        feed_step(held, cap, garbage).outcome is OverFull || feed_step(held, cap, garbage).outcome
            is Frame,
        zero_free(body),
        body.len() < cap,
    ensures
        feed_step(held, cap, garbage).held == Seq::<u8>::empty(),
        feed_step(feed_step(held, cap, garbage).held, cap, body + seq![SENTINEL] + rest).outcome
            == (StepOutcome::Frame { frame: body, remaining: rest.len() }),
{
    assert(feed_step(held, cap, garbage).held =~= Seq::<u8>::empty());
    lemma_single_frame(cap, body, rest);
}

/// Law (frames decode in order): two concatenated well-formed frames fed to
/// an empty accumulator resolve one after the other — the first call
/// resolves the first body and hands back exactly the second frame, and
/// feeding that back resolves the second body with nothing left.
pub proof fn lemma_frames_in_order(cap: nat, b1: Seq<u8>, b2: Seq<u8>)
    requires
        zero_free(b1),
        zero_free(b2),
        b1.len() < cap,
        b2.len() < cap,
    ensures
        feed_step(Seq::empty(), cap, b1 + seq![SENTINEL] + (b2 + seq![SENTINEL])).outcome
            == (StepOutcome::Frame { frame: b1, remaining: b2.len() + 1 }),
        (b1 + seq![SENTINEL] + (b2 + seq![SENTINEL])).skip(b1.len() as int + 1) == b2 + seq![SENTINEL],
        feed_step(Seq::empty(), cap, b2 + seq![SENTINEL]).outcome == (StepOutcome::Frame {
            frame: b2,
            remaining: 0nat,
        }),
{
    lemma_single_frame(cap, b1, b2 + seq![SENTINEL]);
    assert((b1 + seq![SENTINEL] + (b2 + seq![SENTINEL])).skip(b1.len() as int + 1) =~= b2 + seq![
        SENTINEL,
    ]);
    lemma_single_frame(cap, b2, Seq::empty());
    assert(b2 + seq![SENTINEL] + Seq::<u8>::empty() =~= b2 + seq![SENTINEL]);
}

/// Outcome of one typed feed call.
pub enum FeedResult<T> {
    /// All input copied in; no frame boundary yet. Feed more bytes.
    Consumed,
    /// Capacity exhausted with no sentinel; the held bytes were discarded and
    /// the last `remaining` input bytes were never accepted.
    OverFull { remaining: usize },
    /// A frame terminated, but its byte-stuffing is corrupt. The frame was
    /// discarded; the last `remaining` input bytes follow its sentinel.
    BadEncoding { remaining: usize },
    /// A frame destuffed cleanly but its payload does not parse as a `T`.
    /// The frame was discarded; the last `remaining` input bytes follow its
    /// sentinel.
    DeserError { remaining: usize },
    /// A frame decoded to a value; the last `remaining` input bytes follow
    /// its sentinel.
    Success { data: T, remaining: usize },
}

/// Outcome of feeding bytes without attempting to decode a found frame.
pub enum RawFeedResult {
    /// All input copied in; no frame boundary yet.
    Consumed,
    /// Capacity exhausted with no sentinel; the held bytes were discarded and
    /// the last `remaining` input bytes were never accepted.
    OverFull { remaining: usize },
    /// A sentinel was found: `frame` holds all bytes buffered before it, and
    /// the last `remaining` input bytes follow the sentinel.
    Frame { frame: Vec<u8>, remaining: usize },
}

/// A fixed-capacity accumulator for sentinel-terminated frames. It holds at
/// most `N` bytes, never a sentinel among them, and resets to empty whenever
/// a frame boundary is resolved.
pub struct CobsAccumulator<const N: usize> {
    buf: Vec<u8>,
}

impl<const N: usize> View for CobsAccumulator<N> {
    type V = Seq<u8>;

    closed spec fn view(&self) -> Seq<u8> {
        self.buf@
    }
}

impl<const N: usize> CobsAccumulator<N> {
    /// The internal buffer never exceeds the capacity and never retains a
    /// sentinel byte across calls.
    pub open spec fn wf(&self) -> bool {
        &&& self@.len() <= N
        &&& zero_free(self@)
    }

    pub fn new() -> (r: Self)
        ensures
            r@ == Seq::<u8>::empty(),
            r.wf(),
    {
        CobsAccumulator { buf: Vec::new() }
    }

    /// Absorb one chunk of input, resolving at most one frame boundary,
    /// exactly as `feed_step` describes.
    pub fn feed_raw(&mut self, input: &[u8]) -> (r: RawFeedResult)
        requires
            old(self).wf(),
        ensures
            final(self).wf(),
            final(self)@ == feed_step(old(self)@, N as nat, input@).held,
            match r {
                RawFeedResult::Consumed => feed_step(old(self)@, N as nat, input@).outcome
                    == StepOutcome::Consumed,
                RawFeedResult::OverFull { remaining } => {
                    &&& feed_step(old(self)@, N as nat, input@).outcome
                        == (StepOutcome::OverFull { remaining: remaining as nat })
                    &&& remaining <= input@.len()
                },
                RawFeedResult::Frame { frame, remaining } => {
                    &&& feed_step(old(self)@, N as nat, input@).outcome
                        == (StepOutcome::Frame { frame: frame@, remaining: remaining as nat })
                    &&& remaining <= input@.len()
                    &&& zero_free(frame@)
                },
            },
    {
        let held = self.buf.len();
        let room = N - held;
        let take = if input.len() <= room {
            input.len()
        } else {
            room
        };
        assert(take == take_len(old(self)@.len(), N as nat, input@.len()));

        // Scan only the newly accepted region for the sentinel.
        let ghost newly = input@.take(take as int);
        let mut j: usize = 0;
        let mut found: Option<usize> = None;
        while j < take && found.is_none()
            invariant
                j <= take,
                take <= input@.len(),
                found is None ==> forall|i: int| 0 <= i < j ==> input@[i] != SENTINEL,
                match found {
                    Some(s) => {
                        &&& s < take
                        &&& input@[s as int] == SENTINEL
                        &&& forall|i: int| 0 <= i < s ==> input@[i] != SENTINEL
                    },
                    None => true,
                },
            decreases take - j, (if found is None { 1int } else { 0int }),
        {
            if input[j] == SENTINEL {
                found = Some(j);
            } else {
                j += 1;
            }
        }
        proof {
            assert(newly.len() == take);
            assert(forall|i: int| 0 <= i < take ==> newly[i] == input@[i]);
        }

        match found {
            Some(s) => {
                proof {
                    assert(newly[s as int] == input@[s as int]);
                    assert(forall|i: int| 0 <= i < s ==> newly[i] == input@[i]);
                    lemma_first_zero_is(newly, s as int);
                }
                // The frame is everything held so far plus the bytes before
                // the sentinel; the accumulator resets to empty.
                let mut frame = Vec::new();
                std::mem::swap(&mut self.buf, &mut frame);
                let mut k: usize = 0;
                while k < s
                    invariant
                        k <= s,
                        s < input@.len(),
                        frame@ == old(self)@ + input@.take(k as int),
                        forall|i: int| 0 <= i < s ==> input@[i] != SENTINEL,
                        zero_free(old(self)@),
                    decreases s - k,
                {
                    assert(input@.take(k as int + 1) == input@.take(k as int).push(input@[k as int]));
                    frame.push(input[k]);
                    k += 1;
                }
                assert(frame@ == old(self)@ + newly.take(s as int)) by {
                    assert(input@.take(s as int) =~= newly.take(s as int));
                }
                assert(zero_free(frame@));
                let remaining = input.len() - s - 1;
                RawFeedResult::Frame { frame, remaining }
            },
            None => {
                proof {
                    lemma_first_zero_none(newly);
                }
                // No sentinel among the accepted bytes: absorb them.
                let mut k: usize = 0;
                while k < take
                    invariant
                        k <= take,
                        take <= input@.len(),
                        self@ == old(self)@ + input@.take(k as int),
                        forall|i: int| 0 <= i < take ==> input@[i] != SENTINEL,
                        zero_free(old(self)@),
                    decreases take - k,
                {
                    assert(input@.take(k as int + 1) == input@.take(k as int).push(input@[k as int]));
                    self.buf.push(input[k]);
                    k += 1;
                }
                assert(self@ =~= old(self)@ + newly);
                if self.buf.len() == N {
                    // A frame larger than the capacity can never complete:
                    // drop it and report what was never accepted.
                    self.buf.clear();
                    RawFeedResult::OverFull { remaining: input.len() - take }
                } else {
                    assert(zero_free(self@));
                    RawFeedResult::Consumed
                }
            },
        }
    }

    /// Absorb one chunk of input and, when a frame boundary is resolved,
    /// destuff and deserialize the frame. The buffering behaviour is exactly
    /// `feed_step`; an empty frame (consecutive sentinels) carries no
    /// structured value and is rejected at the deserialization layer;
    /// whether a non-empty frame destuffs is decided by its bytes alone, and
    /// only the final parse into a `T` is left open.
    pub fn feed<T: serde::de::DeserializeOwned>(&mut self, input: &[u8]) -> (r: FeedResult<T>)
        requires
            old(self).wf(),
        ensures
            final(self).wf(),
            final(self)@ == feed_step(old(self)@, N as nat, input@).held,
            ({
                let out = feed_step(old(self)@, N as nat, input@).outcome;
                match r {
                    FeedResult::Consumed => out == StepOutcome::Consumed,
                    FeedResult::OverFull { remaining } => {
                        &&& out == (StepOutcome::OverFull { remaining: remaining as nat })
                        &&& remaining <= input@.len()
                    },
                    FeedResult::BadEncoding { remaining } => {
                        &&& out matches StepOutcome::Frame { frame, remaining: rem }
                            && rem == remaining as nat && frame.len() > 0 && cobs_decoding(frame)
                            is None
                        &&& remaining <= input@.len()
                    },
                    FeedResult::DeserError { remaining } => {
                        &&& out matches StepOutcome::Frame { frame, remaining: rem }
                            && rem == remaining as nat && (frame.len() == 0 || cobs_decoding(frame)
                            is Some)
                        &&& remaining <= input@.len()
                    },
                    FeedResult::Success { data, remaining } => {
                        &&& out matches StepOutcome::Frame { frame, remaining: rem }
                            && rem == remaining as nat && frame.len() > 0 && cobs_decoding(frame)
                            is Some
                        &&& remaining <= input@.len()
                    },
                }
            }),
            // An empty frame never parses: it is always a deserialization
            // failure, never anything else.
            (feed_step(old(self)@, N as nat, input@).outcome matches StepOutcome::Frame { frame, .. }
                && frame.len() == 0) ==> r is DeserError,
            // A non-empty frame whose stuffing is corrupt is always reported
            // as such, never as anything else.
            (feed_step(old(self)@, N as nat, input@).outcome matches StepOutcome::Frame { frame, .. }
                && frame.len() > 0 && cobs_decoding(frame) is None) ==> r is BadEncoding,
    {
        match self.feed_raw(input) {
            RawFeedResult::Consumed => FeedResult::Consumed,
            RawFeedResult::OverFull { remaining } => FeedResult::OverFull { remaining },
            RawFeedResult::Frame { frame, remaining } => {
                if frame.len() == 0 {
                    // Consecutive sentinels: the empty payload is not a
                    // valid structured value.
                    FeedResult::DeserError { remaining }
                } else {
                    let mut body = frame;
                    match crate::from_bytes_cobs::<T>(&mut body) {
                        Ok(data) => FeedResult::Success { data, remaining },
                        Err(e) => {
                            if e == Error::DeserializeBadEncoding {
                                FeedResult::BadEncoding { remaining }
                            } else {
                                FeedResult::DeserError { remaining }
                            }
                        },
                    }
                }
            },
        }
    }
}

} // verus!
