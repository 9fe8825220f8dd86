//! Streaming codec for whole messages — the canonical wire protocol.
//!
//! A message is a run of frames, each written as a 4-byte big-endian
//! length prefix, the payload, and one continuation-marker byte: `1` while
//! more frames follow, `0` after the last.  The decoder is a two-state
//! machine (`Pending`: expecting the next length prefix; `AfterLength`:
//! expecting that frame's payload plus its marker) that accumulates
//! completed frames until a zero marker closes the message.  Decoding an
//! empty or short buffer reports "incomplete", never an empty message.

use vstd::prelude::*;
use bytes::BytesMut;
use bytes::Bytes;
use crate::InvalidInput;
use crate::bytebuf::{
    bmut_freeze, bmut_len, bmut_put_slice, bmut_put_u8, bmut_split_to, bmut_view, bytes_as_slice,
    bytes_clone, bytes_get_u8, bytes_len, bytes_view,
};
use crate::codec::read_u32_bmut;
use crate::layout::{be_u32, lemma_u32_exact, lemma_u32_round_trip, wire_u32};
use crate::message::{frame_chunk, frames_encodable, wire_frames, Message};
use crate::utils::put_u32;

verus! {

/// The outcome of scanning a byte sequence for one whole message, with
/// `acc` the frames already gathered: either the bytes run out before a
/// zero marker (`Incomplete`), or a marker byte outside `{0, 1}` is hit
/// (`Invalid`), or the message completes (`Done`, carrying the frames in
/// order and the exact number of bytes the message occupies).
pub enum MsgScan {
    Incomplete,
    Invalid,
    Done(Seq<Seq<u8>>, int),
}

pub open spec fn scan_msg(s: Seq<u8>, acc: Seq<Seq<u8>>) -> MsgScan
    decreases s.len(),
{
    if s.len() < 4 {
        MsgScan::Incomplete
    } else {
        let n = be_u32(s) as int;
        if s.len() < 4 + n + 1 {
            MsgScan::Incomplete
        } else {
            let payload = s.subrange(4, 4 + n);
            let marker = s[4 + n];
            if marker == 0 {
                MsgScan::Done(acc.push(payload), 4 + n + 1)
            } else if marker == 1 {
                match scan_msg(s.skip(4 + n + 1), acc.push(payload)) {
                    MsgScan::Done(fs, u) => MsgScan::Done(fs, 4 + n + 1 + u),
                    MsgScan::Incomplete => MsgScan::Incomplete,
                    MsgScan::Invalid => MsgScan::Invalid,
                }
            } else {
                MsgScan::Invalid
            }
        }
    }
}

/// A scan outcome pushed deeper into the stream: `c` bytes were already
/// consumed ahead of it.
pub open spec fn add_used(r: MsgScan, c: int) -> MsgScan {
    match r {
        MsgScan::Done(fs, u) => MsgScan::Done(fs, u + c),
        MsgScan::Incomplete => MsgScan::Incomplete,
        MsgScan::Invalid => MsgScan::Invalid,
    }
}

/// The wire bytes of a run of frames that are each followed by marker `1`
/// (frames already known not to end their message).
pub open spec fn chunks1(frames: Seq<Seq<u8>>) -> Seq<u8>
    decreases frames.len(),
{
    if frames.len() == 0 {
        Seq::empty()
    } else {
        frame_chunk(frames[0], true) + chunks1(frames.drop_first())
    }
}

pub proof fn lemma_chunks1_push(frames: Seq<Seq<u8>>, f: Seq<u8>)
    ensures
        chunks1(frames.push(f)) =~= chunks1(frames) + frame_chunk(f, true),
    decreases frames.len(),
{
    if frames.len() == 0 {
        assert(frames.push(f)[0] == f);
        assert(frames.push(f).drop_first() =~= Seq::<Seq<u8>>::empty());
        assert(chunks1(frames.push(f)) == frame_chunk(f, true) + chunks1(
            Seq::<Seq<u8>>::empty(),
        ));
        assert(chunks1(Seq::<Seq<u8>>::empty()) =~= Seq::<u8>::empty());
        assert(chunks1(frames) =~= Seq::<u8>::empty());
    } else {
        assert(frames.push(f)[0] == frames[0]);
        assert(frames.push(f).drop_first() =~= frames.drop_first().push(f));
        lemma_chunks1_push(frames.drop_first(), f);
        assert(chunks1(frames.push(f)) == frame_chunk(frames[0], true) + chunks1(
            frames.drop_first().push(f),
        ));
        assert(chunks1(frames) == frame_chunk(frames[0], true) + chunks1(frames.drop_first()));
        assert(frame_chunk(frames[0], true) + (chunks1(frames.drop_first()) + frame_chunk(f, true))
            =~= (frame_chunk(frames[0], true) + chunks1(frames.drop_first())) + frame_chunk(
            f,
            true,
        ));
    }
}

/// Scanning past a run of marker-`1` chunks gathers exactly those frames.
pub proof fn lemma_scan_absorb(fs: Seq<Seq<u8>>, tail: Seq<u8>, acc: Seq<Seq<u8>>)
    requires
        frames_encodable(fs),
    ensures
        scan_msg(chunks1(fs) + tail, acc) == add_used(scan_msg(tail, acc + fs), chunks1(fs).len() as int),
    decreases fs.len(),
{
    if fs.len() == 0 {
        assert(chunks1(fs) + tail =~= tail);
        assert(acc + fs =~= acc);
        assert(add_used(scan_msg(tail, acc), 0) == scan_msg(tail, acc));
    } else {
        let f0 = fs[0];
        let rest = fs.drop_first();
        let s = chunks1(fs) + tail;
        let n = f0.len() as int;
        assert(s =~= frame_chunk(f0, true) + (chunks1(rest) + tail));
        lemma_u32_round_trip(f0.len() as u32);
        assert(s[0] == wire_u32(f0.len() as u32)[0] && s[1] == wire_u32(f0.len() as u32)[1] && s[2]
            == wire_u32(f0.len() as u32)[2] && s[3] == wire_u32(f0.len() as u32)[3]);
        assert(be_u32(s) == f0.len());
        assert(s.len() >= 4 + n + 1);
        assert(s.subrange(4, 4 + n) =~= f0);
        assert(s[4 + n] == 1);
        assert(s.skip(4 + n + 1) =~= chunks1(rest) + tail);
        lemma_scan_absorb(rest, tail, acc.push(f0));
        assert(acc.push(f0) + rest =~= acc + fs);
        assert(chunks1(fs).len() == 4 + n + 1 + chunks1(rest).len());
    }
}

/// The tail-recursive prefix of a message's wire form: the chunks of the
/// first `i` frames, each marked `1` unless it is the message's last.
pub open spec fn chunks_upto(frames: Seq<Seq<u8>>, i: int) -> Seq<u8>
    decreases i,
{
    if i <= 0 {
        Seq::empty()
    } else {
        chunks_upto(frames, i - 1) + frame_chunk(frames[i - 1], i < frames.len())
    }
}

proof fn lemma_chunks_upto_shift(frames: Seq<Seq<u8>>, i: int)
    requires
        1 <= i <= frames.len(),
    ensures
        chunks_upto(frames, i) =~= frame_chunk(frames[0], 1 < frames.len()) + chunks_upto(
            frames.drop_first(),
            i - 1,
        ),
    decreases i,
{
    if i == 1 {
        assert(chunks_upto(frames, 0) =~= Seq::<u8>::empty());
    } else {
        lemma_chunks_upto_shift(frames, i - 1);
        assert(frames.drop_first()[i - 2] == frames[i - 1]);
        assert(i - 1 < frames.drop_first().len() <==> i < frames.len());
    }
}

/// The whole-message wire form equals the full prefix.
pub proof fn lemma_chunks_upto_all(frames: Seq<Seq<u8>>)
    ensures
        chunks_upto(frames, frames.len() as int) =~= wire_frames(frames),
    decreases frames.len(),
{
    if frames.len() > 0 {
        lemma_chunks_upto_shift(frames, frames.len() as int);
        lemma_chunks_upto_all(frames.drop_first());
    }
}

/// Chunking: once a message scan completes or fails, later-arriving bytes
/// cannot change it.  Together with `decode`'s byte-exact carrying of
/// incomplete input, splitting a wire into any sequence of chunks yields
/// the same message — or the same protocol error — as feeding the whole
/// buffer at once.
pub proof fn lemma_scan_msg_extend(s: Seq<u8>, more: Seq<u8>, acc: Seq<Seq<u8>>)
    requires
        !(scan_msg(s, acc) matches MsgScan::Incomplete),
    ensures
        scan_msg(s + more, acc) == scan_msg(s, acc),
    decreases s.len(),
{
    let n = be_u32(s) as int;
    assert((s + more)[0] == s[0] && (s + more)[1] == s[1] && (s + more)[2] == s[2] && (s + more)[3]
        == s[3]);
    assert(be_u32(s + more) == be_u32(s));
    assert(s.len() >= 4 + n + 1);
    assert((s + more).subrange(4, 4 + n) =~= s.subrange(4, 4 + n));
    assert((s + more)[4 + n] == s[4 + n]);
    if s[4 + n] == 1 {
        assert((s + more).skip(4 + n + 1) =~= s.skip(4 + n + 1) + more);
        lemma_scan_msg_extend(s.skip(4 + n + 1), more, acc.push(s.subrange(4, 4 + n)));
    }
}

/// A nonempty message's wire form is the marker-`1` chunks of all frames
/// but the last, then the last frame's marker-`0` chunk.
proof fn lemma_wire_frames_last(frames: Seq<Seq<u8>>)
    requires
        frames.len() > 0,
    ensures
        wire_frames(frames) =~= chunks1(frames.drop_last()) + frame_chunk(frames.last(), false),
    decreases frames.len(),
{
    if frames.len() == 1 {
        assert(frames.drop_first() =~= Seq::<Seq<u8>>::empty());
        assert(frames.drop_last() =~= Seq::<Seq<u8>>::empty());
        assert(wire_frames(Seq::<Seq<u8>>::empty()) =~= Seq::<u8>::empty());
        assert(chunks1(Seq::<Seq<u8>>::empty()) =~= Seq::<u8>::empty());
    } else {
        let rest = frames.drop_first();
        lemma_wire_frames_last(rest);
        assert(rest.last() == frames.last());
        assert(frames.drop_last()[0] == frames[0]);
        assert(frames.drop_last().drop_first() =~= rest.drop_last());
        assert(chunks1(frames.drop_last()) == frame_chunk(frames[0], true) + chunks1(
            rest.drop_last(),
        ));
        assert(wire_frames(frames) == frame_chunk(frames[0], true) + wire_frames(rest));
    }
}

/// Round trip for whole messages: scanning a nonempty message's wire form
/// — with any trailing bytes — yields exactly its frames, in order, and
/// consumes exactly the message.  (An empty message has no wire form at
/// all, so there is nothing to scan.)
pub proof fn lemma_msg_round_trip(frames: Seq<Seq<u8>>, rest: Seq<u8>)
    requires
        frames_encodable(frames),
        frames.len() > 0,
    ensures
        scan_msg(wire_frames(frames) + rest, Seq::empty()) == MsgScan::Done(
            frames,
            wire_frames(frames).len() as int,
        ),
{
    let init = frames.drop_last();
    let last = frames.last();
    let n = last.len() as int;
    lemma_wire_frames_last(frames);
    let tail = frame_chunk(last, false) + rest;
    assert(wire_frames(frames) + rest =~= chunks1(init) + tail);
    lemma_scan_absorb(init, tail, Seq::empty());
    assert(Seq::<Seq<u8>>::empty() + init =~= init);
    crate::layout::lemma_u32_round_trip(last.len() as u32);
    assert(tail[0] == wire_u32(last.len() as u32)[0] && tail[1] == wire_u32(last.len() as u32)[1]
        && tail[2] == wire_u32(last.len() as u32)[2] && tail[3] == wire_u32(last.len() as u32)[3]);
    assert(be_u32(tail) == last.len());
    assert(tail.len() >= 4 + n + 1);
    assert(tail.subrange(4, 4 + n) =~= last);
    assert(tail[4 + n] == 0);
    assert(init.push(last) =~= frames);
    assert(scan_msg(tail, init) == MsgScan::Done(frames, 4 + n + 1));
    assert(chunks1(init).len() + 4 + n + 1 == wire_frames(frames).len());
}

/// Read one byte off the front of an input buffer.
fn read_u8_bmut(src: &mut BytesMut) -> (r: u8)
    requires
        bmut_view(*old(src)).len() >= 1,
    ensures
        r == bmut_view(*old(src))[0],
        bmut_view(*final(src)) == bmut_view(*old(src)).skip(1),
{
    let h = bmut_split_to(src, 1);
    let mut hb = bmut_freeze(h);
    bytes_get_u8(&mut hb)
}

/// The decoder's two states: expecting the next frame's length prefix, or
/// expecting that frame's payload and continuation marker.
#[derive(Debug, Clone, Copy)]
pub enum MsgDecodeState {
    Pending,
    AfterLength(u32),
}

/// Streaming codec turning a marker-terminated run of frames into a
/// [`Message`] and back.
#[derive(Debug)]
pub struct MessageCodec {
    state: MsgDecodeState,
    frames: Vec<Bytes>,
}

impl MessageCodec {
    /// The frames accumulated for the message in progress, in order.
    pub closed spec fn gathered(&self) -> Seq<Seq<u8>> {
        self.frames@.map_values(|b: Bytes| bytes_view(b))
    }

    /// The raw wire bytes this codec has consumed and not yet emitted:
    /// one marker-`1` chunk per gathered frame, then the pending length
    /// prefix once it has been read.
    pub closed spec fn buffered(&self) -> Seq<u8> {
        chunks1(self.gathered()) + (match self.state {
            MsgDecodeState::Pending => Seq::<u8>::empty(),
            MsgDecodeState::AfterLength(n) => wire_u32(n),
        })
    }

    /// Every gathered frame fits its length prefix (true by construction:
    /// each was delimited by a 32-bit prefix).
    pub closed spec fn wf(&self) -> bool {
        frames_encodable(self.gathered())
    }

    /// A fresh codec with no partial state.
    pub fn new() -> (r: MessageCodec)
        ensures
            r.wf(),
            r.buffered() == Seq::<u8>::empty(),
    {
        let r = MessageCodec { state: MsgDecodeState::Pending, frames: Vec::new() };
        proof {
            assert(r.gathered() =~= Seq::<Seq<u8>>::empty());
            assert(r.buffered() =~= Seq::<u8>::empty());
        }
        r
    }

    /// Append a message's wire form to `dst`: for each frame, in order,
    /// its length prefix and payload, then marker `1` — or `0` for the
    /// last frame.  An empty message writes nothing at all.  Encoding
    /// never fails and touches no decode state.
    pub fn encode(&mut self, msg: &Message, dst: &mut BytesMut)
        requires
            frames_encodable(msg@),
        ensures
            bmut_view(*final(dst)) == bmut_view(*old(dst)) + wire_frames(msg@),
            *final(self) == *old(self),
    {
        let n = msg.frames.len();
        let mut i: usize = 0;
        proof {
            assert(bmut_view(*dst) =~= bmut_view(*old(dst)) + chunks_upto(msg@, 0));
        }
        while i < n
            invariant
                i <= n,
                n == msg@.len(),
                frames_encodable(msg@),
                bmut_view(*dst) == bmut_view(*old(dst)) + chunks_upto(msg@, i as int),
            decreases n - i,
        {
            let frame = &msg.frames[i];
            let l = bytes_len(frame);
            proof {
                assert(msg@[i as int] == bytes_view(msg.frames@[i as int]));
                assert(msg@[i as int].len() <= u32::MAX);
            }
            put_u32(dst, l as u32);
            bmut_put_slice(dst, bytes_as_slice(frame));
            if i + 1 < n {
                bmut_put_u8(dst, 1);
            } else {
                bmut_put_u8(dst, 0);
            }
            proof {
                assert(bmut_view(*dst) =~= bmut_view(*old(dst)) + chunks_upto(msg@, i + 1));
            }
            i = i + 1;
        }
        proof {
            lemma_chunks_upto_all(msg@);
        }
    }

    /// Consume bytes from `src` toward one message.  Returns the
    /// completed message once a zero marker closes it, resetting the
    /// partial state; returns `Ok(None)` while the input is incomplete —
    /// in particular on an empty buffer, which is never an empty message;
    /// fails with "invalid input" on a continuation marker outside
    /// `{0, 1}`.  Until the message completes, nothing is consumed:
    /// the codec state plus the input buffer carry every byte seen.
    #[verifier::rlimit(100)]
    #[verifier::spinoff_prover]
    pub fn decode(&mut self, src: &mut BytesMut) -> (r: Result<Option<Message>, InvalidInput>)
        requires
            old(self).wf(),
        ensures
            ({
                let s = old(self).buffered() + bmut_view(*old(src));
                match r {
                    Ok(Some(msg)) => {
                        &&& final(self).wf()
                        &&& scan_msg(s, Seq::empty()) matches MsgScan::Done(fs, used) && msg@ == fs
                            && bmut_view(*final(src)) == s.skip(used)
                        &&& final(self).buffered() == Seq::<u8>::empty()
                    },
                    Ok(None) => {
                        &&& final(self).wf()
                        &&& scan_msg(s, Seq::empty()) matches MsgScan::Incomplete
                        &&& final(self).buffered() + bmut_view(*final(src)) == s
                    },
                    Err(e) => scan_msg(s, Seq::empty()) matches MsgScan::Invalid && e.field@
                        == "continuation marker"@,
                }
            }),
    {
        let ghost s = old(self).buffered() + bmut_view(*old(src));
        loop
            invariant
                self.wf(),
                s == old(self).buffered() + bmut_view(*old(src)),
                self.buffered() + bmut_view(*src) == s,
            decreases bmut_view(*src).len(), (match self.state {
                MsgDecodeState::Pending => 1int,
                MsgDecodeState::AfterLength(_) => 0int,
            }),
        {
            match self.state {
                MsgDecodeState::Pending => {
                    if bmut_len(src) < 4 {
                        proof {
                            lemma_scan_absorb(self.gathered(), bmut_view(*src), Seq::empty());
                            assert(chunks1(self.gathered()) + bmut_view(*src) =~= s);
                            assert(Seq::<Seq<u8>>::empty() + self.gathered() =~= self.gathered());
                        }
                        return Ok(None);
                    }
                    let ghost src0 = bmut_view(*src);
                    let n = read_u32_bmut(src);
                    proof {
                        lemma_u32_exact(src0);
                        assert(wire_u32(n) + bmut_view(*src) =~= src0);
                        assert(self.buffered() + src0 =~= s);
                    }
                    self.state = MsgDecodeState::AfterLength(n);
                    proof {
                        assert(self.buffered() + bmut_view(*src) =~= s);
                    }
                },
                MsgDecodeState::AfterLength(n) => {
                    let avail = bmut_len(src);
                    if avail < n as usize || avail - (n as usize) < 1 {
                        proof {
                            lemma_scan_absorb(
                                self.gathered(),
                                wire_u32(n) + bmut_view(*src),
                                Seq::empty(),
                            );
                            assert(chunks1(self.gathered()) + (wire_u32(n) + bmut_view(*src))
                                =~= s);
                            assert(Seq::<Seq<u8>>::empty() + self.gathered() =~= self.gathered());
                            let tail = wire_u32(n) + bmut_view(*src);
                            lemma_u32_round_trip(n);
                            assert(tail[0] == wire_u32(n)[0] && tail[1] == wire_u32(n)[1]
                                && tail[2] == wire_u32(n)[2] && tail[3] == wire_u32(n)[3]);
                            assert(be_u32(tail) == n);
                            assert(tail.len() < 4 + n + 1);
                        }
                        return Ok(None);
                    }
                    let ghost src0 = bmut_view(*src);
                    let ghost gathered0 = self.gathered();
                    let payload = bmut_split_to(src, n as usize);
                    let frame = bmut_freeze(payload);
                    let marker = read_u8_bmut(src);
                    proof {
                        let tail = wire_u32(n) + src0;
                        lemma_u32_round_trip(n);
                        assert(tail[0] == wire_u32(n)[0] && tail[1] == wire_u32(n)[1] && tail[2]
                            == wire_u32(n)[2] && tail[3] == wire_u32(n)[3]);
                        assert(be_u32(tail) == n);
                        assert(tail.len() >= 4 + n + 1);
                        assert(tail.subrange(4, 4 + n as int) =~= bytes_view(frame));
                        assert(tail[4 + n as int] == marker);
                        lemma_scan_absorb(gathered0, tail, Seq::empty());
                        assert(chunks1(gathered0) + tail =~= s);
                        assert(Seq::<Seq<u8>>::empty() + gathered0 =~= gathered0);
                    }
                    self.state = MsgDecodeState::Pending;
                    if marker == 1 {
                        let ghost fv = bytes_view(frame);
                        self.frames.push(frame);
                        proof {
                            assert(self.gathered() =~= gathered0.push(fv));
                            lemma_chunks1_push(gathered0, fv);
                            assert(frame_chunk(fv, true) =~= wire_u32(n) + fv + seq![1u8]);
                            assert(self.buffered() + bmut_view(*src) =~= s);
                        }
                    } else if marker == 0 {
                        let ghost fv = bytes_view(frame);
                        self.frames.push(frame);
                        proof {
                            assert(self.gathered() =~= gathered0.push(fv));
                        }
                        let mut fs: Vec<Bytes> = Vec::new();
                        core::mem::swap(&mut self.frames, &mut fs);
                        proof {
                            assert(self.gathered() =~= Seq::<Seq<u8>>::empty());
                            assert(self.buffered() =~= Seq::<u8>::empty());
                        }
                        let mut msg = Message::new();
                        let ghost fvs = fs@.map_values(|b: Bytes| bytes_view(b));
                        let mut k: usize = 0;
                        proof {
                            assert(msg@ =~= fvs.take(0));
                        }
                        while k < fs.len()
                            invariant
                                k <= fs@.len(),
                                fvs == fs@.map_values(|b: Bytes| bytes_view(b)),
                                msg@ == fvs.take(k as int),
                            decreases fs@.len() - k,
                        {
                            msg.push(bytes_clone(&fs[k]));
                            proof {
                                assert(msg@ =~= fvs.take(k + 1));
                            }
                            k = k + 1;
                        }
                        proof {
                            assert(fvs.take(fs@.len() as int) =~= fvs);
                            assert(msg@ =~= gathered0.push(fv));
                            let used = chunks1(gathered0).len() + 4 + n + 1;
                            assert(scan_msg(s, Seq::empty()) == MsgScan::Done(
                                gathered0.push(fv),
                                used,
                            ));
                            assert(s.skip(used as int) =~= bmut_view(*src));
                        }
                        return Ok(Some(msg));
                    } else {
                        return Err(InvalidInput::new("continuation marker"));
                    }
                },
            }
        }
    }
}

impl Default for MessageCodec {
    fn default() -> (r: MessageCodec)
        ensures
            r.wf(),
            r.buffered() == Seq::<u8>::empty(),
    {
        MessageCodec::new()
    }
}

} // verus!
