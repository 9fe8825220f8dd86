//! Streaming codec for single length-prefixed frames.
//!
//! A per-stream state machine: bytes arrive in arbitrary chunks, and each
//! `decode` call either completes one frame or reports that the input is
//! still incomplete, carrying partial state (the pending length and the
//! payload accumulated so far) across calls.  The frame codec uses the
//! same canonical 4-byte big-endian length prefix as the message codec;
//! a wire with another prefix width is a compatibility break, not an
//! input this codec coerces.

use vstd::prelude::*;
use bytes::{Bytes, BytesMut};
use crate::bytebuf::{
    bmut_append, bmut_clear, bmut_freeze, bmut_len, bmut_new, bmut_put_slice, bmut_reserve,
    bmut_split_to, bmut_view, bytes_as_slice, bytes_get_u8, bytes_len, bytes_view,
};
use crate::layout::{be_u32, lemma_u32_exact, lemma_u32_round_trip, wire_u32};
use crate::utils::put_u32;

verus! {

/// What a frame layout at the head of `s` spells: the payload and the
/// exact number of bytes it occupies (prefix plus payload), or `None`
/// while `s` is still too short.
pub open spec fn scan_frame(s: Seq<u8>) -> Option<(Seq<u8>, int)> {
    if s.len() < 4 {
        None
    } else {
        let n = be_u32(s) as int;
        if s.len() < 4 + n {
            None
        } else {
            Some((s.subrange(4, 4 + n), 4 + n))
        }
    }
}

/// Read a big-endian `u32` off the front of an input buffer.
pub(crate) fn read_u32_bmut(src: &mut BytesMut) -> (r: u32)
    requires
        bmut_view(*old(src)).len() >= 4,
    ensures
        r == be_u32(bmut_view(*old(src))),
        bmut_view(*final(src)) == bmut_view(*old(src)).skip(4),
{
    let head = bmut_split_to(src, 4);
    let mut hb = bmut_freeze(head);
    let b0 = bytes_get_u8(&mut hb);
    let b1 = bytes_get_u8(&mut hb);
    let b2 = bytes_get_u8(&mut hb);
    let b3 = bytes_get_u8(&mut hb);
    (b0 as u32) * 0x1000000 + (b1 as u32) * 0x10000 + (b2 as u32) * 0x100 + (b3 as u32)
}

/// Round trip for a single frame: scanning a payload's wire form — its
/// length prefix, the payload, and any trailing bytes — yields the payload
/// and consumes exactly the frame.
pub proof fn lemma_frame_round_trip(payload: Seq<u8>, rest: Seq<u8>)
    requires
        payload.len() <= u32::MAX,
    ensures
        scan_frame(wire_u32(payload.len() as u32) + payload + rest) == Some(
            (payload, 4 + payload.len() as int),
        ),
{
    let n = payload.len() as u32;
    let s = wire_u32(n) + payload + rest;
    lemma_u32_round_trip(n);
    assert(s[0] == wire_u32(n)[0] && s[1] == wire_u32(n)[1] && s[2] == wire_u32(n)[2] && s[3]
        == wire_u32(n)[3]);
    assert(be_u32(s) == be_u32(wire_u32(n)));
    assert(s.subrange(4, 4 + payload.len() as int) =~= payload);
}

/// Chunking: once a frame scan completes, later-arriving bytes cannot
/// change it.  Together with `decode`'s byte-exact carrying of incomplete
/// input, splitting a wire into any sequence of chunks yields the same
/// frame as feeding the whole buffer at once.
pub proof fn lemma_scan_frame_extend(s: Seq<u8>, more: Seq<u8>)
    requires
        scan_frame(s) is Some,
    ensures
        scan_frame(s + more) == scan_frame(s),
{
    let n = be_u32(s) as int;
    assert((s + more)[0] == s[0] && (s + more)[1] == s[1] && (s + more)[2] == s[2] && (s + more)[3]
        == s[3]);
    assert(be_u32(s + more) == be_u32(s));
    assert((s + more).subrange(4, 4 + n) =~= s.subrange(4, 4 + n));
}

/// Streaming codec turning one length-prefixed frame into raw bytes and
/// back.
#[derive(Debug)]
pub struct FrameCodec {
    byte_count: Option<u32>,
    data: BytesMut,
}

impl FrameCodec {
    /// The raw wire bytes this codec has consumed toward the frame in
    /// progress: the length prefix once it has been read, then the payload
    /// accumulated so far.
    pub closed spec fn buffered(&self) -> Seq<u8> {
        match self.byte_count {
            Option::None => Seq::empty(),
            Option::Some(n) => wire_u32(n) + bmut_view(self.data),
        }
    }

    /// Internal consistency: no partial state without a pending length,
    /// and the accumulated payload is strictly short of the declared
    /// length (a complete payload is emitted at once).
    pub closed spec fn wf(&self) -> bool {
        match self.byte_count {
            Option::None => bmut_view(self.data).len() == 0,
            Option::Some(n) => bmut_view(self.data).len() < n || (n == 0 && bmut_view(
                self.data,
            ).len() == 0),
        }
    }

    /// A fresh codec with no partial state.
    pub fn new() -> (r: FrameCodec)
        ensures
            r.wf(),
            r.buffered() == Seq::<u8>::empty(),
    {
        FrameCodec { byte_count: None, data: bmut_new() }
    }

    /// Drop all partial state.
    fn clear(&mut self)
        ensures
            final(self).wf(),
            final(self).buffered() == Seq::<u8>::empty(),
    {
        self.byte_count = None;
        bmut_clear(&mut self.data);
    }

    /// Append one frame's wire form — length prefix, then payload — to
    /// `dst`.  Encoding never fails and touches no decode state.
    pub fn encode(&mut self, item: Bytes, dst: &mut BytesMut)
        requires
            bytes_view(item).len() <= u32::MAX,
        ensures
            bmut_view(*final(dst)) == bmut_view(*old(dst)) + wire_u32(
                bytes_view(item).len() as u32,
            ) + bytes_view(item),
            *final(self) == *old(self),
    {
        let byte_count = bytes_len(&item) as u32;
        bmut_reserve(dst, 4);
        put_u32(dst, byte_count);
        bmut_put_slice(dst, bytes_as_slice(&item));
    }

    /// Consume bytes from `src` toward one frame.  Returns the completed
    /// frame once the buffered bytes span a whole layout, resetting the
    /// partial state; otherwise returns `None`, retaining exactly the
    /// unfinished bytes: nothing is lost or reordered between the codec
    /// state and the input buffer.
    pub fn decode(&mut self, src: &mut BytesMut) -> (r: Option<Bytes>)
        requires
            old(self).wf(),
        ensures
            final(self).wf(),
            ({
                let s = old(self).buffered() + bmut_view(*old(src));
                match r {
                    Some(frame) => scan_frame(s) matches Some((payload, used)) && bytes_view(frame)
                        == payload && final(self).buffered() == Seq::<u8>::empty() && bmut_view(
                        *final(src),
                    ) == s.skip(used),
                    None => scan_frame(s) is None && (if s.len() < 4 {
                        final(self).buffered() == old(self).buffered() && bmut_view(*final(src))
                            == bmut_view(*old(src))
                    } else {
                        final(self).buffered() == s && bmut_view(*final(src)) == Seq::<u8>::empty()
                    }),
                }
            }),
    {
        let ghost s = old(self).buffered() + bmut_view(*old(src));
        // read the initial frame length
        if self.byte_count.is_none() {
            if bmut_len(src) < 4 {
                proof {
                    assert(s =~= bmut_view(*old(src)));
                }
                return None;
            }
            let n = read_u32_bmut(src);
            proof {
                assert(s =~= bmut_view(*old(src)));
                lemma_u32_exact(s);
                assert(wire_u32(n) + bmut_view(*src) =~= s);
            }
            bmut_reserve(&mut self.data, n as usize);
            self.byte_count = Some(n);
        }
        proof {
            assert(self.buffered() + bmut_view(*src) =~= s);
            assert(s.len() >= 4);
            assert(be_u32(s) == self.byte_count->Some_0) by {
                let n = self.byte_count->Some_0;
                lemma_u32_round_trip(n);
                assert(s[0] == wire_u32(n)[0] && s[1] == wire_u32(n)[1] && s[2] == wire_u32(n)[2]
                    && s[3] == wire_u32(n)[3]);
            }
        }
        // move a chunk of payload from the input into the accumulator
        let n = self.byte_count.unwrap();
        let have = bmut_len(&self.data);
        let remaining = (n as usize) - have;
        let avail = bmut_len(src);
        let at = if remaining <= avail {
            remaining
        } else {
            avail
        };
        let chunk = bmut_split_to(src, at);
        bmut_append(&mut self.data, chunk);
        // if the payload is complete, emit the frame
        if bmut_len(&self.data) == n as usize {
            proof {
                assert(s.subrange(4, 4 + n as int) =~= bmut_view(self.data));
                assert(s.skip(4 + n as int) =~= bmut_view(*src));
            }
            let mut d = bmut_new();
            core::mem::swap(&mut self.data, &mut d);
            let frame = bmut_freeze(d);
            self.clear();
            return Some(frame);
        }
        // otherwise, wait for more data to arrive to finish the frame
        proof {
            assert(self.buffered() =~= s);
            assert(bmut_view(*src) =~= Seq::<u8>::empty());
        }
        None
    }
}

impl Default for FrameCodec {
    fn default() -> (r: FrameCodec)
        ensures
            r.wf(),
            r.buffered() == Seq::<u8>::empty(),
    {
        FrameCodec::new()
    }
}

} // verus!
