//! An ordered bundle of frames with FIFO semantics.
//!
//! A [`Message`] is a double-ended queue of frames: producers push at the
//! tail, consumers pop at the head.  Its wire form writes, for each frame,
//! a 4-byte big-endian length prefix, the payload, and a one-byte
//! continuation marker — `1` while more frames follow, `0` after the last.

use vstd::prelude::*;
use std::collections::VecDeque;
use bytes::Bytes;
use crate::bytebuf::{bytes_clone, bytes_len, bytes_view};
use crate::layout::wire_u32;

verus! {

/// The wire bytes of one frame inside a message: length prefix, payload,
/// and continuation marker (`1` when more frames follow, `0` when last).
pub open spec fn frame_chunk(f: Seq<u8>, more: bool) -> Seq<u8> {
    wire_u32(f.len() as u32) + f + seq![
        if more {
            1u8
        } else {
            0u8
        },
    ]
}

/// The wire bytes of a whole message: each frame's chunk in order, the
/// last one marked `0`.  An empty message has no wire bytes at all.
pub open spec fn wire_frames(frames: Seq<Seq<u8>>) -> Seq<u8>
    decreases frames.len(),
{
    if frames.len() == 0 {
        Seq::empty()
    } else {
        frame_chunk(frames[0], frames.len() > 1) + wire_frames(frames.drop_first())
    }
}

/// The wire size of a message: each frame costs its length-prefix width,
/// its payload length, and one marker byte.
pub open spec fn msg_wire_size(frames: Seq<Seq<u8>>) -> int
    decreases frames.len(),
{
    if frames.len() == 0 {
        0
    } else {
        5 + frames[0].len() + msg_wire_size(frames.drop_first())
    }
}

/// Every frame of a message must fit its 4-byte length prefix.
pub open spec fn frames_encodable(frames: Seq<Seq<u8>>) -> bool {
    forall|i: int| 0 <= i < frames.len() ==> (#[trigger] frames[i]).len() <= u32::MAX
}

pub proof fn lemma_msg_wire_size_nonneg(frames: Seq<Seq<u8>>)
    ensures
        msg_wire_size(frames) >= 0,
    decreases frames.len(),
{
    if frames.len() > 0 {
        lemma_msg_wire_size_nonneg(frames.drop_first());
    }
}

/// The wire size is exactly the length of the wire bytes.
pub proof fn lemma_msg_wire_size_is_wire_len(frames: Seq<Seq<u8>>)
    ensures
        wire_frames(frames).len() == msg_wire_size(frames),
    decreases frames.len(),
{
    if frames.len() > 0 {
        lemma_msg_wire_size_is_wire_len(frames.drop_first());
    }
}

/// The wire size splits across any division of the frame sequence.
pub proof fn lemma_msg_wire_size_split(frames: Seq<Seq<u8>>, i: int)
    requires
        0 <= i <= frames.len(),
    ensures
        msg_wire_size(frames) == msg_wire_size(frames.take(i)) + msg_wire_size(frames.skip(i)),
    decreases i,
{
    if i == 0 {
        assert(frames.take(0) =~= Seq::<Seq<u8>>::empty());
        assert(frames.skip(0) =~= frames);
    } else {
        assert(frames.take(i)[0] == frames[0]);
        assert(frames.take(i).drop_first() =~= frames.drop_first().take(i - 1));
        assert(frames.skip(i) =~= frames.drop_first().skip(i - 1));
        lemma_msg_wire_size_split(frames.drop_first(), i - 1);
    }
}

/// An ordered, mutable collection of frames with FIFO semantics.  The
/// frame sequence itself is public: holders may read and rewrite it.
#[derive(Debug)]
pub struct Message {
    pub frames: VecDeque<Bytes>,
}

impl View for Message {
    type V = Seq<Seq<u8>>;

    open spec fn view(&self) -> Seq<Seq<u8>> {
        self.frames@.map_values(|b: Bytes| bytes_view(b))
    }
}

impl Message {
    /// An empty message.
    pub fn new() -> (r: Message)
        ensures
            r@ == Seq::<Seq<u8>>::empty(),
    {
        let r = Message { frames: VecDeque::new() };
        proof {
            assert(r@ =~= Seq::<Seq<u8>>::empty());
        }
        r
    }

    /// Append a frame at the tail.
    pub fn push(&mut self, frame: Bytes)
        ensures
            final(self)@ == old(self)@.push(bytes_view(frame)),
    {
        let ghost fv = bytes_view(frame);
        self.frames.push_back(frame);
        proof {
            assert(self@ =~= old(self)@.push(fv));
        }
    }

    /// Insert a frame at the head.
    pub fn prepend(&mut self, frame: Bytes)
        ensures
            final(self)@ == seq![bytes_view(frame)] + old(self)@,
    {
        let ghost fv = bytes_view(frame);
        self.frames.push_front(frame);
        proof {
            assert(self@ =~= seq![fv] + old(self)@);
        }
    }

    /// Remove and return the head frame — FIFO with respect to `push`.
    pub fn pop(&mut self) -> (r: Option<Bytes>)
        ensures
            old(self)@.len() == 0 ==> r is None && final(self)@ == old(self)@,
            old(self)@.len() > 0 ==> (r matches Some(f) && bytes_view(f) == old(self)@[0]
                && final(self)@ == old(self)@.drop_first()),
    {
        let r = self.frames.pop_front();
        proof {
            if old(self)@.len() > 0 {
                assert(self@ =~= old(self)@.drop_first());
            } else {
                assert(self@ =~= old(self)@);
            }
        }
        r
    }

    /// Append every frame of `frames`, in order, at the tail.
    pub fn extend(&mut self, frames: Vec<Bytes>)
        ensures
            final(self)@ == old(self)@ + frames@.map_values(|b: Bytes| bytes_view(b)),
    {
        let ghost fvs = frames@.map_values(|b: Bytes| bytes_view(b));
        let mut i: usize = 0;
        proof {
            assert(self@ =~= old(self)@ + fvs.take(0));
        }
        while i < frames.len()
            invariant
                i <= frames@.len(),
                fvs == frames@.map_values(|b: Bytes| bytes_view(b)),
                self@ == old(self)@ + fvs.take(i as int),
            decreases frames@.len() - i,
        {
            self.push(bytes_clone(&frames[i]));
            proof {
                assert(self@ =~= old(self)@ + fvs.take(i + 1));
            }
            i = i + 1;
        }
        proof {
            assert(fvs.take(frames@.len() as int) =~= fvs);
        }
    }

    /// Concatenate another message's frames onto the tail, preserving
    /// their order.
    pub fn push_message(&mut self, msg: Message)
        ensures
            final(self)@ == old(self)@ + msg@,
    {
        let mut msg = msg;
        let ghost mv = msg@;
        self.frames.append(&mut msg.frames);
        proof {
            assert(self@ =~= old(self)@ + mv);
        }
    }

    /// The number of frames.
    pub fn frame_count(&self) -> (r: usize)
        ensures
            r == self@.len(),
    {
        self.frames.len()
    }

    /// The exact wire size of this message: per frame, the 4-byte length
    /// prefix, the payload, and the 1-byte continuation marker.
    pub fn byte_count(&self) -> (r: usize)
        requires
            msg_wire_size(self@) <= usize::MAX,
        ensures
            r == msg_wire_size(self@),
            r == wire_frames(self@).len(),
    {
        let n = self.frames.len();
        let mut total: usize = 0;
        let mut i: usize = 0;
        proof {
            assert(self@.take(0) =~= Seq::<Seq<u8>>::empty());
        }
        while i < n
            invariant
                i <= n,
                n == self@.len(),
                msg_wire_size(self@) <= usize::MAX,
                total == msg_wire_size(self@.take(i as int)),
            decreases n - i,
        {
            let l = bytes_len(&self.frames[i]);
            proof {
                lemma_msg_wire_size_split(self@, i as int);
                lemma_msg_wire_size_split(self@, i + 1);
                assert(self@.take(i + 1).take(i as int) =~= self@.take(i as int));
                lemma_msg_wire_size_split(self@.take(i + 1), i as int);
                assert(self@.take(i + 1).skip(i as int) =~= seq![self@[i as int]]);
                assert(msg_wire_size(seq![self@[i as int]]) == 5 + l) by {
                    assert(self@[i as int] == bytes_view(self.frames@[i as int]));
                    assert(seq![self@[i as int]][0] == self@[i as int]);
                    assert(seq![self@[i as int]].drop_first() =~= Seq::<Seq<u8>>::empty());
                    assert(msg_wire_size(Seq::<Seq<u8>>::empty()) == 0);
                }
                lemma_msg_wire_size_nonneg(self@.skip(i + 1));
            }
            total = total + 5 + l;
            i = i + 1;
        }
        proof {
            assert(self@.take(n as int) =~= self@);
            lemma_msg_wire_size_is_wire_len(self@);
        }
        total
    }

    /// The full ordered frame sequence, surrendered by the message.
    pub fn into_frames(self) -> (r: VecDeque<Bytes>)
        ensures
            r@.map_values(|b: Bytes| bytes_view(b)) == self@,
    {
        self.frames
    }

    /// A message holding exactly the given ordered frame sequence.
    pub fn from_frames(frames: VecDeque<Bytes>) -> (r: Message)
        ensures
            r@ == frames@.map_values(|b: Bytes| bytes_view(b)),
    {
        Message { frames }
    }
}

impl Default for Message {
    fn default() -> (r: Message)
        ensures
            r@ == Seq::<Seq<u8>>::empty(),
    {
        Message::new()
    }
}

/// Trait for appending `Self`'s frames to a [`Message`].
pub trait IntoMessage {
    /// The frames this value contributes, in order.
    spec fn as_frames(&self) -> Seq<Seq<u8>>;

    /// Append this value's frames at the tail of `msg`.
    fn extend_message(&self, msg: &mut Message)
        ensures
            final(msg)@ == old(msg)@ + self.as_frames(),
    ;
}

impl IntoMessage for Message {
    open spec fn as_frames(&self) -> Seq<Seq<u8>> {
        self@
    }

    fn extend_message(&self, msg: &mut Message) {
        let n = self.frames.len();
        let mut i: usize = 0;
        proof {
            assert(msg@ =~= old(msg)@ + self@.take(0));
        }
        while i < n
            invariant
                i <= n,
                n == self@.len(),
                msg@ == old(msg)@ + self@.take(i as int),
            decreases n - i,
        {
            msg.push(bytes_clone(&self.frames[i]));
            proof {
                assert(msg@ =~= old(msg)@ + self@.take(i + 1));
            }
            i = i + 1;
        }
        proof {
            assert(self@.take(n as int) =~= self@);
        }
    }
}

impl IntoMessage for Bytes {
    open spec fn as_frames(&self) -> Seq<Seq<u8>> {
        seq![bytes_view(*self)]
    }

    fn extend_message(&self, msg: &mut Message) {
        msg.push(bytes_clone(self));
        proof {
            assert(msg@ =~= old(msg)@ + self.as_frames());
        }
    }
}

} // verus!
