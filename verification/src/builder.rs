//! A fluent constructor for [`Message`].

use vstd::prelude::*;
use std::collections::VecDeque;
use bytes::Bytes;
use crate::bytebuf::bytes_view;
use crate::message::Message;

verus! {

/// Builder type for [`Message`]: accumulates frames and whole sub-messages
/// through chained calls, then finalizes into a [`Message`].
#[derive(Debug)]
pub struct MessageBuilder {
    frames: VecDeque<Bytes>,
}

impl View for MessageBuilder {
    type V = Seq<Seq<u8>>;

    closed spec fn view(&self) -> Seq<Seq<u8>> {
        self.frames@.map_values(|b: Bytes| bytes_view(b))
    }
}

impl MessageBuilder {
    /// Construct an empty builder.
    pub fn new() -> (r: MessageBuilder)
        ensures
            r@ == Seq::<Seq<u8>>::empty(),
    {
        let r = MessageBuilder { frames: VecDeque::new() };
        proof {
            assert(r@ =~= Seq::<Seq<u8>>::empty());
        }
        r
    }

    /// Push a frame onto the message under construction.
    pub fn frame(self, frame: Bytes) -> (r: MessageBuilder)
        ensures
            r@ == self@.push(bytes_view(frame)),
    {
        let ghost fv = bytes_view(frame);
        let mut this = self;
        this.frames.push_back(frame);
        proof {
            assert(this@ =~= self@.push(fv));
        }
        this
    }

    /// Extend the message under construction with another message's frames.
    pub fn message(self, msg: Message) -> (r: MessageBuilder)
        ensures
            r@ == self@ + msg@,
    {
        let mut this = self;
        let mut msg = msg;
        let ghost mv = msg@;
        this.frames.append(&mut msg.frames);
        proof {
            assert(this@ =~= self@ + mv);
        }
        this
    }

    /// Finalize and build the message.
    pub fn build(self) -> (r: Message)
        ensures
            r@ == self@,
    {
        Message::from_frames(self.frames)
    }
}

} // verus!
