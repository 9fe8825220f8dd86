//! A minimal binary wire protocol: typed values are laid out as
//! self-delimiting byte frames, and frames are bundled into ordered
//! messages terminated by a one-byte continuation marker.
//!
//! The layout is positional and big-endian.  The two traits [`FromFrame`]
//! and [`IntoFrame`] form the value composition contract: every type that
//! travels on the wire says, as a specification, exactly which bytes it
//! produces ([`IntoFrame::wire`]) and which bytes a parse consumes and what
//! value it yields ([`FromFrame::parse_spec`]); the executable codec is
//! verified against those specifications, and [`FrameLaws`] obliges every
//! wire type to prove that decoding an encoding returns the value.

use vstd::prelude::*;

pub mod builder;
pub mod bytebuf;
pub mod codec;
pub mod common_impls;
pub mod composite;
pub mod layout;
pub mod message;
pub mod message_codec;
pub mod utils;

use bytes::{Bytes, BytesMut};
use crate::bytebuf::{bmut_freeze, bmut_view, bmut_with_capacity, bytes_view};

verus! {

/// The single error kind of the protocol: the input bytes were missing,
/// malformed, or carried an unrecognized tag.  `field` names the offending
/// field or type; callers get diagnostics, not a structured cause.
#[derive(Debug)]
pub struct InvalidInput {
    pub field: String,
}

impl InvalidInput {
    /// An "invalid input" condition blamed on `field`.
    pub fn new(field: &str) -> (r: InvalidInput)
        ensures
            r.field@ == field@,
    {
        InvalidInput { field: field.to_owned() }
    }
}

/// Trait for converting a frame into `Self`.
pub trait FromFrame: Sized {
    /// The mathematical model of a decoded value (the value itself for
    /// primitives, a sequence for strings and arrays, and so on).
    type Model;

    /// The model of this value.
    spec fn model(&self) -> Self::Model;

    /// What one value's canonical layout at the head of `s` spells: the
    /// parsed model and the exact number of bytes it occupies, or `None`
    /// when the head of `s` is not a canonical layout of this type.
    spec fn parse_spec(s: Seq<u8>) -> Option<(Self::Model, int)>;

    /// Parse one value from the head of `frame`, advancing the cursor past
    /// exactly the bytes of its canonical layout.
    fn parse_frame(frame: &mut Bytes) -> (r: Result<Self, InvalidInput>)
        ensures
            match r {
                Ok(v) => Self::parse_spec(bytes_view(*old(frame))) matches Some((m, n)) && m
                    == v.model() && 0 <= n <= bytes_view(*old(frame)).len() && bytes_view(
                    *final(frame),
                ) == bytes_view(*old(frame)).skip(n),
                Err(_) => Self::parse_spec(bytes_view(*old(frame))) is None,
            },
    ;

    /// Convert a frame into a `Self`, ignoring any bytes past the value's
    /// own layout.
    fn from_frame(frame: Bytes) -> (r: Result<Self, InvalidInput>)
        ensures
            match r {
                Ok(v) => Self::parse_spec(bytes_view(frame)) matches Some((m, _)) && m
                    == v.model(),
                Err(_) => Self::parse_spec(bytes_view(frame)) is None,
            },
    {
        let mut frame = frame;
        Self::parse_frame(&mut frame)
    }
}

/// Trait for converting a `Self` into a frame.
pub trait IntoFrame: Sized {
    /// The canonical wire bytes of this value.
    spec fn wire(&self) -> Seq<u8>;

    /// Whether the value can be laid out at all: every length field it
    /// contains fits the fixed-width count prefix of its layout.
    spec fn encodable(&self) -> bool;

    /// Append the canonical encoding of `self` to `frame`.
    fn extend_frame(&self, frame: &mut BytesMut)
        requires
            self.encodable(),
        ensures
            bmut_view(*final(frame)) == bmut_view(*old(frame)) + self.wire(),
    ;

    /// A capacity reservation hint in bytes; it may under- or over-estimate
    /// and correctness never depends on it.
    fn size_hint(&self) -> usize;

    /// Encode `self` into an owned frame holding exactly its wire bytes.
    fn into_frame(&self) -> (r: Bytes)
        requires
            self.encodable(),
        ensures
            bytes_view(r) == self.wire(),
    {
        let mut frame = bmut_with_capacity(self.size_hint());
        self.extend_frame(&mut frame);
        proof {
            assert(bmut_view(frame) =~= self.wire());
        }
        bmut_freeze(frame)
    }
}

/// The law every wire type owes its users: decode inverts encode.
pub trait FrameLaws: FromFrame + IntoFrame {
    /// Round trip: parsing a value's canonical encoding — whatever bytes
    /// follow it — yields the value's model and consumes exactly the
    /// encoding.
    proof fn lemma_round_trip(&self, rest: Seq<u8>)
        requires
            self.encodable(),
        ensures
            Self::parse_spec(self.wire() + rest) matches Some((m, n)) && m == self.model() && n
                == self.wire().len(),
    ;
}

} // verus!
