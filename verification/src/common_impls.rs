//! Canonical composition-contract implementations for the primitives and
//! the generic containers.
//!
//! Each implementation fixes, byte-exactly, the type's canonical layout
//! (`wire` / `parse_spec`) and is accompanied by its round-trip law.

use vstd::prelude::*;
use bytes::{Bytes, BytesMut};
use crate::{FrameLaws, FromFrame, IntoFrame, InvalidInput};
use crate::bytebuf::{bmut_put_u8, bmut_view, bytes_view};
use crate::layout::{
    array_encodable, be_u16, be_u32, be_u64, concat_wires, i16_as_u16, i32_as_u32, i64_as_u64,
    i8_as_u8, lemma_parse_concat, lemma_u16_round_trip, lemma_u32_round_trip,
    lemma_u64_round_trip, option_encodable, parse_array, parse_option, parse_str, seq_model,
    str_encodable, u16_as_i16, u32_as_i32, u64_as_i64, u8_as_i8, wire_array, wire_bool,
    wire_option, wire_str, wire_u16, wire_u32, wire_u64,
};
use crate::utils;

verus! {

impl FromFrame for bool {
    type Model = bool;

    open spec fn model(&self) -> bool {
        *self
    }

    open spec fn parse_spec(s: Seq<u8>) -> Option<(bool, int)> {
        if s.len() >= 1 {
            Some(((s[0] != 0), 1))
        } else {
            None
        }
    }

    fn parse_frame(frame: &mut Bytes) -> (r: Result<Self, InvalidInput>) {
        utils::get_bool(frame, "bool")
    }
}

impl IntoFrame for bool {
    open spec fn wire(&self) -> Seq<u8> {
        wire_bool(*self)
    }

    open spec fn encodable(&self) -> bool {
        true
    }

    fn extend_frame(&self, frame: &mut BytesMut) {
        bmut_put_u8(frame, if *self { 1 } else { 0 });
        proof {
            assert(bmut_view(*frame) =~= bmut_view(*old(frame)) + self.wire());
        }
    }

    fn size_hint(&self) -> usize {
        1
    }
}

impl FrameLaws for bool {
    proof fn lemma_round_trip(&self, rest: Seq<u8>) {
        assert((self.wire() + rest)[0] == self.wire()[0]);
    }
}

impl FromFrame for u8 {
    type Model = u8;

    open spec fn model(&self) -> u8 {
        *self
    }

    open spec fn parse_spec(s: Seq<u8>) -> Option<(u8, int)> {
        if s.len() >= 1 {
            Some((s[0], 1))
        } else {
            None
        }
    }

    fn parse_frame(frame: &mut Bytes) -> (r: Result<Self, InvalidInput>) {
        utils::get_u8(frame, "u8")
    }
}

impl IntoFrame for u8 {
    open spec fn wire(&self) -> Seq<u8> {
        seq![*self]
    }

    open spec fn encodable(&self) -> bool {
        true
    }

    fn extend_frame(&self, frame: &mut BytesMut) {
        bmut_put_u8(frame, *self);
        proof {
            assert(bmut_view(*frame) =~= bmut_view(*old(frame)) + self.wire());
        }
    }

    fn size_hint(&self) -> usize {
        1
    }
}

impl FrameLaws for u8 {
    proof fn lemma_round_trip(&self, rest: Seq<u8>) {
        assert((self.wire() + rest)[0] == self.wire()[0]);
    }
}

impl FromFrame for u16 {
    type Model = u16;

    open spec fn model(&self) -> u16 {
        *self
    }

    open spec fn parse_spec(s: Seq<u8>) -> Option<(u16, int)> {
        if s.len() >= 2 {
            Some((be_u16(s), 2))
        } else {
            None
        }
    }

    fn parse_frame(frame: &mut Bytes) -> (r: Result<Self, InvalidInput>) {
        utils::get_u16(frame, "u16")
    }
}

impl IntoFrame for u16 {
    open spec fn wire(&self) -> Seq<u8> {
        wire_u16(*self)
    }

    open spec fn encodable(&self) -> bool {
        true
    }

    fn extend_frame(&self, frame: &mut BytesMut) {
        utils::put_u16(frame, *self);
    }

    fn size_hint(&self) -> usize {
        2
    }
}

impl FrameLaws for u16 {
    proof fn lemma_round_trip(&self, rest: Seq<u8>) {
        lemma_u16_round_trip(*self);
        let s = self.wire() + rest;
        assert(s[0] == self.wire()[0] && s[1] == self.wire()[1]);
        assert(be_u16(s) == be_u16(self.wire()));
    }
}

impl FromFrame for u32 {
    type Model = u32;

    open spec fn model(&self) -> u32 {
        *self
    }

    open spec fn parse_spec(s: Seq<u8>) -> Option<(u32, int)> {
        if s.len() >= 4 {
            Some((be_u32(s), 4))
        } else {
            None
        }
    }

    fn parse_frame(frame: &mut Bytes) -> (r: Result<Self, InvalidInput>) {
        utils::get_u32(frame, "u32")
    }
}

impl IntoFrame for u32 {
    open spec fn wire(&self) -> Seq<u8> {
        wire_u32(*self)
    }

    open spec fn encodable(&self) -> bool {
        true
    }

    fn extend_frame(&self, frame: &mut BytesMut) {
        utils::put_u32(frame, *self);
    }

    fn size_hint(&self) -> usize {
        4
    }
}

impl FrameLaws for u32 {
    proof fn lemma_round_trip(&self, rest: Seq<u8>) {
        lemma_u32_round_trip(*self);
        let s = self.wire() + rest;
        assert(s[0] == self.wire()[0] && s[1] == self.wire()[1] && s[2] == self.wire()[2] && s[3]
            == self.wire()[3]);
        assert(be_u32(s) == be_u32(self.wire()));
    }
}

impl FromFrame for u64 {
    type Model = u64;

    open spec fn model(&self) -> u64 {
        *self
    }

    open spec fn parse_spec(s: Seq<u8>) -> Option<(u64, int)> {
        if s.len() >= 8 {
            Some((be_u64(s), 8))
        } else {
            None
        }
    }

    fn parse_frame(frame: &mut Bytes) -> (r: Result<Self, InvalidInput>) {
        utils::get_u64(frame, "u64")
    }
}

impl IntoFrame for u64 {
    open spec fn wire(&self) -> Seq<u8> {
        wire_u64(*self)
    }

    open spec fn encodable(&self) -> bool {
        true
    }

    fn extend_frame(&self, frame: &mut BytesMut) {
        utils::put_u64(frame, *self);
    }

    fn size_hint(&self) -> usize {
        8
    }
}

impl FrameLaws for u64 {
    proof fn lemma_round_trip(&self, rest: Seq<u8>) {
        lemma_u64_round_trip(*self);
        let s = self.wire() + rest;
        assert(s[0] == self.wire()[0] && s[1] == self.wire()[1] && s[2] == self.wire()[2] && s[3]
            == self.wire()[3] && s[4] == self.wire()[4] && s[5] == self.wire()[5] && s[6]
            == self.wire()[6] && s[7] == self.wire()[7]);
        assert(be_u64(s) == be_u64(self.wire()));
    }
}

impl FromFrame for i8 {
    type Model = i8;

    open spec fn model(&self) -> i8 {
        *self
    }

    open spec fn parse_spec(s: Seq<u8>) -> Option<(i8, int)> {
        if s.len() >= 1 {
            Some((u8_as_i8(s[0]), 1))
        } else {
            None
        }
    }

    fn parse_frame(frame: &mut Bytes) -> (r: Result<Self, InvalidInput>) {
        utils::get_i8(frame, "i8")
    }
}

impl IntoFrame for i8 {
    open spec fn wire(&self) -> Seq<u8> {
        seq![i8_as_u8(*self)]
    }

    open spec fn encodable(&self) -> bool {
        true
    }

    fn extend_frame(&self, frame: &mut BytesMut) {
        let v = *self;
        let b: u8 = if v >= 0 {
            v as u8
        } else {
            ((v as i16) + 0x100) as u8
        };
        bmut_put_u8(frame, b);
        proof {
            assert(bmut_view(*frame) =~= bmut_view(*old(frame)) + self.wire());
        }
    }

    fn size_hint(&self) -> usize {
        1
    }
}

impl FrameLaws for i8 {
    proof fn lemma_round_trip(&self, rest: Seq<u8>) {
        assert((self.wire() + rest)[0] == self.wire()[0]);
        assert(u8_as_i8(i8_as_u8(*self)) == *self);
    }
}

impl FromFrame for i16 {
    type Model = i16;

    open spec fn model(&self) -> i16 {
        *self
    }

    open spec fn parse_spec(s: Seq<u8>) -> Option<(i16, int)> {
        if s.len() >= 2 {
            Some((u16_as_i16(be_u16(s)), 2))
        } else {
            None
        }
    }

    fn parse_frame(frame: &mut Bytes) -> (r: Result<Self, InvalidInput>) {
        utils::get_i16(frame, "i16")
    }
}

impl IntoFrame for i16 {
    open spec fn wire(&self) -> Seq<u8> {
        wire_u16(i16_as_u16(*self))
    }

    open spec fn encodable(&self) -> bool {
        true
    }

    fn extend_frame(&self, frame: &mut BytesMut) {
        let v = *self;
        let u: u16 = if v >= 0 {
            v as u16
        } else {
            ((v as i32) + 0x10000) as u16
        };
        utils::put_u16(frame, u);
    }

    fn size_hint(&self) -> usize {
        2
    }
}

impl FrameLaws for i16 {
    proof fn lemma_round_trip(&self, rest: Seq<u8>) {
        let u = i16_as_u16(*self);
        lemma_u16_round_trip(u);
        let s = self.wire() + rest;
        assert(s[0] == self.wire()[0] && s[1] == self.wire()[1]);
        assert(be_u16(s) == be_u16(self.wire()));
        assert(u16_as_i16(u) == *self);
    }
}

impl FromFrame for i32 {
    type Model = i32;

    open spec fn model(&self) -> i32 {
        *self
    }

    open spec fn parse_spec(s: Seq<u8>) -> Option<(i32, int)> {
        if s.len() >= 4 {
            Some((u32_as_i32(be_u32(s)), 4))
        } else {
            None
        }
    }

    fn parse_frame(frame: &mut Bytes) -> (r: Result<Self, InvalidInput>) {
        utils::get_i32(frame, "i32")
    }
}

impl IntoFrame for i32 {
    open spec fn wire(&self) -> Seq<u8> {
        wire_u32(i32_as_u32(*self))
    }

    open spec fn encodable(&self) -> bool {
        true
    }

    fn extend_frame(&self, frame: &mut BytesMut) {
        let v = *self;
        let u: u32 = if v >= 0 {
            v as u32
        } else {
            ((v as i64) + 0x100000000) as u32
        };
        utils::put_u32(frame, u);
    }

    fn size_hint(&self) -> usize {
        4
    }
}

impl FrameLaws for i32 {
    proof fn lemma_round_trip(&self, rest: Seq<u8>) {
        let u = i32_as_u32(*self);
        lemma_u32_round_trip(u);
        let s = self.wire() + rest;
        assert(s[0] == self.wire()[0] && s[1] == self.wire()[1] && s[2] == self.wire()[2] && s[3]
            == self.wire()[3]);
        assert(be_u32(s) == be_u32(self.wire()));
        assert(u32_as_i32(u) == *self);
    }
}

impl FromFrame for i64 {
    type Model = i64;

    open spec fn model(&self) -> i64 {
        *self
    }

    open spec fn parse_spec(s: Seq<u8>) -> Option<(i64, int)> {
        if s.len() >= 8 {
            Some((u64_as_i64(be_u64(s)), 8))
        } else {
            None
        }
    }

    fn parse_frame(frame: &mut Bytes) -> (r: Result<Self, InvalidInput>) {
        utils::get_i64(frame, "i64")
    }
}

impl IntoFrame for i64 {
    open spec fn wire(&self) -> Seq<u8> {
        wire_u64(i64_as_u64(*self))
    }

    open spec fn encodable(&self) -> bool {
        true
    }

    fn extend_frame(&self, frame: &mut BytesMut) {
        let v = *self;
        let u: u64 = if v >= 0 {
            v as u64
        } else {
            ((v as i128) + 0x10000000000000000) as u64
        };
        utils::put_u64(frame, u);
    }

    fn size_hint(&self) -> usize {
        8
    }
}

impl FrameLaws for i64 {
    proof fn lemma_round_trip(&self, rest: Seq<u8>) {
        let u = i64_as_u64(*self);
        lemma_u64_round_trip(u);
        let s = self.wire() + rest;
        assert(s[0] == self.wire()[0] && s[1] == self.wire()[1] && s[2] == self.wire()[2] && s[3]
            == self.wire()[3] && s[4] == self.wire()[4] && s[5] == self.wire()[5] && s[6]
            == self.wire()[6] && s[7] == self.wire()[7]);
        assert(be_u64(s) == be_u64(self.wire()));
        assert(u64_as_i64(u) == *self);
    }
}

impl IntoFrame for &str {
    open spec fn wire(&self) -> Seq<u8> {
        wire_str(self@)
    }

    open spec fn encodable(&self) -> bool {
        str_encodable(self@)
    }

    fn extend_frame(&self, frame: &mut BytesMut) {
        utils::put_str(frame, self);
    }

    fn size_hint(&self) -> usize {
        hint_add(4, self.len())
    }
}

impl FromFrame for String {
    type Model = Seq<char>;

    open spec fn model(&self) -> Seq<char> {
        self@
    }

    open spec fn parse_spec(s: Seq<u8>) -> Option<(Seq<char>, int)> {
        parse_str(s)
    }

    fn parse_frame(frame: &mut Bytes) -> (r: Result<Self, InvalidInput>) {
        utils::get_string(frame, "string")
    }
}

impl IntoFrame for String {
    open spec fn wire(&self) -> Seq<u8> {
        wire_str(self@)
    }

    open spec fn encodable(&self) -> bool {
        str_encodable(self@)
    }

    fn extend_frame(&self, frame: &mut BytesMut) {
        utils::put_str(frame, self.as_str());
    }

    fn size_hint(&self) -> usize {
        let n = self.as_str().len();
        if n <= usize::MAX - 4 {
            4 + n
        } else {
            usize::MAX
        }
    }
}

impl FrameLaws for String {
    proof fn lemma_round_trip(&self, rest: Seq<u8>) {
        broadcast use vstd::utf8::encode_utf8_valid_utf8;
        broadcast use vstd::utf8::encode_utf8_decode_utf8;

        let u = vstd::utf8::encode_utf8(self@);
        let n = u.len() as u32;
        lemma_u32_round_trip(n);
        let s = self.wire() + rest;
        assert(s[0] == wire_u32(n)[0] && s[1] == wire_u32(n)[1] && s[2] == wire_u32(n)[2] && s[3]
            == wire_u32(n)[3]);
        assert(be_u32(s) == be_u32(wire_u32(n)));
        assert(s.subrange(4, 4 + u.len() as int) =~= u);
    }
}

impl<T: FromFrame> FromFrame for Option<T> {
    type Model = Option<T::Model>;

    open spec fn model(&self) -> Option<T::Model> {
        match self {
            Option::None => Option::None,
            Option::Some(t) => Option::Some(t.model()),
        }
    }

    open spec fn parse_spec(s: Seq<u8>) -> Option<(Option<T::Model>, int)> {
        parse_option::<T>(s)
    }

    fn parse_frame(frame: &mut Bytes) -> (r: Result<Self, InvalidInput>) {
        utils::get_option(frame, "option")
    }
}

impl<T: IntoFrame> IntoFrame for Option<T> {
    open spec fn wire(&self) -> Seq<u8> {
        wire_option(*self)
    }

    open spec fn encodable(&self) -> bool {
        option_encodable(*self)
    }

    fn extend_frame(&self, frame: &mut BytesMut) {
        utils::put_option(frame, self);
    }

    fn size_hint(&self) -> usize {
        match self {
            Some(v) => {
                let n = v.size_hint();
                if n <= usize::MAX - 1 {
                    1 + n
                } else {
                    usize::MAX
                }
            },
            None => 1,
        }
    }
}

impl<T: FrameLaws> FrameLaws for Option<T> {
    proof fn lemma_round_trip(&self, rest: Seq<u8>) {
        let s = self.wire() + rest;
        assert(s[0] == self.wire()[0]);
        match self {
            Option::None => {
                assert(s[0] == 0);
            },
            Option::Some(t) => {
                assert(s[0] == 1);
                t.lemma_round_trip(rest);
                assert(s.skip(1) =~= t.wire() + rest);
            },
        }
    }
}

impl<T: FromFrame> FromFrame for Vec<T> {
    type Model = Seq<T::Model>;

    open spec fn model(&self) -> Seq<T::Model> {
        seq_model(self@)
    }

    open spec fn parse_spec(s: Seq<u8>) -> Option<(Seq<T::Model>, int)> {
        parse_array::<T>(s)
    }

    fn parse_frame(frame: &mut Bytes) -> (r: Result<Self, InvalidInput>) {
        utils::get_array(frame, "array")
    }
}

impl<T: IntoFrame> IntoFrame for Vec<T> {
    open spec fn wire(&self) -> Seq<u8> {
        wire_array(self@)
    }

    open spec fn encodable(&self) -> bool {
        array_encodable(self@)
    }

    fn extend_frame(&self, frame: &mut BytesMut) {
        utils::put_array(frame, self.as_slice());
    }

    fn size_hint(&self) -> usize {
        let mut total: usize = 4;
        let mut i: usize = 0;
        while i < self.len()
            invariant
                i <= self@.len(),
            decreases self@.len() - i,
        {
            let n = self[i].size_hint();
            total = if total <= usize::MAX - n {
                total + n
            } else {
                usize::MAX
            };
            i = i + 1;
        }
        total
    }
}

impl<T: FrameLaws> FrameLaws for Vec<T> {
    proof fn lemma_round_trip(&self, rest: Seq<u8>) {
        crate::layout::lemma_array_round_trip::<T>(self@, rest);
    }
}

impl<T1: FromFrame, T2: FromFrame> FromFrame for (T1, T2) {
    type Model = (T1::Model, T2::Model);

    open spec fn model(&self) -> (T1::Model, T2::Model) {
        (self.0.model(), self.1.model())
    }

    open spec fn parse_spec(s: Seq<u8>) -> Option<((T1::Model, T2::Model), int)> {
        match T1::parse_spec(s) {
            Option::None => None,
            Option::Some((m1, n1)) => match T2::parse_spec(s.skip(n1)) {
                Option::None => None,
                Option::Some((m2, n2)) => Some(((m1, m2), n1 + n2)),
            },
        }
    }

    fn parse_frame(frame: &mut Bytes) -> (r: Result<Self, InvalidInput>) {
        let ghost s = bytes_view(*old(frame));
        let a = match T1::parse_frame(frame) {
            Ok(v) => v,
            Err(e) => {
                return Err(e);
            },
        };
        let ghost n1: int = T1::parse_spec(s)->Some_0.1;
        let b = match T2::parse_frame(frame) {
            Ok(v) => v,
            Err(e) => {
                return Err(e);
            },
        };
        proof {
            let n2 = T2::parse_spec(s.skip(n1))->Some_0.1;
            assert(bytes_view(*frame) =~= s.skip(n1 + n2));
        }
        Ok((a, b))
    }
}

impl<T1: IntoFrame, T2: IntoFrame> IntoFrame for (T1, T2) {
    open spec fn wire(&self) -> Seq<u8> {
        self.0.wire() + self.1.wire()
    }

    open spec fn encodable(&self) -> bool {
        self.0.encodable() && self.1.encodable()
    }

    fn extend_frame(&self, frame: &mut BytesMut) {
        self.0.extend_frame(frame);
        self.1.extend_frame(frame);
        proof {
            assert(bmut_view(*frame) =~= bmut_view(*old(frame)) + self.wire());
        }
    }

    fn size_hint(&self) -> usize {
        hint_add(self.0.size_hint(), self.1.size_hint())
    }
}

impl<T1: FrameLaws, T2: FrameLaws> FrameLaws for (T1, T2) {
    proof fn lemma_round_trip(&self, rest: Seq<u8>) {
        let w0 = self.0.wire();
        let w1 = self.1.wire();
        let s = self.wire() + rest;
        assert(s =~= w0 + (w1 + rest));
        self.0.lemma_round_trip(w1 + rest);
        assert(s.skip(w0.len() as int) =~= w1 + rest);
        self.1.lemma_round_trip(rest);
    }
}

impl<T1: FromFrame, T2: FromFrame, T3: FromFrame> FromFrame for (T1, T2, T3) {
    type Model = (T1::Model, T2::Model, T3::Model);

    open spec fn model(&self) -> (T1::Model, T2::Model, T3::Model) {
        (self.0.model(), self.1.model(), self.2.model())
    }

    open spec fn parse_spec(s: Seq<u8>) -> Option<((T1::Model, T2::Model, T3::Model), int)> {
        match T1::parse_spec(s) {
            Option::None => None,
            Option::Some((m1, n1)) => {
                match T2::parse_spec(s.skip(n1)) {
                    Option::None => None,
                    Option::Some((m2, n2)) => {
                        match T3::parse_spec(s.skip(n1 + n2)) {
                            Option::None => None,
                            Option::Some((m3, n3)) => {
                                Some(((m1, m2, m3), n1 + n2 + n3))
                            },
                        }
                    },
                }
            },
        }
    }

    fn parse_frame(frame: &mut Bytes) -> (r: Result<Self, InvalidInput>) {
        let ghost s = bytes_view(*old(frame));
        let x1 = match T1::parse_frame(frame) {
            Ok(v) => v,
            Err(e) => {
                return Err(e);
            },
        };
        let ghost n1: int = T1::parse_spec(s)->Some_0.1;
        proof {
            assert(bytes_view(*frame) =~= s.skip(n1));
        }
        let x2 = match T2::parse_frame(frame) {
            Ok(v) => v,
            Err(e) => {
                return Err(e);
            },
        };
        let ghost n2: int = T2::parse_spec(s.skip(n1))->Some_0.1;
        proof {
            assert(bytes_view(*frame) =~= s.skip(n1 + n2));
        }
        let x3 = match T3::parse_frame(frame) {
            Ok(v) => v,
            Err(e) => {
                return Err(e);
            },
        };
        let ghost n3: int = T3::parse_spec(s.skip(n1 + n2))->Some_0.1;
        proof {
            assert(bytes_view(*frame) =~= s.skip(n1 + n2 + n3));
        }
        Ok((x1, x2, x3))
    }
}

impl<T1: IntoFrame, T2: IntoFrame, T3: IntoFrame> IntoFrame for (T1, T2, T3) {
    open spec fn wire(&self) -> Seq<u8> {
        self.0.wire() + self.1.wire() + self.2.wire()
    }

    open spec fn encodable(&self) -> bool {
        self.0.encodable() && self.1.encodable() && self.2.encodable()
    }

    fn extend_frame(&self, frame: &mut BytesMut) {
        self.0.extend_frame(frame);
        self.1.extend_frame(frame);
        self.2.extend_frame(frame);
        proof {
            assert(bmut_view(*frame) =~= bmut_view(*old(frame)) + self.wire());
        }
    }

    fn size_hint(&self) -> usize {
        hint_add(hint_add(self.0.size_hint(), self.1.size_hint()), self.2.size_hint())
    }
}

impl<T1: FrameLaws, T2: FrameLaws, T3: FrameLaws> FrameLaws for (T1, T2, T3) {
    proof fn lemma_round_trip(&self, rest: Seq<u8>) {
        let w0 = self.0.wire();
        let w1 = self.1.wire();
        let w2 = self.2.wire();
        let s = self.wire() + rest;
        assert(s =~= w0 + (w1 + (w2 + rest)));
        self.0.lemma_round_trip(w1 + (w2 + rest));
        assert(s.skip((w0.len()) as int) =~= w1 + (w2 + rest));
        self.1.lemma_round_trip(w2 + rest);
        assert(s.skip((w0.len() + w1.len()) as int) =~= w2 + rest);
        self.2.lemma_round_trip(rest);
    }
}

impl<T1: FromFrame, T2: FromFrame, T3: FromFrame, T4: FromFrame> FromFrame for (T1, T2, T3, T4) {
    type Model = (T1::Model, T2::Model, T3::Model, T4::Model);

    open spec fn model(&self) -> (T1::Model, T2::Model, T3::Model, T4::Model) {
        (self.0.model(), self.1.model(), self.2.model(), self.3.model())
    }

    open spec fn parse_spec(s: Seq<u8>) -> Option<((T1::Model, T2::Model, T3::Model, T4::Model), int)> {
        match T1::parse_spec(s) {
            Option::None => None,
            Option::Some((m1, n1)) => {
                match T2::parse_spec(s.skip(n1)) {
                    Option::None => None,
                    Option::Some((m2, n2)) => {
                        match T3::parse_spec(s.skip(n1 + n2)) {
                            Option::None => None,
                            Option::Some((m3, n3)) => {
                                match T4::parse_spec(s.skip(n1 + n2 + n3)) {
                                    Option::None => None,
                                    Option::Some((m4, n4)) => {
                                        Some(((m1, m2, m3, m4), n1 + n2 + n3 + n4))
                                    },
                                }
                            },
                        }
                    },
                }
            },
        }
    }

    fn parse_frame(frame: &mut Bytes) -> (r: Result<Self, InvalidInput>) {
        let ghost s = bytes_view(*old(frame));
        let x1 = match T1::parse_frame(frame) {
            Ok(v) => v,
            Err(e) => {
                return Err(e);
            },
        };
        let ghost n1: int = T1::parse_spec(s)->Some_0.1;
        proof {
            assert(bytes_view(*frame) =~= s.skip(n1));
        }
        let x2 = match T2::parse_frame(frame) {
            Ok(v) => v,
            Err(e) => {
                return Err(e);
            },
        };
        let ghost n2: int = T2::parse_spec(s.skip(n1))->Some_0.1;
        proof {
            assert(bytes_view(*frame) =~= s.skip(n1 + n2));
        }
        let x3 = match T3::parse_frame(frame) {
            Ok(v) => v,
            Err(e) => {
                return Err(e);
            },
        };
        let ghost n3: int = T3::parse_spec(s.skip(n1 + n2))->Some_0.1;
        proof {
            assert(bytes_view(*frame) =~= s.skip(n1 + n2 + n3));
        }
        let x4 = match T4::parse_frame(frame) {
            Ok(v) => v,
            Err(e) => {
                return Err(e);
            },
        };
        let ghost n4: int = T4::parse_spec(s.skip(n1 + n2 + n3))->Some_0.1;
        proof {
            assert(bytes_view(*frame) =~= s.skip(n1 + n2 + n3 + n4));
        }
        Ok((x1, x2, x3, x4))
    }
}

impl<T1: IntoFrame, T2: IntoFrame, T3: IntoFrame, T4: IntoFrame> IntoFrame for (T1, T2, T3, T4) {
    open spec fn wire(&self) -> Seq<u8> {
        self.0.wire() + self.1.wire() + self.2.wire() + self.3.wire()
    }

    open spec fn encodable(&self) -> bool {
        self.0.encodable() && self.1.encodable() && self.2.encodable() && self.3.encodable()
    }

    fn extend_frame(&self, frame: &mut BytesMut) {
        self.0.extend_frame(frame);
        self.1.extend_frame(frame);
        self.2.extend_frame(frame);
        self.3.extend_frame(frame);
        proof {
            assert(bmut_view(*frame) =~= bmut_view(*old(frame)) + self.wire());
        }
    }

    fn size_hint(&self) -> usize {
        hint_add(hint_add(hint_add(self.0.size_hint(), self.1.size_hint()), self.2.size_hint()), self.3.size_hint())
    }
}

impl<T1: FrameLaws, T2: FrameLaws, T3: FrameLaws, T4: FrameLaws> FrameLaws for (T1, T2, T3, T4) {
    proof fn lemma_round_trip(&self, rest: Seq<u8>) {
        let w0 = self.0.wire();
        let w1 = self.1.wire();
        let w2 = self.2.wire();
        let w3 = self.3.wire();
        let s = self.wire() + rest;
        assert(s =~= w0 + (w1 + (w2 + (w3 + rest))));
        self.0.lemma_round_trip(w1 + (w2 + (w3 + rest)));
        assert(s.skip((w0.len()) as int) =~= w1 + (w2 + (w3 + rest)));
        self.1.lemma_round_trip(w2 + (w3 + rest));
        assert(s.skip((w0.len() + w1.len()) as int) =~= w2 + (w3 + rest));
        self.2.lemma_round_trip(w3 + rest);
        assert(s.skip((w0.len() + w1.len() + w2.len()) as int) =~= w3 + rest);
        self.3.lemma_round_trip(rest);
    }
}

impl<T1: FromFrame, T2: FromFrame, T3: FromFrame, T4: FromFrame, T5: FromFrame> FromFrame for (T1, T2, T3, T4, T5) {
    type Model = (T1::Model, T2::Model, T3::Model, T4::Model, T5::Model);

    open spec fn model(&self) -> (T1::Model, T2::Model, T3::Model, T4::Model, T5::Model) {
        (self.0.model(), self.1.model(), self.2.model(), self.3.model(), self.4.model())
    }

    open spec fn parse_spec(s: Seq<u8>) -> Option<((T1::Model, T2::Model, T3::Model, T4::Model, T5::Model), int)> {
        match T1::parse_spec(s) {
            Option::None => None,
            Option::Some((m1, n1)) => {
                match T2::parse_spec(s.skip(n1)) {
                    Option::None => None,
                    Option::Some((m2, n2)) => {
                        match T3::parse_spec(s.skip(n1 + n2)) {
                            Option::None => None,
                            Option::Some((m3, n3)) => {
                                match T4::parse_spec(s.skip(n1 + n2 + n3)) {
                                    Option::None => None,
                                    Option::Some((m4, n4)) => {
                                        match T5::parse_spec(s.skip(n1 + n2 + n3 + n4)) {
                                            Option::None => None,
                                            Option::Some((m5, n5)) => {
                                                Some(((m1, m2, m3, m4, m5), n1 + n2 + n3 + n4 + n5))
                                            },
                                        }
                                    },
                                }
                            },
                        }
                    },
                }
            },
        }
    }

    fn parse_frame(frame: &mut Bytes) -> (r: Result<Self, InvalidInput>) {
        let ghost s = bytes_view(*old(frame));
        let x1 = match T1::parse_frame(frame) {
            Ok(v) => v,
            Err(e) => {
                return Err(e);
            },
        };
        let ghost n1: int = T1::parse_spec(s)->Some_0.1;
        proof {
            assert(bytes_view(*frame) =~= s.skip(n1));
        }
        let x2 = match T2::parse_frame(frame) {
            Ok(v) => v,
            Err(e) => {
                return Err(e);
            },
        };
        let ghost n2: int = T2::parse_spec(s.skip(n1))->Some_0.1;
        proof {
            assert(bytes_view(*frame) =~= s.skip(n1 + n2));
        }
        let x3 = match T3::parse_frame(frame) {
            Ok(v) => v,
            Err(e) => {
                return Err(e);
            },
        };
        let ghost n3: int = T3::parse_spec(s.skip(n1 + n2))->Some_0.1;
        proof {
            assert(bytes_view(*frame) =~= s.skip(n1 + n2 + n3));
        }
        let x4 = match T4::parse_frame(frame) {
            Ok(v) => v,
            Err(e) => {
                return Err(e);
            },
        };
        let ghost n4: int = T4::parse_spec(s.skip(n1 + n2 + n3))->Some_0.1;
        proof {
            assert(bytes_view(*frame) =~= s.skip(n1 + n2 + n3 + n4));
        }
        let x5 = match T5::parse_frame(frame) {
            Ok(v) => v,
            Err(e) => {
                return Err(e);
            },
        };
        let ghost n5: int = T5::parse_spec(s.skip(n1 + n2 + n3 + n4))->Some_0.1;
        proof {
            assert(bytes_view(*frame) =~= s.skip(n1 + n2 + n3 + n4 + n5));
        }
        Ok((x1, x2, x3, x4, x5))
    }
}

impl<T1: IntoFrame, T2: IntoFrame, T3: IntoFrame, T4: IntoFrame, T5: IntoFrame> IntoFrame for (T1, T2, T3, T4, T5) {
    open spec fn wire(&self) -> Seq<u8> {
        self.0.wire() + self.1.wire() + self.2.wire() + self.3.wire() + self.4.wire()
    }

    open spec fn encodable(&self) -> bool {
        self.0.encodable() && self.1.encodable() && self.2.encodable() && self.3.encodable() && self.4.encodable()
    }

    fn extend_frame(&self, frame: &mut BytesMut) {
        self.0.extend_frame(frame);
        self.1.extend_frame(frame);
        self.2.extend_frame(frame);
        self.3.extend_frame(frame);
        self.4.extend_frame(frame);
        proof {
            assert(bmut_view(*frame) =~= bmut_view(*old(frame)) + self.wire());
        }
    }

    fn size_hint(&self) -> usize {
        hint_add(hint_add(hint_add(hint_add(self.0.size_hint(), self.1.size_hint()), self.2.size_hint()), self.3.size_hint()), self.4.size_hint())
    }
}

impl<T1: FrameLaws, T2: FrameLaws, T3: FrameLaws, T4: FrameLaws, T5: FrameLaws> FrameLaws for (T1, T2, T3, T4, T5) {
    #[verifier::rlimit(100)]
    #[verifier::spinoff_prover]
    proof fn lemma_round_trip(&self, rest: Seq<u8>) {
        let w0 = self.0.wire();
        let w1 = self.1.wire();
        let w2 = self.2.wire();
        let w3 = self.3.wire();
        let w4 = self.4.wire();
        let s = self.wire() + rest;
        assert(s =~= w0 + (w1 + (w2 + (w3 + (w4 + rest)))));
        self.0.lemma_round_trip(w1 + (w2 + (w3 + (w4 + rest))));
        assert(s.skip((w0.len()) as int) =~= w1 + (w2 + (w3 + (w4 + rest))));
        self.1.lemma_round_trip(w2 + (w3 + (w4 + rest)));
        assert(s.skip((w0.len() + w1.len()) as int) =~= w2 + (w3 + (w4 + rest)));
        self.2.lemma_round_trip(w3 + (w4 + rest));
        assert(s.skip((w0.len() + w1.len() + w2.len()) as int) =~= w3 + (w4 + rest));
        self.3.lemma_round_trip(w4 + rest);
        assert(s.skip((w0.len() + w1.len() + w2.len() + w3.len()) as int) =~= w4 + rest);
        self.4.lemma_round_trip(rest);
    }
}

impl<T1: FromFrame, T2: FromFrame, T3: FromFrame, T4: FromFrame, T5: FromFrame, T6: FromFrame> FromFrame for (T1, T2, T3, T4, T5, T6) {
    type Model = (T1::Model, T2::Model, T3::Model, T4::Model, T5::Model, T6::Model);

    open spec fn model(&self) -> (T1::Model, T2::Model, T3::Model, T4::Model, T5::Model, T6::Model) {
        (self.0.model(), self.1.model(), self.2.model(), self.3.model(), self.4.model(), self.5.model())
    }

    open spec fn parse_spec(s: Seq<u8>) -> Option<((T1::Model, T2::Model, T3::Model, T4::Model, T5::Model, T6::Model), int)> {
        match T1::parse_spec(s) {
            Option::None => None,
            Option::Some((m1, n1)) => {
                match T2::parse_spec(s.skip(n1)) {
                    Option::None => None,
                    Option::Some((m2, n2)) => {
                        match T3::parse_spec(s.skip(n1 + n2)) {
                            Option::None => None,
                            Option::Some((m3, n3)) => {
                                match T4::parse_spec(s.skip(n1 + n2 + n3)) {
                                    Option::None => None,
                                    Option::Some((m4, n4)) => {
                                        match T5::parse_spec(s.skip(n1 + n2 + n3 + n4)) {
                                            Option::None => None,
                                            Option::Some((m5, n5)) => {
                                                match T6::parse_spec(s.skip(n1 + n2 + n3 + n4 + n5)) {
                                                    Option::None => None,
                                                    Option::Some((m6, n6)) => {
                                                        Some(((m1, m2, m3, m4, m5, m6), n1 + n2 + n3 + n4 + n5 + n6))
                                                    },
                                                }
                                            },
                                        }
                                    },
                                }
                            },
                        }
                    },
                }
            },
        }
    }

    fn parse_frame(frame: &mut Bytes) -> (r: Result<Self, InvalidInput>) {
        let ghost s = bytes_view(*old(frame));
        let x1 = match T1::parse_frame(frame) {
            Ok(v) => v,
            Err(e) => {
                return Err(e);
            },
        };
        let ghost n1: int = T1::parse_spec(s)->Some_0.1;
        proof {
            assert(bytes_view(*frame) =~= s.skip(n1));
        }
        let x2 = match T2::parse_frame(frame) {
            Ok(v) => v,
            Err(e) => {
                return Err(e);
            },
        };
        let ghost n2: int = T2::parse_spec(s.skip(n1))->Some_0.1;
        proof {
            assert(bytes_view(*frame) =~= s.skip(n1 + n2));
        }
        let x3 = match T3::parse_frame(frame) {
            Ok(v) => v,
            Err(e) => {
                return Err(e);
            },
        };
        let ghost n3: int = T3::parse_spec(s.skip(n1 + n2))->Some_0.1;
        proof {
            assert(bytes_view(*frame) =~= s.skip(n1 + n2 + n3));
        }
        let x4 = match T4::parse_frame(frame) {
            Ok(v) => v,
            Err(e) => {
                return Err(e);
            },
        };
        let ghost n4: int = T4::parse_spec(s.skip(n1 + n2 + n3))->Some_0.1;
        proof {
            assert(bytes_view(*frame) =~= s.skip(n1 + n2 + n3 + n4));
        }
        let x5 = match T5::parse_frame(frame) {
            Ok(v) => v,
            Err(e) => {
                return Err(e);
            },
        };
        let ghost n5: int = T5::parse_spec(s.skip(n1 + n2 + n3 + n4))->Some_0.1;
        proof {
            assert(bytes_view(*frame) =~= s.skip(n1 + n2 + n3 + n4 + n5));
        }
        let x6 = match T6::parse_frame(frame) {
            Ok(v) => v,
            Err(e) => {
                return Err(e);
            },
        };
        let ghost n6: int = T6::parse_spec(s.skip(n1 + n2 + n3 + n4 + n5))->Some_0.1;
        proof {
            assert(bytes_view(*frame) =~= s.skip(n1 + n2 + n3 + n4 + n5 + n6));
        }
        Ok((x1, x2, x3, x4, x5, x6))
    }
}

impl<T1: IntoFrame, T2: IntoFrame, T3: IntoFrame, T4: IntoFrame, T5: IntoFrame, T6: IntoFrame> IntoFrame for (T1, T2, T3, T4, T5, T6) {
    open spec fn wire(&self) -> Seq<u8> {
        self.0.wire() + self.1.wire() + self.2.wire() + self.3.wire() + self.4.wire() + self.5.wire()
    }

    open spec fn encodable(&self) -> bool {
        self.0.encodable() && self.1.encodable() && self.2.encodable() && self.3.encodable() && self.4.encodable() && self.5.encodable()
    }

    fn extend_frame(&self, frame: &mut BytesMut) {
        self.0.extend_frame(frame);
        self.1.extend_frame(frame);
        self.2.extend_frame(frame);
        self.3.extend_frame(frame);
        self.4.extend_frame(frame);
        self.5.extend_frame(frame);
        proof {
            assert(bmut_view(*frame) =~= bmut_view(*old(frame)) + self.wire());
        }
    }

    fn size_hint(&self) -> usize {
        hint_add(hint_add(hint_add(hint_add(hint_add(self.0.size_hint(), self.1.size_hint()), self.2.size_hint()), self.3.size_hint()), self.4.size_hint()), self.5.size_hint())
    }
}

impl<T1: FrameLaws, T2: FrameLaws, T3: FrameLaws, T4: FrameLaws, T5: FrameLaws, T6: FrameLaws> FrameLaws for (T1, T2, T3, T4, T5, T6) {
    #[verifier::rlimit(100)]
    #[verifier::spinoff_prover]
    proof fn lemma_round_trip(&self, rest: Seq<u8>) {
        let w0 = self.0.wire();
        let w1 = self.1.wire();
        let w2 = self.2.wire();
        let w3 = self.3.wire();
        let w4 = self.4.wire();
        let w5 = self.5.wire();
        let s = self.wire() + rest;
        assert(s =~= w0 + (w1 + (w2 + (w3 + (w4 + (w5 + rest))))));
        self.0.lemma_round_trip(w1 + (w2 + (w3 + (w4 + (w5 + rest)))));
        assert(s.skip((w0.len()) as int) =~= w1 + (w2 + (w3 + (w4 + (w5 + rest)))));
        self.1.lemma_round_trip(w2 + (w3 + (w4 + (w5 + rest))));
        assert(s.skip((w0.len() + w1.len()) as int) =~= w2 + (w3 + (w4 + (w5 + rest))));
        self.2.lemma_round_trip(w3 + (w4 + (w5 + rest)));
        assert(s.skip((w0.len() + w1.len() + w2.len()) as int) =~= w3 + (w4 + (w5 + rest)));
        self.3.lemma_round_trip(w4 + (w5 + rest));
        assert(s.skip((w0.len() + w1.len() + w2.len() + w3.len()) as int) =~= w4 + (w5 + rest));
        self.4.lemma_round_trip(w5 + rest);
        assert(s.skip((w0.len() + w1.len() + w2.len() + w3.len() + w4.len()) as int) =~= w5 + rest);
        self.5.lemma_round_trip(rest);
    }
}

impl<T1: FromFrame, T2: FromFrame, T3: FromFrame, T4: FromFrame, T5: FromFrame, T6: FromFrame, T7: FromFrame> FromFrame for (T1, T2, T3, T4, T5, T6, T7) {
    type Model = (T1::Model, T2::Model, T3::Model, T4::Model, T5::Model, T6::Model, T7::Model);

    open spec fn model(&self) -> (T1::Model, T2::Model, T3::Model, T4::Model, T5::Model, T6::Model, T7::Model) {
        (self.0.model(), self.1.model(), self.2.model(), self.3.model(), self.4.model(), self.5.model(), self.6.model())
    }

    open spec fn parse_spec(s: Seq<u8>) -> Option<((T1::Model, T2::Model, T3::Model, T4::Model, T5::Model, T6::Model, T7::Model), int)> {
        match T1::parse_spec(s) {
            Option::None => None,
            Option::Some((m1, n1)) => {
                match T2::parse_spec(s.skip(n1)) {
                    Option::None => None,
                    Option::Some((m2, n2)) => {
                        match T3::parse_spec(s.skip(n1 + n2)) {
                            Option::None => None,
                            Option::Some((m3, n3)) => {
                                match T4::parse_spec(s.skip(n1 + n2 + n3)) {
                                    Option::None => None,
                                    Option::Some((m4, n4)) => {
                                        match T5::parse_spec(s.skip(n1 + n2 + n3 + n4)) {
                                            Option::None => None,
                                            Option::Some((m5, n5)) => {
                                                match T6::parse_spec(s.skip(n1 + n2 + n3 + n4 + n5)) {
                                                    Option::None => None,
                                                    Option::Some((m6, n6)) => {
                                                        match T7::parse_spec(s.skip(n1 + n2 + n3 + n4 + n5 + n6)) {
                                                            Option::None => None,
                                                            Option::Some((m7, n7)) => {
                                                                Some(((m1, m2, m3, m4, m5, m6, m7), n1 + n2 + n3 + n4 + n5 + n6 + n7))
                                                            },
                                                        }
                                                    },
                                                }
                                            },
                                        }
                                    },
                                }
                            },
                        }
                    },
                }
            },
        }
    }

    fn parse_frame(frame: &mut Bytes) -> (r: Result<Self, InvalidInput>) {
        let ghost s = bytes_view(*old(frame));
        let x1 = match T1::parse_frame(frame) {
            Ok(v) => v,
            Err(e) => {
                return Err(e);
            },
        };
        let ghost n1: int = T1::parse_spec(s)->Some_0.1;
        proof {
            assert(bytes_view(*frame) =~= s.skip(n1));
        }
        let x2 = match T2::parse_frame(frame) {
            Ok(v) => v,
            Err(e) => {
                return Err(e);
            },
        };
        let ghost n2: int = T2::parse_spec(s.skip(n1))->Some_0.1;
        proof {
            assert(bytes_view(*frame) =~= s.skip(n1 + n2));
        }
        let x3 = match T3::parse_frame(frame) {
            Ok(v) => v,
            Err(e) => {
                return Err(e);
            },
        };
        let ghost n3: int = T3::parse_spec(s.skip(n1 + n2))->Some_0.1;
        proof {
            assert(bytes_view(*frame) =~= s.skip(n1 + n2 + n3));
        }
        let x4 = match T4::parse_frame(frame) {
            Ok(v) => v,
            Err(e) => {
                return Err(e);
            },
        };
        let ghost n4: int = T4::parse_spec(s.skip(n1 + n2 + n3))->Some_0.1;
        proof {
            assert(bytes_view(*frame) =~= s.skip(n1 + n2 + n3 + n4));
        }
        let x5 = match T5::parse_frame(frame) {
            Ok(v) => v,
            Err(e) => {
                return Err(e);
            },
        };
        let ghost n5: int = T5::parse_spec(s.skip(n1 + n2 + n3 + n4))->Some_0.1;
        proof {
            assert(bytes_view(*frame) =~= s.skip(n1 + n2 + n3 + n4 + n5));
        }
        let x6 = match T6::parse_frame(frame) {
            Ok(v) => v,
            Err(e) => {
                return Err(e);
            },
        };
        let ghost n6: int = T6::parse_spec(s.skip(n1 + n2 + n3 + n4 + n5))->Some_0.1;
        proof {
            assert(bytes_view(*frame) =~= s.skip(n1 + n2 + n3 + n4 + n5 + n6));
        }
        let x7 = match T7::parse_frame(frame) {
            Ok(v) => v,
            Err(e) => {
                return Err(e);
            },
        };
        let ghost n7: int = T7::parse_spec(s.skip(n1 + n2 + n3 + n4 + n5 + n6))->Some_0.1;
        proof {
            assert(bytes_view(*frame) =~= s.skip(n1 + n2 + n3 + n4 + n5 + n6 + n7));
        }
        Ok((x1, x2, x3, x4, x5, x6, x7))
    }
}

impl<T1: IntoFrame, T2: IntoFrame, T3: IntoFrame, T4: IntoFrame, T5: IntoFrame, T6: IntoFrame, T7: IntoFrame> IntoFrame for (T1, T2, T3, T4, T5, T6, T7) {
    open spec fn wire(&self) -> Seq<u8> {
        self.0.wire() + self.1.wire() + self.2.wire() + self.3.wire() + self.4.wire() + self.5.wire() + self.6.wire()
    }

    open spec fn encodable(&self) -> bool {
        self.0.encodable() && self.1.encodable() && self.2.encodable() && self.3.encodable() && self.4.encodable() && self.5.encodable() && self.6.encodable()
    }

    fn extend_frame(&self, frame: &mut BytesMut) {
        self.0.extend_frame(frame);
        self.1.extend_frame(frame);
        self.2.extend_frame(frame);
        self.3.extend_frame(frame);
        self.4.extend_frame(frame);
        self.5.extend_frame(frame);
        self.6.extend_frame(frame);
        proof {
            assert(bmut_view(*frame) =~= bmut_view(*old(frame)) + self.wire());
        }
    }

    fn size_hint(&self) -> usize {
        hint_add(hint_add(hint_add(hint_add(hint_add(hint_add(self.0.size_hint(), self.1.size_hint()), self.2.size_hint()), self.3.size_hint()), self.4.size_hint()), self.5.size_hint()), self.6.size_hint())
    }
}

impl<T1: FrameLaws, T2: FrameLaws, T3: FrameLaws, T4: FrameLaws, T5: FrameLaws, T6: FrameLaws, T7: FrameLaws> FrameLaws for (T1, T2, T3, T4, T5, T6, T7) {
    #[verifier::rlimit(100)]
    #[verifier::spinoff_prover]
    proof fn lemma_round_trip(&self, rest: Seq<u8>) {
        let w0 = self.0.wire();
        let w1 = self.1.wire();
        let w2 = self.2.wire();
        let w3 = self.3.wire();
        let w4 = self.4.wire();
        let w5 = self.5.wire();
        let w6 = self.6.wire();
        let s = self.wire() + rest;
        assert(s =~= w0 + (w1 + (w2 + (w3 + (w4 + (w5 + (w6 + rest)))))));
        self.0.lemma_round_trip(w1 + (w2 + (w3 + (w4 + (w5 + (w6 + rest))))));
        assert(s.skip((w0.len()) as int) =~= w1 + (w2 + (w3 + (w4 + (w5 + (w6 + rest))))));
        self.1.lemma_round_trip(w2 + (w3 + (w4 + (w5 + (w6 + rest)))));
        assert(s.skip((w0.len() + w1.len()) as int) =~= w2 + (w3 + (w4 + (w5 + (w6 + rest)))));
        self.2.lemma_round_trip(w3 + (w4 + (w5 + (w6 + rest))));
        assert(s.skip((w0.len() + w1.len() + w2.len()) as int) =~= w3 + (w4 + (w5 + (w6 + rest))));
        self.3.lemma_round_trip(w4 + (w5 + (w6 + rest)));
        assert(s.skip((w0.len() + w1.len() + w2.len() + w3.len()) as int) =~= w4 + (w5 + (w6 + rest)));
        self.4.lemma_round_trip(w5 + (w6 + rest));
        assert(s.skip((w0.len() + w1.len() + w2.len() + w3.len() + w4.len()) as int) =~= w5 + (w6 + rest));
        self.5.lemma_round_trip(w6 + rest);
        assert(s.skip((w0.len() + w1.len() + w2.len() + w3.len() + w4.len() + w5.len()) as int) =~= w6 + rest);
        self.6.lemma_round_trip(rest);
    }
}

impl<T1: FromFrame, T2: FromFrame, T3: FromFrame, T4: FromFrame, T5: FromFrame, T6: FromFrame, T7: FromFrame, T8: FromFrame> FromFrame for (T1, T2, T3, T4, T5, T6, T7, T8) {
    type Model = (T1::Model, T2::Model, T3::Model, T4::Model, T5::Model, T6::Model, T7::Model, T8::Model);

    open spec fn model(&self) -> (T1::Model, T2::Model, T3::Model, T4::Model, T5::Model, T6::Model, T7::Model, T8::Model) {
        (self.0.model(), self.1.model(), self.2.model(), self.3.model(), self.4.model(), self.5.model(), self.6.model(), self.7.model())
    }

    open spec fn parse_spec(s: Seq<u8>) -> Option<((T1::Model, T2::Model, T3::Model, T4::Model, T5::Model, T6::Model, T7::Model, T8::Model), int)> {
        match T1::parse_spec(s) {
            Option::None => None,
            Option::Some((m1, n1)) => {
                match T2::parse_spec(s.skip(n1)) {
                    Option::None => None,
                    Option::Some((m2, n2)) => {
                        match T3::parse_spec(s.skip(n1 + n2)) {
                            Option::None => None,
                            Option::Some((m3, n3)) => {
                                match T4::parse_spec(s.skip(n1 + n2 + n3)) {
                                    Option::None => None,
                                    Option::Some((m4, n4)) => {
                                        match T5::parse_spec(s.skip(n1 + n2 + n3 + n4)) {
                                            Option::None => None,
                                            Option::Some((m5, n5)) => {
                                                match T6::parse_spec(s.skip(n1 + n2 + n3 + n4 + n5)) {
                                                    Option::None => None,
                                                    Option::Some((m6, n6)) => {
                                                        match T7::parse_spec(s.skip(n1 + n2 + n3 + n4 + n5 + n6)) {
                                                            Option::None => None,
                                                            Option::Some((m7, n7)) => {
                                                                match T8::parse_spec(s.skip(n1 + n2 + n3 + n4 + n5 + n6 + n7)) {
                                                                    Option::None => None,
                                                                    Option::Some((m8, n8)) => {
                                                                        Some(((m1, m2, m3, m4, m5, m6, m7, m8), n1 + n2 + n3 + n4 + n5 + n6 + n7 + n8))
                                                                    },
                                                                }
                                                            },
                                                        }
                                                    },
                                                }
                                            },
                                        }
                                    },
                                }
                            },
                        }
                    },
                }
            },
        }
    }

    fn parse_frame(frame: &mut Bytes) -> (r: Result<Self, InvalidInput>) {
        let ghost s = bytes_view(*old(frame));
        let x1 = match T1::parse_frame(frame) {
            Ok(v) => v,
            Err(e) => {
                return Err(e);
            },
        };
        let ghost n1: int = T1::parse_spec(s)->Some_0.1;
        proof {
            assert(bytes_view(*frame) =~= s.skip(n1));
        }
        let x2 = match T2::parse_frame(frame) {
            Ok(v) => v,
            Err(e) => {
                return Err(e);
            },
        };
        let ghost n2: int = T2::parse_spec(s.skip(n1))->Some_0.1;
        proof {
            assert(bytes_view(*frame) =~= s.skip(n1 + n2));
        }
        let x3 = match T3::parse_frame(frame) {
            Ok(v) => v,
            Err(e) => {
                return Err(e);
            },
        };
        let ghost n3: int = T3::parse_spec(s.skip(n1 + n2))->Some_0.1;
        proof {
            assert(bytes_view(*frame) =~= s.skip(n1 + n2 + n3));
        }
        let x4 = match T4::parse_frame(frame) {
            Ok(v) => v,
            Err(e) => {
                return Err(e);
            },
        };
        let ghost n4: int = T4::parse_spec(s.skip(n1 + n2 + n3))->Some_0.1;
        proof {
            assert(bytes_view(*frame) =~= s.skip(n1 + n2 + n3 + n4));
        }
        let x5 = match T5::parse_frame(frame) {
            Ok(v) => v,
            Err(e) => {
                return Err(e);
            },
        };
        let ghost n5: int = T5::parse_spec(s.skip(n1 + n2 + n3 + n4))->Some_0.1;
        proof {
            assert(bytes_view(*frame) =~= s.skip(n1 + n2 + n3 + n4 + n5));
        }
        let x6 = match T6::parse_frame(frame) {
            Ok(v) => v,
            Err(e) => {
                return Err(e);
            },
        };
        let ghost n6: int = T6::parse_spec(s.skip(n1 + n2 + n3 + n4 + n5))->Some_0.1;
        proof {
            assert(bytes_view(*frame) =~= s.skip(n1 + n2 + n3 + n4 + n5 + n6));
        }
        let x7 = match T7::parse_frame(frame) {
            Ok(v) => v,
            Err(e) => {
                return Err(e);
            },
        };
        let ghost n7: int = T7::parse_spec(s.skip(n1 + n2 + n3 + n4 + n5 + n6))->Some_0.1;
        proof {
            assert(bytes_view(*frame) =~= s.skip(n1 + n2 + n3 + n4 + n5 + n6 + n7));
        }
        let x8 = match T8::parse_frame(frame) {
            Ok(v) => v,
            Err(e) => {
                return Err(e);
            },
        };
        let ghost n8: int = T8::parse_spec(s.skip(n1 + n2 + n3 + n4 + n5 + n6 + n7))->Some_0.1;
        proof {
            assert(bytes_view(*frame) =~= s.skip(n1 + n2 + n3 + n4 + n5 + n6 + n7 + n8));
        }
        Ok((x1, x2, x3, x4, x5, x6, x7, x8))
    }
}

impl<T1: IntoFrame, T2: IntoFrame, T3: IntoFrame, T4: IntoFrame, T5: IntoFrame, T6: IntoFrame, T7: IntoFrame, T8: IntoFrame> IntoFrame for (T1, T2, T3, T4, T5, T6, T7, T8) {
    open spec fn wire(&self) -> Seq<u8> {
        self.0.wire() + self.1.wire() + self.2.wire() + self.3.wire() + self.4.wire() + self.5.wire() + self.6.wire() + self.7.wire()
    }

    open spec fn encodable(&self) -> bool {
        self.0.encodable() && self.1.encodable() && self.2.encodable() && self.3.encodable() && self.4.encodable() && self.5.encodable() && self.6.encodable() && self.7.encodable()
    }

    fn extend_frame(&self, frame: &mut BytesMut) {
        self.0.extend_frame(frame);
        self.1.extend_frame(frame);
        self.2.extend_frame(frame);
        self.3.extend_frame(frame);
        self.4.extend_frame(frame);
        self.5.extend_frame(frame);
        self.6.extend_frame(frame);
        self.7.extend_frame(frame);
        proof {
            assert(bmut_view(*frame) =~= bmut_view(*old(frame)) + self.wire());
        }
    }

    fn size_hint(&self) -> usize {
        hint_add(hint_add(hint_add(hint_add(hint_add(hint_add(hint_add(self.0.size_hint(), self.1.size_hint()), self.2.size_hint()), self.3.size_hint()), self.4.size_hint()), self.5.size_hint()), self.6.size_hint()), self.7.size_hint())
    }
}

impl<T1: FrameLaws, T2: FrameLaws, T3: FrameLaws, T4: FrameLaws, T5: FrameLaws, T6: FrameLaws, T7: FrameLaws, T8: FrameLaws> FrameLaws for (T1, T2, T3, T4, T5, T6, T7, T8) {
    #[verifier::rlimit(100)]
    #[verifier::spinoff_prover]
    proof fn lemma_round_trip(&self, rest: Seq<u8>) {
        let w0 = self.0.wire();
        let w1 = self.1.wire();
        let w2 = self.2.wire();
        let w3 = self.3.wire();
        let w4 = self.4.wire();
        let w5 = self.5.wire();
        let w6 = self.6.wire();
        let w7 = self.7.wire();
        let s = self.wire() + rest;
        assert(s =~= w0 + (w1 + (w2 + (w3 + (w4 + (w5 + (w6 + (w7 + rest))))))));
        self.0.lemma_round_trip(w1 + (w2 + (w3 + (w4 + (w5 + (w6 + (w7 + rest)))))));
        assert(s.skip((w0.len()) as int) =~= w1 + (w2 + (w3 + (w4 + (w5 + (w6 + (w7 + rest)))))));
        self.1.lemma_round_trip(w2 + (w3 + (w4 + (w5 + (w6 + (w7 + rest))))));
        assert(s.skip((w0.len() + w1.len()) as int) =~= w2 + (w3 + (w4 + (w5 + (w6 + (w7 + rest))))));
        self.2.lemma_round_trip(w3 + (w4 + (w5 + (w6 + (w7 + rest)))));
        assert(s.skip((w0.len() + w1.len() + w2.len()) as int) =~= w3 + (w4 + (w5 + (w6 + (w7 + rest)))));
        self.3.lemma_round_trip(w4 + (w5 + (w6 + (w7 + rest))));
        assert(s.skip((w0.len() + w1.len() + w2.len() + w3.len()) as int) =~= w4 + (w5 + (w6 + (w7 + rest))));
        self.4.lemma_round_trip(w5 + (w6 + (w7 + rest)));
        assert(s.skip((w0.len() + w1.len() + w2.len() + w3.len() + w4.len()) as int) =~= w5 + (w6 + (w7 + rest)));
        self.5.lemma_round_trip(w6 + (w7 + rest));
        assert(s.skip((w0.len() + w1.len() + w2.len() + w3.len() + w4.len() + w5.len()) as int) =~= w6 + (w7 + rest));
        self.6.lemma_round_trip(w7 + rest);
        assert(s.skip((w0.len() + w1.len() + w2.len() + w3.len() + w4.len() + w5.len() + w6.len()) as int) =~= w7 + rest);
        self.7.lemma_round_trip(rest);
    }
}
/// Saturating sum for size hints.
pub(crate) fn hint_add(a: usize, b: usize) -> usize {
    if a <= usize::MAX - b {
        a + b
    } else {
        usize::MAX
    }
}

} // verus!
