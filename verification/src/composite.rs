//! Representative composite wire types.
//!
//! A struct is laid out positionally: its fields' encodings in declaration
//! order, with no tags.  A tagged union starts with a one-byte
//! discriminant — the zero-based declaration index of the variant — and
//! continues with that variant's fields.  These implementations are
//! written exactly as the composition contract prescribes, so any
//! mechanically produced implementation must be indistinguishable from
//! them on the wire.

use vstd::prelude::*;
use bytes::{Bytes, BytesMut};
use crate::{FrameLaws, FromFrame, IntoFrame, InvalidInput};
use crate::bytebuf::{bmut_put_u8, bmut_view, bytes_view};
use crate::layout::seq_model;
use crate::utils;

verus! {

/// A flat record: two fixed-width integers, a string, and a byte array.
#[derive(Debug, PartialEq, Eq)]
pub struct Foo {
    pub a: u32,
    pub b: u16,
    pub c: String,
    pub d: Vec<u8>,
}

/// The mathematical model of a [`Foo`].
pub struct FooModel {
    pub a: u32,
    pub b: u16,
    pub c: Seq<char>,
    pub d: Seq<u8>,
}

impl FromFrame for Foo {
    type Model = FooModel;

    open spec fn model(&self) -> FooModel {
        FooModel { a: self.a, b: self.b, c: self.c@, d: seq_model(self.d@) }
    }

    open spec fn parse_spec(s: Seq<u8>) -> Option<(FooModel, int)> {
        match u32::parse_spec(s) {
            Option::None => None,
            Option::Some((a, n1)) => match u16::parse_spec(s.skip(n1)) {
                Option::None => None,
                Option::Some((b, n2)) => match String::parse_spec(s.skip(n1 + n2)) {
                    Option::None => None,
                    Option::Some((c, n3)) => match <Vec<u8>>::parse_spec(s.skip(n1 + n2 + n3)) {
                        Option::None => None,
                        Option::Some((d, n4)) => Some(
                            (FooModel { a, b, c, d }, n1 + n2 + n3 + n4),
                        ),
                    },
                },
            },
        }
    }

    fn parse_frame(frame: &mut Bytes) -> (r: Result<Self, InvalidInput>) {
        let ghost s = bytes_view(*old(frame));
        let a = match utils::get_u32(frame, "a") {
            Ok(v) => v,
            Err(e) => {
                return Err(e);
            },
        };
        proof {
            assert(bytes_view(*frame) =~= s.skip(4));
        }
        let b = match utils::get_u16(frame, "b") {
            Ok(v) => v,
            Err(e) => {
                return Err(e);
            },
        };
        proof {
            assert(bytes_view(*frame) =~= s.skip(6));
        }
        let c = match utils::get_string(frame, "c") {
            Ok(v) => v,
            Err(e) => {
                return Err(e);
            },
        };
        let ghost n3: int = String::parse_spec(s.skip(6))->Some_0.1;
        proof {
            assert(bytes_view(*frame) =~= s.skip(6 + n3));
        }
        let d = match utils::get_array::<u8>(frame, "d") {
            Ok(v) => v,
            Err(e) => {
                return Err(e);
            },
        };
        proof {
            let n4 = <Vec<u8>>::parse_spec(s.skip(6 + n3))->Some_0.1;
            assert(bytes_view(*frame) =~= s.skip(6 + n3 + n4));
        }
        Ok(Foo { a, b, c, d })
    }
}

impl IntoFrame for Foo {
    open spec fn wire(&self) -> Seq<u8> {
        self.a.wire() + self.b.wire() + self.c.wire() + self.d.wire()
    }

    open spec fn encodable(&self) -> bool {
        self.c.encodable() && self.d.encodable()
    }

    fn extend_frame(&self, frame: &mut BytesMut) {
        self.a.extend_frame(frame);
        self.b.extend_frame(frame);
        self.c.extend_frame(frame);
        self.d.extend_frame(frame);
        proof {
            assert(bmut_view(*frame) =~= bmut_view(*old(frame)) + self.wire());
        }
    }

    fn size_hint(&self) -> usize {
        crate::common_impls::hint_add(
            crate::common_impls::hint_add(self.a.size_hint(), self.b.size_hint()),
            crate::common_impls::hint_add(self.c.size_hint(), self.d.size_hint()),
        )
    }
}

impl FrameLaws for Foo {
    proof fn lemma_round_trip(&self, rest: Seq<u8>) {
        let wa = self.a.wire();
        let wb = self.b.wire();
        let wc = self.c.wire();
        let wd = self.d.wire();
        let s = self.wire() + rest;
        assert(s =~= wa + (wb + (wc + (wd + rest))));
        self.a.lemma_round_trip(wb + (wc + (wd + rest)));
        assert(s.skip(wa.len() as int) =~= wb + (wc + (wd + rest)));
        self.b.lemma_round_trip(wc + (wd + rest));
        assert(s.skip(wa.len() + wb.len() as int) =~= wc + (wd + rest));
        self.c.lemma_round_trip(wd + rest);
        assert(s.skip(wa.len() + wb.len() + wc.len() as int) =~= wd + rest);
        self.d.lemma_round_trip(rest);
    }
}

/// An inner record of two fixed-width integers.
#[derive(Debug, Clone, Copy, PartialEq, Eq)]
pub struct Data {
    pub a: u32,
    pub b: u32,
}

impl FromFrame for Data {
    type Model = Data;

    open spec fn model(&self) -> Data {
        *self
    }

    open spec fn parse_spec(s: Seq<u8>) -> Option<(Data, int)> {
        match u32::parse_spec(s) {
            Option::None => None,
            Option::Some((a, n1)) => match u32::parse_spec(s.skip(n1)) {
                Option::None => None,
                Option::Some((b, n2)) => Some((Data { a, b }, n1 + n2)),
            },
        }
    }

    fn parse_frame(frame: &mut Bytes) -> (r: Result<Self, InvalidInput>) {
        let ghost s = bytes_view(*old(frame));
        let a = match utils::get_u32(frame, "data.a") {
            Ok(v) => v,
            Err(e) => {
                return Err(e);
            },
        };
        let b = match utils::get_u32(frame, "data.b") {
            Ok(v) => v,
            Err(e) => {
                return Err(e);
            },
        };
        proof {
            assert(bytes_view(*frame) =~= s.skip(8));
        }
        Ok(Data { a, b })
    }
}

impl IntoFrame for Data {
    open spec fn wire(&self) -> Seq<u8> {
        self.a.wire() + self.b.wire()
    }

    open spec fn encodable(&self) -> bool {
        true
    }

    fn extend_frame(&self, frame: &mut BytesMut) {
        self.a.extend_frame(frame);
        self.b.extend_frame(frame);
        proof {
            assert(bmut_view(*frame) =~= bmut_view(*old(frame)) + self.wire());
        }
    }

    fn size_hint(&self) -> usize {
        8
    }
}

impl FrameLaws for Data {
    proof fn lemma_round_trip(&self, rest: Seq<u8>) {
        let wa = self.a.wire();
        let wb = self.b.wire();
        let s = self.wire() + rest;
        assert(s =~= wa + (wb + rest));
        self.a.lemma_round_trip(wb + rest);
        assert(s.skip(wa.len() as int) =~= wb + rest);
        self.b.lemma_round_trip(rest);
    }
}

/// A record nesting another composite: composition applies field by field.
#[derive(Debug, PartialEq, Eq)]
pub struct Record {
    pub id: u64,
    pub data: Data,
}

/// The mathematical model of a [`Record`].
pub struct RecordModel {
    pub id: u64,
    pub data: Data,
}

impl FromFrame for Record {
    type Model = RecordModel;

    open spec fn model(&self) -> RecordModel {
        RecordModel { id: self.id, data: self.data }
    }

    open spec fn parse_spec(s: Seq<u8>) -> Option<(RecordModel, int)> {
        match u64::parse_spec(s) {
            Option::None => None,
            Option::Some((id, n1)) => match Data::parse_spec(s.skip(n1)) {
                Option::None => None,
                Option::Some((data, n2)) => Some((RecordModel { id, data }, n1 + n2)),
            },
        }
    }

    fn parse_frame(frame: &mut Bytes) -> (r: Result<Self, InvalidInput>) {
        let ghost s = bytes_view(*old(frame));
        let id = match utils::get_u64(frame, "id") {
            Ok(v) => v,
            Err(e) => {
                return Err(e);
            },
        };
        let data = match Data::parse_frame(frame) {
            Ok(v) => v,
            Err(e) => {
                return Err(e);
            },
        };
        proof {
            let n2 = Data::parse_spec(s.skip(8))->Some_0.1;
            assert(bytes_view(*frame) =~= s.skip(8 + n2));
        }
        Ok(Record { id, data })
    }
}

impl IntoFrame for Record {
    open spec fn wire(&self) -> Seq<u8> {
        self.id.wire() + self.data.wire()
    }

    open spec fn encodable(&self) -> bool {
        true
    }

    fn extend_frame(&self, frame: &mut BytesMut) {
        self.id.extend_frame(frame);
        self.data.extend_frame(frame);
        proof {
            assert(bmut_view(*frame) =~= bmut_view(*old(frame)) + self.wire());
        }
    }

    fn size_hint(&self) -> usize {
        16
    }
}

impl FrameLaws for Record {
    proof fn lemma_round_trip(&self, rest: Seq<u8>) {
        let wi = self.id.wire();
        let wd = self.data.wire();
        let s = self.wire() + rest;
        assert(s =~= wi + (wd + rest));
        self.id.lemma_round_trip(wd + rest);
        assert(s.skip(wi.len() as int) =~= wd + rest);
        self.data.lemma_round_trip(rest);
    }
}

/// A three-variant tagged union: the wire starts with the variant's
/// zero-based declaration index in one byte, then that variant's fields.
#[derive(Debug, Clone, PartialEq, Eq)]
pub enum Sample {
    Foo(u32, u32, u32),
    Bar(u16),
    Baz(String),
}

/// The mathematical model of a [`Sample`].
pub enum SampleModel {
    Foo(u32, u32, u32),
    Bar(u16),
    Baz(Seq<char>),
}

impl FromFrame for Sample {
    type Model = SampleModel;

    open spec fn model(&self) -> SampleModel {
        match self {
            Sample::Foo(x, y, z) => SampleModel::Foo(*x, *y, *z),
            Sample::Bar(v) => SampleModel::Bar(*v),
            Sample::Baz(t) => SampleModel::Baz(t@),
        }
    }

    open spec fn parse_spec(s: Seq<u8>) -> Option<(SampleModel, int)> {
        if s.len() < 1 {
            None
        } else if s[0] == 0 {
            match u32::parse_spec(s.skip(1)) {
                Option::None => None,
                Option::Some((x, n1)) => match u32::parse_spec(s.skip(1 + n1)) {
                    Option::None => None,
                    Option::Some((y, n2)) => match u32::parse_spec(s.skip(1 + n1 + n2)) {
                        Option::None => None,
                        Option::Some((z, n3)) => Some(
                            (SampleModel::Foo(x, y, z), 1 + n1 + n2 + n3),
                        ),
                    },
                },
            }
        } else if s[0] == 1 {
            match u16::parse_spec(s.skip(1)) {
                Option::None => None,
                Option::Some((v, n1)) => Some((SampleModel::Bar(v), 1 + n1)),
            }
        } else if s[0] == 2 {
            match String::parse_spec(s.skip(1)) {
                Option::None => None,
                Option::Some((t, n1)) => Some((SampleModel::Baz(t), 1 + n1)),
            }
        } else {
            None
        }
    }

    fn parse_frame(frame: &mut Bytes) -> (r: Result<Self, InvalidInput>) {
        let ghost s = bytes_view(*old(frame));
        let kind = match utils::get_u8(frame, "kind") {
            Ok(v) => v,
            Err(e) => {
                return Err(e);
            },
        };
        if kind == 0 {
            let x = match utils::get_u32(frame, "0") {
                Ok(v) => v,
                Err(e) => {
                    return Err(e);
                },
            };
            proof {
                assert(bytes_view(*frame) =~= s.skip(5));
            }
            let y = match utils::get_u32(frame, "1") {
                Ok(v) => v,
                Err(e) => {
                    return Err(e);
                },
            };
            proof {
                assert(bytes_view(*frame) =~= s.skip(9));
            }
            let z = match utils::get_u32(frame, "2") {
                Ok(v) => v,
                Err(e) => {
                    return Err(e);
                },
            };
            proof {
                assert(bytes_view(*frame) =~= s.skip(13));
            }
            Ok(Sample::Foo(x, y, z))
        } else if kind == 1 {
            let v = match utils::get_u16(frame, "0") {
                Ok(v) => v,
                Err(e) => {
                    return Err(e);
                },
            };
            proof {
                assert(bytes_view(*frame) =~= s.skip(3));
            }
            Ok(Sample::Bar(v))
        } else if kind == 2 {
            let t = match utils::get_string(frame, "0") {
                Ok(v) => v,
                Err(e) => {
                    return Err(e);
                },
            };
            proof {
                let n1 = String::parse_spec(s.skip(1))->Some_0.1;
                assert(bytes_view(*frame) =~= s.skip(1 + n1));
            }
            Ok(Sample::Baz(t))
        } else {
            Err(InvalidInput::new("kind"))
        }
    }
}

impl IntoFrame for Sample {
    open spec fn wire(&self) -> Seq<u8> {
        match self {
            Sample::Foo(x, y, z) => seq![0u8] + x.wire() + y.wire() + z.wire(),
            Sample::Bar(v) => seq![1u8] + v.wire(),
            Sample::Baz(t) => seq![2u8] + t.wire(),
        }
    }

    open spec fn encodable(&self) -> bool {
        match self {
            Sample::Baz(t) => t.encodable(),
            _ => true,
        }
    }

    fn extend_frame(&self, frame: &mut BytesMut) {
        match self {
            Sample::Foo(x, y, z) => {
                bmut_put_u8(frame, 0);
                x.extend_frame(frame);
                y.extend_frame(frame);
                z.extend_frame(frame);
            },
            Sample::Bar(v) => {
                bmut_put_u8(frame, 1);
                v.extend_frame(frame);
            },
            Sample::Baz(t) => {
                bmut_put_u8(frame, 2);
                t.extend_frame(frame);
            },
        }
        proof {
            assert(bmut_view(*frame) =~= bmut_view(*old(frame)) + self.wire());
        }
    }

    fn size_hint(&self) -> usize {
        match self {
            Sample::Foo(x, y, z) => 12,
            Sample::Bar(v) => 2,
            Sample::Baz(t) => t.size_hint(),
        }
    }
}

impl FrameLaws for Sample {
    #[verifier::rlimit(100)]
    #[verifier::spinoff_prover]
    proof fn lemma_round_trip(&self, rest: Seq<u8>) {
        let s = self.wire() + rest;
        match self {
            Sample::Foo(x, y, z) => {
                assert(s[0] == 0);
                assert(s =~= seq![0u8] + (x.wire() + (y.wire() + (z.wire() + rest))));
                assert(s.skip(1) =~= x.wire() + (y.wire() + (z.wire() + rest)));
                x.lemma_round_trip(y.wire() + (z.wire() + rest));
                assert(s.skip(1 + x.wire().len() as int) =~= y.wire() + (z.wire() + rest));
                y.lemma_round_trip(z.wire() + rest);
                assert(s.skip(1 + x.wire().len() + y.wire().len() as int) =~= z.wire() + rest);
                z.lemma_round_trip(rest);
            },
            Sample::Bar(v) => {
                assert(s[0] == 1);
                assert(s.skip(1) =~= v.wire() + rest);
                v.lemma_round_trip(rest);
            },
            Sample::Baz(t) => {
                assert(s[0] == 2);
                assert(s.skip(1) =~= t.wire() + rest);
                t.lemma_round_trip(rest);
            },
        }
    }
}

} // verus!
