//! The canonical byte layout of the fixed-width primitives.
//!
//! All multi-byte integers are laid out big-endian (network byte order).
//! Signed integers are laid out as their two's-complement unsigned
//! counterparts.

use vstd::prelude::*;
use crate::{FrameLaws, FromFrame, IntoFrame};

verus! {

/// The models of a sequence of values, elementwise.
pub open spec fn seq_model<T: FromFrame>(elems: Seq<T>) -> Seq<T::Model> {
    elems.map_values(|t: T| t.model())
}

/// The model of an optional value.
pub open spec fn option_model<T: FromFrame>(v: Option<T>) -> Option<T::Model> {
    match v {
        Option::None => Option::None,
        Option::Some(t) => Option::Some(t.model()),
    }
}

/// `tail` extended on the left by an already-parsed prefix of `used` bytes
/// spelling `acc`.
pub open spec fn chain_elems<T: FromFrame>(
    acc: Seq<T::Model>,
    used: int,
    tail: Option<(Seq<T::Model>, int)>,
) -> Option<(Seq<T::Model>, int)> {
    match tail {
        Option::None => None,
        Option::Some((ms, n)) => Some((acc + ms, used + n)),
    }
}

/// One-byte layout of a `bool`: `0` for false, `1` for true (any non-zero
/// byte reads back as true).
pub open spec fn wire_bool(v: bool) -> Seq<u8> {
    if v {
        seq![1u8]
    } else {
        seq![0u8]
    }
}

/// Layout of a string: 4-byte big-endian byte count, then the UTF-8 bytes.
pub open spec fn wire_str(chars: Seq<char>) -> Seq<u8> {
    wire_u32(vstd::utf8::encode_utf8(chars).len() as u32) + vstd::utf8::encode_utf8(chars)
}

/// A string can be laid out when its UTF-8 byte count fits the prefix.
pub open spec fn str_encodable(chars: Seq<char>) -> bool {
    vstd::utf8::encode_utf8(chars).len() <= u32::MAX
}

/// What a string layout at the head of `s` spells.
pub open spec fn parse_str(s: Seq<u8>) -> Option<(Seq<char>, int)> {
    if s.len() < 4 {
        None
    } else {
        let n = be_u32(s) as int;
        if s.len() < 4 + n {
            None
        } else if !vstd::utf8::valid_utf8(s.subrange(4, 4 + n)) {
            None
        } else {
            Some((vstd::utf8::decode_utf8(s.subrange(4, 4 + n)), 4 + n))
        }
    }
}

/// Layout of an optional value: presence tag `0` (absent) or `1` (present,
/// followed by the value's own layout).
pub open spec fn wire_option<T: IntoFrame>(v: Option<T>) -> Seq<u8> {
    match v {
        Option::None => seq![0u8],
        Option::Some(t) => seq![1u8] + t.wire(),
    }
}

pub open spec fn option_encodable<T: IntoFrame>(v: Option<T>) -> bool {
    match v {
        Option::None => true,
        Option::Some(t) => t.encodable(),
    }
}

/// What an optional-value layout at the head of `s` spells; tags other than
/// `0` and `1` are invalid.
pub open spec fn parse_option<T: FromFrame>(s: Seq<u8>) -> Option<(Option<T::Model>, int)> {
    if s.len() < 1 {
        None
    } else if s[0] == 0 {
        Some((Option::None, 1))
    } else if s[0] == 1 {
        match T::parse_spec(s.skip(1)) {
            Option::Some((m, n)) => Some((Option::Some(m), 1 + n)),
            Option::None => None,
        }
    } else {
        None
    }
}

/// The concatenation of the canonical encodings of a sequence of values.
pub open spec fn concat_wires<T: IntoFrame>(elems: Seq<T>) -> Seq<u8>
    decreases elems.len(),
{
    if elems.len() == 0 {
        Seq::empty()
    } else {
        elems[0].wire() + concat_wires(elems.drop_first())
    }
}

/// Layout of an array or set: 4-byte big-endian element count, then each
/// element's layout in order.
pub open spec fn wire_array<T: IntoFrame>(elems: Seq<T>) -> Seq<u8> {
    wire_u32(elems.len() as u32) + concat_wires(elems)
}

pub open spec fn array_encodable<T: IntoFrame>(elems: Seq<T>) -> bool {
    &&& elems.len() <= u32::MAX
    &&& forall|i: int| 0 <= i < elems.len() ==> (#[trigger] elems[i]).encodable()
}

/// What `k` consecutive element layouts at the head of `s` spell.
pub open spec fn parse_elems<T: FromFrame>(s: Seq<u8>, k: nat) -> Option<(Seq<T::Model>, int)>
    decreases k,
{
    if k == 0 {
        Some((Seq::empty(), 0))
    } else {
        match T::parse_spec(s) {
            Option::None => None,
            Option::Some((m, n)) => match parse_elems::<T>(s.skip(n), (k - 1) as nat) {
                Option::None => None,
                Option::Some((ms, total)) => Some((seq![m] + ms, n + total)),
            },
        }
    }
}

/// What an array layout at the head of `s` spells.
pub open spec fn parse_array<T: FromFrame>(s: Seq<u8>) -> Option<(Seq<T::Model>, int)> {
    if s.len() < 4 {
        None
    } else {
        match parse_elems::<T>(s.skip(4), be_u32(s) as nat) {
            Option::None => None,
            Option::Some((ms, n)) => Some((ms, 4 + n)),
        }
    }
}

/// Parsing the concatenated encodings of `elems` — whatever bytes follow —
/// yields their models and consumes exactly the concatenation.
pub proof fn lemma_parse_concat<T: FrameLaws>(elems: Seq<T>, rest: Seq<u8>)
    requires
        forall|i: int| 0 <= i < elems.len() ==> (#[trigger] elems[i]).encodable(),
    ensures
        parse_elems::<T>(concat_wires(elems) + rest, elems.len() as nat) matches Some((ms, n))
            && ms == seq_model(elems) && n == concat_wires(elems).len(),
    decreases elems.len(),
{
    if elems.len() == 0 {
        assert(seq_model(elems) =~= Seq::<T::Model>::empty());
    } else {
        let head = elems[0];
        let tail = elems.drop_first();
        let wtail = concat_wires(tail);
        let s = concat_wires(elems) + rest;
        head.lemma_round_trip(wtail + rest);
        assert(s =~= head.wire() + (wtail + rest));
        assert(s.skip(head.wire().len() as int) =~= wtail + rest);
        lemma_parse_concat::<T>(tail, rest);
        assert(T::parse_spec(s) matches Some((m, n)) && m == head.model() && n
            == head.wire().len());
        let ms_tail = parse_elems::<T>(wtail + rest, tail.len() as nat)->Some_0.0;
        assert(seq![head.model()] + ms_tail =~= seq_model(elems)) by {
            assert(seq_model(elems)[0] == head.model());
            assert(ms_tail == seq_model(tail));
            assert forall|i: int| 1 <= i < elems.len() implies seq_model(elems)[i] == seq_model(
                tail,
            )[i - 1] by {
                assert(tail[i - 1] == elems[i]);
            }
        }
    }
}

/// Round trip for the count-prefixed element layout shared by arrays and
/// sets: parsing the encoding of any element sequence — whatever bytes
/// follow — yields the elements' models, in encoding order, and consumes
/// exactly the encoding.  (For a set, the encoding order is the
/// container's own iteration order; the models come back in that order
/// and only their set is canonical.)
pub proof fn lemma_array_round_trip<T: FrameLaws>(elems: Seq<T>, rest: Seq<u8>)
    requires
        array_encodable(elems),
    ensures
        parse_array::<T>(wire_array(elems) + rest) matches Some((ms, n)) && ms == seq_model(elems)
            && n == wire_array(elems).len(),
{
    let cnt = elems.len() as u32;
    lemma_u32_round_trip(cnt);
    let s = wire_array(elems) + rest;
    assert(s[0] == wire_u32(cnt)[0] && s[1] == wire_u32(cnt)[1] && s[2] == wire_u32(cnt)[2] && s[3]
        == wire_u32(cnt)[3]);
    assert(be_u32(s) == be_u32(wire_u32(cnt)));
    assert(s.skip(4) =~= concat_wires(elems) + rest);
    lemma_parse_concat::<T>(elems, rest);
}

/// Appending one element extends the concatenation by its encoding.
pub proof fn lemma_concat_wires_push<T: IntoFrame>(elems: Seq<T>, e: T)
    ensures
        concat_wires(elems.push(e)) =~= concat_wires(elems) + e.wire(),
    decreases elems.len(),
{
    if elems.len() == 0 {
        assert(elems.push(e)[0] == e);
        assert(elems.push(e).drop_first() =~= Seq::<T>::empty());
        assert(concat_wires(elems.push(e)) == e.wire() + concat_wires(Seq::<T>::empty()));
        assert(concat_wires(Seq::<T>::empty()) =~= Seq::<u8>::empty());
        assert(concat_wires(elems) =~= Seq::<u8>::empty());
    } else {
        assert(elems.push(e)[0] == elems[0]);
        assert(elems.push(e).drop_first() =~= elems.drop_first().push(e));
        lemma_concat_wires_push(elems.drop_first(), e);
        assert(concat_wires(elems.push(e)) == elems[0].wire() + concat_wires(
            elems.drop_first().push(e),
        ));
        assert(concat_wires(elems) == elems[0].wire() + concat_wires(elems.drop_first()));
        assert(elems[0].wire() + (concat_wires(elems.drop_first()) + e.wire()) =~= (elems[0].wire()
            + concat_wires(elems.drop_first())) + e.wire());
    }
}

/// Big-endian bytes of a `u16`.
pub open spec fn wire_u16(v: u16) -> Seq<u8> {
    seq![(v / 0x100) as u8, (v % 0x100) as u8]
}

/// Big-endian bytes of a `u32`.
pub open spec fn wire_u32(v: u32) -> Seq<u8> {
    seq![
        (v / 0x1000000) as u8,
        ((v / 0x10000) % 0x100) as u8,
        ((v / 0x100) % 0x100) as u8,
        (v % 0x100) as u8,
    ]
}

/// Big-endian bytes of a `u64`.
pub open spec fn wire_u64(v: u64) -> Seq<u8> {
    seq![
        (v / 0x100000000000000) as u8,
        ((v / 0x1000000000000) % 0x100) as u8,
        ((v / 0x10000000000) % 0x100) as u8,
        ((v / 0x100000000) % 0x100) as u8,
        ((v / 0x1000000) % 0x100) as u8,
        ((v / 0x10000) % 0x100) as u8,
        ((v / 0x100) % 0x100) as u8,
        (v % 0x100) as u8,
    ]
}

/// The `u16` spelled by the first two bytes of `s`, big-endian.
pub open spec fn be_u16(s: Seq<u8>) -> u16
    recommends
        s.len() >= 2,
{
    (s[0] * 0x100 + s[1]) as u16
}

/// The `u32` spelled by the first four bytes of `s`, big-endian.
pub open spec fn be_u32(s: Seq<u8>) -> u32
    recommends
        s.len() >= 4,
{
    (s[0] * 0x1000000 + s[1] * 0x10000 + s[2] * 0x100 + s[3]) as u32
}

/// The `u64` spelled by the first eight bytes of `s`, big-endian.
pub open spec fn be_u64(s: Seq<u8>) -> u64
    recommends
        s.len() >= 8,
{
    (s[0] * 0x100000000000000 + s[1] * 0x1000000000000 + s[2] * 0x10000000000 + s[3] * 0x100000000
        + s[4] * 0x1000000 + s[5] * 0x10000 + s[6] * 0x100 + s[7]) as u64
}

/// Two's-complement reinterpretations between same-width signed and
/// unsigned integers.
pub open spec fn u8_as_i8(v: u8) -> i8 {
    if v < 0x80 {
        v as i8
    } else {
        (v - 0x100) as i8
    }
}

pub open spec fn i8_as_u8(v: i8) -> u8 {
    if v >= 0 {
        v as u8
    } else {
        (v + 0x100) as u8
    }
}

pub open spec fn u16_as_i16(v: u16) -> i16 {
    if v < 0x8000 {
        v as i16
    } else {
        (v - 0x10000) as i16
    }
}

pub open spec fn i16_as_u16(v: i16) -> u16 {
    if v >= 0 {
        v as u16
    } else {
        (v + 0x10000) as u16
    }
}

pub open spec fn u32_as_i32(v: u32) -> i32 {
    if v < 0x80000000 {
        v as i32
    } else {
        (v - 0x100000000) as i32
    }
}

pub open spec fn i32_as_u32(v: i32) -> u32 {
    if v >= 0 {
        v as u32
    } else {
        (v + 0x100000000) as u32
    }
}

pub open spec fn u64_as_i64(v: u64) -> i64 {
    if v < 0x8000000000000000 {
        v as i64
    } else {
        (v - 0x10000000000000000) as i64
    }
}

pub open spec fn i64_as_u64(v: i64) -> u64 {
    if v >= 0 {
        v as u64
    } else {
        (v + 0x10000000000000000) as u64
    }
}

/// Decoding the big-endian bytes of a `u16` gives the value back.
pub proof fn lemma_u16_round_trip(v: u16)
    ensures
        be_u16(wire_u16(v)) == v,
{
}

/// Encoding the `u16` spelled by two bytes gives the bytes back.
pub proof fn lemma_u16_exact(s: Seq<u8>)
    requires
        s.len() >= 2,
    ensures
        wire_u16(be_u16(s)) =~= s.take(2),
{
}

pub proof fn lemma_u32_round_trip(v: u32)
    ensures
        be_u32(wire_u32(v)) == v,
{
}

#[verifier::rlimit(60)]
pub proof fn lemma_u32_exact(s: Seq<u8>)
    requires
        s.len() >= 4,
    ensures
        wire_u32(be_u32(s)) =~= s.take(4),
{
    let x = s[0] * 0x1000000 + s[1] * 0x10000 + s[2] * 0x100 + s[3];
    vstd::arithmetic::div_mod::lemma_div_denominator(x, 0x100, 0x100);
    vstd::arithmetic::div_mod::lemma_div_denominator(x, 0x10000, 0x100);
    assert(x / 0x100 == s[0] * 0x10000 + s[1] * 0x100 + s[2] && x % 0x100 == s[3]);
    assert(x / 0x10000 == s[0] * 0x100 + s[1] && (x / 0x100) % 0x100 == s[2]);
    assert(x / 0x1000000 == s[0] && (x / 0x10000) % 0x100 == s[1]);
}

/// `(x / 256^k) / 256 == x / 256^(k+1)` for the divisors used by `wire_u64`.
proof fn lemma_u64_div_chain(x: int)
    requires
        0 <= x,
    ensures
        (x / 0x100) / 0x100 == x / 0x10000,
        (x / 0x10000) / 0x100 == x / 0x1000000,
        (x / 0x1000000) / 0x100 == x / 0x100000000,
        (x / 0x100000000) / 0x100 == x / 0x10000000000,
        (x / 0x10000000000) / 0x100 == x / 0x1000000000000,
        (x / 0x1000000000000) / 0x100 == x / 0x100000000000000,
{
    vstd::arithmetic::div_mod::lemma_div_denominator(x, 0x100, 0x100);
    vstd::arithmetic::div_mod::lemma_div_denominator(x, 0x10000, 0x100);
    vstd::arithmetic::div_mod::lemma_div_denominator(x, 0x1000000, 0x100);
    vstd::arithmetic::div_mod::lemma_div_denominator(x, 0x100000000, 0x100);
    vstd::arithmetic::div_mod::lemma_div_denominator(x, 0x10000000000, 0x100);
    vstd::arithmetic::div_mod::lemma_div_denominator(x, 0x1000000000000, 0x100);
}

#[verifier::rlimit(60)]
pub proof fn lemma_u64_round_trip(v: u64)
    ensures
        be_u64(wire_u64(v)) == v,
{
    let x = v as int;
    lemma_u64_div_chain(x);
    assert(x == (x / 0x100) * 0x100 + x % 0x100);
    assert(x / 0x100 == (x / 0x10000) * 0x100 + (x / 0x100) % 0x100);
    assert(x / 0x10000 == (x / 0x1000000) * 0x100 + (x / 0x10000) % 0x100);
    assert(x / 0x1000000 == (x / 0x100000000) * 0x100 + (x / 0x1000000) % 0x100);
    assert(x / 0x100000000 == (x / 0x10000000000) * 0x100 + (x / 0x100000000) % 0x100);
    assert(x / 0x10000000000 == (x / 0x1000000000000) * 0x100 + (x / 0x10000000000) % 0x100);
    assert(x / 0x1000000000000 == (x / 0x100000000000000) * 0x100 + (x / 0x1000000000000)
        % 0x100);
}

#[verifier::rlimit(60)]
pub proof fn lemma_u64_exact(s: Seq<u8>)
    requires
        s.len() >= 8,
    ensures
        wire_u64(be_u64(s)) =~= s.take(8),
{
    let x = s[0] * 0x100000000000000 + s[1] * 0x1000000000000 + s[2] * 0x10000000000 + s[3]
        * 0x100000000 + s[4] * 0x1000000 + s[5] * 0x10000 + s[6] * 0x100 + s[7];
    lemma_u64_div_chain(x);
    assert(x / 0x100 == s[0] * 0x1000000000000 + s[1] * 0x10000000000 + s[2] * 0x100000000 + s[3]
        * 0x1000000 + s[4] * 0x10000 + s[5] * 0x100 + s[6] && x % 0x100 == s[7]);
    assert(x / 0x10000 == s[0] * 0x10000000000 + s[1] * 0x100000000 + s[2] * 0x1000000 + s[3]
        * 0x10000 + s[4] * 0x100 + s[5] && (x / 0x100) % 0x100 == s[6]);
    assert(x / 0x1000000 == s[0] * 0x100000000 + s[1] * 0x1000000 + s[2] * 0x10000 + s[3] * 0x100
        + s[4] && (x / 0x10000) % 0x100 == s[5]);
    assert(x / 0x100000000 == s[0] * 0x1000000 + s[1] * 0x10000 + s[2] * 0x100 + s[3] && (x
        / 0x1000000) % 0x100 == s[4]);
    assert(x / 0x10000000000 == s[0] * 0x10000 + s[1] * 0x100 + s[2] && (x / 0x100000000) % 0x100
        == s[3]);
    assert(x / 0x1000000000000 == s[0] * 0x100 + s[1] && (x / 0x10000000000) % 0x100 == s[2]);
    assert(x / 0x100000000000000 == s[0] && (x / 0x1000000000000) % 0x100 == s[1]);
}

} // verus!
