//! Bounds-checked readers and writers for the primitive layouts.
//!
//! Every reader validates that the remaining input holds the bytes its
//! layout requires before consuming anything; on shortfall it fails with an
//! "invalid input" condition carrying the caller's field name.  Writers
//! never fail: the output buffer grows as needed.

use vstd::prelude::*;
use bytes::{Bytes, BytesMut};
use std::collections::HashSet;
use std::hash::Hash;
use std::hash::RandomState;
use vstd::std_specs::hash::{builds_valid_hashers, obeys_key_model};
use vstd::std_specs::iter::IteratorSpec;
use crate::{FromFrame, IntoFrame, InvalidInput};
use crate::bytebuf::{
    bmut_put_slice, bmut_put_u8, bmut_view, bytes_as_slice, bytes_get_u8, bytes_len,
    bytes_split_to, bytes_view, string_from_utf8,
};
use crate::layout::{
    array_encodable, be_u16, be_u32, be_u64, chain_elems, concat_wires, lemma_concat_wires_push,
    option_encodable, option_model, parse_array, parse_elems, parse_option, parse_str, seq_model,
    str_encodable, u16_as_i16, u32_as_i32, u64_as_i64, u8_as_i8, wire_array, wire_option,
    wire_str, wire_u16, wire_u32, wire_u64,
};

verus! {

/// Read one byte as a `bool`: `0` is false, any other value is true.
pub fn get_bool(src: &mut Bytes, name: &str) -> (r: Result<bool, InvalidInput>)
    ensures
        bytes_view(*old(src)).len() >= 1 ==> (r matches Ok(v) && v == (bytes_view(*old(src))[0]
            != 0) && bytes_view(*final(src)) == bytes_view(*old(src)).skip(1)),
        bytes_view(*old(src)).len() < 1 ==> (r matches Err(e) && e.field@ == name@ && bytes_view(
            *final(src),
        ) == bytes_view(*old(src))),
{
    if bytes_len(src) < 1 {
        return Err(InvalidInput::new(name));
    }
    Ok(bytes_get_u8(src) != 0)
}

/// Read one byte as a `u8`.
pub fn get_u8(src: &mut Bytes, name: &str) -> (r: Result<u8, InvalidInput>)
    ensures
        bytes_view(*old(src)).len() >= 1 ==> (r matches Ok(v) && v == bytes_view(*old(src))[0]
            && bytes_view(*final(src)) == bytes_view(*old(src)).skip(1)),
        bytes_view(*old(src)).len() < 1 ==> (r matches Err(e) && e.field@ == name@ && bytes_view(
            *final(src),
        ) == bytes_view(*old(src))),
{
    if bytes_len(src) < 1 {
        return Err(InvalidInput::new(name));
    }
    Ok(bytes_get_u8(src))
}

/// Read two bytes as a big-endian `u16`.
pub fn get_u16(src: &mut Bytes, name: &str) -> (r: Result<u16, InvalidInput>)
    ensures
        bytes_view(*old(src)).len() >= 2 ==> (r matches Ok(v) && v == be_u16(bytes_view(*old(src)))
            && bytes_view(*final(src)) == bytes_view(*old(src)).skip(2)),
        bytes_view(*old(src)).len() < 2 ==> (r matches Err(e) && e.field@ == name@ && bytes_view(
            *final(src),
        ) == bytes_view(*old(src))),
{
    if bytes_len(src) < 2 {
        return Err(InvalidInput::new(name));
    }
    let b0 = bytes_get_u8(src);
    let b1 = bytes_get_u8(src);
    proof {
        assert(bytes_view(*src) =~= bytes_view(*old(src)).skip(2));
    }
    Ok((b0 as u16) * 0x100 + (b1 as u16))
}

/// Read four bytes as a big-endian `u32`.
pub fn get_u32(src: &mut Bytes, name: &str) -> (r: Result<u32, InvalidInput>)
    ensures
        bytes_view(*old(src)).len() >= 4 ==> (r matches Ok(v) && v == be_u32(bytes_view(*old(src)))
            && bytes_view(*final(src)) == bytes_view(*old(src)).skip(4)),
        bytes_view(*old(src)).len() < 4 ==> (r matches Err(e) && e.field@ == name@ && bytes_view(
            *final(src),
        ) == bytes_view(*old(src))),
{
    if bytes_len(src) < 4 {
        return Err(InvalidInput::new(name));
    }
    let b0 = bytes_get_u8(src);
    let b1 = bytes_get_u8(src);
    let b2 = bytes_get_u8(src);
    let b3 = bytes_get_u8(src);
    proof {
        assert(bytes_view(*src) =~= bytes_view(*old(src)).skip(4));
    }
    Ok((b0 as u32) * 0x1000000 + (b1 as u32) * 0x10000 + (b2 as u32) * 0x100 + (b3 as u32))
}

/// Read eight bytes as a big-endian `u64`.
pub fn get_u64(src: &mut Bytes, name: &str) -> (r: Result<u64, InvalidInput>)
    ensures
        bytes_view(*old(src)).len() >= 8 ==> (r matches Ok(v) && v == be_u64(bytes_view(*old(src)))
            && bytes_view(*final(src)) == bytes_view(*old(src)).skip(8)),
        bytes_view(*old(src)).len() < 8 ==> (r matches Err(e) && e.field@ == name@ && bytes_view(
            *final(src),
        ) == bytes_view(*old(src))),
{
    if bytes_len(src) < 8 {
        return Err(InvalidInput::new(name));
    }
    let b0 = bytes_get_u8(src);
    let b1 = bytes_get_u8(src);
    let b2 = bytes_get_u8(src);
    let b3 = bytes_get_u8(src);
    let b4 = bytes_get_u8(src);
    let b5 = bytes_get_u8(src);
    let b6 = bytes_get_u8(src);
    let b7 = bytes_get_u8(src);
    proof {
        assert(bytes_view(*src) =~= bytes_view(*old(src)).skip(8));
    }
    Ok(
        (b0 as u64) * 0x100000000000000 + (b1 as u64) * 0x1000000000000 + (b2 as u64)
            * 0x10000000000 + (b3 as u64) * 0x100000000 + (b4 as u64) * 0x1000000 + (b5 as u64)
            * 0x10000 + (b6 as u64) * 0x100 + (b7 as u64),
    )
}

/// Read one byte as a two's-complement `i8`.
pub fn get_i8(src: &mut Bytes, name: &str) -> (r: Result<i8, InvalidInput>)
    ensures
        bytes_view(*old(src)).len() >= 1 ==> (r matches Ok(v) && v == u8_as_i8(
            bytes_view(*old(src))[0],
        ) && bytes_view(*final(src)) == bytes_view(*old(src)).skip(1)),
        bytes_view(*old(src)).len() < 1 ==> (r matches Err(e) && e.field@ == name@ && bytes_view(
            *final(src),
        ) == bytes_view(*old(src))),
{
    let b = get_u8(src, name)?;
    if b < 0x80 {
        Ok(b as i8)
    } else {
        Ok(((b as i16) - 0x100) as i8)
    }
}

/// Read two bytes as a big-endian two's-complement `i16`.
pub fn get_i16(src: &mut Bytes, name: &str) -> (r: Result<i16, InvalidInput>)
    ensures
        bytes_view(*old(src)).len() >= 2 ==> (r matches Ok(v) && v == u16_as_i16(
            be_u16(bytes_view(*old(src))),
        ) && bytes_view(*final(src)) == bytes_view(*old(src)).skip(2)),
        bytes_view(*old(src)).len() < 2 ==> (r matches Err(e) && e.field@ == name@ && bytes_view(
            *final(src),
        ) == bytes_view(*old(src))),
{
    let b = get_u16(src, name)?;
    if b < 0x8000 {
        Ok(b as i16)
    } else {
        Ok(((b as i32) - 0x10000) as i16)
    }
}

/// Read four bytes as a big-endian two's-complement `i32`.
pub fn get_i32(src: &mut Bytes, name: &str) -> (r: Result<i32, InvalidInput>)
    ensures
        bytes_view(*old(src)).len() >= 4 ==> (r matches Ok(v) && v == u32_as_i32(
            be_u32(bytes_view(*old(src))),
        ) && bytes_view(*final(src)) == bytes_view(*old(src)).skip(4)),
        bytes_view(*old(src)).len() < 4 ==> (r matches Err(e) && e.field@ == name@ && bytes_view(
            *final(src),
        ) == bytes_view(*old(src))),
{
    let b = get_u32(src, name)?;
    if b < 0x80000000 {
        Ok(b as i32)
    } else {
        Ok(((b as i64) - 0x100000000) as i32)
    }
}

/// Read eight bytes as a big-endian two's-complement `i64`.
pub fn get_i64(src: &mut Bytes, name: &str) -> (r: Result<i64, InvalidInput>)
    ensures
        bytes_view(*old(src)).len() >= 8 ==> (r matches Ok(v) && v == u64_as_i64(
            be_u64(bytes_view(*old(src))),
        ) && bytes_view(*final(src)) == bytes_view(*old(src)).skip(8)),
        bytes_view(*old(src)).len() < 8 ==> (r matches Err(e) && e.field@ == name@ && bytes_view(
            *final(src),
        ) == bytes_view(*old(src))),
{
    let b = get_u64(src, name)?;
    if b < 0x8000000000000000 {
        Ok(b as i64)
    } else {
        Ok((((b as i128) - 0x10000000000000000) as i64))
    }
}

/// Read a length-prefixed UTF-8 string.
pub fn get_string(src: &mut Bytes, name: &str) -> (r: Result<String, InvalidInput>)
    ensures
        match r {
            Ok(v) => parse_str(bytes_view(*old(src))) matches Some((m, k)) && m == v@
                && bytes_view(*final(src)) == bytes_view(*old(src)).skip(k),
            Err(e) => parse_str(bytes_view(*old(src))) is None && e.field@ == name@,
        },
{
    let ghost s = bytes_view(*old(src));
    let n = match get_u32(src, name) {
        Ok(v) => v,
        Err(e) => {
            return Err(e);
        },
    };
    let n_us = n as usize;
    if bytes_len(src) < n_us {
        return Err(InvalidInput::new(name));
    }
    let payload = bytes_split_to(src, n_us);
    proof {
        assert(bytes_view(payload) =~= s.subrange(4, 4 + n as int));
        assert(bytes_view(*src) =~= s.skip(4 + n as int));
    }
    let vec = vstd::slice::slice_to_vec(bytes_as_slice(&payload));
    match string_from_utf8(vec) {
        Some(text) => Ok(text),
        None => Err(InvalidInput::new(name)),
    }
}

/// Read an optional value: a presence tag `0` (absent) or `1` (present,
/// followed by the value); any other tag fails.
pub fn get_option<T: FromFrame>(src: &mut Bytes, name: &str) -> (r: Result<
    Option<T>,
    InvalidInput,
>)
    ensures
        match r {
            Ok(v) => parse_option::<T>(bytes_view(*old(src))) matches Some((m, n)) && m
                == option_model(v) && 0 <= n <= bytes_view(*old(src)).len() && bytes_view(
                *final(src),
            ) == bytes_view(*old(src)).skip(n),
            Err(_) => parse_option::<T>(bytes_view(*old(src))) is None,
        },
{
    let tag = match get_u8(src, name) {
        Ok(t) => t,
        Err(e) => {
            return Err(e);
        },
    };
    if tag == 0 {
        Ok(None)
    } else if tag == 1 {
        match T::parse_frame(src) {
            Ok(v) => Ok(Some(v)),
            Err(e) => Err(e),
        }
    } else {
        Err(InvalidInput::new(name))
    }
}

/// Read a count-prefixed array of values.
pub fn get_array<T: FromFrame>(src: &mut Bytes, name: &str) -> (r: Result<Vec<T>, InvalidInput>)
    ensures
        match r {
            Ok(v) => parse_array::<T>(bytes_view(*old(src))) matches Some((ms, n)) && ms
                == seq_model(v@) && 0 <= n <= bytes_view(*old(src)).len() && bytes_view(
                *final(src),
            ) == bytes_view(*old(src)).skip(n),
            Err(_) => parse_array::<T>(bytes_view(*old(src))) is None,
        },
{
    let ghost s0 = bytes_view(*src);
    let count = match get_u32(src, name) {
        Ok(c) => c,
        Err(e) => {
            return Err(e);
        },
    };
    let ghost sbody = bytes_view(*src);
    let mut arr: Vec<T> = Vec::new();
    let mut i: u32 = 0;
    let ghost mut used: int = 0;
    proof {
        assert(sbody =~= s0.skip(4));
        match parse_elems::<T>(sbody, count as nat) {
            Some((ms, n)) => {
                assert(Seq::<T::Model>::empty() + ms =~= ms);
            },
            None => {},
        }
        assert(seq_model(arr@) =~= Seq::<T::Model>::empty());
    }
    while i < count
        invariant
            i <= count,
            arr@.len() == i,
            0 <= used <= sbody.len(),
            s0 == bytes_view(*old(src)),
            s0.len() >= 4,
            sbody == s0.skip(4),
            count == be_u32(s0),
            bytes_view(*src) == sbody.skip(used),
            parse_elems::<T>(sbody, count as nat) == chain_elems::<T>(
                seq_model(arr@),
                used,
                parse_elems::<T>(bytes_view(*src), (count - i) as nat),
            ),
        decreases count - i,
    {
        let ghost pre = bytes_view(*src);
        let ghost a_old = seq_model(arr@);
        let ghost used_old = used;
        match T::parse_frame(src) {
            Ok(v) => {
                let ghost pair = T::parse_spec(pre)->Some_0;
                arr.push(v);
                i = i + 1;
                proof {
                    let m = pair.0;
                    let n = pair.1;
                    used = used + n;
                    assert(seq_model(arr@) =~= a_old.push(m));
                    assert(bytes_view(*src) =~= sbody.skip(used));
                    let tail2 = parse_elems::<T>(bytes_view(*src), (count - i) as nat);
                    match tail2 {
                        Some((ms2, t2)) => {
                            assert(parse_elems::<T>(pre, (count - i + 1) as nat) == Some((
                                seq![m] + ms2,
                                n + t2,
                            )));
                            assert(a_old + (seq![m] + ms2) =~= a_old.push(m) + ms2);
                        },
                        None => {
                            assert(parse_elems::<T>(pre, (count - i + 1) as nat) is None);
                        },
                    }
                }
            },
            Err(e) => {
                proof {
                    assert(parse_elems::<T>(pre, (count - i) as nat) is None);
                }
                return Err(e);
            },
        }
    }
    proof {
        assert(parse_elems::<T>(bytes_view(*src), 0) == Some((Seq::<T::Model>::empty(), 0int)));
        assert(seq_model(arr@) + Seq::<T::Model>::empty() =~= seq_model(arr@));
        assert(bytes_view(*src) =~= s0.skip(4 + used));
    }
    Ok(arr)
}

/// Read a count-prefixed array of optional values.
pub fn get_option_array<T: FromFrame>(src: &mut Bytes, name: &str) -> (r: Result<
    Vec<Option<T>>,
    InvalidInput,
>)
    ensures
        match r {
            Ok(v) => parse_array::<Option<T>>(bytes_view(*old(src))) matches Some((ms, n)) && ms
                == seq_model(v@) && 0 <= n <= bytes_view(*old(src)).len() && bytes_view(
                *final(src),
            ) == bytes_view(*old(src)).skip(n),
            Err(_) => parse_array::<Option<T>>(bytes_view(*old(src))) is None,
        },
{
    get_array::<Option<T>>(src, name)
}

/// Append a big-endian `u16`.
pub fn put_u16(dst: &mut BytesMut, v: u16)
    ensures
        bmut_view(*final(dst)) == bmut_view(*old(dst)) + wire_u16(v),
{
    bmut_put_u8(dst, (v / 0x100) as u8);
    bmut_put_u8(dst, (v % 0x100) as u8);
    proof {
        assert(bmut_view(*dst) =~= bmut_view(*old(dst)) + wire_u16(v));
    }
}

/// Append a big-endian `u32`.
pub fn put_u32(dst: &mut BytesMut, v: u32)
    ensures
        bmut_view(*final(dst)) == bmut_view(*old(dst)) + wire_u32(v),
{
    bmut_put_u8(dst, (v / 0x1000000) as u8);
    bmut_put_u8(dst, ((v / 0x10000) % 0x100) as u8);
    bmut_put_u8(dst, ((v / 0x100) % 0x100) as u8);
    bmut_put_u8(dst, (v % 0x100) as u8);
    proof {
        assert(bmut_view(*dst) =~= bmut_view(*old(dst)) + wire_u32(v));
    }
}

/// Append a big-endian `u64`.
pub fn put_u64(dst: &mut BytesMut, v: u64)
    ensures
        bmut_view(*final(dst)) == bmut_view(*old(dst)) + wire_u64(v),
{
    bmut_put_u8(dst, (v / 0x100000000000000) as u8);
    bmut_put_u8(dst, ((v / 0x1000000000000) % 0x100) as u8);
    bmut_put_u8(dst, ((v / 0x10000000000) % 0x100) as u8);
    bmut_put_u8(dst, ((v / 0x100000000) % 0x100) as u8);
    bmut_put_u8(dst, ((v / 0x1000000) % 0x100) as u8);
    bmut_put_u8(dst, ((v / 0x10000) % 0x100) as u8);
    bmut_put_u8(dst, ((v / 0x100) % 0x100) as u8);
    bmut_put_u8(dst, (v % 0x100) as u8);
    proof {
        assert(bmut_view(*dst) =~= bmut_view(*old(dst)) + wire_u64(v));
    }
}

/// Read a count-prefixed set of values.  The consumed bytes are exactly a
/// count-prefixed run of element layouts; under the standard hashing
/// model the returned set holds exactly the decoded elements (duplicates
/// collapse).
pub fn get_hashset<T: FromFrame + Eq + Hash>(src: &mut Bytes, name: &str) -> (r: Result<
    HashSet<T>,
    InvalidInput,
>)
    ensures
        match r {
            Ok(v) => parse_array::<T>(bytes_view(*old(src))) matches Some((ms, n)) && 0 <= n
                <= bytes_view(*old(src)).len() && bytes_view(*final(src)) == bytes_view(
                *old(src),
            ).skip(n) && ((obeys_key_model::<T>() && builds_valid_hashers::<RandomState>())
                ==> exists|ts: Seq<T>|
                #![auto]
                seq_model(ts) == ms && v@ == ts.to_set()),
            Err(_) => parse_array::<T>(bytes_view(*old(src))) is None,
        },
{
    broadcast use vstd::std_specs::hash::group_hash_axioms;

    let ghost s0 = bytes_view(*src);
    let count = match get_u32(src, name) {
        Ok(c) => c,
        Err(e) => {
            return Err(e);
        },
    };
    let ghost sbody = bytes_view(*src);
    let mut hs: HashSet<T> = HashSet::new();
    let ghost mut ts: Seq<T> = Seq::empty();
    let mut i: u32 = 0;
    let ghost mut used: int = 0;
    proof {
        assert(sbody =~= s0.skip(4));
        match parse_elems::<T>(sbody, count as nat) {
            Some((ms, n)) => {
                assert(Seq::<T::Model>::empty() + ms =~= ms);
            },
            None => {},
        }
        assert(seq_model(ts) =~= Seq::<T::Model>::empty());
        assert(ts.to_set() =~= Set::<T>::empty());
    }
    while i < count
        invariant
            i <= count,
            ts.len() == i,
            0 <= used <= sbody.len(),
            s0 == bytes_view(*old(src)),
            s0.len() >= 4,
            sbody == s0.skip(4),
            count == be_u32(s0),
            bytes_view(*src) == sbody.skip(used),
            parse_elems::<T>(sbody, count as nat) == chain_elems::<T>(
                seq_model(ts),
                used,
                parse_elems::<T>(bytes_view(*src), (count - i) as nat),
            ),
            (obeys_key_model::<T>() && builds_valid_hashers::<RandomState>()) ==> hs@
                == ts.to_set(),
        decreases count - i,
    {
        broadcast use vstd::std_specs::hash::group_hash_axioms;

        let ghost pre = bytes_view(*src);
        let ghost a_old = seq_model(ts);
        let ghost ts_old = ts;
        match T::parse_frame(src) {
            Ok(v) => {
                let ghost pair = T::parse_spec(pre)->Some_0;
                let ghost vv = v;
                hs.insert(v);
                i = i + 1;
                proof {
                    let m = pair.0;
                    let n = pair.1;
                    used = used + n;
                    ts = ts_old.push(vv);
                    assert(seq_model(ts) =~= a_old.push(m));
                    assert(bytes_view(*src) =~= sbody.skip(used));
                    if obeys_key_model::<T>() && builds_valid_hashers::<RandomState>() {
                        assert(ts.to_set() =~= ts_old.to_set().insert(vv)) by {
                            assert forall|y: T| #[trigger] ts.contains(y) implies ts_old.contains(
                                y,
                            ) || y == vv by {
                                let j = choose|j: int| 0 <= j < ts.len() && ts[j] == y;
                                if j < ts_old.len() {
                                    assert(ts_old[j] == y);
                                }
                            }
                            assert(ts[ts.len() - 1] == vv);
                            assert(ts.contains(vv));
                            assert forall|y: T| #[trigger] ts_old.contains(y) implies ts.contains(
                                y,
                            ) by {
                                let j = choose|j: int| 0 <= j < ts_old.len() && ts_old[j] == y;
                                assert(ts[j] == y);
                            }
                        }
                    }
                    let tail2 = parse_elems::<T>(bytes_view(*src), (count - i) as nat);
                    match tail2 {
                        Some((ms2, t2)) => {
                            assert(parse_elems::<T>(pre, (count - i + 1) as nat) == Some((
                                seq![m] + ms2,
                                n + t2,
                            )));
                            assert(a_old + (seq![m] + ms2) =~= a_old.push(m) + ms2);
                        },
                        None => {
                            assert(parse_elems::<T>(pre, (count - i + 1) as nat) is None);
                        },
                    }
                }
            },
            Err(e) => {
                proof {
                    assert(parse_elems::<T>(pre, (count - i) as nat) is None);
                }
                return Err(e);
            },
        }
    }
    proof {
        assert(parse_elems::<T>(bytes_view(*src), 0) == Some((Seq::<T::Model>::empty(), 0int)));
        assert(seq_model(ts) + Seq::<T::Model>::empty() =~= seq_model(ts));
        assert(bytes_view(*src) =~= s0.skip(4 + used));
    }
    Ok(hs)
}

/// Append a count-prefixed set: element count, then each element's
/// encoding once, in the container's own iteration order.  That order is
/// implementation-defined and need not survive a decode/re-encode cycle;
/// only the set of elements is canonical.
pub fn put_hashset<T: IntoFrame + Eq + Hash>(dst: &mut BytesMut, set: &HashSet<T>)
    requires
        obeys_key_model::<T>(),
        builds_valid_hashers::<RandomState>(),
        set@.len() <= u32::MAX,
        forall|x: T| set@.contains(x) ==> x.encodable(),
    ensures
        exists|elems: Seq<T>|
            #![auto]
            {
                &&& elems.no_duplicates()
                &&& elems.to_set() == set@
                &&& bmut_view(*final(dst)) == bmut_view(*old(dst)) + wire_array(elems)
            },
{
    broadcast use vstd::std_specs::hash::group_hash_axioms;

    let count = set.len();
    put_u32(dst, count as u32);
    let ghost base = bmut_view(*dst);
    let ghost all: Seq<T> = vstd::std_specs::hash::spec_hash_keys_iter(set).remaining().unref();
    proof {
        assert(all.to_set() == set@ && all.no_duplicates() && all.len() == set@.len());
        assert forall|j: int| 0 <= j < all.len() implies (#[trigger] all[j]).encodable() by {
            assert(all.to_set().contains(all[j]));
        }
    }
    for x in it: set.iter()
        invariant
            count == set@.len(),
            count <= u32::MAX,
            all == it.seq().unref(),
            all.no_duplicates(),
            all.to_set() == set@,
            all.len() == count,
            forall|j: int| 0 <= j < all.len() ==> (#[trigger] all[j]).encodable(),
            base == bmut_view(*old(dst)) + wire_u32(count as u32),
            bmut_view(*dst) == base + concat_wires(all.take(it.index() as int)),
    {
        let ghost k: int = it.index() as int;
        proof {
            assert(*x == all[k]);
        }
        x.extend_frame(dst);
        proof {
            lemma_concat_wires_push(all.take(k), all[k]);
            assert(all.take(k + 1) =~= all.take(k).push(all[k]));
            assert(bmut_view(*dst) =~= base + concat_wires(all.take(k + 1)));
        }
    }
    proof {
        assert(all.take(all.len() as int) =~= all);
        assert(bmut_view(*dst) =~= bmut_view(*old(dst)) + wire_array(all));
    }
}

/// Append an optional value: presence tag, then the value when present.
pub fn put_option<T: IntoFrame>(dst: &mut BytesMut, opt: &Option<T>)
    requires
        option_encodable(*opt),
    ensures
        bmut_view(*final(dst)) == bmut_view(*old(dst)) + wire_option(*opt),
{
    match opt {
        Some(val) => {
            bmut_put_u8(dst, 1);
            val.extend_frame(dst);
            proof {
                assert(bmut_view(*dst) =~= bmut_view(*old(dst)) + wire_option(*opt));
            }
        },
        None => {
            bmut_put_u8(dst, 0);
            proof {
                assert(bmut_view(*dst) =~= bmut_view(*old(dst)) + wire_option(*opt));
            }
        },
    }
}

/// Append a count-prefixed array: element count, then each element in order.
pub fn put_array<T: IntoFrame>(dst: &mut BytesMut, arr: &[T])
    requires
        array_encodable(arr@),
    ensures
        bmut_view(*final(dst)) == bmut_view(*old(dst)) + wire_array(arr@),
{
    put_u32(dst, arr.len() as u32);
    let ghost base = bmut_view(*dst);
    let mut i: usize = 0;
    proof {
        assert(concat_wires(arr@.take(0)) =~= Seq::<u8>::empty());
        assert(base + Seq::<u8>::empty() =~= base);
    }
    while i < arr.len()
        invariant
            i <= arr@.len(),
            array_encodable(arr@),
            bmut_view(*dst) == base + concat_wires(arr@.take(i as int)),
        decreases arr@.len() - i,
    {
        let ghost before = bmut_view(*dst);
        arr[i].extend_frame(dst);
        proof {
            lemma_concat_wires_push(arr@.take(i as int), arr@[i as int]);
            assert(arr@.take(i + 1) =~= arr@.take(i as int).push(arr@[i as int]));
            assert(bmut_view(*dst) =~= base + concat_wires(arr@.take(i + 1)));
        }
        i = i + 1;
    }
    proof {
        assert(arr@.take(arr@.len() as int) =~= arr@);
        assert(base + concat_wires(arr@) =~= bmut_view(*old(dst)) + wire_array(arr@));
    }
}

/// Append a count-prefixed array of optional values.
pub fn put_option_array<T: IntoFrame>(dst: &mut BytesMut, arr: &[Option<T>])
    requires
        array_encodable(arr@),
    ensures
        bmut_view(*final(dst)) == bmut_view(*old(dst)) + wire_array(arr@),
{
    put_array::<Option<T>>(dst, arr);
}

/// Append a length-prefixed UTF-8 string.
pub fn put_str(dst: &mut BytesMut, s: &str)
    requires
        str_encodable(s@),
    ensures
        bmut_view(*final(dst)) == bmut_view(*old(dst)) + wire_str(s@),
{
    put_u32(dst, s.len() as u32);
    bmut_put_slice(dst, s.as_bytes());
    proof {
        assert(bmut_view(*dst) =~= bmut_view(*old(dst)) + wire_str(s@));
    }
}

} // verus!
