//! Payloads read from byte slices, and the ways to make a payload from a plain value.

use crate::error::{DecodeError, Error};
use crate::nbt::grammar::{
    be_i32, be_i8, lemma_after_after, lemma_child_extent, lemma_payload_extent, parse_byte,
    parse_byte_array, parse_child, parse_children, parse_double, parse_float, parse_int,
    parse_int_array, parse_items, parse_list, parse_long, parse_long_array, parse_payload,
    parse_short, parse_string, parse_tag, Parsed,
};
use crate::nbt::types::{payload_values, put_entry, settle, tag_values, PayloadValue, Tag, TagValue};
use crate::parser::raw;
use crate::parser::raw::{failed, reads, shifted};
use crate::parser::tag;
use vstd::prelude::*;
use vstd::slice::slice_to_vec;
use vstd::std_specs::convert::FromSpecImpl;
use vstd::string::StringExecFns;

pub use crate::nbt::types::Payload;

verus! {

impl Payload {
    /// A byte.
    pub fn byte(x: &i8) -> (p: Self)
        ensures
            p == Payload::Byte(*x),
    {
        Payload::Byte(*x)
    }

    /// A short.
    pub fn short(x: &i16) -> (p: Self)
        ensures
            p == Payload::Short(*x),
    {
        Payload::Short(*x)
    }

    /// An int.
    pub fn int32(x: &i32) -> (p: Self)
        ensures
            p == Payload::Int(*x),
    {
        Payload::Int(*x)
    }

    /// A long.
    pub fn long(x: &i64) -> (p: Self)
        ensures
            p == Payload::Long(*x),
    {
        Payload::Long(*x)
    }

    /// A 32-bit float, from its bit pattern.
    pub fn float(bits: &u32) -> (p: Self)
        ensures
            p == Payload::Float(*bits),
    {
        Payload::Float(*bits)
    }

    /// A 64-bit float, from its bit pattern.
    pub fn double(bits: &u64) -> (p: Self)
        ensures
            p == Payload::Double(*bits),
    {
        Payload::Double(*bits)
    }

    /// A byte array of the bytes `x`.
    pub fn byte_array(x: Vec<u8>) -> (p: Self)
        ensures
            p == Payload::ByteArray(x),
    {
        Payload::ByteArray(x)
    }

    /// A string of the text `x`.
    pub fn string(x: &str) -> (p: Self)
        ensures
            p@ == PayloadValue::String(x@),
    {
        Payload::String(String::from_str(x))
    }

    /// A list of the payloads `i`, which are of one kind and at least one.
    pub fn from_vec(i: Vec<Payload>) -> (p: Self)
        requires
            i@.len() > 0,
            forall|k: int| 0 <= k < i@.len() ==> (#[trigger] i@[k])@.kind() == i@[0]@.kind(),
        ensures
            p == Payload::List(i),
    {
        Payload::List(i)
    }

    /// A list of the payloads `x`, as they are.
    pub fn list(x: Vec<Payload>) -> (p: Self)
        ensures
            p == Payload::List(x),
    {
        Payload::List(x)
    }

    /// A compound of the tags `x`, read in their order: each name keeps the place of its
    /// first tag and the value of its last.
    pub fn compound(x: Vec<Tag>) -> (p: Self)
        ensures
            p@ == PayloadValue::Compound(settle(tag_values(x@))),
    {
        let ghost all = tag_values(x@);
        let mut entries: Vec<Tag> = Vec::new();
        let mut x = x;
        let mut rev: Vec<Tag> = Vec::new();
        while x.len() > 0
            invariant
                x@.len() + rev@.len() == all.len(),
                tag_values(x@) == all.take(x@.len() as int),
                forall|j: int|
                    0 <= j < rev@.len() ==> tag_values(rev@)[j] == all[all.len() - 1 - j],
            decreases x.len(),
        {
            let ghost before = tag_values(x@);
            let ghost turned = tag_values(rev@);
            let tag = x.pop().unwrap();
            rev.push(tag);
            assert(tag_values(x@) =~= before.drop_last());
            assert(tag_values(rev@) =~= turned.push(before.last()));
        }
        assert(tag_values(entries@) =~= Seq::empty());
        assert(all.take(0) =~= Seq::empty());
        while rev.len() > 0
            invariant
                rev@.len() <= all.len(),
                forall|j: int|
                    0 <= j < rev@.len() ==> tag_values(rev@)[j] == all[all.len() - 1 - j],
                tag_values(entries@) == settle(all.take(all.len() - rev@.len())),
            decreases rev.len(),
        {
            let ghost turned = tag_values(rev@);
            let ghost done = all.take(all.len() - rev@.len());
            let tag = rev.pop().unwrap();
            assert(tag_values(rev@) =~= turned.drop_last());
            put_entry(&mut entries, tag);
            proof {
                let next = all.take(all.len() - rev@.len());
                assert(next.drop_last() =~= done);
                assert(next.last() == turned.last());
            }
        }
        assert(all.take(all.len() as int) =~= all);
        Payload::Compound(entries)
    }

    /// An int array of the numbers `x`.
    pub fn int_array(x: Vec<i32>) -> (p: Self)
        ensures
            p == Payload::IntArray(x),
    {
        Payload::IntArray(x)
    }

    /// A long array of the numbers `x`.
    pub fn long_array(x: Vec<i64>) -> (p: Self)
        ensures
            p == Payload::LongArray(x),
    {
        Payload::LongArray(x)
    }

    /// The raw value of the kind of the payload.
    pub fn id(&self) -> (raw: i8)
        ensures
            raw == self@.kind().raw_value(),
    {
        self.to_raw_id()
    }
}

impl From<i8> for Payload {
    fn from(i: i8) -> (p: Self) {
        Payload::Byte(i)
    }
}

impl FromSpecImpl<i8> for Payload {
    open spec fn obeys_from_spec() -> bool {
        true
    }

    open spec fn from_spec(i: i8) -> Self {
        Payload::Byte(i)
    }
}

impl From<i16> for Payload {
    fn from(i: i16) -> (p: Self) {
        Payload::Short(i)
    }
}

impl FromSpecImpl<i16> for Payload {
    open spec fn obeys_from_spec() -> bool {
        true
    }

    open spec fn from_spec(i: i16) -> Self {
        Payload::Short(i)
    }
}

impl From<i32> for Payload {
    fn from(i: i32) -> (p: Self) {
        Payload::Int(i)
    }
}

impl FromSpecImpl<i32> for Payload {
    open spec fn obeys_from_spec() -> bool {
        true
    }

    open spec fn from_spec(i: i32) -> Self {
        Payload::Int(i)
    }
}

impl From<i64> for Payload {
    fn from(i: i64) -> (p: Self) {
        Payload::Long(i)
    }
}

impl FromSpecImpl<i64> for Payload {
    open spec fn obeys_from_spec() -> bool {
        true
    }

    open spec fn from_spec(i: i64) -> Self {
        Payload::Long(i)
    }
}

impl From<Vec<i32>> for Payload {
    fn from(i: Vec<i32>) -> (p: Self) {
        Payload::IntArray(i)
    }
}

impl FromSpecImpl<Vec<i32>> for Payload {
    open spec fn obeys_from_spec() -> bool {
        true
    }

    open spec fn from_spec(i: Vec<i32>) -> Self {
        Payload::IntArray(i)
    }
}

impl From<Vec<i64>> for Payload {
    fn from(i: Vec<i64>) -> (p: Self) {
        Payload::LongArray(i)
    }
}

impl FromSpecImpl<Vec<i64>> for Payload {
    open spec fn obeys_from_spec() -> bool {
        true
    }

    open spec fn from_spec(i: Vec<i64>) -> Self {
        Payload::LongArray(i)
    }
}

impl From<&[u8]> for Payload {
    fn from(i: &[u8]) -> (p: Self)
        ensures
            p@ == PayloadValue::ByteArray(i@),
    {
        Payload::ByteArray(slice_to_vec(i))
    }
}

impl FromSpecImpl<&[u8]> for Payload {
    open spec fn obeys_from_spec() -> bool {
        false
    }

    open spec fn from_spec(i: &[u8]) -> Self {
        arbitrary()
    }
}

impl From<&str> for Payload {
    fn from(i: &str) -> (p: Self)
        ensures
            p@ == PayloadValue::String(i@),
    {
        Payload::String(String::from_str(i))
    }
}

impl FromSpecImpl<&str> for Payload {
    open spec fn obeys_from_spec() -> bool {
        false
    }

    open spec fn from_spec(i: &str) -> Self {
        arbitrary()
    }
}

impl From<&[i32]> for Payload {
    fn from(i: &[i32]) -> (p: Self)
        ensures
            p@ == PayloadValue::IntArray(i@),
    {
        Payload::IntArray(slice_to_vec(i))
    }
}

impl FromSpecImpl<&[i32]> for Payload {
    open spec fn obeys_from_spec() -> bool {
        false
    }

    open spec fn from_spec(i: &[i32]) -> Self {
        arbitrary()
    }
}

impl From<&[i64]> for Payload {
    fn from(i: &[i64]) -> (p: Self)
        ensures
            p@ == PayloadValue::LongArray(i@),
    {
        Payload::LongArray(slice_to_vec(i))
    }
}

impl FromSpecImpl<&[i64]> for Payload {
    open spec fn obeys_from_spec() -> bool {
        false
    }

    open spec fn from_spec(i: &[i64]) -> Self {
        arbitrary()
    }
}

/// A value that converts to a payload.
pub struct TPayload<T: Into<Payload>>(pub T);

/// The value that `a` converts to.
pub fn into<F, T: From<F>>(a: F) -> (r: T)
    ensures
        call_ensures(T::from, (a,), r),
{
    a.into()
}

/// Reads the payload of kind `id`.
pub fn payload(id: i8, input: &[u8]) -> (r: Result<(&[u8], Payload), DecodeError>)
    ensures
        reads(input@, r, parse_payload(id, input@)),
    decreases input@.len(), 2int, 0int,
{
    match id {
        1 => byte(input),
        2 => short(input),
        3 => int32(input),
        4 => long(input),
        5 => float(input),
        6 => double(input),
        7 => byte_array(input),
        8 => string(input),
        9 => list(input),
        10 => {
            let (rest, tags) = compound(input)?;
            Ok((rest, Payload::compound(tags)))
        },
        11 => int_array(input),
        12 => long_array(input),
        _ => fail(id, input),
    }
}

/// The reader for an identifier that names no kind of payload: it fails, and consumes nothing.
pub fn fail(id: i8, input: &[u8]) -> (r: Result<(&[u8], Payload), DecodeError>)
    ensures
        r == failed::<(&[u8], Payload)>(Error::InvalidTagId(id), 0),
{
    Err(DecodeError { kind: Error::InvalidTagId(id), offset: 0 })
}

/// Reads a byte.
pub fn byte(input: &[u8]) -> (r: Result<(&[u8], Payload), DecodeError>)
    ensures
        reads(input@, r, parse_byte(input@)),
{
    let (rest, v) = raw::byte(input)?;
    Ok((rest, into(v)))
}

/// Reads a short.
pub fn short(input: &[u8]) -> (r: Result<(&[u8], Payload), DecodeError>)
    ensures
        reads(input@, r, parse_short(input@)),
{
    let (rest, v) = raw::short(input)?;
    Ok((rest, into(v)))
}

/// Reads an int.
pub fn int32(input: &[u8]) -> (r: Result<(&[u8], Payload), DecodeError>)
    ensures
        reads(input@, r, parse_int(input@)),
{
    let (rest, v) = raw::int32(input)?;
    Ok((rest, into(v)))
}

/// Reads a long.
pub fn long(input: &[u8]) -> (r: Result<(&[u8], Payload), DecodeError>)
    ensures
        reads(input@, r, parse_long(input@)),
{
    let (rest, v) = raw::long(input)?;
    Ok((rest, into(v)))
}

/// Reads a 32-bit float and keeps its bit pattern.
pub fn float(input: &[u8]) -> (r: Result<(&[u8], Payload), DecodeError>)
    ensures
        reads(input@, r, parse_float(input@)),
{
    let (rest, bits) = raw::float(input)?;
    Ok((rest, Payload::Float(bits)))
}

/// Reads a 64-bit float and keeps its bit pattern.
pub fn double(input: &[u8]) -> (r: Result<(&[u8], Payload), DecodeError>)
    ensures
        reads(input@, r, parse_double(input@)),
{
    let (rest, bits) = raw::double(input)?;
    Ok((rest, Payload::Double(bits)))
}

/// Reads the count that starts an array. A negative count is an error.
fn count(input: &[u8]) -> (r: Result<(&[u8], usize), DecodeError>)
    ensures
        input@.len() < 4 ==> r == failed::<(&[u8], usize)>(Error::UnexpectedEnd, 0),
        input@.len() >= 4 && be_i32(input@) < 0 ==> r == failed::<(&[u8], usize)>(
            Error::NegativeLength,
            4,
        ),
        input@.len() >= 4 && be_i32(input@) >= 0 ==> (r matches Ok((rest, n)) && n == be_i32(
            input@,
        ) && rest@ == input@.skip(4)),
{
    let (rest, c) = raw::int32(input)?;
    if c < 0 {
        return Err(DecodeError { kind: Error::NegativeLength, offset: 4 });
    }
    Ok((rest, c as usize))
}

/// Reads a byte array: a count that is not negative, then that many bytes.
pub fn byte_array(input: &[u8]) -> (r: Result<(&[u8], Payload), DecodeError>)
    ensures
        reads(input@, r, parse_byte_array(input@)),
{
    let (rest, c) = count(input)?;
    match raw::byte_array(c, rest) {
        Ok((rest, taken)) => {
            proof {
                assert(input@.skip(4).take(c as int) =~= input@.subrange(4, 4 + c));
                assert(input@.skip(4).skip(c as int) =~= input@.skip(4 + c));
            }
            Ok((rest, into(taken)))
        },
        Err(e) => shifted(e, 4),
    }
}

/// Reads a string: a 16-bit unsigned byte count, then that many bytes of UTF-8.
pub fn string(input: &[u8]) -> (r: Result<(&[u8], Payload), DecodeError>)
    ensures
        reads(input@, r, parse_string(input@)),
{
    let (rest, len) = raw::ushort(input)?;
    match raw::string(len as usize, rest) {
        Ok((rest, text)) => {
            proof {
                assert(input@.skip(2).take(len as int) =~= input@.subrange(2, 2 + len));
                assert(input@.skip(2).skip(len as int) =~= input@.skip(2 + len));
            }
            Ok((rest, into(text)))
        },
        Err(e) => {
            proof {
                if input@.len() - 2 >= len {
                    assert(input@.skip(2).take(len as int) =~= input@.subrange(2, 2 + len));
                }
            }
            shifted(e, 2)
        },
    }
}

/// Reads an int array: a count that is not negative, then that many ints.
pub fn int_array(input: &[u8]) -> (r: Result<(&[u8], Payload), DecodeError>)
    ensures
        reads(input@, r, parse_int_array(input@)),
{
    let (rest, c) = count(input)?;
    match raw::int_array(c, rest) {
        Ok((rest, items)) => {
            proof {
                assert(input@.skip(4).skip(4 * c) =~= input@.skip(4 + 4 * c));
            }
            Ok((rest, into(items)))
        },
        Err(e) => shifted(e, 4),
    }
}

/// Reads a long array: a count that is not negative, then that many longs.
pub fn long_array(input: &[u8]) -> (r: Result<(&[u8], Payload), DecodeError>)
    ensures
        reads(input@, r, parse_long_array(input@)),
{
    let (rest, c) = count(input)?;
    match raw::long_array(c, rest) {
        Ok((rest, items)) => {
            proof {
                assert(input@.skip(4).skip(8 * c) =~= input@.skip(4 + 8 * c));
            }
            Ok((rest, into(items)))
        },
        Err(e) => shifted(e, 4),
    }
}

/// Reads a list: the kind of its elements, a count, then the elements, every one as that
/// kind. A count of zero or less is the empty list, and the kind is not looked at.
pub fn list(input: &[u8]) -> (r: Result<(&[u8], Payload), DecodeError>)
    ensures
        reads(input@, r, parse_list(input@)),
    decreases input@.len(), 1int, 0int,
{
    let ghost s = input@;
    let (rest, id) = raw::byte(input)?;
    let (rest, c) = match raw::int32(rest) {
        Ok(read) => read,
        Err(e) => {
            return shifted(e, 1);
        },
    };
    assert(s.skip(1).skip(4) =~= s.skip(5));
    let mut items: Vec<Payload> = Vec::new();
    if c <= 0 {
        assert(payload_values(items@) =~= Seq::empty());
        return Ok((rest, Payload::List(items)));
    }
    let ghost body = s.skip(5);
    let ghost mut used: int = 0;
    let mut rest = rest;
    let mut i: i32 = 0;
    proof {
        assert(s.skip(5 + used) =~= s.skip(5));
        assert(payload_values(items@) =~= Seq::empty());
        if let Parsed::Done(tail, _) = parse_items(id, body, c as nat) {
            assert(Seq::<PayloadValue>::empty() + tail =~= tail);
        }
    }
    while i < c
        invariant
            0 <= i <= c,
            s == input@,
            s.len() >= 5,
            body == s.skip(5),
            id == be_i8(s),
            c == be_i32(s.skip(1)),
            0 <= used <= s.len() - 5,
            rest@ == s.skip(5 + used),
            items@.len() == i,
            parse_items(id, body, c as nat) == parse_items(id, rest@, (c - i) as nat).after(
                payload_values(items@),
                used,
            ),
        decreases c - i,
    {
        let ghost here = rest@;
        let ghost done = payload_values(items@);
        proof {
            lemma_payload_extent(id, here);
        }
        match payload(id, rest) {
            Ok((after, next)) => {
                proof {
                    let k = here.len() - after@.len();
                    assert(s.skip(5 + used).skip(k) =~= s.skip(5 + used + k));
                    lemma_after_after(
                        parse_items(id, after@, (c - i - 1) as nat),
                        done,
                        used,
                        seq![next@],
                        k,
                    );
                    used = used + k;
                }
                items.push(next);
                assert(payload_values(items@) =~= done + seq![next@]);
                rest = after;
            },
            Err(e) => {
                return shifted(e, input.len() - rest.len());
            },
        }
        i = i + 1;
    }
    assert(payload_values(items@) + Seq::empty() =~= payload_values(items@));
    Ok((rest, Payload::List(items)))
}

/// Reads the children of a compound, up to and with the end marker, in their order.
pub fn compound(input: &[u8]) -> (r: Result<(&[u8], Vec<Tag>), DecodeError>)
    ensures
        match parse_children(input@) {
            Parsed::Done(values, used) => {
                &&& r matches Ok((rest, tags))
                &&& tag_values(tags@) == values
                &&& 0 <= used <= input@.len()
                &&& rest@ == input@.skip(used)
            },
            Parsed::Fail(kind, at) => r == failed::<(&[u8], Vec<Tag>)>(kind, at),
        },
    decreases input@.len(), 1int, 0int,
{
    let ghost s = input@;
    let mut tags: Vec<Tag> = Vec::new();
    let mut rest = input;
    let ghost mut used: int = 0;
    proof {
        assert(s.skip(0) =~= s);
        assert(tag_values(tags@) =~= Seq::empty());
        if let Parsed::Done(tail, _) = parse_children(s) {
            assert(Seq::<TagValue>::empty() + tail =~= tail);
        }
    }
    loop
        invariant
            s == input@,
            0 <= used <= s.len(),
            rest@ == s.skip(used),
            parse_children(s) == parse_children(rest@).after(tag_values(tags@), used),
        decreases rest@.len(),
    {
        let ghost here = rest@;
        let ghost done = tag_values(tags@);
        proof {
            lemma_child_extent(here);
        }
        match tag::end(rest) {
            Ok((after, _)) => {
                proof {
                    assert(parse_tag(here) == Parsed::Done(TagValue::End, 1));
                    assert(s.skip(used).skip(1) =~= s.skip(used + 1));
                    assert(done + Seq::empty() =~= done);
                }
                return Ok((after, tags));
            },
            Err(_) => {},
        }
        assert(parse_tag(here) == parse_child(here));
        match tag::tag(rest) {
            Ok((after, next)) => {
                proof {
                    let k = here.len() - after@.len();
                    assert(s.skip(used).skip(k) =~= s.skip(used + k));
                    lemma_after_after(parse_children(after@), done, used, seq![next@], k);
                    used = used + k;
                }
                tags.push(next);
                assert(tag_values(tags@) =~= done + seq![next@]);
                rest = after;
            },
            Err(e) => {
                return shifted(e, input.len() - rest.len());
            },
        }
    }
}

} // verus!
