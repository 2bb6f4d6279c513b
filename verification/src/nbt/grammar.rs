//! The byte format, stated over sequences of bytes.
//!
//! Every reader of the crate is specified against the functions of this module: each says which
//! value stands at the front of a byte sequence and how many bytes it occupies, or why no value
//! can be read there.

use crate::error::Error;
use crate::nbt::types::{settle, PayloadValue, TagValue};
use vstd::prelude::*;
use vstd::utf8::{decode_utf8, valid_utf8};

verus! {

/// What stands at the front of a byte sequence.
pub enum Parsed<T> {
    /// A value, and the number of bytes that it occupies.
    Done(T, int),
    /// No value: the reason, and the number of bytes that were consumed before it was found.
    Fail(Error, int),
}

/// The unsigned number whose big-endian digits are the first two bytes of `s`.
pub open spec fn be_u16(s: Seq<u8>) -> int
    recommends
        s.len() >= 2,
{
    s[0] as int * 0x100 + s[1] as int
}

/// The unsigned number whose big-endian digits are the first four bytes of `s`.
pub open spec fn be_u32(s: Seq<u8>) -> int
    recommends
        s.len() >= 4,
{
    be_u16(s) * 0x1_0000 + be_u16(s.skip(2))
}

/// The unsigned number whose big-endian digits are the first eight bytes of `s`.
pub open spec fn be_u64(s: Seq<u8>) -> int
    recommends
        s.len() >= 8,
{
    be_u32(s) * 0x1_0000_0000 + be_u32(s.skip(4))
}

/// The two's-complement reading of the unsigned number `v` below `modulus`.
pub open spec fn twos_complement(v: int, modulus: int) -> int {
    if 2 * v < modulus {
        v
    } else {
        v - modulus
    }
}

/// The signed number held by the first byte of `s`.
pub open spec fn be_i8(s: Seq<u8>) -> int
    recommends
        s.len() >= 1,
{
    twos_complement(s[0] as int, 0x100)
}

/// The signed number held big-endian by the first two bytes of `s`.
pub open spec fn be_i16(s: Seq<u8>) -> int
    recommends
        s.len() >= 2,
{
    twos_complement(be_u16(s), 0x1_0000)
}

/// The signed number held big-endian by the first four bytes of `s`.
pub open spec fn be_i32(s: Seq<u8>) -> int
    recommends
        s.len() >= 4,
{
    twos_complement(be_u32(s), 0x1_0000_0000)
}

/// The signed number held big-endian by the first eight bytes of `s`.
pub open spec fn be_i64(s: Seq<u8>) -> int
    recommends
        s.len() >= 8,
{
    twos_complement(be_u64(s), 0x1_0000_0000_0000_0000)
}

/// The `n` signed 32-bit numbers held big-endian by the first `4 * n` bytes of `s`.
pub open spec fn be_i32_seq(s: Seq<u8>, n: nat) -> Seq<i32>
    recommends
        s.len() >= 4 * n,
{
    Seq::new(n, |i: int| be_i32(s.skip(4 * i)) as i32)
}

/// The `n` signed 64-bit numbers held big-endian by the first `8 * n` bytes of `s`.
pub open spec fn be_i64_seq(s: Seq<u8>, n: nat) -> Seq<i64>
    recommends
        s.len() >= 8 * n,
{
    Seq::new(n, |i: int| be_i64(s.skip(8 * i)) as i64)
}

/// A text field: a 16-bit unsigned byte count, then that many bytes of UTF-8.
pub open spec fn parse_text(s: Seq<u8>) -> Parsed<Seq<char>> {
    if s.len() < 2 {
        Parsed::Fail(Error::UnexpectedEnd, 0)
    } else if s.len() - 2 < be_u16(s) {
        Parsed::Fail(Error::UnexpectedEnd, 2)
    } else if !valid_utf8(s.subrange(2, 2 + be_u16(s))) {
        Parsed::Fail(Error::InvalidText, 2 + be_u16(s))
    } else {
        Parsed::Done(decode_utf8(s.subrange(2, 2 + be_u16(s))), 2 + be_u16(s))
    }
}

/// A byte: one byte in two's complement.
pub open spec fn parse_byte(s: Seq<u8>) -> Parsed<PayloadValue> {
    if s.len() < 1 {
        Parsed::Fail(Error::UnexpectedEnd, 0)
    } else {
        Parsed::Done(PayloadValue::Byte(be_i8(s) as i8), 1)
    }
}

/// A short: two bytes, big-endian, in two's complement.
pub open spec fn parse_short(s: Seq<u8>) -> Parsed<PayloadValue> {
    if s.len() < 2 {
        Parsed::Fail(Error::UnexpectedEnd, 0)
    } else {
        Parsed::Done(PayloadValue::Short(be_i16(s) as i16), 2)
    }
}

/// An int: four bytes, big-endian, in two's complement.
pub open spec fn parse_int(s: Seq<u8>) -> Parsed<PayloadValue> {
    if s.len() < 4 {
        Parsed::Fail(Error::UnexpectedEnd, 0)
    } else {
        Parsed::Done(PayloadValue::Int(be_i32(s) as i32), 4)
    }
}

/// A long: eight bytes, big-endian, in two's complement.
pub open spec fn parse_long(s: Seq<u8>) -> Parsed<PayloadValue> {
    if s.len() < 8 {
        Parsed::Fail(Error::UnexpectedEnd, 0)
    } else {
        Parsed::Done(PayloadValue::Long(be_i64(s) as i64), 8)
    }
}

/// A 32-bit float: its four bytes, big-endian, are the bit pattern.
pub open spec fn parse_float(s: Seq<u8>) -> Parsed<PayloadValue> {
    if s.len() < 4 {
        Parsed::Fail(Error::UnexpectedEnd, 0)
    } else {
        Parsed::Done(PayloadValue::Float(be_u32(s) as u32), 4)
    }
}

/// A 64-bit float: its eight bytes, big-endian, are the bit pattern.
pub open spec fn parse_double(s: Seq<u8>) -> Parsed<PayloadValue> {
    if s.len() < 8 {
        Parsed::Fail(Error::UnexpectedEnd, 0)
    } else {
        Parsed::Done(PayloadValue::Double(be_u64(s) as u64), 8)
    }
}

/// The header of an array: a signed 32-bit count of elements that are `width` bytes each.
/// `Done` holds the count; the bytes of all the elements are known to be present.
pub open spec fn parse_count(s: Seq<u8>, width: int) -> Parsed<int> {
    if s.len() < 4 {
        Parsed::Fail(Error::UnexpectedEnd, 0)
    } else if be_i32(s) < 0 {
        Parsed::Fail(Error::NegativeLength, 4)
    } else if s.len() - 4 < width * be_i32(s) {
        Parsed::Fail(Error::UnexpectedEnd, 4)
    } else {
        Parsed::Done(be_i32(s), 4)
    }
}

/// A byte array: the count, then that many bytes.
pub open spec fn parse_byte_array(s: Seq<u8>) -> Parsed<PayloadValue> {
    match parse_count(s, 1) {
        Parsed::Done(n, _) => Parsed::Done(PayloadValue::ByteArray(s.subrange(4, 4 + n)), 4 + n),
        Parsed::Fail(e, at) => Parsed::Fail(e, at),
    }
}

/// An int array: the count, then that many ints.
pub open spec fn parse_int_array(s: Seq<u8>) -> Parsed<PayloadValue> {
    match parse_count(s, 4) {
        Parsed::Done(n, _) => Parsed::Done(
            PayloadValue::IntArray(be_i32_seq(s.skip(4), n as nat)),
            4 + 4 * n,
        ),
        Parsed::Fail(e, at) => Parsed::Fail(e, at),
    }
}

/// A long array: the count, then that many longs.
pub open spec fn parse_long_array(s: Seq<u8>) -> Parsed<PayloadValue> {
    match parse_count(s, 8) {
        Parsed::Done(n, _) => Parsed::Done(
            PayloadValue::LongArray(be_i64_seq(s.skip(4), n as nat)),
            4 + 8 * n,
        ),
        Parsed::Fail(e, at) => Parsed::Fail(e, at),
    }
}

/// A string: a text field.
pub open spec fn parse_string(s: Seq<u8>) -> Parsed<PayloadValue> {
    match parse_text(s) {
        Parsed::Done(text, used) => Parsed::Done(PayloadValue::String(text), used),
        Parsed::Fail(e, at) => Parsed::Fail(e, at),
    }
}

/// Whether `id` names a kind of payload.
pub open spec fn is_payload_id(id: i8) -> bool {
    1 <= id <= 12
}

/// The payload of kind `id` at the front of `s`.
///
/// The readers from here on call each other. Each call either has fewer bytes before it or,
/// with the same bytes, goes to a reader of lower rank: the measure of each is the number of
/// bytes, then its rank.
pub open spec fn parse_payload(id: i8, s: Seq<u8>) -> Parsed<PayloadValue>
    decreases s.len(), 2int, 0int,
{
    if id == 1 {
        parse_byte(s)
    } else if id == 2 {
        parse_short(s)
    } else if id == 3 {
        parse_int(s)
    } else if id == 4 {
        parse_long(s)
    } else if id == 5 {
        parse_float(s)
    } else if id == 6 {
        parse_double(s)
    } else if id == 7 {
        parse_byte_array(s)
    } else if id == 8 {
        parse_string(s)
    } else if id == 9 {
        parse_list(s)
    } else if id == 10 {
        parse_compound(s)
    } else if id == 11 {
        parse_int_array(s)
    } else if id == 12 {
        parse_long_array(s)
    } else {
        Parsed::Fail(Error::InvalidTagId(id), 0)
    }
}

/// A list: the kind of its elements, a signed 32-bit count, then the elements, each read as
/// that one kind. A count of zero or less is the empty list, whatever the kind.
pub open spec fn parse_list(s: Seq<u8>) -> Parsed<PayloadValue>
    decreases s.len(), 1int, 0int,
{
    if s.len() < 1 {
        Parsed::Fail(Error::UnexpectedEnd, 0)
    } else if s.len() < 5 {
        Parsed::Fail(Error::UnexpectedEnd, 1)
    } else if be_i32(s.skip(1)) <= 0 {
        Parsed::Done(PayloadValue::List(Seq::empty()), 5)
    } else {
        match parse_items(be_i8(s) as i8, s.skip(5), be_i32(s.skip(1)) as nat) {
            Parsed::Done(items, used) => Parsed::Done(PayloadValue::List(items), 5 + used),
            Parsed::Fail(e, at) => Parsed::Fail(e, 5 + at),
        }
    }
}

/// `n` payloads of kind `id`, one after the other.
///
/// That a payload occupies no more bytes than there are always holds (`lemma_payload_extent`);
/// it is asked here so that the recursion is seen to end.
pub open spec fn parse_items(id: i8, s: Seq<u8>, n: nat) -> Parsed<Seq<PayloadValue>>
    decreases s.len(), 3int, n,
{
    if n == 0 {
        Parsed::Done(Seq::empty(), 0)
    } else {
        match parse_payload(id, s) {
            Parsed::Fail(e, at) => Parsed::Fail(e, at),
            Parsed::Done(first, used) => if 0 <= used <= s.len() {
                match parse_items(id, s.skip(used), (n - 1) as nat) {
                    Parsed::Done(others, more) => Parsed::Done(seq![first] + others, used + more),
                    Parsed::Fail(e, at) => Parsed::Fail(e, used + at),
                }
            } else {
                Parsed::Fail(Error::UnexpectedEnd, 0)
            },
        }
    }
}

/// A compound: its children, up to and including the end marker.
pub open spec fn parse_compound(s: Seq<u8>) -> Parsed<PayloadValue>
    decreases s.len(), 1int, 0int,
{
    match parse_children(s) {
        Parsed::Done(tags, used) => Parsed::Done(PayloadValue::Compound(settle(tags)), used),
        Parsed::Fail(e, at) => Parsed::Fail(e, at),
    }
}

/// The named tags that stand before the first end marker, in their order. The bytes that they
/// occupy include the end marker.
///
/// That a tag occupies at least one byte and no more than there are always holds
/// (`lemma_tag_extent`); it is asked here so that the recursion is seen to end.
pub open spec fn parse_children(s: Seq<u8>) -> Parsed<Seq<TagValue>>
    decreases s.len(), 0int, 2int,
{
    match parse_tag(s) {
        Parsed::Fail(e, at) => Parsed::Fail(e, at),
        Parsed::Done(TagValue::End, used) => Parsed::Done(Seq::empty(), used),
        Parsed::Done(first, used) => if 0 < used <= s.len() {
            match parse_children(s.skip(used)) {
                Parsed::Done(others, more) => Parsed::Done(seq![first] + others, used + more),
                Parsed::Fail(e, at) => Parsed::Fail(e, used + at),
            }
        } else {
            Parsed::Fail(Error::UnexpectedEnd, 0)
        },
    }
}

/// A tag of kind `id` after its identifier: the name, then the payload.
pub open spec fn parse_named(id: i8, s: Seq<u8>) -> Parsed<TagValue>
    decreases s.len(), 4int, 0int,
{
    match parse_text(s) {
        Parsed::Fail(e, at) => Parsed::Fail(e, at),
        Parsed::Done(name, used) => match parse_payload(id, s.skip(used)) {
            Parsed::Done(payload, more) => Parsed::Done(TagValue::Tag(name, payload), used + more),
            Parsed::Fail(e, at) => Parsed::Fail(e, used + at),
        },
    }
}

/// A named tag: the identifier of a payload, then the name and the payload. Any other byte,
/// that of the end marker too, is no named tag.
pub open spec fn parse_child(s: Seq<u8>) -> Parsed<TagValue>
    decreases s.len(), 0int, 0int,
{
    if s.len() < 1 {
        Parsed::Fail(Error::UnexpectedEnd, 0)
    } else if !is_payload_id(be_i8(s) as i8) {
        Parsed::Fail(Error::InvalidTagId(be_i8(s) as i8), 1)
    } else {
        parse_named(be_i8(s) as i8, s.skip(1)).shift(1)
    }
}

/// A tag: the byte 0 alone is the end marker; anything else is read as a named tag.
pub open spec fn parse_tag(s: Seq<u8>) -> Parsed<TagValue>
    decreases s.len(), 0int, 1int,
{
    if s.len() >= 1 && be_i8(s) == 0 {
        Parsed::Done(TagValue::End, 1)
    } else {
        parse_child(s)
    }
}

impl<T> Parsed<T> {
    /// The same outcome, counted from `n` bytes earlier.
    pub open spec fn shift(self, n: int) -> Parsed<T> {
        match self {
            Parsed::Done(value, used) => Parsed::Done(value, n + used),
            Parsed::Fail(e, at) => Parsed::Fail(e, n + at),
        }
    }

    /// Whether a value occupies between `least` and `len` bytes, and a failure is found after
    /// no more than `len` bytes.
    pub open spec fn within(self, least: int, len: int) -> bool {
        match self {
            Parsed::Done(_, used) => least <= used <= len,
            Parsed::Fail(_, at) => 0 <= at <= len,
        }
    }
}

impl<T> Parsed<Seq<T>> {
    /// The same outcome for the rest of a sequence, once `head` was read from `used` bytes.
    pub open spec fn after(self, head: Seq<T>, used: int) -> Parsed<Seq<T>> {
        match self {
            Parsed::Done(tail, more) => Parsed::Done(head + tail, used + more),
            Parsed::Fail(e, at) => Parsed::Fail(e, used + at),
        }
    }
}

/// Reading `b` and then the rest, after `a` was read, is reading the rest after `a` and `b`.
pub proof fn lemma_after_after<T>(p: Parsed<Seq<T>>, a: Seq<T>, n: int, b: Seq<T>, m: int)
    ensures
        p.after(b, m).after(a, n) == p.after(a + b, n + m),
{
    if let Parsed::Done(tail, _) = p {
        assert(a + (b + tail) =~= (a + b) + tail);
    }
}

/// A payload occupies at least one byte and no more than there are; a failure is found within
/// the bytes that there are.
pub proof fn lemma_payload_extent(id: i8, s: Seq<u8>)
    ensures
        parse_payload(id, s).within(1, s.len() as int),
    decreases s.len(), 2int, 0int,
{
    if id == 9 {
        lemma_list_extent(s);
    } else if id == 10 {
        lemma_compound_extent(s);
    }
}

/// A list occupies at least its five bytes of header.
pub proof fn lemma_list_extent(s: Seq<u8>)
    ensures
        parse_list(s).within(5, s.len() as int),
    decreases s.len(), 1int, 0int,
{
    if s.len() >= 5 && be_i32(s.skip(1)) > 0 {
        lemma_items_extent(be_i8(s) as i8, s.skip(5), be_i32(s.skip(1)) as nat);
    }
}

/// `n` payloads occupy at least `n` bytes.
pub proof fn lemma_items_extent(id: i8, s: Seq<u8>, n: nat)
    ensures
        parse_items(id, s, n).within(n as int, s.len() as int),
    decreases s.len(), 3int, n,
{
    if n > 0 {
        lemma_payload_extent(id, s);
        if let Parsed::Done(_, used) = parse_payload(id, s) {
            lemma_items_extent(id, s.skip(used), (n - 1) as nat);
        }
    }
}

/// A compound occupies at least the byte of its end marker.
pub proof fn lemma_compound_extent(s: Seq<u8>)
    ensures
        parse_compound(s).within(1, s.len() as int),
    decreases s.len(), 1int, 0int,
{
    lemma_children_extent(s);
}

/// The children of a compound occupy at least the byte of the end marker.
pub proof fn lemma_children_extent(s: Seq<u8>)
    ensures
        parse_children(s).within(1, s.len() as int),
    decreases s.len(), 0int, 2int,
{
    lemma_tag_extent(s);
    match parse_tag(s) {
        Parsed::Done(TagValue::End, _) => {},
        Parsed::Done(_, used) => {
            lemma_children_extent(s.skip(used));
        },
        Parsed::Fail(_, _) => {},
    }
}

/// A name and its payload occupy at least three bytes.
pub proof fn lemma_named_extent(id: i8, s: Seq<u8>)
    ensures
        parse_named(id, s).within(3, s.len() as int),
    decreases s.len(), 4int, 0int,
{
    if let Parsed::Done(_, used) = parse_text(s) {
        lemma_payload_extent(id, s.skip(used));
    }
}

/// A named tag occupies at least four bytes.
pub proof fn lemma_child_extent(s: Seq<u8>)
    ensures
        parse_child(s).within(4, s.len() as int),
    decreases s.len(), 0int, 0int,
{
    if s.len() >= 1 && is_payload_id(be_i8(s) as i8) {
        lemma_named_extent(be_i8(s) as i8, s.skip(1));
    }
}

/// A tag occupies at least one byte.
pub proof fn lemma_tag_extent(s: Seq<u8>)
    ensures
        parse_tag(s).within(1, s.len() as int),
    decreases s.len(), 0int, 1int,
{
    lemma_child_extent(s);
}

} // verus!
