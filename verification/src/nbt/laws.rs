//! What holds of the format for every input: the laws that the readers inherit from the
//! grammar that they are specified against.

use crate::error::Error;
use crate::nbt::grammar::{
    be_i32, be_i8, be_u16, be_u32, be_u64, is_payload_id, lemma_tag_extent, parse_byte_array,
    parse_children, parse_compound, parse_double, parse_float, parse_int, parse_int_array,
    parse_items, parse_list, parse_long, parse_long_array, parse_payload, parse_short, parse_string,
    parse_tag, parse_text, Parsed,
};
use crate::nbt::types::{
    distinct_names, has_name, index_of_name, name_of, put, settle, PayloadValue, TagValue,
};
use vstd::prelude::*;
use vstd::utf8::{decode_utf8_encode_utf8, encode_utf8, valid_utf8};

verus! {

/// The unsigned number that holds the signed number `v` in two's complement below `modulus`.
pub open spec fn unsigned_of(v: int, modulus: int) -> int {
    if v < 0 {
        v + modulus
    } else {
        v
    }
}

/// The two big-endian bytes of the unsigned number `u`.
pub open spec fn be_bytes_u16(u: int) -> Seq<u8> {
    seq![(u / 0x100) as u8, (u % 0x100) as u8]
}

/// The four big-endian bytes of the unsigned number `u`.
pub open spec fn be_bytes_u32(u: int) -> Seq<u8> {
    be_bytes_u16(u / 0x1_0000) + be_bytes_u16(u % 0x1_0000)
}

/// The eight big-endian bytes of the unsigned number `u`.
pub open spec fn be_bytes_u64(u: int) -> Seq<u8> {
    be_bytes_u32(u / 0x1_0000_0000) + be_bytes_u32(u % 0x1_0000_0000)
}

/// Big-endian bytes are as many as the width of the number.
pub proof fn law_be_bytes_len(u: int)
    ensures
        be_bytes_u16(u).len() == 2,
        be_bytes_u32(u).len() == 4,
        be_bytes_u64(u).len() == 8,
{
    assert(be_bytes_u32(u / 0x1_0000_0000).len() == 4);
    assert(be_bytes_u32(u % 0x1_0000_0000).len() == 4);
}

/// Reading two big-endian bytes gives back the number that they were written from.
pub proof fn law_be_u16_round_trip(u: int, rest: Seq<u8>)
    requires
        0 <= u < 0x1_0000,
    ensures
        be_u16(be_bytes_u16(u) + rest) == u,
{
}

/// Reading four big-endian bytes gives back the number that they were written from.
pub proof fn law_be_u32_round_trip(u: int, rest: Seq<u8>)
    requires
        0 <= u < 0x1_0000_0000,
    ensures
        be_u32(be_bytes_u32(u) + rest) == u,
{
    let s = be_bytes_u32(u) + rest;
    let low = be_bytes_u16(u % 0x1_0000) + rest;
    assert(s =~= be_bytes_u16(u / 0x1_0000) + low);
    assert(s.skip(2) =~= low);
    law_be_u16_round_trip(u / 0x1_0000, low);
    law_be_u16_round_trip(u % 0x1_0000, rest);
}

/// Reading eight big-endian bytes gives back the number that they were written from.
pub proof fn law_be_u64_round_trip(u: int, rest: Seq<u8>)
    requires
        0 <= u < 0x1_0000_0000_0000_0000,
    ensures
        be_u64(be_bytes_u64(u) + rest) == u,
{
    let s = be_bytes_u64(u) + rest;
    let low = be_bytes_u32(u % 0x1_0000_0000) + rest;
    assert(s =~= be_bytes_u32(u / 0x1_0000_0000) + low);
    assert(s.skip(4) =~= low);
    law_be_u32_round_trip(u / 0x1_0000_0000, low);
    law_be_u32_round_trip(u % 0x1_0000_0000, rest);
}

/// A byte that was written in two's complement is read back as the same number, whatever
/// follows it.
pub proof fn law_byte_round_trip(v: i8, rest: Seq<u8>)
    ensures
        parse_payload(1, seq![unsigned_of(v as int, 0x100) as u8] + rest) == Parsed::Done(
            PayloadValue::Byte(v),
            1,
        ),
{
}

/// A short that was written big-endian in two's complement is read back as the same number,
/// whatever follows it.
pub proof fn law_short_round_trip(v: i16, rest: Seq<u8>)
    ensures
        parse_payload(2, be_bytes_u16(unsigned_of(v as int, 0x1_0000)) + rest) == Parsed::Done(
            PayloadValue::Short(v),
            2,
        ),
{
    let u = unsigned_of(v as int, 0x1_0000);
    law_be_u16_round_trip(u, rest);
    law_be_bytes_len(u);
    assert(parse_short(be_bytes_u16(u) + rest) == Parsed::Done(PayloadValue::Short(v), 2));
}

/// An int that was written big-endian in two's complement is read back as the same number,
/// whatever follows it.
pub proof fn law_int_round_trip(v: i32, rest: Seq<u8>)
    ensures
        parse_payload(3, be_bytes_u32(unsigned_of(v as int, 0x1_0000_0000)) + rest)
            == Parsed::Done(PayloadValue::Int(v), 4),
{
    let u = unsigned_of(v as int, 0x1_0000_0000);
    law_be_u32_round_trip(u, rest);
    law_be_bytes_len(u);
    assert(parse_int(be_bytes_u32(u) + rest) == Parsed::Done(PayloadValue::Int(v), 4));
}

/// A long that was written big-endian in two's complement is read back as the same number,
/// whatever follows it.
pub proof fn law_long_round_trip(v: i64, rest: Seq<u8>)
    ensures
        parse_payload(4, be_bytes_u64(unsigned_of(v as int, 0x1_0000_0000_0000_0000)) + rest)
            == Parsed::Done(PayloadValue::Long(v), 8),
{
    let u = unsigned_of(v as int, 0x1_0000_0000_0000_0000);
    law_be_u64_round_trip(u, rest);
    law_be_bytes_len(u);
    assert(parse_long(be_bytes_u64(u) + rest) == Parsed::Done(PayloadValue::Long(v), 8));
}

/// A 32-bit float whose bit pattern was written big-endian is read back with the same bits,
/// whatever follows it.
pub proof fn law_float_round_trip(bits: u32, rest: Seq<u8>)
    ensures
        parse_payload(5, be_bytes_u32(bits as int) + rest) == Parsed::Done(
            PayloadValue::Float(bits),
            4,
        ),
{
    law_be_u32_round_trip(bits as int, rest);
    law_be_bytes_len(bits as int);
    assert(parse_float(be_bytes_u32(bits as int) + rest) == Parsed::Done(
        PayloadValue::Float(bits),
        4,
    ));
}

/// A 64-bit float whose bit pattern was written big-endian is read back with the same bits,
/// whatever follows it.
pub proof fn law_double_round_trip(bits: u64, rest: Seq<u8>)
    ensures
        parse_payload(6, be_bytes_u64(bits as int) + rest) == Parsed::Done(
            PayloadValue::Double(bits),
            8,
        ),
{
    law_be_u64_round_trip(bits as int, rest);
    law_be_bytes_len(bits as int);
    assert(parse_double(be_bytes_u64(bits as int) + rest) == Parsed::Done(
        PayloadValue::Double(bits),
        8,
    ));
}

/// A byte array that declares `n` bytes is read as `n` bytes from `4 + n` bytes where they
/// are there, and fails with `UnexpectedEnd` where they are not.
pub proof fn law_byte_array_length(s: Seq<u8>)
    requires
        s.len() >= 4,
        be_i32(s) >= 0,
    ensures
        s.len() - 4 >= be_i32(s) ==> (parse_byte_array(s) matches Parsed::Done(
            PayloadValue::ByteArray(items),
            used,
        ) && items.len() == be_i32(s) && used == 4 + be_i32(s)),
        s.len() - 4 < be_i32(s) ==> parse_byte_array(s) == Parsed::<PayloadValue>::Fail(
            Error::UnexpectedEnd,
            4,
        ),
{
}

/// An int array that declares `n` elements is read as `n` elements from `4 + 4 * n` bytes
/// where they are there, and fails with `UnexpectedEnd` where they are not.
pub proof fn law_int_array_length(s: Seq<u8>)
    requires
        s.len() >= 4,
        be_i32(s) >= 0,
    ensures
        s.len() - 4 >= 4 * be_i32(s) ==> (parse_int_array(s) matches Parsed::Done(
            PayloadValue::IntArray(items),
            used,
        ) && items.len() == be_i32(s) && used == 4 + 4 * be_i32(s)),
        s.len() - 4 < 4 * be_i32(s) ==> parse_int_array(s) == Parsed::<PayloadValue>::Fail(
            Error::UnexpectedEnd,
            4,
        ),
{
}

/// A long array that declares `n` elements is read as `n` elements from `4 + 8 * n` bytes
/// where they are there, and fails with `UnexpectedEnd` where they are not.
pub proof fn law_long_array_length(s: Seq<u8>)
    requires
        s.len() >= 4,
        be_i32(s) >= 0,
    ensures
        s.len() - 4 >= 8 * be_i32(s) ==> (parse_long_array(s) matches Parsed::Done(
            PayloadValue::LongArray(items),
            used,
        ) && items.len() == be_i32(s) && used == 4 + 8 * be_i32(s)),
        s.len() - 4 < 8 * be_i32(s) ==> parse_long_array(s) == Parsed::<PayloadValue>::Fail(
            Error::UnexpectedEnd,
            4,
        ),
{
}

/// A string that declares `n` bytes is read from `2 + n` bytes where they are there and are
/// UTF-8, and its text is the text that those `n` bytes encode; it fails with `UnexpectedEnd`
/// where they are not there.
pub proof fn law_string_length(s: Seq<u8>)
    requires
        s.len() >= 2,
    ensures
        s.len() - 2 >= be_u16(s) && valid_utf8(s.subrange(2, 2 + be_u16(s))) ==> (parse_string(
            s,
        ) matches Parsed::Done(PayloadValue::String(text), used) && encode_utf8(text)
            == s.subrange(2, 2 + be_u16(s)) && used == 2 + be_u16(s)),
        s.len() - 2 < be_u16(s) ==> parse_string(s) == Parsed::<PayloadValue>::Fail(
            Error::UnexpectedEnd,
            2,
        ),
{
    if s.len() - 2 >= be_u16(s) && valid_utf8(s.subrange(2, 2 + be_u16(s))) {
        decode_utf8_encode_utf8(s.subrange(2, 2 + be_u16(s)));
    }
}

/// A payload that was read as kind `id` is of kind `id`.
pub proof fn law_payload_kind(id: i8, s: Seq<u8>)
    ensures
        parse_payload(id, s) matches Parsed::Done(value, _) ==> value.kind().raw_value() == id,
{
}

/// The payloads that were read as `n` items of kind `id` are `n` payloads of kind `id`.
pub proof fn law_items_uniform(id: i8, s: Seq<u8>, n: nat)
    ensures
        parse_items(id, s, n) matches Parsed::Done(items, _) ==> items.len() == n && forall|
            i: int,
        |
            0 <= i < n ==> (#[trigger] items[i]).kind().raw_value() == id,
    decreases n,
{
    if n > 0 {
        law_payload_kind(id, s);
        if let Parsed::Done(first, used) = parse_payload(id, s) {
            if 0 <= used <= s.len() {
                law_items_uniform(id, s.skip(used), (n - 1) as nat);
            }
        }
    }
}

/// A list that declares the element kind `E` and a count `n` above zero is read as `n`
/// elements, each of kind `E`.
pub proof fn law_list_uniform(s: Seq<u8>)
    requires
        s.len() >= 5,
        be_i32(s.skip(1)) > 0,
    ensures
        parse_list(s) matches Parsed::Done(PayloadValue::List(items), _) ==> items.len()
            == be_i32(s.skip(1)) && forall|i: int|
            0 <= i < items.len() ==> (#[trigger] items[i]).kind().raw_value() == be_i8(s),
{
    law_items_uniform(be_i8(s) as i8, s.skip(5), be_i32(s.skip(1)) as nat);
}

/// A list that declares a count of zero or less is the empty list, and occupies the five
/// bytes of its header and no more.
pub proof fn law_list_without_elements(s: Seq<u8>)
    requires
        s.len() >= 5,
        be_i32(s.skip(1)) <= 0,
    ensures
        parse_list(s) == Parsed::Done(PayloadValue::List(Seq::empty()), 5),
{
}

/// A byte that is no type identifier is no tag: the failure is `InvalidTagId` with that byte,
/// found after that one byte.
pub proof fn law_invalid_tag_id(s: Seq<u8>)
    requires
        s.len() >= 1,
        be_i8(s) != 0,
        !is_payload_id(be_i8(s) as i8),
    ensures
        parse_tag(s) == Parsed::<TagValue>::Fail(Error::InvalidTagId(be_i8(s) as i8), 1),
{
}

/// Where child `i` begins, when `ends` holds where each child ends.
pub open spec fn start_of(ends: Seq<int>, i: int) -> int {
    if i <= 0 {
        0
    } else {
        ends[i - 1]
    }
}

/// Whether `tags` are named tags that stand end to end at the front of `s`, child `i` ending
/// at `ends[i]`.
pub open spec fn children_at(s: Seq<u8>, tags: Seq<TagValue>, ends: Seq<int>) -> bool {
    &&& ends.len() == tags.len()
    &&& forall|i: int|
        0 <= i < tags.len() ==> 0 <= start_of(ends, i) <= s.len() && tags[i] is Tag
            && #[trigger] parse_tag(s.skip(start_of(ends, i))) == Parsed::Done(
            tags[i],
            ends[i] - start_of(ends, i),
        )
}

proof fn lemma_children_from(s: Seq<u8>, tags: Seq<TagValue>, ends: Seq<int>, k: int)
    requires
        children_at(s, tags, ends),
        0 <= k <= tags.len(),
        0 <= start_of(ends, tags.len() as int) < s.len(),
        s[start_of(ends, tags.len() as int)] == 0,
    ensures
        0 <= start_of(ends, k) <= s.len(),
        parse_children(s.skip(start_of(ends, k))) == Parsed::Done(
            tags.skip(k),
            start_of(ends, tags.len() as int) + 1 - start_of(ends, k),
        ),
    decreases tags.len() - k,
{
    let n = tags.len() as int;
    let at = start_of(ends, k);
    if k == n {
        assert(s.skip(at)[0] == 0);
        assert(tags.skip(k) =~= Seq::empty());
    } else {
        assert(parse_tag(s.skip(start_of(ends, k))) == Parsed::Done(tags[k], ends[k] - at));
        lemma_tag_extent(s.skip(at));
        lemma_children_from(s, tags, ends, k + 1);
        assert(s.skip(at).skip(ends[k] - at) =~= s.skip(ends[k]));
        assert(seq![tags[k]] + tags.skip(k + 1) =~= tags.skip(k));
    }
}

/// Putting a tag whose name no entry has adds it at the end; entries with distinct names
/// stay as they were read.
pub proof fn law_settle_distinct(tags: Seq<TagValue>)
    requires
        distinct_names(tags),
    ensures
        settle(tags) == tags,
    decreases tags.len(),
{
    if tags.len() > 0 {
        let front = tags.drop_last();
        law_settle_distinct(front);
        assert(!has_name(front, name_of(tags.last()))) by {
            if has_name(front, name_of(tags.last())) {
                let i = choose|i: int|
                    0 <= i < front.len() && name_of(#[trigger] front[i]) == name_of(tags.last());
                assert(name_of(tags[i]) != name_of(tags[tags.len() - 1]));
            }
        }
        assert(front.push(tags.last()) =~= tags);
    } else {
        assert(tags =~= Seq::empty());
    }
}

/// A compound of `k` named children that are followed by the byte 0 is read up to and with
/// that byte and no further. Its children are the `k` tags in their order; where their names
/// differ, they are its `k` entries.
pub proof fn law_compound_termination(s: Seq<u8>, tags: Seq<TagValue>, ends: Seq<int>)
    requires
        children_at(s, tags, ends),
        0 <= start_of(ends, tags.len() as int) < s.len(),
        s[start_of(ends, tags.len() as int)] == 0,
    ensures
        parse_children(s) == Parsed::Done(tags, start_of(ends, tags.len() as int) + 1),
        distinct_names(tags) ==> parse_compound(s) == Parsed::Done(
            PayloadValue::Compound(tags),
            start_of(ends, tags.len() as int) + 1,
        ),
{
    lemma_children_from(s, tags, ends, 0);
    assert(s.skip(0) =~= s);
    assert(tags.skip(0) =~= tags);
    if distinct_names(tags) {
        law_settle_distinct(tags);
    }
}

/// Putting a tag keeps the names of the entries distinct.
pub proof fn law_put_distinct(entries: Seq<TagValue>, tag: TagValue)
    requires
        distinct_names(entries),
    ensures
        distinct_names(put(entries, tag)),
        has_name(put(entries, tag), name_of(tag)),
{
    let name = name_of(tag);
    let after = put(entries, tag);
    if has_name(entries, name) {
        let k = index_of_name(entries, name);
        assert(after[k] == tag);
        assert forall|i: int, j: int| 0 <= i < j < after.len() implies name_of(
            #[trigger] after[i],
        ) != name_of(#[trigger] after[j]) by {
            assert(name_of(entries[i]) != name_of(entries[j]));
            assert(name_of(after[i]) == name_of(entries[i]));
            assert(name_of(after[j]) == name_of(entries[j]));
        }
    } else {
        assert(after[entries.len() as int] == tag);
        assert forall|i: int, j: int| 0 <= i < j < after.len() implies name_of(
            #[trigger] after[i],
        ) != name_of(#[trigger] after[j]) by {
            if j < entries.len() {
                assert(name_of(entries[i]) != name_of(entries[j]));
            } else {
                assert(after[i] == entries[i]);
            }
        }
    }
}

/// No two entries of a compound share a name, however its children were named.
pub proof fn law_settle_names(tags: Seq<TagValue>)
    ensures
        distinct_names(settle(tags)),
    decreases tags.len(),
{
    if tags.len() > 0 {
        law_settle_names(tags.drop_last());
        law_put_distinct(settle(tags.drop_last()), tags.last());
    }
}

/// No two entries of a compound that was read share a name.
pub proof fn law_compound_names(s: Seq<u8>)
    ensures
        parse_compound(s) matches Parsed::Done(PayloadValue::Compound(entries), _)
            ==> distinct_names(entries),
{
    if let Parsed::Done(tags, _) = parse_children(s) {
        law_settle_names(tags);
    }
}

/// Every entry of a compound is one of the children that were read for it.
pub proof fn law_settle_members(tags: Seq<TagValue>)
    ensures
        forall|i: int|
            0 <= i < settle(tags).len() ==> tags.contains(#[trigger] settle(tags)[i]),
    decreases tags.len(),
{
    if tags.len() > 0 {
        let front = tags.drop_last();
        let before = settle(front);
        let after = settle(tags);
        law_settle_members(front);
        law_settle_names(front);
        law_put_distinct(before, tags.last());
        assert forall|i: int| 0 <= i < after.len() implies tags.contains(#[trigger] after[i]) by {
            if after[i] == tags.last() {
                assert(tags[tags.len() - 1] == after[i]);
            } else {
                assert(0 <= i < before.len() && after[i] == before[i]);
                assert(front.contains(before[i]));
                let j = choose|j: int| 0 <= j < front.len() && front[j] == before[i];
                assert(tags[j] == after[i]);
            }
        }
    }
}

/// A payload that was read is well formed.
pub proof fn law_payload_well_formed(id: i8, s: Seq<u8>)
    ensures
        parse_payload(id, s) matches Parsed::Done(value, _) ==> value.well_formed(),
    decreases s.len(), 2int, 0int,
{
    if id == 9 {
        if s.len() >= 5 && be_i32(s.skip(1)) > 0 {
            let kind = be_i8(s) as i8;
            let n = be_i32(s.skip(1)) as nat;
            law_items_well_formed(kind, s.skip(5), n);
            law_items_uniform(kind, s.skip(5), n);
        }
    } else if id == 10 {
        if let Parsed::Done(tags, _) = parse_children(s) {
            law_children_well_formed(s);
            law_settle_members(tags);
            law_settle_names(tags);
            let entries = settle(tags);
            assert forall|i: int| 0 <= i < entries.len() implies entries[i] is Tag && (
            #[trigger] entries[i]).well_formed() by {
                assert(tags.contains(entries[i]));
                let j = choose|j: int| 0 <= j < tags.len() && tags[j] == entries[i];
                assert(tags[j].well_formed());
            }
        }
    }
}

/// The payloads that were read as the elements of a list are well formed.
pub proof fn law_items_well_formed(id: i8, s: Seq<u8>, n: nat)
    ensures
        parse_items(id, s, n) matches Parsed::Done(items, _) ==> forall|i: int|
            0 <= i < items.len() ==> (#[trigger] items[i]).well_formed(),
    decreases s.len(), 3int, n,
{
    if n > 0 {
        law_payload_well_formed(id, s);
        if let Parsed::Done(first, used) = parse_payload(id, s) {
            if 0 <= used <= s.len() {
                law_items_well_formed(id, s.skip(used), (n - 1) as nat);
            }
        }
    }
}

/// The children that were read for a compound are named tags, and well formed.
pub proof fn law_children_well_formed(s: Seq<u8>)
    ensures
        parse_children(s) matches Parsed::Done(tags, _) ==> forall|i: int|
            0 <= i < tags.len() ==> tags[i] is Tag && (#[trigger] tags[i]).well_formed(),
    decreases s.len(), 0int, 2int,
{
    law_tag_well_formed(s);
    match parse_tag(s) {
        Parsed::Done(TagValue::End, _) => {},
        Parsed::Done(_, used) => {
            if 0 < used <= s.len() {
                law_children_well_formed(s.skip(used));
            }
        },
        Parsed::Fail(_, _) => {},
    }
}

/// A tag that was read is well formed: at every depth below it, the elements of each list
/// are of one kind, and no two entries of a compound share a name.
pub proof fn law_tag_well_formed(s: Seq<u8>)
    ensures
        parse_tag(s) matches Parsed::Done(tag, _) ==> tag.well_formed(),
    decreases s.len(), 0int, 1int,
{
    if s.len() >= 1 && is_payload_id(be_i8(s) as i8) {
        if let Parsed::Done(_, used) = parse_text(s.skip(1)) {
            law_payload_well_formed(be_i8(s) as i8, s.skip(1).skip(used));
        }
    }
}

} // verus!
