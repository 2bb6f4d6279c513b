//! What is read at the front of a byte sequence depends on the bytes that it occupies and on
//! no byte behind them.

use crate::nbt::grammar::{
    be_i32, be_i32_seq, be_i64, be_i64_seq, be_i8, be_u16, be_u32, be_u64, lemma_child_extent,
    lemma_children_extent, lemma_items_extent, lemma_list_extent, lemma_payload_extent, parse_child,
    parse_children, parse_items, parse_payload, parse_tag, parse_text, Parsed,
};
use vstd::prelude::*;

verus! {

/// Whether `s` and `t` have the same first `n` bytes.
pub open spec fn same_front(s: Seq<u8>, t: Seq<u8>, n: int) -> bool {
    &&& 0 <= n <= s.len()
    &&& n <= t.len()
    &&& forall|i: int| 0 <= i < n ==> s[i] == t[i]
}

/// Sequences with the same front have the same front behind their first `k` bytes.
proof fn lemma_same_front_skip(s: Seq<u8>, t: Seq<u8>, n: int, k: int)
    requires
        same_front(s, t, n),
        0 <= k <= n,
    ensures
        same_front(s.skip(k), t.skip(k), n - k),
{
    assert forall|i: int| 0 <= i < n - k implies #[trigger] s.skip(k)[i] == t.skip(k)[i] by {
        assert(s[k + i] == t[k + i]);
    }
}

/// Big-endian numbers are the same where their bytes are.
proof fn lemma_be_same(s: Seq<u8>, t: Seq<u8>, n: int)
    requires
        same_front(s, t, n),
    ensures
        n >= 1 ==> be_i8(s) == be_i8(t),
        n >= 2 ==> be_u16(s) == be_u16(t),
        n >= 4 ==> be_u32(s) == be_u32(t) && be_i32(s) == be_i32(t),
        n >= 8 ==> be_u64(s) == be_u64(t) && be_i64(s) == be_i64(t),
{
    if n >= 1 {
        assert(s[0] == t[0]);
    }
    if n >= 2 {
        assert(s[1] == t[1]);
    }
    if n >= 4 {
        lemma_same_front_skip(s, t, n, 2);
        assert(s.skip(2)[0] == t.skip(2)[0]);
        assert(s.skip(2)[1] == t.skip(2)[1]);
        assert(be_u16(s.skip(2)) == be_u16(t.skip(2)));
    }
    if n >= 8 {
        lemma_same_front_skip(s, t, n, 4);
        let s4 = s.skip(4);
        let t4 = t.skip(4);
        assert(s4[0] == t4[0]);
        assert(s4[1] == t4[1]);
        lemma_same_front_skip(s4, t4, n - 4, 2);
        assert(s4.skip(2)[0] == t4.skip(2)[0]);
        assert(s4.skip(2)[1] == t4.skip(2)[1]);
        assert(be_u16(s4) == be_u16(t4));
        assert(be_u16(s4.skip(2)) == be_u16(t4.skip(2)));
        assert(be_u32(s4) == be_u32(t4));
    }
}

/// Text fields are the same where their bytes are.
proof fn lemma_text_frame(s: Seq<u8>, t: Seq<u8>)
    requires
        parse_text(s) matches Parsed::Done(_, used) && same_front(s, t, used),
    ensures
        parse_text(t) == parse_text(s),
{
    let n = be_u16(s);
    lemma_be_same(s, t, 2 + n);
    let a = s.subrange(2, 2 + n);
    let b = t.subrange(2, 2 + n);
    assert(a =~= b) by {
        assert forall|i: int| 0 <= i < n implies #[trigger] a[i] == b[i] by {
            assert(s[2 + i] == t[2 + i]);
        }
    }
}

/// Arrays of ints are the same where their bytes are.
proof fn lemma_i32_seq_frame(s: Seq<u8>, t: Seq<u8>, n: nat)
    requires
        same_front(s, t, 4 * n as int),
    ensures
        be_i32_seq(s, n) == be_i32_seq(t, n),
{
    assert forall|i: int| 0 <= i < n implies #[trigger] be_i32_seq(s, n)[i] == be_i32_seq(
        t,
        n,
    )[i] by {
        lemma_same_front_skip(s, t, 4 * n as int, 4 * i);
        lemma_be_same(s.skip(4 * i), t.skip(4 * i), 4 * n - 4 * i);
    }
    assert(be_i32_seq(s, n) =~= be_i32_seq(t, n));
}

/// Arrays of longs are the same where their bytes are.
proof fn lemma_i64_seq_frame(s: Seq<u8>, t: Seq<u8>, n: nat)
    requires
        same_front(s, t, 8 * n as int),
    ensures
        be_i64_seq(s, n) == be_i64_seq(t, n),
{
    assert forall|i: int| 0 <= i < n implies #[trigger] be_i64_seq(s, n)[i] == be_i64_seq(
        t,
        n,
    )[i] by {
        lemma_same_front_skip(s, t, 8 * n as int, 8 * i);
        lemma_be_same(s.skip(8 * i), t.skip(8 * i), 8 * n - 8 * i);
    }
    assert(be_i64_seq(s, n) =~= be_i64_seq(t, n));
}

/// A payload that stands at the front of `s` stands at the front of every sequence that begins
/// with the bytes that it occupies.
pub proof fn law_payload_frame(id: i8, s: Seq<u8>, t: Seq<u8>)
    requires
        parse_payload(id, s) matches Parsed::Done(_, used) && same_front(s, t, used),
    ensures
        parse_payload(id, t) == parse_payload(id, s),
    decreases s.len(), 2int, 0int,
{
    let used = parse_payload(id, s)->Done_1;
    lemma_payload_extent(id, s);
    lemma_be_same(s, t, used);
    if id == 7 {
        let n = be_i32(s);
        let a = s.subrange(4, 4 + n);
        let b = t.subrange(4, 4 + n);
        assert(a =~= b) by {
            assert forall|i: int| 0 <= i < n implies #[trigger] a[i] == b[i] by {
                assert(s[4 + i] == t[4 + i]);
            }
        }
    } else if id == 8 {
        lemma_text_frame(s, t);
    } else if id == 9 {
        let n = be_i32(s.skip(1));
        lemma_list_extent(s);
        lemma_same_front_skip(s, t, used, 1);
        lemma_be_same(s.skip(1), t.skip(1), used - 1);
        if n > 0 {
            lemma_same_front_skip(s, t, used, 5);
            law_items_frame(be_i8(s) as i8, s.skip(5), t.skip(5), n as nat);
        }
    } else if id == 10 {
        law_children_frame(s, t);
    } else if id == 11 {
        let n = be_i32(s);
        lemma_same_front_skip(s, t, used, 4);
        lemma_i32_seq_frame(s.skip(4), t.skip(4), n as nat);
    } else if id == 12 {
        let n = be_i32(s);
        lemma_same_front_skip(s, t, used, 4);
        lemma_i64_seq_frame(s.skip(4), t.skip(4), n as nat);
    }
}

/// The elements of a list that stand at the front of `s` stand at the front of every sequence
/// that begins with the bytes that they occupy.
pub proof fn law_items_frame(id: i8, s: Seq<u8>, t: Seq<u8>, n: nat)
    requires
        parse_items(id, s, n) matches Parsed::Done(_, used) && same_front(s, t, used),
    ensures
        parse_items(id, t, n) == parse_items(id, s, n),
    decreases s.len(), 3int, n,
{
    if n > 0 {
        let total = parse_items(id, s, n)->Done_1;
        let used = parse_payload(id, s)->Done_1;
        lemma_payload_extent(id, s);
        lemma_items_extent(id, s.skip(used), (n - 1) as nat);
        law_payload_frame(id, s, t);
        lemma_same_front_skip(s, t, total, used);
        law_items_frame(id, s.skip(used), t.skip(used), (n - 1) as nat);
    }
}

/// The children of a compound that stand at the front of `s`, with the end marker, stand at
/// the front of every sequence that begins with the bytes that they occupy.
pub proof fn law_children_frame(s: Seq<u8>, t: Seq<u8>)
    requires
        parse_children(s) matches Parsed::Done(_, used) && same_front(s, t, used),
    ensures
        parse_children(t) == parse_children(s),
    decreases s.len(), 0int, 2int,
{
    let total = parse_children(s)->Done_1;
    let used = parse_tag(s)->Done_1;
    lemma_child_extent(s);
    if parse_tag(s)->Done_0 is End {
        law_tag_frame(s, t);
    } else {
        lemma_children_extent(s.skip(used));
        law_tag_frame(s, t);
        lemma_same_front_skip(s, t, total, used);
        law_children_frame(s.skip(used), t.skip(used));
    }
}

/// A tag that stands at the front of `s` stands at the front of every sequence that begins
/// with the bytes that it occupies.
pub proof fn law_tag_frame(s: Seq<u8>, t: Seq<u8>)
    requires
        parse_tag(s) matches Parsed::Done(_, used) && same_front(s, t, used),
    ensures
        parse_tag(t) == parse_tag(s),
    decreases s.len(), 0int, 1int,
{
    let used = parse_tag(s)->Done_1;
    lemma_be_same(s, t, used);
    if be_i8(s) != 0 {
        law_child_frame(s, t);
    }
}

/// A named tag that stands at the front of `s` stands at the front of every sequence that
/// begins with the bytes that it occupies.
pub proof fn law_child_frame(s: Seq<u8>, t: Seq<u8>)
    requires
        parse_child(s) matches Parsed::Done(_, used) && same_front(s, t, used),
    ensures
        parse_child(t) == parse_child(s),
    decreases s.len(), 0int, 0int,
{
    let used = parse_child(s)->Done_1;
    let id = be_i8(s) as i8;
    lemma_child_extent(s);
    lemma_be_same(s, t, used);
    lemma_same_front_skip(s, t, used, 1);
    let s1 = s.skip(1);
    let t1 = t.skip(1);
    let name = parse_text(s1)->Done_1;
    lemma_payload_extent(id, s1.skip(name));
    assert(same_front(s1, t1, name));
    lemma_text_frame(s1, t1);
    lemma_same_front_skip(s1, t1, used - 1, name);
    law_payload_frame(id, s1.skip(name), t1.skip(name));
}

} // verus!
