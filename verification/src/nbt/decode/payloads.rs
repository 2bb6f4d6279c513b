//! Reading payloads with the cursor.

use crate::error::{DecodeError, Error};
use crate::nbt::decode::decoder::Decoder;
use crate::nbt::grammar::{
    be_i32, be_i32_seq, be_i64_seq, be_i8, lemma_after_after, lemma_tag_extent, parse_byte,
    parse_byte_array, parse_children, parse_compound, parse_count, parse_double, parse_float,
    parse_int, parse_int_array, parse_items, parse_list, parse_long, parse_long_array,
    parse_payload, parse_short, parse_string, Parsed,
};
use crate::nbt::types::{
    payload_values, put_entry, settle, tag_values, Payload, PayloadValue, Tag, TagValue,
};
use vstd::prelude::*;

verus! {

impl<'a> Decoder<'a> {
    /// Reads a byte.
    pub fn read_byte_payload(&mut self) -> (r: Result<Payload, DecodeError>)
        ensures
            final(self).agrees(old(self), r, parse_byte(old(self).rest())),
    {
        let payload = self.get_i8()?;
        Ok(Payload::Byte(payload))
    }

    /// Reads a short.
    pub fn read_short_payload(&mut self) -> (r: Result<Payload, DecodeError>)
        ensures
            final(self).agrees(old(self), r, parse_short(old(self).rest())),
    {
        let payload = self.get_i16_be()?;
        Ok(Payload::Short(payload))
    }

    /// Reads an int.
    pub fn read_int_payload(&mut self) -> (r: Result<Payload, DecodeError>)
        ensures
            final(self).agrees(old(self), r, parse_int(old(self).rest())),
    {
        let payload = self.get_i32_be()?;
        Ok(Payload::Int(payload))
    }

    /// Reads a long.
    pub fn read_long_payload(&mut self) -> (r: Result<Payload, DecodeError>)
        ensures
            final(self).agrees(old(self), r, parse_long(old(self).rest())),
    {
        let payload = self.get_i64_be()?;
        Ok(Payload::Long(payload))
    }

    /// Reads a 32-bit float and keeps its bit pattern.
    pub fn read_float_payload(&mut self) -> (r: Result<Payload, DecodeError>)
        ensures
            final(self).agrees(old(self), r, parse_float(old(self).rest())),
    {
        let payload = self.get_u32_be()?;
        Ok(Payload::Float(payload))
    }

    /// Reads a 64-bit float and keeps its bit pattern.
    pub fn read_double_payload(&mut self) -> (r: Result<Payload, DecodeError>)
        ensures
            final(self).agrees(old(self), r, parse_double(old(self).rest())),
    {
        let payload = self.get_u64_be()?;
        Ok(Payload::Double(payload))
    }

    /// Reads the count that starts an array of elements of `width` bytes, and sees that the
    /// bytes of all the elements are there, before any of them is read.
    fn read_count(&mut self, width: usize) -> (r: Result<usize, DecodeError>)
        requires
            1 <= width <= 8,
        ensures
            match parse_count(old(self).rest(), width as int) {
                Parsed::Done(n, used) => r == Ok::<usize, DecodeError>(n as usize) && n
                    <= i32::MAX && final(self).follows(old(self), used),
                Parsed::Fail(kind, at) => r == Err::<usize, DecodeError>(
                    final(self).error_here(kind),
                ) && final(self).follows(old(self), at),
            },
    {
        let len = self.get_i32_be()?;
        if len < 0 {
            return self.fail(Error::NegativeLength);
        }
        assert(0 <= len * width <= 0x7fff_ffff * 8 && len * width == width * len)
            by (nonlinear_arith)
            requires
                0 <= len <= 0x7fff_ffff,
                1 <= width <= 8,
        ;
        let need: u64 = (len as u64) * (width as u64);
        if (self.remaining() as u64) < need {
            return self.fail(Error::UnexpectedEnd);
        }
        Ok(len as usize)
    }

    /// Reads a byte array: a count that is not negative, then that many bytes. Where fewer
    /// bytes are left than the count says, none of them is consumed.
    pub fn read_byte_array_payload(&mut self) -> (r: Result<Payload, DecodeError>)
        ensures
            final(self).agrees(old(self), r, parse_byte_array(old(self).rest())),
    {
        let len = self.read_count(1)?;
        let payload = self.read_bytes(len)?;
        proof {
            let s = old(self).rest();
            assert(s.skip(4).take(len as int) =~= s.subrange(4, 4 + len));
            assert(s.skip(4).skip(len as int) =~= s.skip(4 + len));
        }
        Ok(Payload::ByteArray(payload))
    }

    /// Reads a string: a 16-bit unsigned byte count, then that many bytes of UTF-8.
    pub fn read_string_payload(&mut self) -> (r: Result<Payload, DecodeError>)
        ensures
            final(self).agrees(old(self), r, parse_string(old(self).rest())),
    {
        let payload = self.read_name()?;
        Ok(Payload::String(payload))
    }

    /// Reads an int array: a count that is not negative, then that many ints. Where fewer ints
    /// are left than the count says, none of them is consumed.
    pub fn read_int_array_payload(&mut self) -> (r: Result<Payload, DecodeError>)
        ensures
            final(self).agrees(old(self), r, parse_int_array(old(self).rest())),
    {
        let len = self.read_count(4)?;
        let ghost body = self.rest();
        let ghost start = *self;
        let mut payload: Vec<i32> = Vec::new();
        let mut i: usize = 0;
        assert(body.skip(0) =~= body);
        while i < len
            invariant
                i <= len <= i32::MAX,
                4 * len <= body.len(),
                self.follows(&start, 4 * i),
                start.rest() == body,
                payload@ == be_i32_seq(body, i as nat),
            decreases len - i,
        {
            match self.get_i32_be() {
                Ok(item) => {
                    payload.push(item);
                },
                Err(e) => {
                    return Err(e);
                },
            }
            proof {
                assert(body.skip(4 * i).skip(4) =~= body.skip(4 * (i + 1)));
                assert(payload@ =~= be_i32_seq(body, (i + 1) as nat));
            }
            i = i + 1;
        }
        proof {
            let s = old(self).rest();
            assert(s.skip(4).skip(4 * len) =~= s.skip(4 + 4 * len));
        }
        Ok(Payload::IntArray(payload))
    }

    /// Reads a long array: a count that is not negative, then that many longs. Where fewer
    /// longs are left than the count says, none of them is consumed.
    pub fn read_long_array_payload(&mut self) -> (r: Result<Payload, DecodeError>)
        ensures
            final(self).agrees(old(self), r, parse_long_array(old(self).rest())),
    {
        let len = self.read_count(8)?;
        let ghost body = self.rest();
        let ghost start = *self;
        let mut payload: Vec<i64> = Vec::new();
        let mut i: usize = 0;
        assert(body.skip(0) =~= body);
        while i < len
            invariant
                i <= len <= i32::MAX,
                8 * len <= body.len(),
                self.follows(&start, 8 * i),
                start.rest() == body,
                payload@ == be_i64_seq(body, i as nat),
            decreases len - i,
        {
            match self.get_i64_be() {
                Ok(item) => {
                    payload.push(item);
                },
                Err(e) => {
                    return Err(e);
                },
            }
            proof {
                assert(body.skip(8 * i).skip(8) =~= body.skip(8 * (i + 1)));
                assert(payload@ =~= be_i64_seq(body, (i + 1) as nat));
            }
            i = i + 1;
        }
        proof {
            let s = old(self).rest();
            assert(s.skip(4).skip(8 * len) =~= s.skip(4 + 8 * len));
        }
        Ok(Payload::LongArray(payload))
    }
    /// Reads a list: the kind of its elements, a count, then the elements, every one as that
    /// kind. A count of zero or less is the empty list, and the kind is not looked at.
    pub fn read_list_payload(&mut self) -> (r: Result<Payload, DecodeError>)
        ensures
            final(self).agrees(old(self), r, parse_list(old(self).rest())),
        decreases old(self).rest().len(), 1int, 0int,
    {
        let ghost s = old(self).rest();
        let id = self.get_i8()?;
        let ghost after_id = *self;
        let len = match self.get_i32_be() {
            Ok(len) => len,
            Err(e) => {
                proof {
                    self.lemma_follows(after_id, *old(self), 1, 0);
                }
                return Err(e);
            },
        };
        proof {
            self.lemma_follows(after_id, *old(self), 1, 4);
        }
        let mut payload: Vec<Payload> = Vec::new();
        if len <= 0 {
            assert(payload_values(payload@) =~= Seq::empty());
            return Ok(Payload::List(payload));
        }
        let ghost body = s.skip(5);
        let ghost mut used: int = 0;
        let mut i: i32 = 0;
        proof {
            let whole = parse_items(id, body, len as nat);
            assert(payload_values(payload@) =~= Seq::empty());
            if let Parsed::Done(tail, _) = whole {
                assert(Seq::<PayloadValue>::empty() + tail =~= tail);
            }
        }
        while i < len
            invariant
                0 <= i <= len,
                s == old(self).rest(),
                body == s.skip(5),
                id == be_i8(s),
                len == be_i32(s.skip(1)),
                0 <= used,
                self.follows(old(self), 5 + used),
                payload@.len() == i,
                parse_items(id, body, len as nat) == parse_items(
                    id,
                    self.rest(),
                    (len - i) as nat,
                ).after(payload_values(payload@), used),
            decreases len - i,
        {
            let ghost here = *self;
            let ghost done = payload_values(payload@);
            match self.read_payload(id) {
                Ok(next) => {
                    proof {
                        let k = self.offset() - here.offset();
                        self.lemma_follows(here, *old(self), 5 + used, k);
                        lemma_after_after(
                            parse_items(id, self.rest(), (len - i - 1) as nat),
                            done,
                            used,
                            seq![next@],
                            k,
                        );
                        used = used + k;
                    }
                    payload.push(next);
                    assert(payload_values(payload@) =~= done + seq![next@]);
                },
                Err(e) => {
                    proof {
                        let at = self.offset() - here.offset();
                        self.lemma_follows(here, *old(self), 5 + used, at);
                    }
                    return Err(e);
                },
            }
            i = i + 1;
        }
        assert(payload_values(payload@) + Seq::empty() =~= payload_values(payload@));
        Ok(Payload::List(payload))
    }

    /// Reads a compound: tags up to the end marker, which is consumed and not kept. Of two
    /// tags with one name, the later one takes the place of the earlier.
    pub fn read_compound_payload(&mut self) -> (r: Result<Payload, DecodeError>)
        ensures
            final(self).agrees(old(self), r, parse_compound(old(self).rest())),
        decreases old(self).rest().len(), 1int, 0int,
    {
        let mut payload: Vec<Tag> = Vec::new();
        let ghost mut tags: Seq<TagValue> = Seq::empty();
        let ghost mut used: int = 0;
        proof {
            assert(self.rest().skip(0) =~= self.rest());
            assert(tag_values(payload@) =~= Seq::empty());
            if let Parsed::Done(tail, _) = parse_children(self.rest()) {
                assert(Seq::<TagValue>::empty() + tail =~= tail);
            }
        }
        loop
            invariant
                0 <= used,
                self.follows(old(self), used),
                tag_values(payload@) == settle(tags),
                parse_children(old(self).rest()) == parse_children(self.rest()).after(tags, used),
            decreases self.rest().len(),
        {
            let ghost here = *self;
            proof {
                lemma_tag_extent(here.rest());
            }
            let next = match self.read_tag() {
                Ok(next) => next,
                Err(e) => {
                    proof {
                        let at = self.offset() - here.offset();
                        self.lemma_follows(here, *old(self), used, at);
                    }
                    return Err(e);
                },
            };
            proof {
                let k = self.offset() - here.offset();
                self.lemma_follows(here, *old(self), used, k);
                if next@ is End {
                    assert(tags + Seq::empty() =~= tags);
                } else {
                    lemma_after_after(parse_children(self.rest()), tags, used, seq![next@], k);
                    assert((tags + seq![next@]).drop_last() =~= tags);
                }
                used = used + k;
            }
            if next.is_end() {
                return Ok(Payload::Compound(payload));
            }
            proof {
                tags = tags + seq![next@];
            }
            put_entry(&mut payload, next);
        }
    }

    /// Reads the payload of kind `id`.
    pub fn read_payload(&mut self, id: i8) -> (r: Result<Payload, DecodeError>)
        ensures
            final(self).agrees(old(self), r, parse_payload(id, old(self).rest())),
        decreases old(self).rest().len(), 2int, 0int,
    {
        match id {
            1 => self.read_byte_payload(),
            2 => self.read_short_payload(),
            3 => self.read_int_payload(),
            4 => self.read_long_payload(),
            5 => self.read_float_payload(),
            6 => self.read_double_payload(),
            7 => self.read_byte_array_payload(),
            8 => self.read_string_payload(),
            9 => self.read_list_payload(),
            10 => self.read_compound_payload(),
            11 => self.read_int_array_payload(),
            12 => self.read_long_array_payload(),
            _ => self.fail(Error::InvalidTagId(id)),
        }
    }
}

} // verus!
