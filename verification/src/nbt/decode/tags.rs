//! Reading tags with the cursor.

use crate::error::{DecodeError, Error};
use crate::nbt::decode::decoder::Decoder;
use crate::nbt::grammar::{parse_named, parse_tag};
use crate::nbt::types::Tag;
use vstd::prelude::*;

verus! {

impl<'a> Decoder<'a> {
    /// Reads a name and then the payload of kind `id`.
    pub fn read_named(&mut self, id: i8) -> (r: Result<Tag, DecodeError>)
        ensures
            final(self).agrees(old(self), r, parse_named(id, old(self).rest())),
        decreases old(self).rest().len(), 4int, 0int,
    {
        let name = self.read_name()?;
        let ghost after_name = *self;
        let ghost used = self.offset() - old(self).offset();
        match self.read_payload(id) {
            Ok(val) => {
                proof {
                    let more = self.offset() - after_name.offset();
                    self.lemma_follows(after_name, *old(self), used, more);
                }
                Ok(Tag::new(name, val))
            },
            Err(e) => {
                proof {
                    let at = self.offset() - after_name.offset();
                    self.lemma_follows(after_name, *old(self), used, at);
                }
                Err(e)
            },
        }
    }

    /// Reads a tag: the end marker, or an identifier with the name and the payload that
    /// follow it.
    pub fn read_tag(&mut self) -> (r: Result<Tag, DecodeError>)
        ensures
            final(self).agrees(old(self), r, parse_tag(old(self).rest())),
        decreases old(self).rest().len(), 0int, 0int,
    {
        let id = self.get_i8()?;
        if id == 0 {
            return Ok(Tag::End);
        }
        if id < 1 || id > 12 {
            return self.fail(Error::InvalidTagId(id));
        }
        let ghost after_id = *self;
        let r = self.read_named(id);
        proof {
            let n = self.offset() - after_id.offset();
            self.lemma_follows(after_id, *old(self), 1, n);
        }
        r
    }

    /// Reads a name and then a byte.
    pub fn read_byte(&mut self) -> (r: Result<Tag, DecodeError>)
        ensures
            final(self).agrees(old(self), r, parse_named(1, old(self).rest())),
    {
        self.read_named(1)
    }

    /// Reads a name and then a short.
    pub fn read_short(&mut self) -> (r: Result<Tag, DecodeError>)
        ensures
            final(self).agrees(old(self), r, parse_named(2, old(self).rest())),
    {
        self.read_named(2)
    }

    /// Reads a name and then an int.
    pub fn read_int(&mut self) -> (r: Result<Tag, DecodeError>)
        ensures
            final(self).agrees(old(self), r, parse_named(3, old(self).rest())),
    {
        self.read_named(3)
    }

    /// Reads a name and then a long.
    pub fn read_long(&mut self) -> (r: Result<Tag, DecodeError>)
        ensures
            final(self).agrees(old(self), r, parse_named(4, old(self).rest())),
    {
        self.read_named(4)
    }

    /// Reads a name and then a 32-bit float.
    pub fn read_float(&mut self) -> (r: Result<Tag, DecodeError>)
        ensures
            final(self).agrees(old(self), r, parse_named(5, old(self).rest())),
    {
        self.read_named(5)
    }

    /// Reads a name and then a 64-bit float.
    pub fn read_double(&mut self) -> (r: Result<Tag, DecodeError>)
        ensures
            final(self).agrees(old(self), r, parse_named(6, old(self).rest())),
    {
        self.read_named(6)
    }

    /// Reads a name and then a byte array.
    pub fn read_byte_array(&mut self) -> (r: Result<Tag, DecodeError>)
        ensures
            final(self).agrees(old(self), r, parse_named(7, old(self).rest())),
    {
        self.read_named(7)
    }

    /// Reads a name and then a string.
    pub fn read_string(&mut self) -> (r: Result<Tag, DecodeError>)
        ensures
            final(self).agrees(old(self), r, parse_named(8, old(self).rest())),
    {
        self.read_named(8)
    }

    /// Reads a name and then a list.
    pub fn read_list(&mut self) -> (r: Result<Tag, DecodeError>)
        ensures
            final(self).agrees(old(self), r, parse_named(9, old(self).rest())),
    {
        self.read_named(9)
    }

    /// Reads a name and then a compound.
    pub fn read_compound(&mut self) -> (r: Result<Tag, DecodeError>)
        ensures
            final(self).agrees(old(self), r, parse_named(10, old(self).rest())),
    {
        self.read_named(10)
    }

    /// Reads a name and then an int array.
    pub fn read_int_array(&mut self) -> (r: Result<Tag, DecodeError>)
        ensures
            final(self).agrees(old(self), r, parse_named(11, old(self).rest())),
    {
        self.read_named(11)
    }

    /// Reads a name and then a long array.
    pub fn read_long_array(&mut self) -> (r: Result<Tag, DecodeError>)
        ensures
            final(self).agrees(old(self), r, parse_named(12, old(self).rest())),
    {
        self.read_named(12)
    }
}

} // verus!
