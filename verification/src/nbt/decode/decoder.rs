//! The cursor: a forward-only reader over bytes, with the primitive reads of the format.

use crate::error::{DecodeError, Error};
use crate::nbt::grammar::{
    be_i16, be_i32, be_i64, be_i8, be_u16, be_u32, be_u64, parse_text, Parsed,
};
use crate::text::string_from_utf8;
use vstd::prelude::*;
use vstd::utf8::{decode_utf8, valid_utf8};

verus! {

#[verifier::external_type_specification]
#[verifier::external_body]
#[verifier::reject_recursive_types(T)]
pub struct ExCursor<T>(std::io::Cursor<T>);

/// The bytes that a cursor over a byte slice has not passed yet: those from its position to
/// the end of the slice.
pub uninterp spec fn unread(c: std::io::Cursor<&[u8]>) -> Seq<u8>;

/// `IntoBuf::into_buf` of bytes, on a byte slice: a cursor at the start of the slice.
#[verifier::external_body]
fn buf_new<'a>(bytes: &'a [u8]) -> (c: std::io::Cursor<&'a [u8]>)
    ensures
        unread(c) == bytes@,
{
    bytes::IntoBuf::into_buf(bytes)
}

/// `Buf::remaining` of bytes: the number of bytes between the position and the end.
#[verifier::external_body]
fn buf_remaining(c: &std::io::Cursor<&[u8]>) -> (n: usize)
    ensures
        n == unread(*c).len(),
{
    bytes::Buf::remaining(c)
}

/// `Buf::bytes` of bytes: the bytes between the position and the end, which for a cursor over
/// a slice are one piece.
#[verifier::external_body]
fn buf_bytes<'b>(c: &'b std::io::Cursor<&[u8]>) -> (s: &'b [u8])
    ensures
        s@ == unread(*c),
{
    bytes::Buf::bytes(c)
}

/// `Buf::advance` of bytes: moves the position forward by `n`. It panics where fewer than `n`
/// bytes remain.
#[verifier::external_body]
fn buf_advance(c: &mut std::io::Cursor<&[u8]>, n: usize)
    requires
        n <= unread(*old(c)).len(),
    ensures
        unread(*final(c)) == unread(*old(c)).skip(n as int),
    no_unwind
{
    bytes::Buf::advance(c, n)
}

/// `Buf::get_u8` of bytes: the next byte. It panics where none remains.
#[verifier::external_body]
fn buf_get_u8(c: &mut std::io::Cursor<&[u8]>) -> (v: u8)
    requires
        unread(*old(c)).len() >= 1,
    ensures
        v == unread(*old(c))[0],
        unread(*final(c)) == unread(*old(c)).skip(1),
    no_unwind
{
    bytes::Buf::get_u8(c)
}

/// `Buf::get_i8` of bytes: the next byte, as a signed number. It panics where none remains.
#[verifier::external_body]
fn buf_get_i8(c: &mut std::io::Cursor<&[u8]>) -> (v: i8)
    requires
        unread(*old(c)).len() >= 1,
    ensures
        v == be_i8(unread(*old(c))),
        unread(*final(c)) == unread(*old(c)).skip(1),
    no_unwind
{
    bytes::Buf::get_i8(c)
}

/// `Buf::get_u16_be` of bytes: the next two bytes as a big-endian unsigned number. It panics
/// where fewer than two remain.
#[verifier::external_body]
fn buf_get_u16_be(c: &mut std::io::Cursor<&[u8]>) -> (v: u16)
    requires
        unread(*old(c)).len() >= 2,
    ensures
        v == be_u16(unread(*old(c))),
        unread(*final(c)) == unread(*old(c)).skip(2),
    no_unwind
{
    bytes::Buf::get_u16_be(c)
}

/// `Buf::get_i16_be` of bytes: the next two bytes as a big-endian signed number. It panics
/// where fewer than two remain.
#[verifier::external_body]
fn buf_get_i16_be(c: &mut std::io::Cursor<&[u8]>) -> (v: i16)
    requires
        unread(*old(c)).len() >= 2,
    ensures
        v == be_i16(unread(*old(c))),
        unread(*final(c)) == unread(*old(c)).skip(2),
    no_unwind
{
    bytes::Buf::get_i16_be(c)
}

/// `Buf::get_u32_be` of bytes: the next four bytes as a big-endian unsigned number. It panics
/// where fewer than four remain.
#[verifier::external_body]
fn buf_get_u32_be(c: &mut std::io::Cursor<&[u8]>) -> (v: u32)
    requires
        unread(*old(c)).len() >= 4,
    ensures
        v == be_u32(unread(*old(c))),
        unread(*final(c)) == unread(*old(c)).skip(4),
    no_unwind
{
    bytes::Buf::get_u32_be(c)
}

/// `Buf::get_i32_be` of bytes: the next four bytes as a big-endian signed number. It panics
/// where fewer than four remain.
#[verifier::external_body]
fn buf_get_i32_be(c: &mut std::io::Cursor<&[u8]>) -> (v: i32)
    requires
        unread(*old(c)).len() >= 4,
    ensures
        v == be_i32(unread(*old(c))),
        unread(*final(c)) == unread(*old(c)).skip(4),
    no_unwind
{
    bytes::Buf::get_i32_be(c)
}

/// `Buf::get_u64_be` of bytes: the next eight bytes as a big-endian unsigned number. It
/// panics where fewer than eight remain.
#[verifier::external_body]
fn buf_get_u64_be(c: &mut std::io::Cursor<&[u8]>) -> (v: u64)
    requires
        unread(*old(c)).len() >= 8,
    ensures
        v == be_u64(unread(*old(c))),
        unread(*final(c)) == unread(*old(c)).skip(8),
    no_unwind
{
    bytes::Buf::get_u64_be(c)
}

/// `Buf::get_i64_be` of bytes: the next eight bytes as a big-endian signed number. It panics
/// where fewer than eight remain.
#[verifier::external_body]
fn buf_get_i64_be(c: &mut std::io::Cursor<&[u8]>) -> (v: i64)
    requires
        unread(*old(c)).len() >= 8,
    ensures
        v == be_i64(unread(*old(c))),
        unread(*final(c)) == unread(*old(c)).skip(8),
    no_unwind
{
    bytes::Buf::get_i64_be(c)
}

/// `Buf::copy_to_slice` of bytes, into a fresh buffer of `n` bytes: the next `n` bytes. It
/// panics where fewer than `n` remain.
#[verifier::external_body]
fn buf_copy(c: &mut std::io::Cursor<&[u8]>, n: usize) -> (v: Vec<u8>)
    requires
        n <= unread(*old(c)).len(),
    ensures
        v@ == unread(*old(c)).take(n as int),
        unread(*final(c)) == unread(*old(c)).skip(n as int),
    no_unwind
{
    let mut dst = vec![0u8; n];
    bytes::Buf::copy_to_slice(c, &mut dst);
    dst
}

/// A forward-only reader over a byte buffer, which it never copies or changes.
///
/// Every read either succeeds and consumes exactly the bytes of what it read, or fails with
/// the number of bytes consumed so far and leaves the cursor where the failure was found.
pub struct Decoder<'a> {
    buf: std::io::Cursor<&'a [u8]>,
    pos: usize,
}

impl<'a> Decoder<'a> {
    #[verifier::type_invariant]
    spec fn fits(self) -> bool {
        self.pos + unread(self.buf).len() <= usize::MAX
    }

    /// The bytes that have not been consumed.
    pub closed spec fn rest(&self) -> Seq<u8> {
        unread(self.buf)
    }

    /// The number of bytes that have been consumed.
    pub closed spec fn offset(&self) -> nat {
        self.pos as nat
    }

    /// Whether `self` is `before` after `n` more bytes were consumed.
    pub open spec fn follows(&self, before: &Self, n: int) -> bool {
        &&& 0 <= n <= before.rest().len()
        &&& self.rest() == before.rest().skip(n)
        &&& self.offset() == before.offset() + n
    }

    /// The error `kind`, found at the place where `self` stands.
    pub open spec fn error_here(&self, kind: Error) -> DecodeError {
        DecodeError { kind, offset: self.offset() as usize }
    }

    /// Whether a read that started at `before` and ended at `self` with the result `r` did
    /// what `expect` says of the bytes that `before` had left.
    pub open spec fn agrees<T: View>(
        &self,
        before: &Self,
        r: Result<T, DecodeError>,
        expect: Parsed<T::V>,
    ) -> bool {
        match expect {
            Parsed::Done(value, used) => {
                &&& r matches Ok(read)
                &&& read@ == value
                &&& self.follows(before, used)
            },
            Parsed::Fail(kind, at) => {
                &&& r == Err::<T, DecodeError>(self.error_here(kind))
                &&& self.follows(before, at)
            },
        }
    }

    /// Consuming `n` bytes and then `m` more is consuming `n + m`.
    pub proof fn lemma_follows(self, mid: Self, before: Self, n: int, m: int)
        requires
            mid.follows(&before, n),
            self.follows(&mid, m),
        ensures
            self.follows(&before, n + m),
    {
        assert(before.rest().skip(n).skip(m) =~= before.rest().skip(n + m));
    }

    /// A decoder at the start of `bytes`.
    pub fn new(bytes: &'a [u8]) -> (d: Self)
        ensures
            d.rest() == bytes@,
            d.offset() == 0,
    {
        let buf = buf_new(bytes);
        assert(bytes@.len() == bytes.len());
        Decoder { buf, pos: 0 }
    }

    /// The number of bytes that have not been consumed.
    pub fn remaining(&self) -> (n: usize)
        ensures
            n == self.rest().len(),
    {
        buf_remaining(&self.buf)
    }

    /// The number of bytes that have been consumed.
    pub fn position(&self) -> (n: usize)
        ensures
            n == self.offset(),
    {
        self.pos
    }

    /// The bytes that have not been consumed, without consuming them.
    pub fn bytes(&self) -> (s: &[u8])
        ensures
            s@ == self.rest(),
    {
        buf_bytes(&self.buf)
    }

    pub(crate) fn fail<T>(&self, kind: Error) -> (r: Result<T, DecodeError>)
        ensures
            r == Err::<T, DecodeError>(self.error_here(kind)),
            self.follows(self, 0),
    {
        assert(self.rest().skip(0) =~= self.rest());
        Err(DecodeError { kind, offset: self.pos })
    }

    /// Consumes `n` bytes, or none where fewer than `n` remain.
    pub fn advance(&mut self, n: usize) -> (r: Result<(), DecodeError>)
        ensures
            n <= old(self).rest().len() ==> r is Ok && final(self).follows(old(self), n as int),
            n > old(self).rest().len() ==> r == Err::<(), DecodeError>(
                old(self).error_here(Error::UnexpectedEnd),
            ) && final(self).follows(old(self), 0),
    {
        proof {
            use_type_invariant(&*self);
        }
        if buf_remaining(&self.buf) < n {
            return self.fail(Error::UnexpectedEnd);
        }
        buf_advance(&mut self.buf, n);
        self.pos = self.pos + n;
        Ok(())
    }

    /// Reads one byte as an unsigned number.
    pub fn get_u8(&mut self) -> (r: Result<u8, DecodeError>)
        ensures
            old(self).rest().len() >= 1 ==> r == Ok::<u8, DecodeError>(
                old(self).rest()[0],
            ) && final(self).follows(old(self), 1),
            old(self).rest().len() < 1 ==> r == Err::<u8, DecodeError>(
                old(self).error_here(Error::UnexpectedEnd),
            ) && final(self).follows(old(self), 0),
    {
        proof {
            use_type_invariant(&*self);
        }
        if buf_remaining(&self.buf) < 1 {
            return self.fail(Error::UnexpectedEnd);
        }
        let v = buf_get_u8(&mut self.buf);
        self.pos = self.pos + 1;
        Ok(v)
    }

    /// Reads one byte as a signed number.
    pub fn get_i8(&mut self) -> (r: Result<i8, DecodeError>)
        ensures
            old(self).rest().len() >= 1 ==> r == Ok::<i8, DecodeError>(
                be_i8(old(self).rest()) as i8,
            ) && final(self).follows(old(self), 1),
            old(self).rest().len() < 1 ==> r == Err::<i8, DecodeError>(
                old(self).error_here(Error::UnexpectedEnd),
            ) && final(self).follows(old(self), 0),
    {
        proof {
            use_type_invariant(&*self);
        }
        if buf_remaining(&self.buf) < 1 {
            return self.fail(Error::UnexpectedEnd);
        }
        let v = buf_get_i8(&mut self.buf);
        self.pos = self.pos + 1;
        Ok(v)
    }

    /// Reads two bytes as a big-endian unsigned number.
    pub fn get_u16_be(&mut self) -> (r: Result<u16, DecodeError>)
        ensures
            old(self).rest().len() >= 2 ==> r == Ok::<u16, DecodeError>(
                be_u16(old(self).rest()) as u16,
            ) && final(self).follows(old(self), 2),
            old(self).rest().len() < 2 ==> r == Err::<u16, DecodeError>(
                old(self).error_here(Error::UnexpectedEnd),
            ) && final(self).follows(old(self), 0),
    {
        proof {
            use_type_invariant(&*self);
        }
        if buf_remaining(&self.buf) < 2 {
            return self.fail(Error::UnexpectedEnd);
        }
        let v = buf_get_u16_be(&mut self.buf);
        self.pos = self.pos + 2;
        Ok(v)
    }

    /// Reads two bytes as a big-endian signed number.
    pub fn get_i16_be(&mut self) -> (r: Result<i16, DecodeError>)
        ensures
            old(self).rest().len() >= 2 ==> r == Ok::<i16, DecodeError>(
                be_i16(old(self).rest()) as i16,
            ) && final(self).follows(old(self), 2),
            old(self).rest().len() < 2 ==> r == Err::<i16, DecodeError>(
                old(self).error_here(Error::UnexpectedEnd),
            ) && final(self).follows(old(self), 0),
    {
        proof {
            use_type_invariant(&*self);
        }
        if buf_remaining(&self.buf) < 2 {
            return self.fail(Error::UnexpectedEnd);
        }
        let v = buf_get_i16_be(&mut self.buf);
        self.pos = self.pos + 2;
        Ok(v)
    }

    /// Reads four bytes as a big-endian unsigned number.
    pub fn get_u32_be(&mut self) -> (r: Result<u32, DecodeError>)
        ensures
            old(self).rest().len() >= 4 ==> r == Ok::<u32, DecodeError>(
                be_u32(old(self).rest()) as u32,
            ) && final(self).follows(old(self), 4),
            old(self).rest().len() < 4 ==> r == Err::<u32, DecodeError>(
                old(self).error_here(Error::UnexpectedEnd),
            ) && final(self).follows(old(self), 0),
    {
        proof {
            use_type_invariant(&*self);
        }
        if buf_remaining(&self.buf) < 4 {
            return self.fail(Error::UnexpectedEnd);
        }
        let v = buf_get_u32_be(&mut self.buf);
        self.pos = self.pos + 4;
        Ok(v)
    }

    /// Reads four bytes as a big-endian signed number.
    pub fn get_i32_be(&mut self) -> (r: Result<i32, DecodeError>)
        ensures
            old(self).rest().len() >= 4 ==> r == Ok::<i32, DecodeError>(
                be_i32(old(self).rest()) as i32,
            ) && final(self).follows(old(self), 4),
            old(self).rest().len() < 4 ==> r == Err::<i32, DecodeError>(
                old(self).error_here(Error::UnexpectedEnd),
            ) && final(self).follows(old(self), 0),
    {
        proof {
            use_type_invariant(&*self);
        }
        if buf_remaining(&self.buf) < 4 {
            return self.fail(Error::UnexpectedEnd);
        }
        let v = buf_get_i32_be(&mut self.buf);
        self.pos = self.pos + 4;
        Ok(v)
    }

    /// Reads eight bytes as a big-endian unsigned number.
    pub fn get_u64_be(&mut self) -> (r: Result<u64, DecodeError>)
        ensures
            old(self).rest().len() >= 8 ==> r == Ok::<u64, DecodeError>(
                be_u64(old(self).rest()) as u64,
            ) && final(self).follows(old(self), 8),
            old(self).rest().len() < 8 ==> r == Err::<u64, DecodeError>(
                old(self).error_here(Error::UnexpectedEnd),
            ) && final(self).follows(old(self), 0),
    {
        proof {
            use_type_invariant(&*self);
        }
        if buf_remaining(&self.buf) < 8 {
            return self.fail(Error::UnexpectedEnd);
        }
        let v = buf_get_u64_be(&mut self.buf);
        self.pos = self.pos + 8;
        Ok(v)
    }

    /// Reads eight bytes as a big-endian signed number.
    pub fn get_i64_be(&mut self) -> (r: Result<i64, DecodeError>)
        ensures
            old(self).rest().len() >= 8 ==> r == Ok::<i64, DecodeError>(
                be_i64(old(self).rest()) as i64,
            ) && final(self).follows(old(self), 8),
            old(self).rest().len() < 8 ==> r == Err::<i64, DecodeError>(
                old(self).error_here(Error::UnexpectedEnd),
            ) && final(self).follows(old(self), 0),
    {
        proof {
            use_type_invariant(&*self);
        }
        if buf_remaining(&self.buf) < 8 {
            return self.fail(Error::UnexpectedEnd);
        }
        let v = buf_get_i64_be(&mut self.buf);
        self.pos = self.pos + 8;
        Ok(v)
    }

    /// Whether any byte has not been consumed.
    pub fn has_remaining(&self) -> (b: bool)
        ensures
            b == (self.rest().len() > 0),
    {
        buf_remaining(&self.buf) > 0
    }

    /// Reads `n` bytes into a buffer of their own.
    pub fn read_bytes(&mut self, n: usize) -> (r: Result<Vec<u8>, DecodeError>)
        ensures
            n <= old(self).rest().len() ==> (r matches Ok(v) && v@ == old(self).rest().take(
                n as int,
            )) && final(self).follows(old(self), n as int),
            n > old(self).rest().len() ==> r == Err::<Vec<u8>, DecodeError>(
                old(self).error_here(Error::UnexpectedEnd),
            ) && final(self).follows(old(self), 0),
    {
        proof {
            use_type_invariant(&*self);
        }
        if buf_remaining(&self.buf) < n {
            return self.fail(Error::UnexpectedEnd);
        }
        let v = buf_copy(&mut self.buf, n);
        self.pos = self.pos + n;
        Ok(v)
    }

    /// Reads `n` bytes as UTF-8 text. Malformed text is an error; no byte is replaced.
    pub fn read_utf8(&mut self, n: usize) -> (r: Result<String, DecodeError>)
        ensures
            n > old(self).rest().len() ==> r == Err::<String, DecodeError>(
                old(self).error_here(Error::UnexpectedEnd),
            ) && final(self).follows(old(self), 0),
            n <= old(self).rest().len() ==> final(self).follows(old(self), n as int),
            n <= old(self).rest().len() && !valid_utf8(old(self).rest().take(n as int)) ==> r
                == Err::<String, DecodeError>(final(self).error_here(Error::InvalidText)),
            n <= old(self).rest().len() && valid_utf8(old(self).rest().take(n as int)) ==> (r
                matches Ok(text) && text@ == decode_utf8(old(self).rest().take(n as int))),
    {
        let bytes = self.read_bytes(n)?;
        match string_from_utf8(bytes) {
            Some(text) => Ok(text),
            None => {
                Err(DecodeError { kind: Error::InvalidText, offset: self.pos })
            },
        }
    }

    /// Reads the type identifier that starts a tag.
    pub fn read_id(&mut self) -> (r: Result<u8, DecodeError>)
        ensures
            old(self).rest().len() >= 1 ==> r == Ok::<u8, DecodeError>(
                old(self).rest()[0],
            ) && final(self).follows(old(self), 1),
            old(self).rest().len() < 1 ==> r == Err::<u8, DecodeError>(
                old(self).error_here(Error::UnexpectedEnd),
            ) && final(self).follows(old(self), 0),
    {
        self.get_u8()
    }

    /// Reads a name: a 16-bit unsigned byte count, then that many bytes of UTF-8.
    pub fn read_name(&mut self) -> (r: Result<String, DecodeError>)
        ensures
            final(self).agrees(old(self), r, parse_text(old(self).rest())),
    {
        let len = self.get_u16_be()?;
        let r = self.read_utf8(len as usize);
        proof {
            let s = old(self).rest();
            if s.len() >= 2 {
                if len <= s.len() - 2 {
                    assert(s.skip(2).take(len as int) =~= s.subrange(2, 2 + len));
                    assert(s.skip(2).skip(len as int) =~= s.skip(2 + len));
                } else {
                    assert(s.skip(2).skip(0) =~= s.skip(2));
                }
            }
        }
        r
    }
}

} // verus!
