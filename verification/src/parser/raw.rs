//! The primitive readers of the format, on byte slices.
//!
//! Each takes the bytes that are left and gives back the bytes that it did not consume with
//! what it read.

use crate::error::{DecodeError, Error};
use crate::nbt::grammar::{
    be_i16, be_i32, be_i32_seq, be_i64, be_i64_seq, be_i8, be_u16, be_u32, be_u64, Parsed,
};
use crate::text::str_from_utf8;
use vstd::prelude::*;
use vstd::utf8::{decode_utf8, valid_utf8};

verus! {

/// `nom::number::complete::i8` of nom, on a byte slice: the first byte as a signed number, and
/// the bytes after it. It fails where no byte is there, and only there.
#[verifier::external_body]
fn nom_i8<'a>(input: &'a [u8]) -> (r: Option<(&'a [u8], i8)>)
    ensures
        r is Some <==> input@.len() >= 1,
        r matches Some((rest, v)) ==> v == be_i8(input@) && rest@ == input@.skip(1),
{
    nom::number::complete::i8::<&[u8], nom::error::Error<&[u8]>>(input).ok()
}

/// `nom::number::complete::u8` of nom, on a byte slice: the first byte, and the bytes after it.
/// It fails where no byte is there, and only there.
#[verifier::external_body]
fn nom_u8<'a>(input: &'a [u8]) -> (r: Option<(&'a [u8], u8)>)
    ensures
        r is Some <==> input@.len() >= 1,
        r matches Some((rest, v)) ==> v == input@[0] && rest@ == input@.skip(1),
{
    nom::number::complete::u8::<&[u8], nom::error::Error<&[u8]>>(input).ok()
}

/// `nom::number::complete::be_i16` of nom, on a byte slice: the first two bytes as a big-endian
/// signed number, and the bytes after them. It fails where fewer than 2 bytes are there, and
/// only there.
#[verifier::external_body]
fn nom_be_i16<'a>(input: &'a [u8]) -> (r: Option<(&'a [u8], i16)>)
    ensures
        r is Some <==> input@.len() >= 2,
        r matches Some((rest, v)) ==> v == be_i16(input@) && rest@ == input@.skip(2),
{
    nom::number::complete::be_i16::<&[u8], nom::error::Error<&[u8]>>(input).ok()
}

/// `nom::number::complete::be_u16` of nom, on a byte slice: the first two bytes as a big-endian
/// unsigned number, and the bytes after them. It fails where fewer than 2 bytes are there, and
/// only there.
#[verifier::external_body]
fn nom_be_u16<'a>(input: &'a [u8]) -> (r: Option<(&'a [u8], u16)>)
    ensures
        r is Some <==> input@.len() >= 2,
        r matches Some((rest, v)) ==> v == be_u16(input@) && rest@ == input@.skip(2),
{
    nom::number::complete::be_u16::<&[u8], nom::error::Error<&[u8]>>(input).ok()
}

/// `nom::number::complete::be_i32` of nom, on a byte slice: the first four bytes as a
/// big-endian signed number, and the bytes after them. It fails where fewer than 4 bytes are
/// there, and only there.
#[verifier::external_body]
fn nom_be_i32<'a>(input: &'a [u8]) -> (r: Option<(&'a [u8], i32)>)
    ensures
        r is Some <==> input@.len() >= 4,
        r matches Some((rest, v)) ==> v == be_i32(input@) && rest@ == input@.skip(4),
{
    nom::number::complete::be_i32::<&[u8], nom::error::Error<&[u8]>>(input).ok()
}

/// `nom::number::complete::be_i64` of nom, on a byte slice: the first eight bytes as a
/// big-endian signed number, and the bytes after them. It fails where fewer than 8 bytes are
/// there, and only there.
#[verifier::external_body]
fn nom_be_i64<'a>(input: &'a [u8]) -> (r: Option<(&'a [u8], i64)>)
    ensures
        r is Some <==> input@.len() >= 8,
        r matches Some((rest, v)) ==> v == be_i64(input@) && rest@ == input@.skip(8),
{
    nom::number::complete::be_i64::<&[u8], nom::error::Error<&[u8]>>(input).ok()
}

/// `nom::number::complete::be_u32` of nom, on a byte slice: the first four bytes as a
/// big-endian unsigned number, and the bytes after them. It fails where fewer than 4 bytes are
/// there, and only there.
#[verifier::external_body]
fn nom_be_u32<'a>(input: &'a [u8]) -> (r: Option<(&'a [u8], u32)>)
    ensures
        r is Some <==> input@.len() >= 4,
        r matches Some((rest, v)) ==> v == be_u32(input@) && rest@ == input@.skip(4),
{
    nom::number::complete::be_u32::<&[u8], nom::error::Error<&[u8]>>(input).ok()
}

/// `nom::number::complete::be_u64` of nom, on a byte slice: the first eight bytes as a
/// big-endian unsigned number, and the bytes after them. It fails where fewer than 8 bytes are
/// there, and only there.
#[verifier::external_body]
fn nom_be_u64<'a>(input: &'a [u8]) -> (r: Option<(&'a [u8], u64)>)
    ensures
        r is Some <==> input@.len() >= 8,
        r matches Some((rest, v)) ==> v == be_u64(input@) && rest@ == input@.skip(8),
{
    nom::number::complete::be_u64::<&[u8], nom::error::Error<&[u8]>>(input).ok()
}

/// `nom::bytes::complete::take` of nom, on a byte slice: the first `n` bytes, and the bytes
/// after them. It fails where fewer than `n` bytes are there, and only there.
#[verifier::external_body]
fn nom_take<'a>(n: usize, input: &'a [u8]) -> (r: Option<(&'a [u8], &'a [u8])>)
    ensures
        r is Some <==> input@.len() >= n,
        r matches Some((rest, taken)) ==> taken@ == input@.take(n as int) && rest@ == input@.skip(
            n as int,
        ),
{
    nom::bytes::complete::take::<usize, &[u8], nom::error::Error<&[u8]>>(n)(input).ok()
}

/// The failure `kind`, found after `offset` bytes.
pub open spec fn failed<T>(kind: Error, offset: int) -> Result<T, DecodeError> {
    Err(DecodeError { kind, offset: offset as usize })
}

/// Whether `r` is what `expect` says of the bytes `input`: the value that stands at their
/// front with the bytes after it, or the failure with the place where it was found.
pub open spec fn reads<T: View>(
    input: Seq<u8>,
    r: Result<(&[u8], T), DecodeError>,
    expect: Parsed<T::V>,
) -> bool {
    match expect {
        Parsed::Done(value, used) => {
            &&& r matches Ok((rest, read))
            &&& read@ == value
            &&& 0 <= used <= input.len()
            &&& rest@ == input.skip(used)
        },
        Parsed::Fail(kind, at) => r == failed::<(&[u8], T)>(kind, at),
    }
}

/// The failure `e` of a reader that was started after `by` bytes, counted from the start.
pub(crate) fn shifted<T>(e: DecodeError, by: usize) -> (r: Result<T, DecodeError>)
    requires
        e.offset + by <= usize::MAX,
    ensures
        r == failed::<T>(e.kind, e.offset + by),
{
    Err(DecodeError { kind: e.kind, offset: e.offset + by })
}

/// Reads one byte as a signed number.
pub fn byte(input: &[u8]) -> (r: Result<(&[u8], i8), DecodeError>)
    ensures
        input@.len() >= 1 ==> (r matches Ok((rest, v)) && v == be_i8(input@) && rest@
            == input@.skip(1)),
        input@.len() < 1 ==> r == failed::<(&[u8], i8)>(Error::UnexpectedEnd, 0),
{
    match nom_i8(input) {
        Some(read) => Ok(read),
        None => Err(DecodeError { kind: Error::UnexpectedEnd, offset: 0 }),
    }
}

/// Reads one byte as an unsigned number.
pub fn ubyte(input: &[u8]) -> (r: Result<(&[u8], u8), DecodeError>)
    ensures
        input@.len() >= 1 ==> (r matches Ok((rest, v)) && v == input@[0] && rest@
            == input@.skip(1)),
        input@.len() < 1 ==> r == failed::<(&[u8], u8)>(Error::UnexpectedEnd, 0),
{
    match nom_u8(input) {
        Some(read) => Ok(read),
        None => Err(DecodeError { kind: Error::UnexpectedEnd, offset: 0 }),
    }
}

/// Reads two bytes as a big-endian signed number.
pub fn short(input: &[u8]) -> (r: Result<(&[u8], i16), DecodeError>)
    ensures
        input@.len() >= 2 ==> (r matches Ok((rest, v)) && v == be_i16(input@) && rest@
            == input@.skip(2)),
        input@.len() < 2 ==> r == failed::<(&[u8], i16)>(Error::UnexpectedEnd, 0),
{
    match nom_be_i16(input) {
        Some(read) => Ok(read),
        None => Err(DecodeError { kind: Error::UnexpectedEnd, offset: 0 }),
    }
}

/// Reads two bytes as a big-endian unsigned number.
pub fn ushort(input: &[u8]) -> (r: Result<(&[u8], u16), DecodeError>)
    ensures
        input@.len() >= 2 ==> (r matches Ok((rest, v)) && v == be_u16(input@) && rest@
            == input@.skip(2)),
        input@.len() < 2 ==> r == failed::<(&[u8], u16)>(Error::UnexpectedEnd, 0),
{
    match nom_be_u16(input) {
        Some(read) => Ok(read),
        None => Err(DecodeError { kind: Error::UnexpectedEnd, offset: 0 }),
    }
}

/// Reads four bytes as a big-endian signed number.
pub fn int32(input: &[u8]) -> (r: Result<(&[u8], i32), DecodeError>)
    ensures
        input@.len() >= 4 ==> (r matches Ok((rest, v)) && v == be_i32(input@) && rest@
            == input@.skip(4)),
        input@.len() < 4 ==> r == failed::<(&[u8], i32)>(Error::UnexpectedEnd, 0),
{
    match nom_be_i32(input) {
        Some(read) => Ok(read),
        None => Err(DecodeError { kind: Error::UnexpectedEnd, offset: 0 }),
    }
}

/// Reads eight bytes as a big-endian signed number.
pub fn long(input: &[u8]) -> (r: Result<(&[u8], i64), DecodeError>)
    ensures
        input@.len() >= 8 ==> (r matches Ok((rest, v)) && v == be_i64(input@) && rest@
            == input@.skip(8)),
        input@.len() < 8 ==> r == failed::<(&[u8], i64)>(Error::UnexpectedEnd, 0),
{
    match nom_be_i64(input) {
        Some(read) => Ok(read),
        None => Err(DecodeError { kind: Error::UnexpectedEnd, offset: 0 }),
    }
}

/// Reads the four bytes of a 32-bit float, big-endian, as its bit pattern.
pub fn float(input: &[u8]) -> (r: Result<(&[u8], u32), DecodeError>)
    ensures
        input@.len() >= 4 ==> (r matches Ok((rest, v)) && v == be_u32(input@) && rest@
            == input@.skip(4)),
        input@.len() < 4 ==> r == failed::<(&[u8], u32)>(Error::UnexpectedEnd, 0),
{
    match nom_be_u32(input) {
        Some(read) => Ok(read),
        None => Err(DecodeError { kind: Error::UnexpectedEnd, offset: 0 }),
    }
}

/// Reads the eight bytes of a 64-bit float, big-endian, as its bit pattern.
pub fn double(input: &[u8]) -> (r: Result<(&[u8], u64), DecodeError>)
    ensures
        input@.len() >= 8 ==> (r matches Ok((rest, v)) && v == be_u64(input@) && rest@
            == input@.skip(8)),
        input@.len() < 8 ==> r == failed::<(&[u8], u64)>(Error::UnexpectedEnd, 0),
{
    match nom_be_u64(input) {
        Some(read) => Ok(read),
        None => Err(DecodeError { kind: Error::UnexpectedEnd, offset: 0 }),
    }
}

/// Reads `len` bytes.
pub fn byte_array(len: usize, input: &[u8]) -> (r: Result<(&[u8], &[u8]), DecodeError>)
    ensures
        input@.len() >= len ==> (r matches Ok((rest, taken)) && taken@ == input@.take(len as int)
            && rest@ == input@.skip(len as int)),
        input@.len() < len ==> r == failed::<(&[u8], &[u8])>(Error::UnexpectedEnd, 0),
{
    match nom_take(len, input) {
        Some(read) => Ok(read),
        None => Err(DecodeError { kind: Error::UnexpectedEnd, offset: 0 }),
    }
}

/// Reads `len` big-endian signed 32-bit numbers, or nothing where fewer are there.
pub fn int_array(len: usize, input: &[u8]) -> (r: Result<(&[u8], Vec<i32>), DecodeError>)
    ensures
        input@.len() >= 4 * len ==> (r matches Ok((rest, items)) && items@ == be_i32_seq(
            input@,
            len as nat,
        ) && rest@ == input@.skip(4 * len)),
        input@.len() < 4 * len ==> r == failed::<(&[u8], Vec<i32>)>(Error::UnexpectedEnd, 0),
{
    if input.len() / 4 < len {
        return Err(DecodeError { kind: Error::UnexpectedEnd, offset: 0 });
    }
    let mut items: Vec<i32> = Vec::new();
    let mut rest = input;
    let mut i: usize = 0;
    assert(input@.skip(0) =~= input@);
    while i < len
        invariant
            i <= len,
            4 * len <= input@.len(),
            rest@ == input@.skip(4 * i),
            items@ == be_i32_seq(input@, i as nat),
        decreases len - i,
    {
        match int32(rest) {
            Ok((after, item)) => {
                items.push(item);
                proof {
                    assert(input@.skip(4 * i).skip(4) =~= input@.skip(4 * (i + 1)));
                    assert(items@ =~= be_i32_seq(input@, (i + 1) as nat));
                }
                rest = after;
            },
            Err(e) => {
                return Err(e);
            },
        }
        i = i + 1;
    }
    Ok((rest, items))
}

/// Reads `len` big-endian signed 64-bit numbers, or nothing where fewer are there.
pub fn long_array(len: usize, input: &[u8]) -> (r: Result<(&[u8], Vec<i64>), DecodeError>)
    ensures
        input@.len() >= 8 * len ==> (r matches Ok((rest, items)) && items@ == be_i64_seq(
            input@,
            len as nat,
        ) && rest@ == input@.skip(8 * len)),
        input@.len() < 8 * len ==> r == failed::<(&[u8], Vec<i64>)>(Error::UnexpectedEnd, 0),
{
    if input.len() / 8 < len {
        return Err(DecodeError { kind: Error::UnexpectedEnd, offset: 0 });
    }
    let mut items: Vec<i64> = Vec::new();
    let mut rest = input;
    let mut i: usize = 0;
    assert(input@.skip(0) =~= input@);
    while i < len
        invariant
            i <= len,
            8 * len <= input@.len(),
            rest@ == input@.skip(8 * i),
            items@ == be_i64_seq(input@, i as nat),
        decreases len - i,
    {
        match long(rest) {
            Ok((after, item)) => {
                items.push(item);
                proof {
                    assert(input@.skip(8 * i).skip(8) =~= input@.skip(8 * (i + 1)));
                    assert(items@ =~= be_i64_seq(input@, (i + 1) as nat));
                }
                rest = after;
            },
            Err(e) => {
                return Err(e);
            },
        }
        i = i + 1;
    }
    Ok((rest, items))
}

/// Reads `len` bytes as UTF-8 text. Malformed text is an error, found after the bytes.
pub fn string(len: usize, input: &[u8]) -> (r: Result<(&[u8], &str), DecodeError>)
    ensures
        input@.len() < len ==> r == failed::<(&[u8], &str)>(Error::UnexpectedEnd, 0),
        input@.len() >= len && !valid_utf8(input@.take(len as int)) ==> r == failed::<
            (&[u8], &str),
        >(Error::InvalidText, len as int),
        input@.len() >= len && valid_utf8(input@.take(len as int)) ==> (r matches Ok((rest, text))
            && text@ == decode_utf8(input@.take(len as int)) && rest@ == input@.skip(len as int)),
{
    let (rest, taken) = byte_array(len, input)?;
    match str_from_utf8(taken) {
        Some(text) => Ok((rest, text)),
        None => Err(DecodeError { kind: Error::InvalidText, offset: len }),
    }
}

} // verus!
