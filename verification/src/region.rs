//! The region container: a table of chunk locations, a table of timestamps, and the chunks.

use crate::nbt::decode::decoder::Decoder;
use crate::nbt::grammar::{be_u32, Parsed};
use vstd::prelude::*;

pub use crate::error::{DecodeError, Error};

verus! {

/// The entry that the 32-bit word `word` of the location table stands for: the first sector
/// of the chunk (the high three bytes) and its number of sectors (the low byte). The word 0
/// stands for a chunk that is absent.
pub open spec fn location_of(word: int) -> Option<(usize, usize)> {
    if word == 0 {
        None
    } else {
        Some(((word / 0x100) as usize, (word % 0x100) as usize))
    }
}

/// The entries of the location table `s`, one for each four bytes.
pub open spec fn locations(s: Seq<u8>) -> Seq<Option<(usize, usize)>> {
    Seq::new((s.len() / 4) as nat, |i: int| location_of(be_u32(s.skip(4 * i))))
}

/// The entries of the timestamp table `s`, one for each four bytes.
pub open spec fn timestamps(s: Seq<u8>) -> Seq<u32> {
    Seq::new((s.len() / 4) as nat, |i: int| be_u32(s.skip(4 * i)) as u32)
}

/// The compressed stream of the chunk at the front of `s`: a 32-bit length, which counts the
/// byte of the compression method and the stream; the method, which must be 2 (zlib); and the
/// stream.
pub open spec fn parse_chunk(s: Seq<u8>) -> Parsed<Seq<u8>> {
    if s.len() < 4 {
        Parsed::Fail(Error::UnexpectedEnd, 0)
    } else if s.len() < 5 {
        Parsed::Fail(Error::UnexpectedEnd, 4)
    } else if s[4] != 2 {
        Parsed::Fail(Error::UnsupportedCompression(s[4]), 5)
    } else if be_u32(s) == 0 {
        Parsed::Fail(Error::NegativeLength, 5)
    } else if s.len() - 5 < be_u32(s) - 1 {
        Parsed::Fail(Error::UnexpectedEnd, 5)
    } else {
        Parsed::Done(s.subrange(5, 4 + be_u32(s)), 4 + be_u32(s))
    }
}

/// Reads all that is left of `buf` as a location table. Bytes that do not make up a whole
/// entry at the end are an error, found where they start.
pub fn parse_locations(buf: &mut Decoder) -> (r: Result<Vec<Option<(usize, usize)>>, DecodeError>)
    ensures
        old(buf).rest().len() % 4 == 0 ==> (r matches Ok(out) && out@ == locations(
            old(buf).rest(),
        )) && final(buf).follows(old(buf), old(buf).rest().len() as int),
        old(buf).rest().len() % 4 != 0 ==> r == Err::<Vec<Option<(usize, usize)>>, DecodeError>(
            final(buf).error_here(Error::UnexpectedEnd),
        ) && final(buf).follows(old(buf), 4 * (old(buf).rest().len() as int / 4)),
{
    let ghost s = buf.rest();
    let mut out: Vec<Option<(usize, usize)>> = Vec::new();
    assert(s.skip(0) =~= s);
    while buf.has_remaining()
        invariant
            s == old(buf).rest(),
            out@.len() <= s.len() / 4,
            buf.follows(old(buf), 4 * out@.len() as int),
            out@ == locations(s).take(out@.len() as int),
        decreases buf.rest().len(),
    {
        let ghost here = *buf;
        let word = match buf.get_u32_be() {
            Ok(word) => word,
            Err(e) => {
                proof {
                    buf.lemma_follows(here, *old(buf), 4 * out@.len() as int, 0);
                }
                return Err(e);
            },
        };
        proof {
            buf.lemma_follows(here, *old(buf), 4 * out@.len() as int, 4);
        }
        let entry = if word == 0 {
            None
        } else {
            Some(((word / 0x100) as usize, (word % 0x100) as usize))
        };
        let ghost before = out@;
        out.push(entry);
        assert(out@ =~= locations(s).take(out@.len() as int));
    }
    assert(out@ =~= locations(s));
    Ok(out)
}

/// Reads all that is left of `buf` as a timestamp table. Bytes that do not make up a whole
/// entry at the end are an error, found where they start.
pub fn parse_timestamps(buf: &mut Decoder) -> (r: Result<Vec<u32>, DecodeError>)
    ensures
        old(buf).rest().len() % 4 == 0 ==> (r matches Ok(out) && out@ == timestamps(
            old(buf).rest(),
        )) && final(buf).follows(old(buf), old(buf).rest().len() as int),
        old(buf).rest().len() % 4 != 0 ==> r == Err::<Vec<u32>, DecodeError>(
            final(buf).error_here(Error::UnexpectedEnd),
        ) && final(buf).follows(old(buf), 4 * (old(buf).rest().len() as int / 4)),
{
    let ghost s = buf.rest();
    let mut out: Vec<u32> = Vec::new();
    assert(s.skip(0) =~= s);
    while buf.has_remaining()
        invariant
            s == old(buf).rest(),
            out@.len() <= s.len() / 4,
            buf.follows(old(buf), 4 * out@.len() as int),
            out@ == timestamps(s).take(out@.len() as int),
        decreases buf.rest().len(),
    {
        let ghost here = *buf;
        let word = match buf.get_u32_be() {
            Ok(word) => word,
            Err(e) => {
                proof {
                    buf.lemma_follows(here, *old(buf), 4 * out@.len() as int, 0);
                }
                return Err(e);
            },
        };
        proof {
            buf.lemma_follows(here, *old(buf), 4 * out@.len() as int, 4);
        }
        out.push(word);
        assert(out@ =~= timestamps(s).take(out@.len() as int));
    }
    assert(out@ =~= timestamps(s));
    Ok(out)
}

/// Reads the chunk at which `buf` stands and hands out its compressed stream, which is a zlib
/// stream. A compression method other than 2 is refused before any byte of the stream is
/// read.
pub fn extract_chunk(buf: &mut Decoder) -> (r: Result<Vec<u8>, DecodeError>)
    ensures
        final(buf).agrees(old(buf), r, parse_chunk(old(buf).rest())),
{
    let ghost s = buf.rest();
    let size = buf.get_u32_be()?;
    let ghost after_size = *buf;
    let comp = match buf.get_u8() {
        Ok(comp) => comp,
        Err(e) => {
            proof {
                buf.lemma_follows(after_size, *old(buf), 4, 0);
            }
            return Err(e);
        },
    };
    proof {
        buf.lemma_follows(after_size, *old(buf), 4, 1);
    }
    if comp != 2 {
        return buf.fail(Error::UnsupportedCompression(comp));
    }
    if size == 0 {
        return buf.fail(Error::NegativeLength);
    }
    let ghost after_method = *buf;
    let r = buf.read_bytes((size - 1) as usize);
    proof {
        if size - 1 <= s.len() - 5 {
            buf.lemma_follows(after_method, *old(buf), 5, size - 1);
            assert(s.skip(5).take(size - 1) =~= s.subrange(5, 4 + size));
        } else {
            buf.lemma_follows(after_method, *old(buf), 5, 0);
        }
    }
    r
}

/// The bytes of a chunk, given what inflating its compressed stream gave: the bytes, or
/// nothing where the stream is corrupt. `offset` is where the chunk stands in the region.
pub fn inflated_chunk(inflated: Option<Vec<u8>>, offset: usize) -> (r: Result<Vec<u8>, DecodeError>)
    ensures
        r == match inflated {
            Some(bytes) => Ok::<Vec<u8>, DecodeError>(bytes),
            None => Err::<Vec<u8>, DecodeError>(
                DecodeError { kind: Error::DecompressionFailed, offset },
            ),
        },
{
    match inflated {
        Some(bytes) => Ok(bytes),
        None => Err(DecodeError { kind: Error::DecompressionFailed, offset }),
    }
}

/// A location entry of four zero bytes stands for a chunk that is absent; any other stands
/// for a chunk, also one whose first sector is 0.
pub proof fn law_absent_chunk(entry: Seq<u8>)
    requires
        entry.len() == 4,
    ensures
        locations(entry).len() == 1,
        locations(entry)[0] is None <==> entry == seq![0u8, 0u8, 0u8, 0u8],
        entry[0] == 0 && entry[1] == 0 && entry[2] == 0 && entry[3] != 0 ==> locations(entry)[0]
            == Some((0usize, entry[3] as usize)),
{
    assert(entry.skip(0) =~= entry);
    if be_u32(entry) == 0 {
        assert(entry =~= seq![0u8, 0u8, 0u8, 0u8]);
    }
}

/// A location table of 4096 bytes has 1024 entries, and so has a timestamp table.
pub proof fn law_table_entries(table: Seq<u8>)
    requires
        table.len() == 4096,
    ensures
        locations(table).len() == 1024,
        timestamps(table).len() == 1024,
{
}

/// A chunk whose compression method is not 2 is refused with that method, after the five
/// bytes of its header and before any byte of its stream.
pub proof fn law_unsupported_compression(s: Seq<u8>)
    requires
        s.len() >= 5,
        s[4] != 2,
    ensures
        parse_chunk(s) == Parsed::<Seq<u8>>::Fail(Error::UnsupportedCompression(s[4]), 5),
{
}

} // verus!
