//! Tags read from byte slices.

use crate::error::{DecodeError, Error};
use crate::nbt::grammar::{be_i8, lemma_payload_extent, parse_child};
use crate::parser::payload;
use crate::parser::raw;
use crate::parser::raw::{failed, reads, shifted};
use vstd::prelude::*;
use vstd::string::StringExecFns;

pub use crate::nbt::types::Tag;

verus! {

/// Reads the end marker: the byte 0. Any other byte is an error, found after it.
pub fn end(input: &[u8]) -> (r: Result<(&[u8], ()), DecodeError>)
    ensures
        input@.len() < 1 ==> r == failed::<(&[u8], ())>(Error::UnexpectedEnd, 0),
        input@.len() >= 1 && input@[0] != 0 ==> r == failed::<(&[u8], ())>(
            Error::InvalidTagId(be_i8(input@) as i8),
            1,
        ),
        input@.len() >= 1 && input@[0] == 0 ==> (r matches Ok((rest, _)) && rest@ == input@.skip(
            1,
        )),
{
    let (rest, id) = raw::byte(input)?;
    if id != 0 {
        return Err(DecodeError { kind: Error::InvalidTagId(id), offset: 1 });
    }
    Ok((rest, ()))
}

/// Reads a named tag: the identifier of a payload, the name and the payload.
pub fn tag(input: &[u8]) -> (r: Result<(&[u8], Tag), DecodeError>)
    ensures
        reads(input@, r, parse_child(input@)),
    decreases input@.len(), 0int, 0int,
{
    let ghost s = input@;
    let (rest, id) = raw::byte(input)?;
    if id < 1 || id > 12 {
        return Err(DecodeError { kind: Error::InvalidTagId(id), offset: 1 });
    }
    let (rest, nlen) = match raw::ushort(rest) {
        Ok(read) => read,
        Err(e) => {
            return shifted(e, 1);
        },
    };
    let (rest, name) = match raw::string(nlen as usize, rest) {
        Ok((rest, name)) => (rest, String::from_str(name)),
        Err(e) => {
            proof {
                if s.len() - 3 >= nlen {
                    assert(s.skip(1).skip(2).take(nlen as int) =~= s.skip(1).subrange(
                        2,
                        2 + nlen,
                    ));
                }
            }
            return shifted(e, 3);
        },
    };
    proof {
        assert(s.skip(1).skip(2).take(nlen as int) =~= s.skip(1).subrange(2, 2 + nlen));
        assert(s.skip(1).skip(2).skip(nlen as int) =~= s.skip(1).skip(2 + nlen));
        assert(s.skip(1).skip(2 + nlen) =~= s.skip(3 + nlen));
        lemma_payload_extent(id, rest@);
    }
    match payload::payload(id, rest) {
        Ok((after, val)) => {
            proof {
                let k = rest@.len() - after@.len();
                assert(s.skip(3 + nlen).skip(k) =~= s.skip(3 + nlen + k));
            }
            Ok((after, Tag::new(name, val)))
        },
        Err(e) => shifted(e, input.len() - rest.len()),
    }
}

} // verus!
