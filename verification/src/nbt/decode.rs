//! Decoding from a cursor over bytes.

use crate::error::DecodeError;
use crate::nbt::decode::decoder::Decoder;
use crate::nbt::grammar::{parse_tag, Parsed};
use crate::nbt::laws::law_tag_well_formed;
use crate::nbt::types::Tag;
use vstd::prelude::*;

pub mod decoder;
pub mod payloads;
pub mod tags;

verus! {

/// Decodes the tag that stands at the front of `bytes`, which are left as they are. Bytes
/// after the tag are not looked at.
pub fn decode(bytes: &[u8]) -> (r: Result<Tag, DecodeError>)
    ensures
        match parse_tag(bytes@) {
            Parsed::Done(value, _) => r matches Ok(tag) && tag@ == value && tag@.well_formed(),
            Parsed::Fail(kind, at) => r == Err::<Tag, DecodeError>(
                DecodeError { kind, offset: at as usize },
            ),
        },
{
    proof {
        law_tag_well_formed(bytes@);
    }
    let mut decoder = Decoder::new(bytes);
    decoder.read_tag()
}

} // verus!
