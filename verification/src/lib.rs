//! Decoding of NBT, a binary format of named, typed and nested tags, and of the region
//! container that packs many compressed NBT documents into one file.
//!
//! - [`nbt::types`] is the tag model, and [`nbt::fmt`] shows it as text.
//! - [`nbt::grammar`] states the byte format over sequences of bytes; [`nbt::laws`] and
//!   [`nbt::frame`] state what holds of it for every input.
//! - [`nbt::decode`] reads tags with a cursor over bytes, and [`parser`] reads them from byte
//!   slices. Both are proved to read what the grammar says.
//! - [`region`] reads the tables of a region and cuts the compressed stream of a chunk out
//!   of it.
//!
//! Floats are held as their bit patterns, so that what was decoded from the same bits is
//! equal.

pub mod error;
pub mod nbt;
pub mod parser;
pub mod region;
mod text;
