//! The format as functions on byte slices.

pub mod payload;
pub mod raw;
pub mod tag;
