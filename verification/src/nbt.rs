//! The tag model and its decoder.

pub mod decode;
pub mod fmt;
pub mod frame;
pub mod grammar;
pub mod laws;
pub mod types;
