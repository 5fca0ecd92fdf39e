//! Conversion between Unicode code points and UTF-16 code units, with
//! text reports of both kinds of sequence.

pub mod render;
pub mod unicode;
pub mod utf16;
