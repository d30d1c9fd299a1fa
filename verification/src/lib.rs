//! Reading and writing of UltraStar song texts: the header of tags, the
//! lyrics of timed notes grouped into lines, and the end mark.
//!
//! - [`structs`] holds the data model and what is well formed in it;
//! - [`parser`] reads a text, [`generator`] writes one, and [`roundtrip`]
//!   proves that what is written is read back;
//! - [`grammar`] says which forms a line can have, [`text`] and [`numeral`]
//!   how a text is cut into lines and how numbers are written;
//! - [`loader`] decodes the bytes of a file and tells local references from
//!   remote ones.

pub mod generator;
pub mod grammar;
pub mod loader;
pub mod numeral;
pub mod parser;
pub mod roundtrip;
pub mod structs;
pub mod text;
