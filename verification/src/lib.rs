//! Hide a message inside a PNG file by working on its chunk stream.
//!
//! The crate models the PNG container as a signature followed by a sequence
//! of chunks, each made of a length, a four-letter type, a payload and a
//! CRC-32 checksum. Every executable function carries a contract over a
//! mathematical model of that byte layout.

pub mod error;
pub mod bytes;
pub mod checksum;
pub mod text;
pub mod chunk_type;
pub mod chunk;
pub mod png;
pub mod commands;
