//! A verified codec for the chunk structure of PNG files.
//!
//! The codec parses, mutates and re-serializes the chunk stream of a PNG
//! byte buffer, and uses that to hide and retrieve text payloads inside
//! ancillary chunks.  Reading and writing files is left to the caller;
//! the library works on in-memory byte buffers alone.

pub mod checksum;
pub mod chunk;
pub mod chunk_type;
pub mod commands;
pub mod error;
pub mod png;
pub mod text;
