//! A verified codec for the PNG chunk container format.
//!
//! The library parses a byte stream into a sequence of typed, checksummed
//! chunks, validates each chunk's structural invariants, and re-serializes
//! the sequence back to an exact byte stream.

pub mod byte_order;
pub mod chunk;
pub mod chunk_type;
pub mod ops;
pub mod png;
pub mod text;
