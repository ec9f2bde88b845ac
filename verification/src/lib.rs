//! A codec for a hierarchical, length-prefixed binary container format: a
//! tree of typed boxes, each carrying a 4-byte type tag and a declared size.
//! The crate provides the box-header codec, opaque leaf boxes, and the
//! recursive container engine that reads, validates, sizes and re-emits a
//! box tree over an in-memory byte stream.

pub mod error;
pub mod header;
pub mod laws;
pub mod leaf;
pub mod moov;
pub mod stream;
pub mod types;
