//! A minimal content-addressable object model: canonical encoding and
//! decoding of blob and tree objects, SHA-1 based addressing, and a
//! zlib-compressed at-rest representation.
//!
//! The heart of the crate is the tree parser: tree payloads interleave
//! ASCII text (mode, name) with a fixed-width binary hash whose bytes may
//! equal the format's own delimiters, so parsing is length-driven and
//! never scans through hash bytes for a separator.

pub mod blob;
pub mod bytesutil;
pub mod codec;
pub mod digits;
pub mod errors;
pub mod hasher;
pub mod header;
pub mod store;
pub mod text;
pub mod tree;
pub mod tree_entry;
pub mod tree_sort;

pub use blob::HashObject;
pub use errors::ObjectError;
pub use tree::TreeObject;
pub use tree_entry::TreeObjectEntry;
