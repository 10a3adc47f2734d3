//! A minimal content-addressable object store in the style of a
//! version-control object database: blobs and trees are encoded as
//! length-prefixed, null-delimited records, addressed by the hex digest of
//! their encoded form, and persisted through a lossless compression codec.

pub mod blob;
pub mod bytes;
pub mod error;
pub mod git;
pub mod hash;
pub mod render;
pub mod store;
pub mod tree;
pub mod zlib;
