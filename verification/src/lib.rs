//! A minimal content-addressable object store: objects are framed in a typed
//! envelope, named by the SHA-1 digest of that envelope, compressed with zlib
//! and filed under a two-level directory layout. Tree objects decode into
//! directory entries.

pub mod codec;
pub mod digest;
pub mod envelope;
pub mod error;
pub mod hex;
pub mod object_id;
pub mod order;
pub mod scan;
pub mod sorting;
pub mod store;
pub mod tree;
pub mod zlib;
