//! Filesystem access layer: typed handles over a platform adapter, a permit
//! ledger that bounds open descriptors, pooled read buffers, and a metadata
//! tree built by walking a directory.

pub mod error;
pub mod types;
pub mod cast;
pub mod id_gen;
pub mod path;
pub mod platform;
pub mod darwin;
pub mod filesystem;
pub mod trie;
pub mod interner;
pub mod ignore;
pub mod handle;
pub mod tree;
pub mod scratch;

pub use error::Error;
