//! A verified engine for reading the classic IDX/DAT asset-cache format.
//!
//! A cache on disk is a set of `.idx{N}` tables plus one shared `.dat2` sector
//! pool.  This crate reconstructs an archive's compressed byte stream from its
//! 520-byte sector chain, decodes the protocol-5/6 directory that describes an
//! index, decompresses containers (raw, bzip2 with its magic stripped, or
//! deflate behind a gzip header), and splits a decompressed archive into its
//! member files.  All of that logic is verified; the cache files themselves are
//! handed in as plain byte vectors by the caller.

pub mod cache;
pub mod codec;
pub mod cursor;
pub mod directory;

pub mod sector;
pub mod splitter;
pub mod util;

mod errors;

pub use cache::{Cache, CacheIndex};
pub use directory::{IdxContainer, IdxContainerInfo, IdxFileContainer};
pub use errors::CacheError;
