//! Synchronization engine for a content-delivery client.
//!
//! Given a remote manifest of files (path, size, content hash), the engine
//! decides for every file whether the local copy is current, whether it is
//! supplied by a pre-packed archive instead of an individual download, and
//! if neither, that it must be fetched.  The crate holds the persistent
//! metadata cache used to avoid redundant downloads, the path checksum used
//! as the archive lookup key, the manifest and archive-index data types, and
//! the per-file decision rules that tie them together.

pub mod archive;
pub mod assoc;
pub mod boot;
pub mod cache;
pub mod config;
pub mod crc;
pub mod manifest;
pub mod md5sum;
pub mod patcher;
pub mod text;
pub mod util;
