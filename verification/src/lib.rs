//! Verified core of an archive-backed virtual filesystem and of WebAssembly
//! feature sets.
pub mod error;
pub mod features;
pub mod path;
pub mod index;
pub mod order;
pub mod buffer;
pub mod fs_types;
pub mod tree;
pub mod indexed;
pub mod lru;
pub mod zipfs;
pub mod archive;
pub mod detect;
pub mod flock;
