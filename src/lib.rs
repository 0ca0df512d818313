//! Live-process introspection for games built on a large object-oriented
//! runtime: anchor discovery by signature scanning, name-pool decoding,
//! object-array enumeration into a two-tier catalog, and catalog queries.
//!
//! The target's memory is seen through a `MemoryImage`, a set of disjoint,
//! sorted regions of bytes; every reader and walker is proved against the
//! byte-level model of that image.

pub mod memory;
pub mod text;
pub mod error;
pub mod scanner;
pub mod process;
pub mod anchors;
pub mod name_pool;
pub mod offsets;
pub mod shared_map;
pub mod objects;
pub mod object_array;
pub mod order;
pub mod package;
pub mod search;
pub mod instance;
pub mod types;
pub mod autoconfig;
pub mod state;
pub mod inspector;
pub mod session;
pub mod analyzer;
pub mod progress;
