//! A hash index whose entries live in an append-only content file.
//!
//! Keys are hashed to a 64-bit value; a B-tree maps each hash to the offset of
//! the first on-disk entry with that hash, and entries that share a hash form a
//! chain through their `next` offsets. The file itself is driven by the caller:
//! the library decides what to read, write and append, and interprets what the
//! file answers.
pub mod chain;
pub mod db;
pub mod execute;
pub mod model;
pub mod index;
pub mod le;
