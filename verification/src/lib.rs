//! Data structures and a random-access reader for the FDB database format.
//!
//! An FDB file indexes itself: a header at its start points to a list of
//! tables, each table to its columns and to the buckets of a hash index,
//! each bucket to a chain of rows, each row to its fields. The reader in
//! [`fdb::reader`] follows these addresses on a byte source held in memory
//! ([`fdb::source`]); it caches nothing and reads anew on every call.
//!
//! Contracts are stated over [`fdb::source::Stream`], the bytes, cursor and
//! issued operations of a byte source, and over functions of the bytes
//! alone, such as [`fdb::reader::record_at`] and [`fdb::reader::list_at`].
//! What holds of every file is collected in [`fdb::laws`].

pub mod fdb;
pub mod sysdiagram;
pub mod types;
