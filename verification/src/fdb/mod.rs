//! The FDB database format: its records, and a reader that walks a file by
//! the addresses it holds.

pub mod file;
pub mod laws;
pub mod parser;
pub mod reader;
pub mod source;
