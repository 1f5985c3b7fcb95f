//! The core of an in-memory static asset server.
//!
//! At startup every regular file under a root directory is found, read, and
//! stored in a table under a canonical URL key. After that each request is
//! answered by one lookup in the table, which never changes again.
//!
//! - [`walk`] decides, entry by entry, how the directory tree is walked;
//!   [`tree`] says what such a walk amounts to on a tree as a whole.
//! - [`path`] computes the canonical key of a file.
//! - [`table`] builds the table from what was read.
//! - [`dispatch`] answers a request from the table.
//! - [`laws`] proves what holds of loading and dispatch together.
//! - [`blob`] states what is taken on trust of the byte buffers that the
//!   table stores.
//!
//! The library touches neither the file system nor the network: listings and
//! file contents are handed to it, and outcomes are handed back.

pub mod blob;
pub mod dispatch;
pub mod laws;
pub mod path;
pub mod table;
pub mod tree;
pub mod walk;
