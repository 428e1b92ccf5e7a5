//! A user-space, path-addressed key/value store behind a file-handle
//! interface: callers open a path, receive a numeric handle, and then
//! read, write, truncate and close against that handle.
//!
//! The crate is organised bottom-up:
//! - [`path`]: path normalization (stripping leading and trailing separators);
//! - [`handle`]: per-open state ([`handle::NodeHandle`]) and the table of
//!   currently open handles ([`handle::HandleMap`]), which allocates ids and
//!   enforces the single-writer rule across the path hierarchy;
//! - [`storage`]: the byte content associated with each path
//!   ([`storage::MemStorage`], behind the [`storage::Storage`] capability);
//! - [`scheme`]: the request dispatcher ([`scheme::ConfigScheme`]) that turns
//!   open/read/write/close requests into handle and storage operations.

pub mod handle;
pub mod path;
pub mod scheme;
pub mod storage;
