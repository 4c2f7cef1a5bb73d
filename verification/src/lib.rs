//! Named snapshots of a process environment, kept in a store file as one
//! JSON document.
//!
//! A store is either a cache, which keeps whole snapshots by name, or an
//! onion, which keeps one base snapshot and named layers that are active or
//! not. The commands of both take what reading the store's file gave and
//! hand back the file's new text or the lines to print; reading and writing
//! the file is the caller's part.

pub mod assoc;
pub mod cache;
pub mod cache_file;
pub mod codec;
pub mod env;
pub mod json;
pub mod onion;
pub mod onion_file;
pub mod store;
