//! Packs small chunks into larger blobs stored externally.
//!
//! - `chunk`: chunk kinds, chunk references and their byte encoding;
//! - `tags`: the labels the garbage-collection protocol puts on blobs;
//! - `index`: the blob index, with each blob's lifecycle state and tag;
//! - `backend`: where blobs are kept, and a backend in memory;
//! - `store`: the aggregating store that stages chunks and writes blobs out;
//! - `sync_pool`: a pool of reusable values shared between threads.

pub mod backend;
pub mod chunk;
pub mod index;
pub mod store;
pub mod sync_pool;
pub mod tags;
