//! A Percolator-style multi-version transactional key-value engine.
//!
//! The column store, the server-side request handlers and the client-side
//! decisions of the two-phase commit are all verified here; the RPC
//! transport and the asynchronous driving loops live outside this crate.
pub mod bytes;
pub mod version_map;
pub mod msg;
pub mod table;
pub mod server;
pub mod client;
pub mod protocol;
pub mod laws;
pub mod hooks;
