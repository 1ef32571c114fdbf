//! A write-back cache for the nodes of a sparse Merkle tree.
//!
//! Mutations are staged in an in-memory overlay ([`overlay::CacheOverlay`]); reads consult the
//! overlay before the durable engine; a commit turns the overlay into an ordered list of engine
//! operations whose effect on any engine state is proved to be the staged state.
pub mod codec;
pub mod error;
pub mod laws;
pub mod overlay;
pub mod store;
