//! A registry of named Bloom filters, the handler that serves it to remote
//! callers, and the rules by which its mutations are replicated to peers.

pub mod bits;
pub mod bloom;
pub mod filter;
pub mod handler;
pub mod hash;
pub mod registry;
pub mod replication;
pub mod store;
