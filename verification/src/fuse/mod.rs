//! The tree that the filesystem shows, and the reads that wait on it.
pub mod inodes;
pub mod listing_laws;
pub mod lookup;
pub mod node_laws;
pub mod pending;
pub mod requests;
pub mod wait_laws;
