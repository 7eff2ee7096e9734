//! The torrent database.
pub mod catalog;
pub mod catalog_laws;
pub mod migrations;
pub mod queries;
pub mod tree;
pub mod types;
