//! The text of the `.stats` files.
pub mod figure_laws;
pub mod figures;
pub mod pieces;
pub mod report_laws;
pub mod reports;
pub mod sections;
pub mod torrent_laws;
