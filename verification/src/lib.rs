//! Verified core of a FUSE filesystem that serves BitTorrent content.
//!
//! Every rule of the filesystem that does not itself touch the disk, the
//! network or the kernel lives here: which pieces a read wants, how a read
//! waits for the swarm, what a directory lists, what a `.stats` file says.

pub mod bencode;
pub mod bytes;
pub mod cli;
pub mod config;
pub mod db;
pub mod decimal;
pub mod digest;
pub mod engine;
pub mod engine_laws;
pub mod error;
pub mod fuse;
pub mod hashing;
pub mod paths;
pub mod piece_scheduler;
pub mod read_laws;
pub mod read_plan;
pub mod read_wait;
pub mod scheduler_laws;
pub mod seeding;
pub mod stats;
pub mod text;
pub mod torrent_file;
pub mod tracker;
pub mod tracker_laws;
pub mod trackers;
