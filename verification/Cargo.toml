[package]
name = "torrentfs"
version = "0.1.0"
edition = "2021"
publish = false

[dependencies]
clap = { version = "4", features = ["derive"] }
dirs = "*"
fuser = { version = "0.16", default-features = false }
hex = "0.4"
libc = "0.2"
parking_lot = "0.12"
rusqlite = { version = "*", features = ["bundled"] }
serde = { version = "1", features = ["derive"] }
serde_json = "1"
sha1_smol = "1"
toml = "0.8"
tracing = "0.1"
tracing-subscriber = "0.3"
