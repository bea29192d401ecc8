[package]
name = "gim"
version = "0.1.0"
edition = "2021"
publish = false

[dependencies]
blake3 = "1"
xxhash-rust = { version = "0.8", features = ["xxh3"] }
zstd = "0.13"
xz2 = "0.1"
lz4_flex = "0.11"
colored = "2"
chrono = "0.4"
sysinfo = "0.33"
ignore = "0.4"
serde = { version = "1", features = ["derive"] }
serde_json = "1"
toml = "0.8"
clap = { version = "4", features = ["derive"] }
rusqlite = { version = "0.32", features = ["bundled"] }
env_logger = "0.11"
log = "0.4"
filetime = "0.2"
fs2 = "0.4"
dirs = "5"
rayon = "1"
thiserror = "1"

[dev-dependencies]
tempfile = "3"
