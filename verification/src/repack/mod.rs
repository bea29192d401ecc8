//! Repacking a game's snapshots into a single `.gim` archive: xtool
//! precompression (layer 1), then zstd, LZMA or LZ4 (layer 2).

pub mod compression;
pub mod manifest;
pub mod pack;
pub mod profile_file;
pub mod profiles;
pub mod xtool;
