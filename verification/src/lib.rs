//! `gim` — game files version control: the verified core.

pub mod cli;
pub mod clock;
pub mod commands;
pub mod compact;
pub mod config;
pub mod db;
pub mod defrag;
pub mod error;
pub mod hashing;
pub mod ignore_mod;
pub mod le;
pub mod output;
pub mod path_utils;
pub mod repack;
pub mod sorting;
pub mod text;
