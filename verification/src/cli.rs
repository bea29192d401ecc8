//! The command line as data: the global flags and one variant per
//! subcommand. Paths are carried as text; parsing the process arguments
//! into these values happens outside the library.

use vstd::prelude::*;

verus! {

/// Global flags and the subcommand to run.
#[derive(Debug, Clone)]
pub struct Cli {
    pub no_color: bool,
    /// Disable progress spinner/bar.
    pub no_progress: bool,
    /// How many times `-v` was given.
    pub verbose: u8,
    pub command: Command,
}

/// One subcommand with its arguments.
#[derive(Debug, Clone)]
pub enum Command {
    Add { alias: String, game_dir: String, title: Option<String>, data_dir: Option<String> },
    Remove { alias: String, confirm: bool },
    List { details: bool, json: bool },
    Snap {
        alias: String,
        id: Option<String>,
        msg: Option<String>,
        threads: Option<usize>,
        dry_run: bool,
        full_hash: bool,
        /// Exclude files from this snap only (gitignore syntax).
        exclude: Option<Vec<String>>,
        /// Only include files matching these patterns in this snap.
        include_only: Option<Vec<String>>,
    },
    Restore { alias: String, snapshot_id: String, full: bool, threads: Option<usize>, dry_run: bool },
    Status { alias: String, threads: Option<usize>, json: bool, full_hash: bool },
    Log { alias: String, oneline: bool, json: bool, n: Option<usize> },
    Diff { alias: String, snapshot_a: String, snapshot_b: String, stat: bool, json: bool },
    Delete { alias: String, snapshot_id: String, dry_run: bool, force: bool },
    Branch {
        alias: String,
        create: Option<String>,
        delete: Option<String>,
        switch: Option<String>,
        from: Option<String>,
        force: bool,
        json: bool,
    },
    Gc { alias: String, dry_run: bool },
    Ignore { alias: String, add: Option<String>, remove: Option<String>, list: bool, edit: bool },
    /// Get or set configuration; without an alias, the global config.
    Config {
        alias: Option<String>,
        get: Option<String>,
        /// `[key, value]`.
        set: Option<Vec<String>>,
        unset: Option<String>,
        list: bool,
        /// Skip the confirmation prompt for changes that need a rehash.
        yes: bool,
    },
    /// Migrate the database schema to the latest version.
    Migrate { alias: Option<String> },
    /// Repack snapshots into a compressed, portable archive.
    Repack {
        alias: Option<String>,
        profile: Option<String>,
        list_profiles: bool,
        level: Option<u32>,
        snapshots: Option<Vec<String>>,
        threads: Option<usize>,
        memory: Option<u64>,
        output: Option<String>,
        dry_run: bool,
    },
    /// Unpack a `.gim` archive to a directory.
    Unpack {
        gim_file: String,
        output_dir: String,
        snapshot: Option<String>,
        track: bool,
        threads: Option<usize>,
        dry_run: bool,
    },
    /// Unpack, register and create a shortcut.
    Install {
        gim_file: String,
        output_dir: String,
        snapshot: Option<String>,
        track: bool,
        threads: Option<usize>,
        interactive: bool,
        dry_run: bool,
    },
    /// Transparently compress a game's files.
    Compact {
        alias: String,
        algorithm: Option<String>,
        target: Option<String>,
        decompress: bool,
        confirm: bool,
        force: bool,
        threads: Option<usize>,
        exclude: Option<Vec<String>>,
        background: bool,
        status: bool,
        dry_run: bool,
        worker: bool,
        lock_file: Option<String>,
    },
    /// Defragment a game's files.
    Defrag {
        alias: String,
        target: Option<String>,
        confirm: bool,
        force: bool,
        allow_ssd: bool,
        threads: Option<usize>,
        exclude: Option<Vec<String>>,
        dry_run: bool,
    },
}

} // verus!
