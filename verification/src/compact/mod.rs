//! `gim compact`: on-disk compression of game folders and snapshot data.
//!
//! Two Windows mechanisms are supported (see [`algorithm::CompactMode`]):
//! NTFS compression (LZNT1 only) and the Windows Overlay Filter (LZX and
//! the XPRESS variants; LZX is the default). This module holds the
//! building blocks: algorithm selection, per-file compress/decompress,
//! estimation, and the background worker's state.

pub mod algorithm;
pub mod estimate;
pub mod game_running;
pub mod ntfs;
pub mod wof;

use vstd::prelude::*;
use crate::compact::algorithm::{CompactAlgorithm, algorithm_name};
use crate::error::GError;
use crate::path_utils::{join, path_join};
use crate::text::{ascii_lower, owned, push_str, str_eq, to_ascii_lower, trim, trim_seq, lemma_trim_plain, lemma_lower_plain};

verus! {

/// Which folder(s) to compact for a game.
#[derive(Debug, Clone, Copy, PartialEq, Eq, Structural)]
pub enum TargetFolder {
    /// The game's own directory.
    GameDir,
    /// The game's snapshot objects (`data/<alias>/objects`).
    DataDir,
    /// Both.
    Both,
}

impl Default for TargetFolder {
    fn default() -> (r: Self)
        ensures
            r == TargetFolder::GameDir,
    {
        TargetFolder::GameDir
    }
}

pub open spec fn target_name(t: TargetFolder) -> Seq<char> {
    match t {
        TargetFolder::GameDir => "game"@,
        TargetFolder::DataDir => "data"@,
        TargetFolder::Both => "both"@,
    }
}

/// The target a normalized (trimmed, lower-cased) name stands for.
pub open spec fn target_for_key(k: Seq<char>) -> Option<TargetFolder> {
    if k == "game"@ || k == "game_dir"@ || k == "gamedir"@ {
        Some(TargetFolder::GameDir)
    } else if k == "data"@ || k == "data_dir"@ || k == "datadir"@ || k == "objects"@ {
        Some(TargetFolder::DataDir)
    } else if k == "both"@ || k == "all"@ {
        Some(TargetFolder::Both)
    } else {
        None
    }
}

/// What `TargetFolder::parse` gives for the text `s`.
pub open spec fn parse_target_spec(s: Seq<char>) -> Result<TargetFolder, Seq<char>> {
    let k = ascii_lower(trim_seq(s));
    match target_for_key(k) {
        Some(t) => Ok(t),
        None => Err("unknown compact target \""@ + k + "\" (supported: game, data, both)"@),
    }
}

impl TargetFolder {
    /// Parses a target name (surrounding whitespace ignored, ASCII
    /// case-insensitive, with aliases).
    pub fn parse(s: &str) -> (r: Result<TargetFolder, GError>)
        ensures
            match parse_target_spec(s@) {
                Ok(t) => r == Ok::<TargetFolder, GError>(t),
                Err(m) => r matches Err(GError::Other(msg)) && msg@ == m,
            },
    {
        let k = to_ascii_lower(trim(s));
        let ks = k.as_str();
        if str_eq(ks, "game") || str_eq(ks, "game_dir") || str_eq(ks, "gamedir") {
            Ok(TargetFolder::GameDir)
        } else if str_eq(ks, "data") || str_eq(ks, "data_dir") || str_eq(ks, "datadir") || str_eq(ks, "objects") {
            Ok(TargetFolder::DataDir)
        } else if str_eq(ks, "both") || str_eq(ks, "all") {
            Ok(TargetFolder::Both)
        } else {
            let mut msg = owned("unknown compact target \"");
            push_str(&mut msg, ks);
            push_str(&mut msg, "\" (supported: game, data, both)");
            Err(GError::Other(msg))
        }
    }

    pub fn as_str(&self) -> (r: &'static str)
        ensures
            r@ == target_name(*self),
    {
        match self {
            TargetFolder::GameDir => "game",
            TargetFolder::DataDir => "data",
            TargetFolder::Both => "both",
        }
    }
}

/// Parsing the canonical name of a target gives that target back.
pub proof fn lemma_target_roundtrip(t: TargetFolder)
    ensures
        parse_target_spec(target_name(t)) === Ok(t),
{
    reveal_strlit("game");
    reveal_strlit("data");
    reveal_strlit("both");
    reveal_strlit("game_dir");
    reveal_strlit("gamedir");
    reveal_strlit("data_dir");
    reveal_strlit("datadir");
    reveal_strlit("objects");
    reveal_strlit("all");
    assert("data"@[0] != "game"@[0]);
    assert("both"@[0] != "game"@[0]);
    assert("both"@[0] != "data"@[0]);
    let s = target_name(t);
    lemma_trim_plain(s);
    lemma_lower_plain(s);
    assert(target_for_key(s) == Some(t));
}

/// Options of a compaction run (command line merged with config).
#[derive(Debug, Clone)]
pub struct CompactOptions {
    pub algorithm: CompactAlgorithm,
    pub target: TargetFolder,
    pub threads: usize,
    pub exclude: Vec<String>,
    pub force: bool,
    pub confirm: bool,
    pub background: bool,
    pub dry_run: bool,
}

impl Default for CompactOptions {
    fn default() -> (r: Self)
        ensures
            r.algorithm == CompactAlgorithm::Lzx,
            r.target == TargetFolder::GameDir,
            r.threads == 0,
            r.exclude@.len() == 0,
            !r.force && !r.confirm && !r.background && !r.dry_run,
    {
        CompactOptions {
            algorithm: CompactAlgorithm::Lzx,
            target: TargetFolder::GameDir,
            threads: 0,
            exclude: Vec::new(),
            force: false,
            confirm: false,
            background: false,
            dry_run: false,
        }
    }
}

/// Lifecycle phase recorded in the background state file.
#[derive(Debug, Clone, Copy, PartialEq, Eq, Structural)]
pub enum CompactPhase {
    Starting,
    Running,
    /// Auto-paused while a tracked game runs.
    Paused,
    Done,
    Failed,
}

pub open spec fn phase_name(p: CompactPhase) -> Seq<char> {
    match p {
        CompactPhase::Starting => "starting"@,
        CompactPhase::Running => "running"@,
        CompactPhase::Paused => "paused"@,
        CompactPhase::Done => "done"@,
        CompactPhase::Failed => "failed"@,
    }
}

/// The phase a recorded name stands for; unknown names read as `Failed`.
pub open spec fn phase_for_name(s: Seq<char>) -> CompactPhase {
    if s == "starting"@ {
        CompactPhase::Starting
    } else if s == "running"@ {
        CompactPhase::Running
    } else if s == "paused"@ {
        CompactPhase::Paused
    } else if s == "done"@ {
        CompactPhase::Done
    } else {
        CompactPhase::Failed
    }
}

impl CompactPhase {
    pub fn as_str(&self) -> (r: &'static str)
        ensures
            r@ == phase_name(*self),
    {
        match self {
            CompactPhase::Starting => "starting",
            CompactPhase::Running => "running",
            CompactPhase::Paused => "paused",
            CompactPhase::Done => "done",
            CompactPhase::Failed => "failed",
        }
    }

    /// The phase named `s` (exact match); anything else is `Failed`.
    pub fn parse(s: &str) -> (r: CompactPhase)
        ensures
            r == phase_for_name(s@),
    {
        if str_eq(s, "starting") {
            CompactPhase::Starting
        } else if str_eq(s, "running") {
            CompactPhase::Running
        } else if str_eq(s, "paused") {
            CompactPhase::Paused
        } else if str_eq(s, "done") {
            CompactPhase::Done
        } else {
            CompactPhase::Failed
        }
    }
}

/// Reading back the recorded name of a phase gives that phase.
pub proof fn lemma_phase_roundtrip(p: CompactPhase)
    ensures
        phase_for_name(phase_name(p)) == p,
{
    reveal_strlit("starting");
    reveal_strlit("running");
    reveal_strlit("paused");
    reveal_strlit("done");
    reveal_strlit("failed");
    assert("starting"@.len() == 8);
    assert("running"@.len() == 7);
    assert("paused"@.len() == 6);
    assert("done"@.len() == 4);
    assert("failed"@.len() == 6);
    assert("failed"@[0] != "paused"@[0]);
}

/// Progress of a background compaction, persisted between processes.
#[derive(Debug, Clone)]
pub struct CompactState {
    pub phase: String,
    pub algorithm: String,
    pub target: String,
    pub total_files: u64,
    pub processed_files: u64,
    pub compressed_files: u64,
    pub skipped_files: u64,
    pub failed_files: u64,
    pub total_size: u64,
    pub started_at: i64,
    pub updated_at: i64,
    pub message: String,
}

impl CompactState {
    /// A fresh state started at `now`, in the first phase.
    pub fn new_at(algorithm: CompactAlgorithm, target: TargetFolder, now: i64) -> (r: CompactState)
        ensures
            r.phase@ == "starting"@,
            r.algorithm@ == algorithm_name(algorithm),
            r.target@ == target_name(target),
            r.total_files == 0 && r.processed_files == 0 && r.compressed_files == 0,
            r.skipped_files == 0 && r.failed_files == 0 && r.total_size == 0,
            r.started_at == now && r.updated_at == now,
            r.message@.len() == 0,
    {
        CompactState {
            phase: owned(CompactPhase::Starting.as_str()),
            algorithm: owned(algorithm.as_str()),
            target: owned(target.as_str()),
            total_files: 0,
            processed_files: 0,
            compressed_files: 0,
            skipped_files: 0,
            failed_files: 0,
            total_size: 0,
            started_at: now,
            updated_at: now,
            message: String::new(),
        }
    }

    /// A fresh state started now.
    pub fn new(algorithm: CompactAlgorithm, target: TargetFolder) -> (r: CompactState)
        ensures
            r.phase@ == "starting"@,
            r.algorithm@ == algorithm_name(algorithm),
            r.target@ == target_name(target),
            r.total_files == 0 && r.processed_files == 0 && r.compressed_files == 0,
            r.skipped_files == 0 && r.failed_files == 0 && r.total_size == 0,
            r.started_at == r.updated_at,
            r.message@.len() == 0,
    {
        CompactState::new_at(algorithm, target, crate::clock::unix_now())
    }

    /// The recorded phase.
    pub fn phase(&self) -> (r: CompactPhase)
        ensures
            r == phase_for_name(self.phase@),
    {
        CompactPhase::parse(self.phase.as_str())
    }
}

/// `data/<alias>/compact.state`.
pub fn state_file_path(data_dir: &str, alias: &str) -> (r: String)
    ensures
        r@ == path_join(path_join(data_dir@, alias@), "compact.state"@),
{
    let d = join(data_dir, alias);
    join(d.as_str(), "compact.state")
}

/// `data/<alias>/compact.lock`.
pub fn lock_file_path(data_dir: &str, alias: &str) -> (r: String)
    ensures
        r@ == path_join(path_join(data_dir@, alias@), "compact.lock"@),
{
    let d = join(data_dir, alias);
    join(d.as_str(), "compact.lock")
}

/// Applies the configured algorithm to one file of `file_size` bytes
/// (`None` when its size could not be read). Files below
/// [`estimate::MIN_COMPRESS_SIZE`] are left alone; the rest go to the
/// NTFS or WOF ioctl, or are decompressed.
pub fn compress_file(path: &str, file_size: Option<u64>, opts: &CompactOptions) -> (r: Result<(), GError>)
    ensures
        (file_size matches Some(n) && n < estimate::MIN_COMPRESS_SIZE) ==> r is Ok,
        !(file_size matches Some(n) && n < estimate::MIN_COMPRESS_SIZE) ==> r matches Err(
            GError::NotSupportedPlatform,
        ),
{
    if let Some(n) = file_size {
        if n < estimate::MIN_COMPRESS_SIZE {
            return Ok(());
        }
    }
    match opts.algorithm {
        CompactAlgorithm::Ntfs => ntfs::set_ntfs_compression(path, ntfs::COMPRESSION_FORMAT_LZNT1),
        CompactAlgorithm::Xpress4k => wof::set_wof_compression(path, wof::FILE_PROVIDER_COMPRESSION_XPRESS4K),
        CompactAlgorithm::Lzx => wof::set_wof_compression(path, wof::FILE_PROVIDER_COMPRESSION_LZX),
        CompactAlgorithm::Xpress8k => wof::set_wof_compression(path, wof::FILE_PROVIDER_COMPRESSION_XPRESS8K),
        CompactAlgorithm::Xpress16k => wof::set_wof_compression(path, wof::FILE_PROVIDER_COMPRESSION_XPRESS16K),
        CompactAlgorithm::Decompress => decompress_file(path),
    }
}

/// Removes WOF backing, then NTFS compression, from a file.
pub fn decompress_file(path: &str) -> (r: Result<(), GError>)
    ensures
        r matches Err(GError::NotSupportedPlatform),
{
    match wof::remove_wof_compression(path) {
        Ok(()) => {},
        Err(e) => return Err(e),
    }
    ntfs::set_ntfs_compression(path, ntfs::COMPRESSION_FORMAT_NONE)
}

} // verus!
