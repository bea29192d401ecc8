//! `gim defrag`: HDD-oriented defragmentation of game files.
//!
//! The pipeline: elevation check, media detection, per-file fragmentation
//! analysis, volume bitmap scan, safety validation, planning, and the moves
//! themselves with an I/O throttle. The planning and decoding steps live
//! here; the Win32 calls are available on Windows only.

pub mod admin;
pub mod bitmap;
pub mod file_map;
pub mod media;
pub mod move_file;
pub mod plan;
pub mod safety;
pub mod throttle;
pub mod volume;

use vstd::prelude::*;
use crate::error::GError;
use crate::path_utils::{join, path_join};
use crate::text::{ascii_lower, owned, push_str, str_eq, to_ascii_lower, trim, trim_seq, lemma_trim_plain, lemma_lower_plain};

verus! {

/// Which folder(s) to defragment for a game.
#[derive(Debug, Clone, Copy, PartialEq, Eq, Structural)]
pub enum TargetFolder {
    GameDir,
    DataDir,
    Both,
}

impl Default for TargetFolder {
    fn default() -> (r: Self)
        ensures
            r == TargetFolder::GameDir,
    {
        TargetFolder::GameDir
    }
}

/// Canonical name of a target.
pub open spec fn target_name(t: TargetFolder) -> Seq<char> {
    match t {
        TargetFolder::GameDir => "game"@,
        TargetFolder::DataDir => "data"@,
        TargetFolder::Both => "both"@,
    }
}

/// The target a normalized (trimmed, lower-cased) name stands for.
pub open spec fn target_for_key(k: Seq<char>) -> Option<TargetFolder> {
    if k == "game"@ || k == "game_dir"@ || k == "gamedir"@ {
        Some(TargetFolder::GameDir)
    } else if k == "data"@ || k == "data_dir"@ || k == "datadir"@ || k == "objects"@ {
        Some(TargetFolder::DataDir)
    } else if k == "both"@ || k == "all"@ {
        Some(TargetFolder::Both)
    } else {
        None
    }
}

/// What `TargetFolder::parse` gives for the text `s`.
pub open spec fn parse_target_spec(s: Seq<char>) -> Result<TargetFolder, Seq<char>> {
    let k = ascii_lower(trim_seq(s));
    match target_for_key(k) {
        Some(t) => Ok(t),
        None => Err("unknown defrag target \""@ + k + "\" (supported: game, data, both)"@),
    }
}

impl TargetFolder {
    /// Parses a target name (surrounding whitespace ignored, ASCII
    /// case-insensitive, with aliases).
    pub fn parse(s: &str) -> (r: Result<TargetFolder, GError>)
        ensures
            match parse_target_spec(s@) {
                Ok(t) => r == Ok::<TargetFolder, GError>(t),
                Err(m) => r matches Err(GError::Other(msg)) && msg@ == m,
            },
    {
        let k = to_ascii_lower(trim(s));
        let ks = k.as_str();
        if str_eq(ks, "game") || str_eq(ks, "game_dir") || str_eq(ks, "gamedir") {
            Ok(TargetFolder::GameDir)
        } else if str_eq(ks, "data") || str_eq(ks, "data_dir") || str_eq(ks, "datadir") || str_eq(ks, "objects") {
            Ok(TargetFolder::DataDir)
        } else if str_eq(ks, "both") || str_eq(ks, "all") {
            Ok(TargetFolder::Both)
        } else {
            let mut msg = owned("unknown defrag target \"");
            push_str(&mut msg, ks);
            push_str(&mut msg, "\" (supported: game, data, both)");
            Err(GError::Other(msg))
        }
    }

    pub fn as_str(&self) -> (r: &'static str)
        ensures
            r@ == target_name(*self),
    {
        match self {
            TargetFolder::GameDir => "game",
            TargetFolder::DataDir => "data",
            TargetFolder::Both => "both",
        }
    }
}

/// Parsing the canonical name of a target gives that target back.
pub proof fn lemma_target_roundtrip(t: TargetFolder)
    ensures
        parse_target_spec(target_name(t)) === Ok(t),
{
    reveal_strlit("game");
    reveal_strlit("data");
    reveal_strlit("both");
    reveal_strlit("game_dir");
    reveal_strlit("gamedir");
    reveal_strlit("data_dir");
    reveal_strlit("datadir");
    reveal_strlit("objects");
    reveal_strlit("all");
    assert("data"@[0] != "game"@[0]);
    assert("both"@[0] != "game"@[0]);
    assert("both"@[0] != "data"@[0]);
    let s = target_name(t);
    lemma_trim_plain(s);
    lemma_lower_plain(s);
    assert(target_for_key(s) == Some(t));
}

/// Options of a defragmentation run (command line merged with config).
#[derive(Debug, Clone)]
pub struct DefragOptions {
    pub target: TargetFolder,
    pub threads: usize,
    pub exclude: Vec<String>,
    pub force: bool,
    pub confirm: bool,
    pub dry_run: bool,
    pub allow_ssd: bool,
    /// Refuse to run below this free-space percentage.
    pub min_free_pct: u8,
    /// Skip files fragmented below this percentage.
    pub fragment_threshold_pct: u8,
    /// Extent cap per file (NTFS attribute-list safety).
    pub max_extents_per_file: u32,
    pub throttle_mb: u64,
    pub throttle_sleep_ms: u64,
    pub consolidate: bool,
}

impl Default for DefragOptions {
    fn default() -> (r: Self)
        ensures
            r.target == TargetFolder::GameDir,
            r.threads == 0,
            r.exclude@.len() == 0,
            !r.force,
            !r.confirm,
            !r.dry_run,
            !r.allow_ssd,
            r.min_free_pct == 15,
            r.fragment_threshold_pct == 5,
            r.max_extents_per_file == 20,
            r.throttle_mb == 500,
            r.throttle_sleep_ms == 200,
            r.consolidate,
    {
        DefragOptions {
            target: TargetFolder::GameDir,
            threads: 0,
            exclude: Vec::new(),
            force: false,
            confirm: false,
            dry_run: false,
            allow_ssd: false,
            min_free_pct: 15,
            fragment_threshold_pct: 5,
            max_extents_per_file: 20,
            throttle_mb: 500,
            throttle_sleep_ms: 200,
            consolidate: true,
        }
    }
}

/// Lifecycle phase of a defragmentation run.
#[derive(Debug, Clone, Copy, PartialEq, Eq, Structural)]
pub enum DefragPhase {
    Authorizing,
    DetectingMedia,
    Analyzing,
    ScanningBitmap,
    Validating,
    Defragmenting,
    Consolidating,
    Done,
    Failed,
    Cancelled,
}

pub open spec fn phase_name(p: DefragPhase) -> Seq<char> {
    match p {
        DefragPhase::Authorizing => "authorizing"@,
        DefragPhase::DetectingMedia => "detecting-media"@,
        DefragPhase::Analyzing => "analyzing"@,
        DefragPhase::ScanningBitmap => "scanning-bitmap"@,
        DefragPhase::Validating => "validating"@,
        DefragPhase::Defragmenting => "defragmenting"@,
        DefragPhase::Consolidating => "consolidating"@,
        DefragPhase::Done => "done"@,
        DefragPhase::Failed => "failed"@,
        DefragPhase::Cancelled => "cancelled"@,
    }
}

/// The phase a recorded name stands for; unknown names read as `Failed`.
pub open spec fn phase_for_name(s: Seq<char>) -> DefragPhase {
    if s == "authorizing"@ {
        DefragPhase::Authorizing
    } else if s == "detecting-media"@ {
        DefragPhase::DetectingMedia
    } else if s == "analyzing"@ {
        DefragPhase::Analyzing
    } else if s == "scanning-bitmap"@ {
        DefragPhase::ScanningBitmap
    } else if s == "validating"@ {
        DefragPhase::Validating
    } else if s == "defragmenting"@ {
        DefragPhase::Defragmenting
    } else if s == "consolidating"@ {
        DefragPhase::Consolidating
    } else if s == "done"@ {
        DefragPhase::Done
    } else if s == "cancelled"@ {
        DefragPhase::Cancelled
    } else {
        DefragPhase::Failed
    }
}

impl DefragPhase {
    pub fn as_str(&self) -> (r: &'static str)
        ensures
            r@ == phase_name(*self),
    {
        match self {
            DefragPhase::Authorizing => "authorizing",
            DefragPhase::DetectingMedia => "detecting-media",
            DefragPhase::Analyzing => "analyzing",
            DefragPhase::ScanningBitmap => "scanning-bitmap",
            DefragPhase::Validating => "validating",
            DefragPhase::Defragmenting => "defragmenting",
            DefragPhase::Consolidating => "consolidating",
            DefragPhase::Done => "done",
            DefragPhase::Failed => "failed",
            DefragPhase::Cancelled => "cancelled",
        }
    }

    /// The phase named `s` (exact match); anything else is `Failed`.
    pub fn parse(s: &str) -> (r: DefragPhase)
        ensures
            r == phase_for_name(s@),
    {
        if str_eq(s, "authorizing") {
            DefragPhase::Authorizing
        } else if str_eq(s, "detecting-media") {
            DefragPhase::DetectingMedia
        } else if str_eq(s, "analyzing") {
            DefragPhase::Analyzing
        } else if str_eq(s, "scanning-bitmap") {
            DefragPhase::ScanningBitmap
        } else if str_eq(s, "validating") {
            DefragPhase::Validating
        } else if str_eq(s, "defragmenting") {
            DefragPhase::Defragmenting
        } else if str_eq(s, "consolidating") {
            DefragPhase::Consolidating
        } else if str_eq(s, "done") {
            DefragPhase::Done
        } else if str_eq(s, "cancelled") {
            DefragPhase::Cancelled
        } else {
            DefragPhase::Failed
        }
    }
}

/// Reading back the recorded name of a phase gives that phase.
pub proof fn lemma_phase_roundtrip(p: DefragPhase)
    ensures
        phase_for_name(phase_name(p)) == p,
{
    reveal_strlit("authorizing");
    reveal_strlit("detecting-media");
    reveal_strlit("analyzing");
    reveal_strlit("scanning-bitmap");
    reveal_strlit("validating");
    reveal_strlit("defragmenting");
    reveal_strlit("consolidating");
    reveal_strlit("done");
    reveal_strlit("failed");
    reveal_strlit("cancelled");
    assert("authorizing"@.len() == 11);
    assert("detecting-media"@.len() == 15);
    assert("analyzing"@.len() == 9);
    assert("scanning-bitmap"@.len() == 15);
    assert("validating"@.len() == 10);
    assert("defragmenting"@.len() == 13);
    assert("consolidating"@.len() == 13);
    assert("done"@.len() == 4);
    assert("failed"@.len() == 6);
    assert("cancelled"@.len() == 9);
    assert("analyzing"@[0] != "cancelled"@[0]);
    assert("detecting-media"@[0] != "scanning-bitmap"@[0]);
    assert("defragmenting"@[0] != "consolidating"@[0]);
}

/// Progress of a background defragmentation, persisted between runs.
#[derive(Debug, Clone)]
pub struct DefragState {
    pub phase: String,
    pub target: String,
    pub total_files: u64,
    pub processed_files: u64,
    pub defragged_files: u64,
    pub skipped_files: u64,
    pub failed_files: u64,
    pub total_extents_before: u64,
    pub total_extents_after: u64,
    pub bytes_moved: u64,
    pub started_at: i64,
    pub updated_at: i64,
    pub message: String,
}

impl DefragState {
    /// A fresh state for `target` started at `now`, in the first phase.
    pub fn new_at(target: TargetFolder, now: i64) -> (r: DefragState)
        ensures
            r.phase@ == "authorizing"@,
            r.target@ == target_name(target),
            r.total_files == 0 && r.processed_files == 0 && r.defragged_files == 0,
            r.skipped_files == 0 && r.failed_files == 0,
            r.total_extents_before == 0 && r.total_extents_after == 0 && r.bytes_moved == 0,
            r.started_at == now && r.updated_at == now,
            r.message@.len() == 0,
    {
        DefragState {
            phase: owned(DefragPhase::Authorizing.as_str()),
            target: owned(target.as_str()),
            total_files: 0,
            processed_files: 0,
            defragged_files: 0,
            skipped_files: 0,
            failed_files: 0,
            total_extents_before: 0,
            total_extents_after: 0,
            bytes_moved: 0,
            started_at: now,
            updated_at: now,
            message: String::new(),
        }
    }

    /// A fresh state for `target` started now.
    pub fn new(target: TargetFolder) -> (r: DefragState)
        ensures
            r.phase@ == "authorizing"@,
            r.target@ == target_name(target),
            r.total_files == 0 && r.processed_files == 0 && r.defragged_files == 0,
            r.skipped_files == 0 && r.failed_files == 0,
            r.total_extents_before == 0 && r.total_extents_after == 0 && r.bytes_moved == 0,
            r.started_at == r.updated_at,
            r.message@.len() == 0,
    {
        DefragState::new_at(target, crate::clock::unix_now())
    }

    /// The recorded phase.
    pub fn phase(&self) -> (r: DefragPhase)
        ensures
            r == phase_for_name(self.phase@),
    {
        DefragPhase::parse(self.phase.as_str())
    }
}

/// `data/<alias>/defrag.state`.
pub fn state_file_path(data_dir: &str, alias: &str) -> (r: String)
    ensures
        r@ == path_join(path_join(data_dir@, alias@), "defrag.state"@),
{
    let d = join(data_dir, alias);
    join(d.as_str(), "defrag.state")
}

/// `data/<alias>/defrag.lock`.
pub fn lock_file_path(data_dir: &str, alias: &str) -> (r: String)
    ensures
        r@ == path_join(path_join(data_dir@, alias@), "defrag.lock"@),
{
    let d = join(data_dir, alias);
    join(d.as_str(), "defrag.lock")
}

} // verus!
