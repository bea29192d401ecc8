//! Plain-value helpers of the `defrag` subcommand.

use vstd::prelude::*;
use crate::config::Paths;
use crate::defrag::media::MediaKind;
use crate::defrag::TargetFolder;
use crate::path_utils::path_join;

verus! {

/// The directories a defragmentation target covers, in order.
pub open spec fn defrag_target_dirs(game_dir: Seq<char>, data_dir: Seq<char>, alias: Seq<char>, target: TargetFolder) -> Seq<Seq<char>> {
    let objects = path_join(path_join(data_dir, alias), "objects"@);
    match target {
        TargetFolder::GameDir => seq![game_dir],
        TargetFolder::DataDir => seq![objects],
        TargetFolder::Both => seq![game_dir, objects],
    }
}

/// Which physical directories to defragment for `target`.
pub fn resolve_target_dirs(
    game_dir: &str,
    data_dir: &str,
    paths: &Paths,
    alias: &str,
    target: TargetFolder,
) -> (r: Vec<String>)
    ensures
        r@.map_values(|s: String| s@) == defrag_target_dirs(game_dir@, paths.data_dir@, alias@, target),
{
    let _ = data_dir;
    let mut out: Vec<String> = Vec::new();
    match target {
        TargetFolder::GameDir => out.push(String::from_str(game_dir)),
        TargetFolder::DataDir => out.push(paths.objects_dir(alias)),
        TargetFolder::Both => {
            out.push(String::from_str(game_dir));
            out.push(paths.objects_dir(alias));
        },
    }
    proof {
        assert(out@.map_values(|s: String| s@) =~= defrag_target_dirs(game_dir@, paths.data_dir@, alias@, target));
    }
    out
}

/// What each kind of storage means for defragmentation.
pub open spec fn media_description(m: MediaKind) -> Seq<char> {
    match m {
        MediaKind::Hdd => "spinning disk — defrag helps"@,
        MediaKind::Ssd => "solid state — defrag hurts, skipping"@,
        MediaKind::Unknown => "unknown — treating as SSD (safe default)"@,
    }
}

/// The line printed after the detected storage kind.
pub fn media_kind_desc(m: MediaKind) -> (r: &'static str)
    ensures
        r@ == media_description(m),
{
    match m {
        MediaKind::Hdd => "spinning disk — defrag helps",
        MediaKind::Ssd => "solid state — defrag hurts, skipping",
        MediaKind::Unknown => "unknown — treating as SSD (safe default)",
    }
}

/// What the storage kind allows before any file is analysed.
#[derive(Debug, Clone, Copy, PartialEq, Eq, Structural)]
pub enum MediaGate {
    /// A spinning disk: go on.
    Proceed,
    /// Not a spinning disk, and `--allow-ssd` was given: stop without
    /// moving anything (no TRIM is issued).
    SkipSsd,
    /// Not a spinning disk: refuse.
    NotHdd,
}

/// Only a spinning disk is defragmented; on an SSD or an unknown drive
/// the run ends, quietly with `--allow-ssd`, else with an error.
pub fn media_gate(media: MediaKind, allow_ssd: bool) -> (r: MediaGate)
    ensures
        r == (match media {
            MediaKind::Hdd => MediaGate::Proceed,
            _ => if allow_ssd { MediaGate::SkipSsd } else { MediaGate::NotHdd },
        }),
{
    match media {
        MediaKind::Hdd => MediaGate::Proceed,
        _ => if allow_ssd { MediaGate::SkipSsd } else { MediaGate::NotHdd },
    }
}

} // verus!
