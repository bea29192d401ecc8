//! Plain-value helpers of the `compact` subcommand.

use vstd::prelude::*;
use crate::compact::estimate::FileClass;
use crate::compact::{CompactPhase, CompactState, TargetFolder};
use crate::config::Paths;
use crate::path_utils::path_join;
use crate::text::{contains_seq, contains_text, dec_seq, i64_to_dec, int_dec_seq, push_str, u64_to_dec};

verus! {

/// The directories a compaction target covers, in order: the game
/// directory, the object store of `alias`, or both.
pub open spec fn target_dirs(game_dir: Seq<char>, data_dir: Seq<char>, alias: Seq<char>, target: TargetFolder) -> Seq<Seq<char>> {
    let objects = path_join(path_join(data_dir, alias), "objects"@);
    match target {
        TargetFolder::GameDir => seq![game_dir],
        TargetFolder::DataDir => seq![objects],
        TargetFolder::Both => seq![game_dir, objects],
    }
}

/// Which physical directories to compact for `target`.
pub fn resolve_target_dirs(
    game_dir: &str,
    game_data_dir: &str,
    paths: &Paths,
    alias: &str,
    target: TargetFolder,
) -> (r: Vec<String>)
    ensures
        r@.map_values(|s: String| s@) == target_dirs(game_dir@, paths.data_dir@, alias@, target),
{
    let _ = game_data_dir;
    let mut dirs: Vec<String> = Vec::new();
    match target {
        TargetFolder::GameDir => dirs.push(String::from_str(game_dir)),
        TargetFolder::DataDir => dirs.push(paths.objects_dir(alias)),
        TargetFolder::Both => {
            dirs.push(String::from_str(game_dir));
            dirs.push(paths.objects_dir(alias));
        },
    }
    proof {
        assert(dirs@.map_values(|s: String| s@) =~= target_dirs(game_dir@, paths.data_dir@, alias@, target));
    }
    dirs
}

/// The name a file class is listed under.
pub open spec fn class_label(cls: FileClass) -> Seq<char> {
    match cls {
        FileClass::Executable => "executable"@,
        FileClass::Text => "text"@,
        FileClass::UncompressedMedia => "uncompressed media"@,
        FileClass::Other => "other"@,
    }
}

/// The name a file class is listed under in the estimate.
pub fn cls_label(cls: FileClass) -> (r: &'static str)
    ensures
        r@ == class_label(cls),
{
    match cls {
        FileClass::Executable => "executable",
        FileClass::Text => "text",
        FileClass::UncompressedMedia => "uncompressed media",
        FileClass::Other => "other",
    }
}

/// A duration in seconds as `Ns`, `Mm Ss` from a minute on, and `Hh Mm`
/// from an hour on.
pub open spec fn duration_text(secs: int) -> Seq<char> {
    if secs < 60 {
        int_dec_seq(secs) + "s"@
    } else if secs < 3600 {
        dec_seq((secs / 60) as nat) + "m "@ + dec_seq((secs % 60) as nat) + "s"@
    } else {
        dec_seq((secs / 3600) as nat) + "h "@ + dec_seq(((secs % 3600) / 60) as nat) + "m"@
    }
}

/// Formats an elapsed time for the status report.
pub fn format_duration(secs: i64) -> (r: String)
    ensures
        r@ == duration_text(secs as int),
{
    if secs < 60 {
        let mut s = i64_to_dec(secs);
        push_str(&mut s, "s");
        s
    } else if secs < 3600 {
        let mut s = u64_to_dec((secs / 60) as u64);
        push_str(&mut s, "m ");
        let t = u64_to_dec((secs % 60) as u64);
        push_str(&mut s, t.as_str());
        push_str(&mut s, "s");
        s
    } else {
        let mut s = u64_to_dec((secs / 3600) as u64);
        push_str(&mut s, "h ");
        let t = u64_to_dec(((secs % 3600) / 60) as u64);
        push_str(&mut s, t.as_str());
        push_str(&mut s, "m");
        s
    }
}


// ── The background worker ──────────────────────────────────────────────

/// What the worker does about pausing before its next batch.
#[derive(Debug, Clone, Copy, PartialEq, Eq, Structural)]
pub enum PauseAction {
    /// A tracked game started: pause and record it.
    Pause,
    /// No tracked game runs any more: resume.
    Resume,
    /// Nothing changed.
    Keep,
}

/// With auto-pause on, the worker pauses when a tracked game runs and it
/// is not yet paused, and resumes when none runs and it is paused.
pub fn auto_pause_step(paused: bool, any_running: bool) -> (r: PauseAction)
    ensures
        r == (if any_running && !paused {
            PauseAction::Pause
        } else if !any_running && paused {
            PauseAction::Resume
        } else {
            PauseAction::Keep
        }),
{
    if any_running && !paused {
        PauseAction::Pause
    } else if !any_running && paused {
        PauseAction::Resume
    } else {
        PauseAction::Keep
    }
}

/// A failure that is a filesystem limitation (Win32 error 344: the file
/// cannot be WOF-backed) rather than a real error.
pub fn is_wof_limit_error(message: &str) -> (r: bool)
    ensures
        r == contains_seq(message@, "Win32 error 344"@),
{
    contains_text(message, "Win32 error 344")
}

// ── Outcome of a run ───────────────────────────────────────────────────

/// How many of the first `n` failure messages are filesystem limitations.
pub open spec fn limit_count(msgs: Seq<Seq<char>>, n: int) -> nat
    decreases n,
{
    if n <= 0 {
        0
    } else {
        limit_count(msgs, n - 1) + if contains_seq(msgs[n - 1], "Win32 error 344"@) { 1nat } else { 0nat }
    }
}

/// The positions (before `n`) of the failures that are real errors.
pub open spec fn real_failure_indices(msgs: Seq<Seq<char>>, n: int) -> Seq<usize>
    decreases n,
{
    if n <= 0 {
        Seq::empty()
    } else {
        let p = real_failure_indices(msgs, n - 1);
        if contains_seq(msgs[n - 1], "Win32 error 344"@) { p } else { p.push((n - 1) as usize) }
    }
}

/// Splits the messages of failed files into those that are filesystem
/// limitations, which are reported as skipped (their count), and the
/// real errors (their positions, in order).
pub fn split_failures(msgs: &[String]) -> (r: (u64, Vec<usize>))
    ensures
        r.0 == limit_count(msgs@.map_values(|s: String| s@), msgs@.len() as int),
        r.1@ == real_failure_indices(msgs@.map_values(|s: String| s@), msgs@.len() as int),
{
    let ghost ms = msgs@.map_values(|s: String| s@);
    let mut skipped: u64 = 0;
    let mut errs: Vec<usize> = Vec::new();
    let mut i: usize = 0;
    while i < msgs.len()
        invariant
            i <= msgs@.len(),
            ms == msgs@.map_values(|s: String| s@),
            skipped == limit_count(ms, i as int),
            skipped <= i,
            errs@ == real_failure_indices(ms, i as int),
        decreases msgs@.len() - i,
    {
        if is_wof_limit_error(msgs[i].as_str()) {
            skipped = skipped + 1;
        } else {
            errs.push(i);
        }
        i = i + 1;
    }
    (skipped, errs)
}

/// The failures that remain once the skipped ones are taken out.
pub open spec fn real_failure_count(failed: nat, skipped: nat) -> nat {
    if failed >= skipped { (failed - skipped) as nat } else { 0 }
}

/// The message the background worker leaves in its state file when done.
pub open spec fn completion_text(compressed: nat, failed: nat, skipped: nat) -> Seq<char> {
    let n_real = real_failure_count(failed, skipped);
    if skipped > 0 && n_real == 0 {
        "completed: "@ + dec_seq(compressed) + " compressed, "@ + dec_seq(skipped) + " skipped (Win32 344)"@
    } else if n_real > 0 {
        "completed: "@ + dec_seq(compressed) + " compressed, "@ + dec_seq(n_real) + " failed, "@ + dec_seq(skipped)
            + " skipped (Win32 344)"@
    } else {
        "completed: "@ + dec_seq(compressed) + " compressed"@
    }
}

/// The final state message of a background compaction.
pub fn completion_message(compressed: u64, failed: u64, skipped: u64) -> (r: String)
    ensures
        r@ == completion_text(compressed as nat, failed as nat, skipped as nat),
{
    let rest = failed.saturating_sub(skipped);
    let mut s = String::from_str("completed: ");
    let c = u64_to_dec(compressed);
    push_str(&mut s, c.as_str());
    if skipped > 0 && rest == 0 {
        push_str(&mut s, " compressed, ");
        let k = u64_to_dec(skipped);
        push_str(&mut s, k.as_str());
        push_str(&mut s, " skipped (Win32 344)");
    } else if rest > 0 {
        push_str(&mut s, " compressed, ");
        let f = u64_to_dec(rest);
        push_str(&mut s, f.as_str());
        push_str(&mut s, " failed, ");
        let k = u64_to_dec(skipped);
        push_str(&mut s, k.as_str());
        push_str(&mut s, " skipped (Win32 344)");
    } else {
        push_str(&mut s, " compressed");
    }
    s
}

// ── The background worker's state file ──────────────────────────────────

/// `b` is `a` with at most its phase and message changed.
pub open spec fn same_but_phase_and_message(a: CompactState, b: CompactState) -> bool {
    &&& b.algorithm == a.algorithm
    &&& b.target == a.target
    &&& b.total_files == a.total_files
    &&& b.processed_files == a.processed_files
    &&& b.compressed_files == a.compressed_files
    &&& b.skipped_files == a.skipped_files
    &&& b.failed_files == a.failed_files
    &&& b.total_size == a.total_size
    &&& b.started_at == a.started_at
    &&& b.updated_at == a.updated_at
}

/// Applies the worker's pause decision to its state: pausing records the
/// running games (`running` is their summary), resuming clears the
/// message, and keeping changes nothing.
pub fn apply_pause(state: &mut CompactState, action: PauseAction, running: &str)
    ensures
        same_but_phase_and_message(*old(state), *final(state)),
        action == PauseAction::Pause ==> final(state).phase@ == "paused"@ && final(state).message@ == "paused: "@
            + running@,
        action == PauseAction::Resume ==> final(state).phase@ == "running"@ && final(state).message@ == Seq::<
            char,
        >::empty(),
        action == PauseAction::Keep ==> *final(state) == *old(state),
{
    match action {
        PauseAction::Pause => {
            state.phase = String::from_str(CompactPhase::Paused.as_str());
            let mut m = String::from_str("paused: ");
            push_str(&mut m, running);
            state.message = m;
            proof {
                reveal_strlit("paused: ");
            }
        },
        PauseAction::Resume => {
            state.phase = String::from_str(CompactPhase::Running.as_str());
            state.message = String::new();
        },
        PauseAction::Keep => {},
    }
}

/// Records a finished batch: files processed so far, compressed and
/// failed counts, and the time.
pub fn record_batch(state: &mut CompactState, processed: u64, compressed: u64, failed: u64, now: i64)
    ensures
        final(state).processed_files == processed,
        final(state).compressed_files == compressed,
        final(state).failed_files == failed,
        final(state).updated_at == now,
        final(state).phase == old(state).phase,
        final(state).message == old(state).message,
        final(state).algorithm == old(state).algorithm,
        final(state).target == old(state).target,
        final(state).total_files == old(state).total_files,
        final(state).skipped_files == old(state).skipped_files,
        final(state).total_size == old(state).total_size,
        final(state).started_at == old(state).started_at,
{
    state.processed_files = processed;
    state.compressed_files = compressed;
    state.failed_files = failed;
    state.updated_at = now;
}

/// Closes the run: every candidate processed, phase `done`, and the
/// completion message (see [`completion_text`]).
pub fn finish_run(state: &mut CompactState, total: u64, compressed: u64, failed: u64, skipped: u64, now: i64)
    ensures
        final(state).processed_files == total,
        final(state).compressed_files == compressed,
        final(state).failed_files == failed,
        final(state).updated_at == now,
        final(state).phase@ == "done"@,
        final(state).message@ == completion_text(compressed as nat, failed as nat, skipped as nat),
        final(state).algorithm == old(state).algorithm,
        final(state).target == old(state).target,
        final(state).total_files == old(state).total_files,
        final(state).skipped_files == old(state).skipped_files,
        final(state).total_size == old(state).total_size,
        final(state).started_at == old(state).started_at,
{
    state.processed_files = total;
    state.compressed_files = compressed;
    state.failed_files = failed;
    state.updated_at = now;
    state.phase = String::from_str(CompactPhase::Done.as_str());
    state.message = completion_message(compressed, failed, skipped);
}

} // verus!
