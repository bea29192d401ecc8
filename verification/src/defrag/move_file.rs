//! Cluster moves (`FSCTL_MOVE_FILE`) with a re-check that the target is
//! still free right before each move.

use vstd::prelude::*;
use crate::error::GError;
use crate::defrag::bitmap::is_lcn_free;

verus! {

/// One move request: `cluster_count` clusters of the file starting at
/// `start_vcn`, to `target_lcn`. The file handle is carried as its value.
#[derive(Debug, Clone, Copy)]
pub struct MoveRequest {
    pub file_handle: usize,
    pub start_vcn: u64,
    pub cluster_count: u64,
    pub target_lcn: u64,
}

/// What happened to one move.
#[derive(Debug, Clone, Copy, PartialEq, Eq, Structural)]
pub enum MoveOutcome {
    Moved { bytes: u64 },
    /// The target clusters were no longer free.
    TargetOccupied,
    /// The file is in use by another process.
    Locked,
    /// Any other Win32 error.
    HardError(u32),
}

/// The outcome a failed `FSCTL_MOVE_FILE` reports for Win32 error `code`:
/// sharing, lock and access violations (32, 33, 5) mean the file is in
/// use; `ERROR_DISK_FULL` (112) means the target was taken.
pub fn classify_move_error(code: u32) -> (r: MoveOutcome)
    ensures
        r == (if code == 33 || code == 32 || code == 5 {
            MoveOutcome::Locked
        } else if code == 112 {
            MoveOutcome::TargetOccupied
        } else {
            MoveOutcome::HardError(code)
        }),
{
    if code == 33 || code == 32 || code == 5 {
        MoveOutcome::Locked
    } else if code == 112 {
        MoveOutcome::TargetOccupied
    } else {
        MoveOutcome::HardError(code)
    }
}

/// The outcome of a successful move of `cluster_count` clusters.
pub fn moved_outcome(cluster_count: u64, bytes_per_cluster: u64) -> (r: MoveOutcome)
    requires
        cluster_count * bytes_per_cluster <= u64::MAX,
    ensures
        r == (MoveOutcome::Moved { bytes: (cluster_count * bytes_per_cluster) as u64 }),
{
    MoveOutcome::Moved { bytes: cluster_count * bytes_per_cluster }
}

/// `true` if every cluster of `start_lcn .. start_lcn + count` (saturating)
/// is free right now; an empty range is free.
pub fn verify_target_free(drive: char, start_lcn: u64, count: u64) -> (r: Result<bool, GError>)
    ensures
        start_lcn.saturating_add(count) <= start_lcn ==> r == Ok::<bool, GError>(true),
        start_lcn.saturating_add(count) > start_lcn ==> (r matches Err(GError::NotSupportedPlatform)),
{
    let end = start_lcn.saturating_add(count);
    let mut lcn = start_lcn;
    while lcn < end
        invariant
            lcn == start_lcn,
            end == start_lcn.saturating_add(count),
        decreases end - lcn,
    {
        if !is_lcn_free(drive, lcn)? {
            return Ok(false);
        }
        lcn = lcn + 1;
    }
    Ok(true)
}

/// Moves clusters of a file after re-checking that the target is free.
/// The move itself is a Windows facility; on this platform it reports that
/// the platform is not supported.
pub fn execute_move(drive: char, volume_handle: usize, req: MoveRequest, bytes_per_cluster: u64) -> (r:
    Result<MoveOutcome, GError>)
    ensures
        r matches Err(GError::NotSupportedPlatform),
{
    if !verify_target_free(drive, req.target_lcn, req.cluster_count)? {
        return Ok(MoveOutcome::TargetOccupied);
    }
    Err(GError::NotSupportedPlatform)
}

} // verus!
