//! Volume geometry and free-space information.

use vstd::prelude::*;
use crate::error::GError;
use crate::text::{owned, push_char, push_str, upper_char};

verus! {

/// Geometry and free space of one volume.
#[derive(Debug, Clone)]
pub struct VolumeInfo {
    pub drive: char,
    pub volume_path: String,
    pub total_bytes: u64,
    pub free_bytes: u64,
    pub bytes_per_cluster: u64,
    pub bytes_per_sector_log: u32,
    pub bytes_per_sector_phys: u32,
    pub free_pct: u8,
    pub vss_active: bool,
}

/// The mask that rounds down to a multiple of the physical sector size.
pub open spec fn sector_mask(phys: u32) -> u64 {
    !((phys - 1) as u64)
}

impl VolumeInfo {
    /// `true` when free space is below `min_pct` percent.
    pub fn free_below(&self, min_pct: u8) -> (r: bool)
        ensures
            r == (self.free_pct < min_pct),
    {
        self.free_pct < min_pct
    }

    /// `!(physical sector size - 1)`.
    pub fn physical_sector_mask(&self) -> (r: u64)
        requires
            self.bytes_per_sector_phys > 0,
        ensures
            r == sector_mask(self.bytes_per_sector_phys),
    {
        !((self.bytes_per_sector_phys as u64) - 1)
    }

    /// Clusters on the volume (0 for a zero cluster size).
    pub fn total_clusters(&self) -> (r: u64)
        ensures
            r == (if self.bytes_per_cluster == 0 { 0 } else { self.total_bytes / self.bytes_per_cluster }),
    {
        if self.bytes_per_cluster == 0 {
            0
        } else {
            self.total_bytes / self.bytes_per_cluster
        }
    }
}

/// An open volume handle. Volumes can be opened only on Windows.
pub struct VolumeHandle {
    raw: usize,
}

impl VolumeHandle {
    /// The OS handle value, as a number.
    pub closed spec fn handle_value(&self) -> usize {
        self.raw
    }

    /// The OS handle value.
    pub fn raw(&self) -> (r: usize)
        ensures
            r == self.handle_value(),
    {
        self.raw
    }
}

/// Opens volume `drive`. Raw volume access is a Windows facility; on this
/// platform the call reports that the platform is not supported.
pub fn open_volume(drive: char) -> (r: Result<VolumeHandle, GError>)
    ensures
        r matches Err(GError::NotSupportedPlatform),
{
    Err(GError::NotSupportedPlatform)
}

/// Opens volume `drive` and returns its device path.
pub fn open_volume_for(drive: char) -> (r: Result<String, GError>)
    ensures
        r matches Err(GError::NotSupportedPlatform),
{
    let _h = open_volume(drive)?;
    Ok(owned("\\\\.\\"))
}

/// Geometry and free space of the volume holding `path`.
pub fn query_volume_info(path: &str) -> (r: Result<VolumeInfo, GError>)
    ensures
        r matches Err(GError::NotSupportedPlatform),
{
    Err(GError::NotSupportedPlatform)
}

/// Whether Volume Shadow Copy is active for the volume holding `path`;
/// never on this platform.
pub fn detect_vss_active(path: &str) -> (r: Result<bool, GError>)
    ensures
        r == Ok::<bool, GError>(false),
{
    Ok(false)
}

/// `true` for ASCII letters.
pub open spec fn is_ascii_alpha(c: char) -> bool {
    ('a' <= c && c <= 'z') || ('A' <= c && c <= 'Z')
}

/// The drive letter a path starts with (`X:`), upper-cased.
pub open spec fn drive_letter_spec(p: Seq<char>) -> Option<char> {
    if p.len() >= 2 && p[1] == ':' && is_ascii_alpha(p[0]) {
        Some(upper_char(p[0]))
    } else {
        None
    }
}

/// The drive letter of `path`, or an error naming the path when it has
/// none (UNC and relative paths) or the letter is not an ASCII letter.
pub fn drive_letter(path: &str) -> (r: Result<char, GError>)
    ensures
        match drive_letter_spec(path@) {
            Some(c) => r == Ok::<char, GError>(c),
            None => r matches Err(GError::Defrag(_)),
        },
{
    let n = path.unicode_len();
    if n < 2 || path.get_char(1) != ':' {
        let mut msg = owned("cannot determine drive letter for \"");
        push_str(&mut msg, path);
        push_str(&mut msg, "\" — defrag needs a drive letter (no UNC paths)");
        return Err(GError::Defrag(msg));
    }
    let d = path.get_char(0);
    if !(('a' <= d && d <= 'z') || ('A' <= d && d <= 'Z')) {
        let mut msg = owned("invalid drive letter \"");
        push_char(&mut msg, d);
        push_str(&mut msg, "\" in path \"");
        push_str(&mut msg, path);
        push_str(&mut msg, "\"");
        return Err(GError::Defrag(msg));
    }
    Ok(crate::text::char_to_upper(d))
}

} // verus!
