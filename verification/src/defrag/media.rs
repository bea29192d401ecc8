//! Storage media detection: spinning disks benefit from defragmentation,
//! solid-state drives do not.

use vstd::prelude::*;
use crate::error::GError;
use crate::defrag::volume::{drive_letter_spec};

verus! {

#[derive(Debug, Clone, Copy, PartialEq, Eq, Structural)]
pub enum MediaKind {
    Hdd,
    Ssd,
    Unknown,
}

impl MediaKind {
    pub fn is_hdd(self) -> (r: bool)
        ensures
            r == (self == MediaKind::Hdd),
    {
        match self {
            MediaKind::Hdd => true,
            _ => false,
        }
    }

    /// SSD, or unknown media (treated as SSD — the safe default).
    pub fn is_ssd(self) -> (r: bool)
        ensures
            r == (self == MediaKind::Ssd || self == MediaKind::Unknown),
    {
        match self {
            MediaKind::Ssd | MediaKind::Unknown => true,
            _ => false,
        }
    }

    pub fn as_str(&self) -> (r: &'static str)
        ensures
            r@ == (match *self {
                MediaKind::Hdd => "hdd"@,
                MediaKind::Ssd => "ssd"@,
                MediaKind::Unknown => "unknown"@,
            }),
    {
        match self {
            MediaKind::Hdd => "hdd",
            MediaKind::Ssd => "ssd",
            MediaKind::Unknown => "unknown",
        }
    }
}

/// The kind of media a seek-penalty query reports: a failed query gives
/// `Unknown`, a seek penalty means a spinning disk.
pub fn media_from_seek_penalty(query_ok: bool, incurs_seek_penalty: u8) -> (r: MediaKind)
    ensures
        r == (if !query_ok {
            MediaKind::Unknown
        } else if incurs_seek_penalty != 0 {
            MediaKind::Hdd
        } else {
            MediaKind::Ssd
        }),
{
    if !query_ok {
        MediaKind::Unknown
    } else if incurs_seek_penalty != 0 {
        MediaKind::Hdd
    } else {
        MediaKind::Ssd
    }
}

/// The media kind of the volume holding `path`. The seek-penalty query is
/// a Windows facility; on this platform media reads as solid state.
pub fn detect_media_kind(path: &str) -> (r: Result<MediaKind, GError>)
    ensures
        r == Ok::<MediaKind, GError>(MediaKind::Ssd),
{
    Ok(MediaKind::Ssd)
}

/// The upper-cased drive letter `path` starts with (`X:`), if any.
pub fn drive_letter_str(path: &str) -> (r: Option<char>)
    ensures
        r == drive_letter_spec(path@),
{
    let n = path.unicode_len();
    if n >= 2 {
        let d = path.get_char(0);
        if path.get_char(1) == ':' && (('a' <= d && d <= 'z') || ('A' <= d && d <= 'Z')) {
            return Some(crate::text::char_to_upper(d));
        }
    }
    None
}

} // verus!
