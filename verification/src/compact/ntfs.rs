//! NTFS live compression (`FSCTL_SET_COMPRESSION`, LZNT1 only).
//!
//! The compressed data lives in the file's own data stream. The ioctl
//! exists on Windows only; on other platforms every entry point reports
//! [`GError::NotSupportedPlatform`].

use vstd::prelude::*;
use crate::error::GError;

verus! {

/// `CTL_CODE(FILE_DEVICE_FILE_SYSTEM, 16, METHOD_BUFFERED, FILE_READ_DATA | FILE_WRITE_DATA)`.
pub const FSCTL_SET_COMPRESSION: u32 = 0x0009C040;

/// The `u16` formats `FSCTL_SET_COMPRESSION` accepts.
pub const COMPRESSION_FORMAT_NONE: u16 = 0;
pub const COMPRESSION_FORMAT_LZNT1: u16 = 2;

/// Sets the NTFS compression state of a file: `COMPRESSION_FORMAT_LZNT1`
/// compresses, `COMPRESSION_FORMAT_NONE` decompresses. Not available on
/// this platform.
pub fn set_ntfs_compression(path: &str, format: u16) -> (r: Result<(), GError>)
    requires
        format == COMPRESSION_FORMAT_LZNT1 || format == COMPRESSION_FORMAT_NONE,
    ensures
        r matches Err(GError::NotSupportedPlatform),
{
    Err(GError::NotSupportedPlatform)
}

} // verus!
