//! Windows Overlay Filter (WOF) compression (`FSCTL_SET_EXTERNAL_BACKING`).
//!
//! The file stays readable; compressed chunks live in a backing stream
//! managed by the WOF driver. The request payload is a `WOF_EXTERNAL_INFO`
//! header followed by a `FILE_PROVIDER_EXTERNAL_INFO_1` body, built by
//! [`build_backing_payload`]. The ioctls exist on Windows only; on other
//! platforms the entry points report [`GError::NotSupportedPlatform`].

use vstd::prelude::*;
use crate::error::GError;
use crate::le::{le_bytes_u32, u32_le_bytes};
use crate::text::{owned, push_str, u64_to_dec, dec_seq, hex_char};

verus! {

/// `CTL_CODE(FILE_DEVICE_FILE_SYSTEM, 195, METHOD_BUFFERED, FILE_SPECIAL_ACCESS)`.
pub const FSCTL_SET_EXTERNAL_BACKING: u32 = 0x0009030C;
/// `CTL_CODE(FILE_DEVICE_FILE_SYSTEM, 196, METHOD_BUFFERED, FILE_ANY_ACCESS)`.
pub const FSCTL_GET_EXTERNAL_BACKING: u32 = 0x00090310;
/// `CTL_CODE(FILE_DEVICE_FILE_SYSTEM, 197, METHOD_BUFFERED, FILE_SPECIAL_ACCESS)`.
pub const FSCTL_DELETE_EXTERNAL_BACKING: u32 = 0x00090314;

pub const WOF_CURRENT_VERSION: u32 = 1;
/// The file backing provider (as opposed to WIM).
pub const WOF_PROVIDER_FILE: u32 = 1;

/// `FILE_PROVIDER_COMPRESSION_*` algorithms (wofapi.h).
pub const FILE_PROVIDER_COMPRESSION_XPRESS4K: u32 = 0;
pub const FILE_PROVIDER_COMPRESSION_LZX: u32 = 1;
pub const FILE_PROVIDER_COMPRESSION_XPRESS8K: u32 = 2;
pub const FILE_PROVIDER_COMPRESSION_XPRESS16K: u32 = 3;
pub const FILE_PROVIDER_COMPRESSION_NO_COMPRESSION: u32 = 4;

/// "Incorrect function": the WOF driver is missing or not attached.
pub const ERROR_INVALID_FUNCTION: u32 = 1;
/// The file system does not support WOF.
pub const ERROR_NOT_SUPPORTED: u32 = 50;

/// Availability of the WOF driver on the system.
#[derive(Debug, Clone, PartialEq, Eq, Structural)]
pub enum WofDriverStatus {
    /// `wof.sys` exists and its service is not disabled.
    Available,
    /// `wof.sys` exists but its service is disabled (`Start` = 4).
    Disabled,
    /// `wof.sys` is not installed.
    NotInstalled,
}

/// What the driver's state is, from whether `wof.sys` exists and the
/// `Start` value of its service key (`None` when it cannot be read): not
/// installed without the file; disabled when `Start` is 4 or unreadable
/// (the driver is clearly not loaded then); available otherwise.
pub fn wof_status(exists: bool, start: Option<u32>) -> (r: WofDriverStatus)
    ensures
        r == (if !exists {
            WofDriverStatus::NotInstalled
        } else if start == Some(4u32) || start is None {
            WofDriverStatus::Disabled
        } else {
            WofDriverStatus::Available
        }),
{
    if !exists {
        return WofDriverStatus::NotInstalled;
    }
    match start {
        Some(4) => WofDriverStatus::Disabled,
        Some(_) => WofDriverStatus::Available,
        None => WofDriverStatus::Disabled,
    }
}

/// Probes the WOF driver (the driver file and its service registry key,
/// on Windows, decided by [`wof_status`]). On this platform there is
/// none.
pub fn probe_wof_driver() -> (r: WofDriverStatus)
    ensures
        r == WofDriverStatus::NotInstalled,
{
    wof_status(false, None)
}

/// Enables the WOF service (sets its `Start` to boot start); needs
/// Administrator rights and a restart, on Windows. Not available here.
pub fn enable_wof_driver() -> (r: Result<(), GError>)
    ensures
        r matches Err(GError::NotSupportedPlatform),
{
    Err(GError::NotSupportedPlatform)
}

/// What the compactor remembers about WOF between files: once a
/// `FSCTL_SET_EXTERNAL_BACKING` fails with `ERROR_INVALID_FUNCTION`, the
/// driver is taken as unavailable and the ioctl is not tried again.
#[derive(Debug, Clone, Copy, PartialEq, Eq, Structural)]
pub struct WofAvailability {
    pub unavailable: bool,
}

impl WofAvailability {
    /// Nothing observed yet.
    pub fn new() -> (r: WofAvailability)
        ensures
            !r.unavailable,
    {
        WofAvailability { unavailable: false }
    }

    /// Records that the driver is missing.
    pub fn mark_unavailable(&mut self)
        ensures
            final(self).unavailable,
    {
        self.unavailable = true;
    }
}

/// Forgets an earlier "unavailable" observation (to probe again).
pub fn reset_wof_availability(cache: &mut WofAvailability)
    ensures
        !final(cache).unavailable,
{
    cache.unavailable = false;
}

/// Whether WOF may be tried, from earlier observations. On Windows this
/// fails with [`GError::WofNotAvailable`] after the driver was seen to be
/// missing; on other platforms WOF is never available.
pub fn check_wof_available(cache: &WofAvailability) -> (r: Result<(), GError>)
    ensures
        r matches Err(GError::NotSupportedPlatform),
{
    Err(GError::NotSupportedPlatform)
}

/// Result of an active probe on the volume of a target directory.
#[derive(Debug, Clone, PartialEq, Eq)]
pub enum WofRuntimeProbe {
    /// WOF works on this volume.
    Works,
    /// The driver is not attached to the volume; the Win32 error code.
    NotAttachedToVolume(u32),
    /// The probe failed for another reason, described.
    ProbeFailed(String),
}

/// Upper-case hexadecimal text of `n`, zero-padded to `width` digits.
pub open spec fn upper_hex_pad(n: nat, width: nat) -> Seq<char>
    decreases width,
{
    if width == 0 {
        Seq::empty()
    } else {
        let d = n % 16;
        upper_hex_pad(n / 16, (width - 1) as nat).push(
            if d < 10 { hex_char(d) } else { (('A' as u32) + (d - 10)) as char },
        )
    }
}

fn upper_hex(n: u32, width: usize) -> (r: String)
    ensures
        r@ == upper_hex_pad(n as nat, width as nat),
    decreases width,
{
    if width == 0 {
        String::new()
    } else {
        let mut s = upper_hex(n / 16, width - 1);
        let d: u8 = (n % 16) as u8;
        let c: char = if d < 10 { ('0' as u8 + d) as char } else { ('A' as u8 + (d - 10)) as char };
        crate::text::push_char(&mut s, c);
        s
    }
}

/// The outcome of a runtime probe from the ioctl's result: `Works` on
/// success, `NotAttachedToVolume` for `ERROR_INVALID_FUNCTION` and
/// `ERROR_NOT_SUPPORTED`, else `ProbeFailed` with the code.
pub fn probe_outcome(result: Result<(), u32>) -> (r: WofRuntimeProbe)
    ensures
        match result {
            Ok(()) => r == WofRuntimeProbe::Works,
            Err(code) => if code == ERROR_INVALID_FUNCTION || code == ERROR_NOT_SUPPORTED {
                r == WofRuntimeProbe::NotAttachedToVolume(code)
            } else {
                r matches WofRuntimeProbe::ProbeFailed(msg) && msg@ == "WOF probe failed with Win32 error "@
                    + dec_seq(code as nat) + " (0x"@ + upper_hex_pad(code as nat, 8) + ")"@
            },
        },
{
    match result {
        Ok(()) => WofRuntimeProbe::Works,
        Err(code) => {
            if code == ERROR_INVALID_FUNCTION || code == ERROR_NOT_SUPPORTED {
                WofRuntimeProbe::NotAttachedToVolume(code)
            } else {
                let mut msg = owned("WOF probe failed with Win32 error ");
                let d = u64_to_dec(code as u64);
                push_str(&mut msg, d.as_str());
                push_str(&mut msg, " (0x");
                let h = upper_hex(code, 8);
                push_str(&mut msg, h.as_str());
                push_str(&mut msg, ")");
                WofRuntimeProbe::ProbeFailed(msg)
            }
        },
    }
}

/// Probes WOF on the volume of `target_dir` by trying it on a throwaway
/// file there (on Windows). On this platform the probe fails.
pub fn probe_wof_runtime(target_dir: &str) -> (r: WofRuntimeProbe)
    ensures
        r matches WofRuntimeProbe::ProbeFailed(msg) && msg@ == "WOF is only available on Windows"@,
{
    WofRuntimeProbe::ProbeFailed(owned("WOF is only available on Windows"))
}

/// The 20-byte `FSCTL_SET_EXTERNAL_BACKING` payload for `algorithm`:
/// header version and provider, then body version, algorithm and flags,
/// each a little-endian `u32`.
pub open spec fn backing_payload(algorithm: u32) -> Seq<u8> {
    le_bytes_u32(WOF_CURRENT_VERSION) + le_bytes_u32(WOF_PROVIDER_FILE) + le_bytes_u32(1) + le_bytes_u32(algorithm)
        + le_bytes_u32(0)
}

/// Builds the `WOF_EXTERNAL_INFO` + `FILE_PROVIDER_EXTERNAL_INFO_1` payload.
pub fn build_backing_payload(algorithm: u32) -> (r: [u8; 20])
    ensures
        r@ == backing_payload(algorithm),
{
    let a = u32_le_bytes(WOF_CURRENT_VERSION);
    let b = u32_le_bytes(WOF_PROVIDER_FILE);
    let c = u32_le_bytes(1);
    let d = u32_le_bytes(algorithm);
    let e = u32_le_bytes(0);
    let r = [
        a[0], a[1], a[2], a[3],
        b[0], b[1], b[2], b[3],
        c[0], c[1], c[2], c[3],
        d[0], d[1], d[2], d[3],
        e[0], e[1], e[2], e[3],
    ];
    assert(r@ =~= backing_payload(algorithm));
    r
}

/// Applies WOF compression with `algorithm` to a file (on Windows). Not
/// available on this platform.
pub fn set_wof_compression(path: &str, algorithm: u32) -> (r: Result<(), GError>)
    ensures
        r matches Err(GError::NotSupportedPlatform),
{
    Err(GError::NotSupportedPlatform)
}

/// The WOF algorithm set on a file, `None` when it is not WOF-backed. No
/// file is WOF-backed on this platform.
pub fn get_wof_compression(path: &str) -> (r: Result<Option<u32>, GError>)
    ensures
        r == Ok::<Option<u32>, GError>(None),
{
    Ok(None)
}

/// The algorithm in a `FSCTL_GET_EXTERNAL_BACKING` reply of `returned`
/// bytes: the little-endian `u32` at offset 12, or `None` for a reply
/// shorter than 16 bytes.
pub fn backing_algorithm(buf: &[u8], returned: u32) -> (r: Option<u32>)
    requires
        buf@.len() >= 16,
    ensures
        returned < 16 ==> r is None,
        returned >= 16 ==> r == Some(crate::le::le_val(buf@.subrange(12, 16)) as u32),
{
    if returned < 16 {
        return None;
    }
    let v = crate::le::read_le(buf, 12, 4);
    proof {
        crate::le::lemma_le4_bound(buf@.subrange(12, 16));
    }
    Some(v as u32)
}

/// Removes WOF backing from a file (decompresses it), on Windows. Not
/// available on this platform.
pub fn remove_wof_compression(path: &str) -> (r: Result<(), GError>)
    ensures
        r matches Err(GError::NotSupportedPlatform),
{
    Err(GError::NotSupportedPlatform)
}

} // verus!
