//! Pre-move safety checks per file: compressed, encrypted, sparse, offline
//! and reparse-point files are never moved, nor files held open elsewhere.

use vstd::prelude::*;
use crate::error::GError;

verus! {

/// The Win32 file attributes that matter for defragmentation.
#[derive(Debug, Clone, Copy, PartialEq, Eq, Structural)]
pub struct FileAttrs {
    pub compressed: bool,
    pub encrypted: bool,
    pub sparse: bool,
    pub readonly: bool,
    pub offline: bool,
    pub reparse_point: bool,
}

impl Default for FileAttrs {
    fn default() -> (r: Self)
        ensures
            r == (FileAttrs {
                compressed: false,
                encrypted: false,
                sparse: false,
                readonly: false,
                offline: false,
                reparse_point: false,
            }),
    {
        FileAttrs {
            compressed: false,
            encrypted: false,
            sparse: false,
            readonly: false,
            offline: false,
            reparse_point: false,
        }
    }
}

/// The reason a set of attributes blocks a move (empty when none does);
/// the first matching attribute in this order wins.
pub open spec fn block_reason_spec(a: FileAttrs) -> Seq<char> {
    if a.compressed {
        "NTFS-compressed"@
    } else if a.encrypted {
        "EFS-encrypted"@
    } else if a.sparse {
        "sparse"@
    } else if a.offline {
        "offline (HSM)"@
    } else if a.reparse_point {
        "reparse point (symlink/junction)"@
    } else {
        ""@
    }
}

impl FileAttrs {
    /// `true` if any attribute makes the file unsafe to move (read-only
    /// does not).
    pub fn blocks_defrag(&self) -> (r: bool)
        ensures
            r == (self.compressed || self.encrypted || self.sparse || self.offline || self.reparse_point),
    {
        self.compressed || self.encrypted || self.sparse || self.offline || self.reparse_point
    }

    /// Human-readable reason for refusal (empty when nothing blocks).
    pub fn block_reason(&self) -> (r: &'static str)
        ensures
            r@ == block_reason_spec(*self),
    {
        if self.compressed {
            return "NTFS-compressed";
        }
        if self.encrypted {
            return "EFS-encrypted";
        }
        if self.sparse {
            return "sparse";
        }
        if self.offline {
            return "offline (HSM)";
        }
        if self.reparse_point {
            return "reparse point (symlink/junction)";
        }
        ""
    }
}

/// Attributes that block a move always come with a reason, and attributes
/// that do not never do.
pub proof fn lemma_block_reason_iff(a: FileAttrs)
    ensures
        (a.compressed || a.encrypted || a.sparse || a.offline || a.reparse_point) <==> block_reason_spec(a).len() > 0,
{
    reveal_strlit("NTFS-compressed");
    reveal_strlit("EFS-encrypted");
    reveal_strlit("sparse");
    reveal_strlit("offline (HSM)");
    reveal_strlit("reparse point (symlink/junction)");
    reveal_strlit("");
}

pub const FILE_ATTRIBUTE_READONLY: u32 = 0x0001;
pub const FILE_ATTRIBUTE_SPARSE_FILE: u32 = 0x0200;
pub const FILE_ATTRIBUTE_REPARSE_POINT: u32 = 0x0400;
pub const FILE_ATTRIBUTE_COMPRESSED: u32 = 0x0800;
pub const FILE_ATTRIBUTE_OFFLINE: u32 = 0x1000;
pub const FILE_ATTRIBUTE_ENCRYPTED: u32 = 0x4000;

/// Translates a Win32 attribute word into [`FileAttrs`].
pub fn decode_attrs(attrs: u32) -> (r: FileAttrs)
    ensures
        r == (FileAttrs {
            compressed: attrs & 0x0800 != 0,
            encrypted: attrs & 0x4000 != 0,
            sparse: attrs & 0x0200 != 0,
            readonly: attrs & 0x0001 != 0,
            offline: attrs & 0x1000 != 0,
            reparse_point: attrs & 0x0400 != 0,
        }),
{
    FileAttrs {
        compressed: attrs & FILE_ATTRIBUTE_COMPRESSED != 0,
        encrypted: attrs & FILE_ATTRIBUTE_ENCRYPTED != 0,
        sparse: attrs & FILE_ATTRIBUTE_SPARSE_FILE != 0,
        readonly: attrs & FILE_ATTRIBUTE_READONLY != 0,
        offline: attrs & FILE_ATTRIBUTE_OFFLINE != 0,
        reparse_point: attrs & FILE_ATTRIBUTE_REPARSE_POINT != 0,
    }
}

/// Result of one file's safety check.
#[derive(Debug, Clone, PartialEq, Eq)]
pub enum FileSafety {
    /// Safe to defragment.
    Safe,
    /// Blocked by an attribute (the reason is given).
    SkipAttrs(&'static str),
    /// Held open by another process.
    Locked,
    /// Cannot be opened.
    Inaccessible,
}

/// The file's attributes. Attributes are read on Windows only; on this
/// platform every file has none.
pub fn read_file_attrs(path: &str) -> (r: Result<FileAttrs, GError>)
    ensures
        r matches Ok(a) && !a.compressed && !a.encrypted && !a.sparse && !a.readonly && !a.offline
            && !a.reparse_point,
{
    Ok(FileAttrs::default())
}

/// Whether another process holds the file open. Sharing violations are a
/// Windows notion; on this platform no file is locked.
pub fn check_locked(path: &str) -> (r: Result<bool, GError>)
    ensures
        r == Ok::<bool, GError>(false),
{
    Ok(false)
}

/// Runs the full safety check for one file: attributes, then lock state.
pub fn check_file_safety(path: &str) -> (r: Result<FileSafety, GError>)
    ensures
        r == Ok::<FileSafety, GError>(FileSafety::Safe),
{
    let attrs = read_file_attrs(path)?;
    if attrs.blocks_defrag() {
        return Ok(FileSafety::SkipAttrs(attrs.block_reason()));
    }
    match check_locked(path) {
        Ok(false) => Ok(FileSafety::Safe),
        Ok(true) => Ok(FileSafety::Locked),
        Err(_) => Ok(FileSafety::Inaccessible),
    }
}

} // verus!
