//! The library's error type and the process exit code each error maps to.

use vstd::prelude::*;
use crate::text::{owned, push_str, u64_to_dec, dec_seq};

verus! {

/// Every failure the library reports. Paths are carried as text.
#[derive(Debug, Clone)]
pub enum GError {
    AliasExists(String),
    AliasNotFound(String),
    GameDirMissing(String),
    GameDirNotDir(String),
    SnapshotNotFound(String, String),
    SnapshotIdExists(String, String),
    InvalidSnapshotId(String),
    NoSnapshots(String),
    Locked(String, String),
    DbCorrupt(String),
    BranchNotFound(String, String),
    BranchExists(String, String),
    CannotDeleteCurrentBranch(String),
    CannotDeleteMainBranch,
    UncommittedChanges,
    SnapshotReferencedByBranch(String, usize, String),
    RehashCancelled,
    HashAlgorithmMismatch(String, String),
    Repack(String),
    Unpack(String),
    Xtool(String),
    InvalidManifest(String),
    CompactCancelled,
    Compact(String),
    CompactRunning(String, String),
    NotSupportedPlatform,
    WofNotAvailable(String),
    Defrag(String),
    Sqlite(String),
    Io(String),
    Path(String),
    Config(String),
    IgnorePattern { file: String, message: String },
    Json(String),
    Ignore(String),
    Other(String),
}

/// Errors caused by the user's request or the state of their data (as
/// opposed to I/O, database or other internal failures).
pub open spec fn is_usage_error(e: GError) -> bool {
    match e {
        GError::AliasExists(_) | GError::AliasNotFound(_) | GError::GameDirMissing(_)
        | GError::GameDirNotDir(_) | GError::SnapshotNotFound(_, _)
        | GError::SnapshotIdExists(_, _) | GError::InvalidSnapshotId(_)
        | GError::NoSnapshots(_) | GError::Locked(_, _) | GError::DbCorrupt(_)
        | GError::IgnorePattern { .. } | GError::Path(_) | GError::Config(_)
        | GError::BranchNotFound(_, _) | GError::BranchExists(_, _)
        | GError::CannotDeleteCurrentBranch(_) | GError::CannotDeleteMainBranch
        | GError::UncommittedChanges | GError::SnapshotReferencedByBranch(_, _, _)
        | GError::RehashCancelled | GError::HashAlgorithmMismatch(_, _)
        | GError::InvalidManifest(_) | GError::CompactCancelled
        | GError::CompactRunning(_, _) | GError::NotSupportedPlatform => true,
        _ => false,
    }
}

/// Process exit code for an error: 2 for usage errors, 1 otherwise.
pub fn exit_code(err: &GError) -> (code: i32)
    ensures
        code == (if is_usage_error(*err) { 2i32 } else { 1i32 }),
{
    match err {
        GError::AliasExists(_) | GError::AliasNotFound(_) | GError::GameDirMissing(_)
        | GError::GameDirNotDir(_) | GError::SnapshotNotFound(_, _)
        | GError::SnapshotIdExists(_, _) | GError::InvalidSnapshotId(_)
        | GError::NoSnapshots(_) | GError::Locked(_, _) | GError::DbCorrupt(_)
        | GError::IgnorePattern { .. } | GError::Path(_) | GError::Config(_)
        | GError::BranchNotFound(_, _) | GError::BranchExists(_, _)
        | GError::CannotDeleteCurrentBranch(_) | GError::CannotDeleteMainBranch
        | GError::UncommittedChanges | GError::SnapshotReferencedByBranch(_, _, _)
        | GError::RehashCancelled | GError::HashAlgorithmMismatch(_, _)
        | GError::InvalidManifest(_) | GError::CompactCancelled
        | GError::CompactRunning(_, _) | GError::NotSupportedPlatform => 2,
        _ => 1,
    }
}


/// The message an error is reported with.
pub open spec fn error_text(e: GError) -> Seq<char> {
    match e {
        GError::AliasExists(a) => "game with alias \""@ + a@ + "\" already exists"@,
        GError::AliasNotFound(a) => "game with alias \""@ + a@ + "\" does not exist"@,
        GError::GameDirMissing(d) => "game directory \""@ + d@ + "\" does not exist"@,
        GError::GameDirNotDir(d) => "game directory \""@ + d@ + "\" is not a directory"@,
        GError::SnapshotNotFound(s, g) => "snapshot \""@ + s@ + "\" does not exist for game \""@ + g@ + "\""@,
        GError::SnapshotIdExists(s, g) => "snapshot id \""@ + s@ + "\" already exists for game \""@ + g@ + "\""@,
        GError::InvalidSnapshotId(s) => "invalid snapshot id \""@ + s@ + "\""@,
        GError::NoSnapshots(g) => "no snapshots exist for game \""@ + g@ + "\""@,
        GError::Locked(a, l) => "\""@ + a@ + "\" is locked by another operation (lockfile: "@ + l@ + ")"@,
        GError::DbCorrupt(p) => "database corruption detected in "@ + p@,
        GError::BranchNotFound(b, g) => "branch \""@ + b@ + "\" does not exist for game \""@ + g@ + "\""@,
        GError::BranchExists(b, g) => "branch \""@ + b@ + "\" already exists for game \""@ + g@ + "\""@,
        GError::CannotDeleteCurrentBranch(b) => "cannot delete the current branch \""@ + b@ + "\""@,
        GError::CannotDeleteMainBranch => "cannot delete the protected \"main\" branch"@,
        GError::UncommittedChanges => "uncommitted changes detected — use --force to discard"@,
        GError::SnapshotReferencedByBranch(s, n, bs) => "snapshot \""@ + s@ + "\" is referenced by "@ + dec_seq(n as nat)
            + " branch(es): "@ + bs@,
        GError::RehashCancelled => "rehash cancelled by user"@,
        GError::HashAlgorithmMismatch(c, d) => "hash algorithm mismatch: config says \""@ + c@
            + "\" but snapshot data uses \""@ + d@ + "\""@,
        GError::Repack(m) => "repack error: "@ + m@,
        GError::Unpack(m) => "unpack error: "@ + m@,
        GError::Xtool(m) => "xtool error: "@ + m@,
        GError::InvalidManifest(m) => "invalid manifest: "@ + m@,
        GError::CompactCancelled => "compaction cancelled by user"@,
        GError::Compact(m) => "compaction error: "@ + m@,
        GError::CompactRunning(g, l) => "a compaction is already running for game \""@ + g@ + "\" (lockfile: "@ + l@ + ")"@,
        GError::NotSupportedPlatform => "operation requires Windows (only supported on Windows)"@,
        GError::WofNotAvailable(m) => "WOF compression is not available: "@ + m@,
        GError::Defrag(m) => "defrag error: "@ + m@,
        GError::Sqlite(m) => "sqlite error: "@ + m@,
        GError::Io(m) => "io error: "@ + m@,
        GError::Path(m) => "path error: "@ + m@,
        GError::Config(m) => "config error: "@ + m@,
        GError::IgnorePattern { file, message } => "ignore pattern error in "@ + file@ + ": "@ + message@,
        GError::Json(m) => "json error: "@ + m@,
        GError::Ignore(m) => "ignore-pattern error: "@ + m@,
        GError::Other(m) => m@,
    }
}

fn text2(a: &str, b: &str) -> (r: String)
    ensures
        r@ == a@ + b@,
{
    let mut s = owned(a);
    push_str(&mut s, b);
    s
}

fn text4(a: &str, b: &str, c: &str, d: &str) -> (r: String)
    ensures
        r@ == a@ + b@ + c@ + d@,
{
    let mut s = owned(a);
    push_str(&mut s, b);
    push_str(&mut s, c);
    push_str(&mut s, d);
    s
}

fn text3(a: &str, b: &str, c: &str) -> (r: String)
    ensures
        r@ == a@ + b@ + c@,
{
    let mut s = owned(a);
    push_str(&mut s, b);
    push_str(&mut s, c);
    s
}

fn text5(a: &str, b: &str, c: &str, d: &str, e: &str) -> (r: String)
    ensures
        r@ == a@ + b@ + c@ + d@ + e@,
{
    let mut s = owned(a);
    push_str(&mut s, b);
    push_str(&mut s, c);
    push_str(&mut s, d);
    push_str(&mut s, e);
    s
}

impl GError {
    /// The message this error is reported with.
    pub fn message(&self) -> (r: String)
        ensures
            r@ == error_text(*self),
    {
        match self {
            GError::AliasExists(a) => text3("game with alias \"", a.as_str(), "\" already exists"),
            GError::AliasNotFound(a) => text3("game with alias \"", a.as_str(), "\" does not exist"),
            GError::GameDirMissing(d) => text3("game directory \"", d.as_str(), "\" does not exist"),
            GError::GameDirNotDir(d) => text3("game directory \"", d.as_str(), "\" is not a directory"),
            GError::SnapshotNotFound(s, g) => text5("snapshot \"", s.as_str(), "\" does not exist for game \"", g.as_str(), "\""),
            GError::SnapshotIdExists(s, g) => text5("snapshot id \"", s.as_str(), "\" already exists for game \"", g.as_str(), "\""),
            GError::InvalidSnapshotId(s) => text3("invalid snapshot id \"", s.as_str(), "\""),
            GError::NoSnapshots(g) => text3("no snapshots exist for game \"", g.as_str(), "\""),
            GError::Locked(a, l) => text5("\"", a.as_str(), "\" is locked by another operation (lockfile: ", l.as_str(), ")"),
            GError::DbCorrupt(p) => text2("database corruption detected in ", p.as_str()),
            GError::BranchNotFound(b, g) => text5("branch \"", b.as_str(), "\" does not exist for game \"", g.as_str(), "\""),
            GError::BranchExists(b, g) => text5("branch \"", b.as_str(), "\" already exists for game \"", g.as_str(), "\""),
            GError::CannotDeleteCurrentBranch(b) => text3("cannot delete the current branch \"", b.as_str(), "\""),
            GError::CannotDeleteMainBranch => owned("cannot delete the protected \"main\" branch"),
            GError::UncommittedChanges => owned("uncommitted changes detected — use --force to discard"),
            GError::SnapshotReferencedByBranch(s, n, bs) => {
                let count = u64_to_dec(*n as u64);
                let mut t = text5("snapshot \"", s.as_str(), "\" is referenced by ", count.as_str(), " branch(es): ");
                push_str(&mut t, bs.as_str());
                t
            },
            GError::RehashCancelled => owned("rehash cancelled by user"),
            GError::HashAlgorithmMismatch(c, d) => text5(
                "hash algorithm mismatch: config says \"",
                c.as_str(),
                "\" but snapshot data uses \"",
                d.as_str(),
                "\"",
            ),
            GError::Repack(m) => text2("repack error: ", m.as_str()),
            GError::Unpack(m) => text2("unpack error: ", m.as_str()),
            GError::Xtool(m) => text2("xtool error: ", m.as_str()),
            GError::InvalidManifest(m) => text2("invalid manifest: ", m.as_str()),
            GError::CompactCancelled => owned("compaction cancelled by user"),
            GError::Compact(m) => text2("compaction error: ", m.as_str()),
            GError::CompactRunning(g, l) => text5(
                "a compaction is already running for game \"",
                g.as_str(),
                "\" (lockfile: ",
                l.as_str(),
                ")",
            ),
            GError::NotSupportedPlatform => owned("operation requires Windows (only supported on Windows)"),
            GError::WofNotAvailable(m) => text2("WOF compression is not available: ", m.as_str()),
            GError::Defrag(m) => text2("defrag error: ", m.as_str()),
            GError::Sqlite(m) => text2("sqlite error: ", m.as_str()),
            GError::Io(m) => text2("io error: ", m.as_str()),
            GError::Path(m) => text2("path error: ", m.as_str()),
            GError::Config(m) => text2("config error: ", m.as_str()),
            GError::IgnorePattern { file, message } => text4("ignore pattern error in ", file.as_str(), ": ", message.as_str()),
            GError::Json(m) => text2("json error: ", m.as_str()),
            GError::Ignore(m) => text2("ignore-pattern error: ", m.as_str()),
            GError::Other(m) => owned(m.as_str()),
        }
    }
}

} // verus!
