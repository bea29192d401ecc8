//! Classification and savings estimation for `gim compact`.
//!
//! Every scanned file is either a candidate (with a content class that
//! picks an estimated compression ratio) or skipped with a reason. The
//! estimate lets the user decide, and warns when a folder is mostly
//! already-compressed data. Ratios are whole percentages of the original
//! size; estimated sizes are rounded half up.

use vstd::prelude::*;
use crate::compact::algorithm::CompactAlgorithm;
use crate::sorting::{insert_sorted, stable_sort, sorted_by, lemma_insert_at, lemma_insert_sorted_multiset, lemma_stable_sort_sorted, lemma_stable_sort_permutes};
use crate::text::{ascii_lower, str_eq, to_ascii_lower};

verus! {

/// Files below this size are skipped: per-file overhead negates the gain.
pub const MIN_COMPRESS_SIZE: u64 = 4096;

/// Why a file is not compacted.
#[derive(Debug, Clone, Copy, PartialEq, Eq, Hash, Structural)]
pub enum SkipReason {
    /// Already WOF- or NTFS-compressed.
    AlreadyCompressed,
    /// A known precompressed media or container format.
    PrecompressedExt,
    /// Below [`MIN_COMPRESS_SIZE`].
    TooSmall,
    /// Could not be read.
    Inaccessible,
}

pub open spec fn skip_label(r: SkipReason) -> Seq<char> {
    match r {
        SkipReason::AlreadyCompressed => "already compressed"@,
        SkipReason::PrecompressedExt => "precompressed asset"@,
        SkipReason::TooSmall => "small file (<4 KB)"@,
        SkipReason::Inaccessible => "inaccessible"@,
    }
}

impl SkipReason {
    pub fn label(self) -> (r: &'static str)
        ensures
            r@ == skip_label(self),
    {
        match self {
            SkipReason::AlreadyCompressed => "already compressed",
            SkipReason::PrecompressedExt => "precompressed asset",
            SkipReason::TooSmall => "small file (<4 KB)",
            SkipReason::Inaccessible => "inaccessible",
        }
    }
}

/// Coarse content class, which picks the estimated ratio.
#[derive(Debug, Clone, Copy, PartialEq, Eq, Hash, Structural)]
pub enum FileClass {
    /// `.exe`, `.dll` and the like.
    Executable,
    /// Plain-text formats.
    Text,
    /// Uncompressed images and audio.
    UncompressedMedia,
    /// Anything else: a conservative ratio.
    Other,
}

#[derive(Debug, Clone, Copy, PartialEq, Eq, Structural)]
pub enum FileKind {
    /// Worth compressing.
    Candidate(FileClass),
    /// Left alone, for the reason given.
    Skipped(SkipReason),
}

/// One scanned file.
#[derive(Debug, Clone)]
pub struct ScannedFile {
    pub path: String,
    pub size: u64,
    pub kind: FileKind,
}

/// Estimated compressed size, in percent of the original, of a file of
/// class `c` under `algo` (100 when decompressing).
pub open spec fn ratio_pct_spec(c: FileClass, algo: CompactAlgorithm) -> nat {
    match algo {
        CompactAlgorithm::Lzx => match c {
            FileClass::Executable => 55,
            FileClass::Text => 30,
            FileClass::UncompressedMedia => 55,
            FileClass::Other => 85,
        },
        CompactAlgorithm::Xpress4k => match c {
            FileClass::Executable => 65,
            FileClass::Text => 40,
            FileClass::UncompressedMedia => 65,
            FileClass::Other => 90,
        },
        CompactAlgorithm::Xpress8k => match c {
            FileClass::Executable => 62,
            FileClass::Text => 37,
            FileClass::UncompressedMedia => 62,
            FileClass::Other => 88,
        },
        CompactAlgorithm::Xpress16k => match c {
            FileClass::Executable => 60,
            FileClass::Text => 34,
            FileClass::UncompressedMedia => 60,
            FileClass::Other => 87,
        },
        CompactAlgorithm::Ntfs => match c {
            FileClass::Executable => 60,
            FileClass::Text => 35,
            FileClass::UncompressedMedia => 60,
            FileClass::Other => 90,
        },
        CompactAlgorithm::Decompress => 100,
    }
}

impl FileClass {
    /// The estimated ratio in whole percent.
    pub fn ratio_pct(self, algo: CompactAlgorithm) -> (r: u64)
        ensures
            r == ratio_pct_spec(self, algo),
            r <= 100,
    {
        match algo {
            CompactAlgorithm::Lzx => match self {
                FileClass::Executable => 55,
                FileClass::Text => 30,
                FileClass::UncompressedMedia => 55,
                FileClass::Other => 85,
            },
            CompactAlgorithm::Xpress4k => match self {
                FileClass::Executable => 65,
                FileClass::Text => 40,
                FileClass::UncompressedMedia => 65,
                FileClass::Other => 90,
            },
            CompactAlgorithm::Xpress8k => match self {
                FileClass::Executable => 62,
                FileClass::Text => 37,
                FileClass::UncompressedMedia => 62,
                FileClass::Other => 88,
            },
            CompactAlgorithm::Xpress16k => match self {
                FileClass::Executable => 60,
                FileClass::Text => 34,
                FileClass::UncompressedMedia => 60,
                FileClass::Other => 87,
            },
            CompactAlgorithm::Ntfs => match self {
                FileClass::Executable => 60,
                FileClass::Text => 35,
                FileClass::UncompressedMedia => 60,
                FileClass::Other => 90,
            },
            CompactAlgorithm::Decompress => 100,
        }
    }
}

// ── Classification ────────────────────────────────────────────────────

/// Formats that are almost always compressed already.
pub open spec fn precompressed_exts() -> Seq<Seq<char>> {
    seq![
        "zip"@, "7z"@, "rar"@, "gz"@, "bz2"@, "xz"@, "zst"@, "tar"@, "cab"@, "iso"@,
        "jpg"@, "jpeg"@, "png"@, "webp"@, "gif"@, "heic"@, "avif"@, "cr2"@, "nef"@,
        "mp4"@, "mkv"@, "avi"@, "mov"@, "webm"@, "wmv"@, "m4v"@, "flv"@, "ts"@, "mpg"@, "mpeg"@,
        "mp3"@, "ogg"@, "opus"@, "aac"@, "m4a"@, "flac"@, "wma"@,
        "pak"@, "vpk"@, "bsa"@, "ba2"@, "cas"@, "cat"@, "sid"@, "sis"@,
        "enc"@, "pex"@,
    ]
}

pub open spec fn executable_exts() -> Seq<Seq<char>> {
    seq!["exe"@, "dll"@, "com"@, "sys"@, "ocx"@, "drv"@]
}

pub open spec fn text_exts() -> Seq<Seq<char>> {
    seq![
        "txt"@, "log"@, "xml"@, "json"@, "ini"@, "cfg"@, "conf"@, "csv"@, "lua"@,
        "html"@, "htm"@, "js"@, "ts"@, "py"@, "md"@, "yaml"@, "yml"@, "toml"@,
    ]
}

pub open spec fn media_exts() -> Seq<Seq<char>> {
    seq!["bmp"@, "tga"@, "wav"@, "pcx"@, "psd"@]
}

/// The class of an extension (ASCII case-insensitive), or `None` for a
/// precompressed format.
pub open spec fn classify_ext_spec(ext: Seq<char>) -> Option<FileClass> {
    let e = ascii_lower(ext);
    if precompressed_exts().contains(e) {
        None
    } else if executable_exts().contains(e) {
        Some(FileClass::Executable)
    } else if text_exts().contains(e) {
        Some(FileClass::Text)
    } else if media_exts().contains(e) {
        Some(FileClass::UncompressedMedia)
    } else {
        Some(FileClass::Other)
    }
}

fn ext_list(which: u8) -> (r: Vec<&'static str>)
    requires
        which < 4,
    ensures
        r@.map_values(|s: &'static str| s@) == (if which == 0 {
            precompressed_exts()
        } else if which == 1 {
            executable_exts()
        } else if which == 2 {
            text_exts()
        } else {
            media_exts()
        }),
{
    let mut r: Vec<&'static str> = Vec::new();
    if which == 0 {
        r.push("zip"); r.push("7z"); r.push("rar"); r.push("gz"); r.push("bz2");
        r.push("xz"); r.push("zst"); r.push("tar"); r.push("cab"); r.push("iso");
        r.push("jpg"); r.push("jpeg"); r.push("png"); r.push("webp"); r.push("gif");
        r.push("heic"); r.push("avif"); r.push("cr2"); r.push("nef");
        r.push("mp4"); r.push("mkv"); r.push("avi"); r.push("mov"); r.push("webm");
        r.push("wmv"); r.push("m4v"); r.push("flv"); r.push("ts"); r.push("mpg"); r.push("mpeg");
        r.push("mp3"); r.push("ogg"); r.push("opus"); r.push("aac"); r.push("m4a");
        r.push("flac"); r.push("wma");
        r.push("pak"); r.push("vpk"); r.push("bsa"); r.push("ba2"); r.push("cas");
        r.push("cat"); r.push("sid"); r.push("sis");
        r.push("enc"); r.push("pex");
        assert(r@.map_values(|s: &'static str| s@) =~= precompressed_exts());
    } else if which == 1 {
        r.push("exe"); r.push("dll"); r.push("com"); r.push("sys"); r.push("ocx"); r.push("drv");
        assert(r@.map_values(|s: &'static str| s@) =~= executable_exts());
    } else if which == 2 {
        r.push("txt"); r.push("log"); r.push("xml"); r.push("json"); r.push("ini");
        r.push("cfg"); r.push("conf"); r.push("csv"); r.push("lua");
        r.push("html"); r.push("htm"); r.push("js"); r.push("ts"); r.push("py");
        r.push("md"); r.push("yaml"); r.push("yml"); r.push("toml");
        assert(r@.map_values(|s: &'static str| s@) =~= text_exts());
    } else {
        r.push("bmp"); r.push("tga"); r.push("wav"); r.push("pcx"); r.push("psd");
        assert(r@.map_values(|s: &'static str| s@) =~= media_exts());
    }
    r
}

fn in_list(e: &str, which: u8) -> (r: bool)
    requires
        which < 4,
    ensures
        r == (if which == 0 {
            precompressed_exts()
        } else if which == 1 {
            executable_exts()
        } else if which == 2 {
            text_exts()
        } else {
            media_exts()
        }).contains(e@),
{
    let list = ext_list(which);
    let ghost lv = list@.map_values(|s: &'static str| s@);
    let mut i: usize = 0;
    while i < list.len()
        invariant
            i <= list@.len(),
            lv == list@.map_values(|s: &'static str| s@),
            lv == (if which == 0 {
                precompressed_exts()
            } else if which == 1 {
                executable_exts()
            } else if which == 2 {
                text_exts()
            } else {
                media_exts()
            }),
            forall|j: int| 0 <= j < i ==> lv[j] != e@,
        decreases list@.len() - i,
    {
        if str_eq(list[i], e) {
            assert(lv[i as int] == e@);
            return true;
        }
        i = i + 1;
    }
    false
}

/// Classifies a file by extension.
pub fn classify_ext(ext: &str) -> (r: Option<FileClass>)
    ensures
        r == classify_ext_spec(ext@),
{
    let lowered = to_ascii_lower(ext);
    let e = lowered.as_str();
    if in_list(e, 0) {
        None
    } else if in_list(e, 1) {
        Some(FileClass::Executable)
    } else if in_list(e, 2) {
        Some(FileClass::Text)
    } else if in_list(e, 3) {
        Some(FileClass::UncompressedMedia)
    } else {
        Some(FileClass::Other)
    }
}

/// The kind of a scanned file from what the walk found: its size (`None`
/// when its metadata could not be read), whether it is WOF-backed, and
/// its extension.
pub open spec fn scanned_kind(size: Option<u64>, wof_backed: bool, ext: Seq<char>) -> FileKind {
    match size {
        None => FileKind::Skipped(SkipReason::Inaccessible),
        Some(s) => if s < MIN_COMPRESS_SIZE {
            FileKind::Skipped(SkipReason::TooSmall)
        } else if wof_backed {
            FileKind::Skipped(SkipReason::AlreadyCompressed)
        } else {
            match classify_ext_spec(ext) {
                None => FileKind::Skipped(SkipReason::PrecompressedExt),
                Some(c) => FileKind::Candidate(c),
            }
        },
    }
}

/// Decides the kind of one scanned file (the per-file half of the scan).
pub fn classify_scanned(size: Option<u64>, wof_backed: bool, ext: &str) -> (r: FileKind)
    ensures
        r == scanned_kind(size, wof_backed, ext@),
{
    match size {
        None => FileKind::Skipped(SkipReason::Inaccessible),
        Some(s) => {
            if s < MIN_COMPRESS_SIZE {
                FileKind::Skipped(SkipReason::TooSmall)
            } else if wof_backed {
                FileKind::Skipped(SkipReason::AlreadyCompressed)
            } else {
                match classify_ext(ext) {
                    None => FileKind::Skipped(SkipReason::PrecompressedExt),
                    Some(c) => FileKind::Candidate(c),
                }
            }
        },
    }
}

// ── Estimation ────────────────────────────────────────────────────────

/// The estimate for a scanned folder.
#[derive(Debug, Clone)]
pub struct Estimate {
    pub total_files: u64,
    pub candidate_files: u64,
    pub skipped_files: u64,
    pub total_size: u64,
    pub candidate_size: u64,
    pub skipped_size: u64,
    /// Estimated bytes after compaction (skipped files keep their size).
    pub estimated_after: u64,
    /// `total_size - estimated_after`, saturating at 0.
    pub estimated_savings: u64,
    /// Skipped files by reason: (reason, count, size), most files first.
    pub skipped_breakdown: Vec<(SkipReason, u64, u64)>,
    /// Candidates by class: (class, count, size), largest first.
    pub candidate_breakdown: Vec<(FileClass, u64, u64)>,
}

/// Savings below 5% of the total (a folder with no bytes saves 0%).
pub open spec fn is_low_savings(savings: u64, total: u64) -> bool {
    total == 0 || savings * 20 < total
}

impl Estimate {
    /// `true` when the estimated savings are below 5% of the total.
    pub fn low_savings(&self) -> (r: bool)
        ensures
            r == is_low_savings(self.estimated_savings, self.total_size),
    {
        self.total_size == 0 || (self.estimated_savings as u128) * 20 < self.total_size as u128
    }
}

/// `size * pct / 100`, rounded half up.
pub open spec fn post_size(size: u64, pct: nat) -> int {
    (size * pct + 50) / 100
}

/// Index of the first group of `k`, or the length.
pub open spec fn group_index<K>(gs: Seq<(K, u64, u64)>, k: K) -> int
    decreases gs.len(),
{
    if gs.len() == 0 {
        0
    } else if gs[0].0 == k {
        0
    } else {
        1 + group_index(gs.drop_first(), k)
    }
}

/// `gs` with one more file of `size` counted under `k` (a new group at
/// the end when `k` has none).
pub open spec fn group_add<K>(gs: Seq<(K, u64, u64)>, k: K, size: u64) -> Seq<(K, u64, u64)> {
    let i = group_index(gs, k);
    if i < gs.len() {
        gs.update(i, (k, (gs[i].1 + 1) as u64, (gs[i].2 + size) as u64))
    } else {
        gs.push((k, 1u64, size))
    }
}

/// Running totals over scanned files.
pub struct Tally {
    pub files: int,
    pub candidates: int,
    pub skipped: int,
    pub total: int,
    pub candidate_size: int,
    pub skipped_size: int,
    pub after: int,
    pub skip_groups: Seq<(SkipReason, u64, u64)>,
    pub class_groups: Seq<(FileClass, u64, u64)>,
}

/// The totals over the first `n` files.
pub open spec fn tally(files: Seq<ScannedFile>, algo: CompactAlgorithm, n: int) -> Tally
    decreases n,
{
    if n <= 0 {
        Tally {
            files: 0,
            candidates: 0,
            skipped: 0,
            total: 0,
            candidate_size: 0,
            skipped_size: 0,
            after: 0,
            skip_groups: Seq::empty(),
            class_groups: Seq::empty(),
        }
    } else {
        let t = tally(files, algo, n - 1);
        let f = files[n - 1];
        match f.kind {
            FileKind::Candidate(c) => Tally {
                files: t.files + 1,
                candidates: t.candidates + 1,
                total: t.total + f.size,
                candidate_size: t.candidate_size + f.size,
                after: t.after + post_size(f.size, ratio_pct_spec(c, algo)),
                class_groups: group_add(t.class_groups, c, f.size),
                ..t
            },
            FileKind::Skipped(r) => Tally {
                files: t.files + 1,
                skipped: t.skipped + 1,
                total: t.total + f.size,
                skipped_size: t.skipped_size + f.size,
                after: t.after + f.size,
                skip_groups: group_add(t.skip_groups, r, f.size),
                ..t
            },
        }
    }
}

/// Sum of the sizes of the first `n` files.
pub open spec fn scanned_total(files: Seq<ScannedFile>, n: int) -> int
    decreases n,
{
    if n <= 0 {
        0
    } else {
        scanned_total(files, n - 1) + files[n - 1].size
    }
}

/// Groups with more files first.
pub open spec fn by_count_desc() -> spec_fn((SkipReason, u64, u64)) -> int {
    |g: (SkipReason, u64, u64)| -(g.1 as int)
}

/// Groups with more bytes first.
pub open spec fn by_size_desc() -> spec_fn((FileClass, u64, u64)) -> int {
    |g: (FileClass, u64, u64)| -(g.2 as int)
}

/// What holds of the running totals: the partitions add up, every group
/// count and size is bounded by the totals, and no estimate exceeds the
/// original size.
pub open spec fn tally_ok(t: Tally) -> bool {
    &&& t.files == t.candidates + t.skipped
    &&& t.total == t.candidate_size + t.skipped_size
    &&& 0 <= t.candidates && 0 <= t.skipped && 0 <= t.candidate_size && 0 <= t.skipped_size
    &&& 0 <= t.after <= t.total
    &&& forall|i: int| 0 <= i < t.skip_groups.len() ==> (#[trigger] t.skip_groups[i]).1 <= t.skipped
        && t.skip_groups[i].2 <= t.skipped_size
    &&& forall|i: int| 0 <= i < t.class_groups.len() ==> (#[trigger] t.class_groups[i]).1 <= t.candidates
        && t.class_groups[i].2 <= t.candidate_size
    &&& group_counts(t.skip_groups) == t.skipped
    &&& group_sizes(t.skip_groups) == t.skipped_size
    &&& group_counts(t.class_groups) == t.candidates
    &&& group_sizes(t.class_groups) == t.candidate_size
}

/// Sum of the counts of the groups.
pub open spec fn group_counts<K>(gs: Seq<(K, u64, u64)>) -> int
    decreases gs.len(),
{
    if gs.len() == 0 { 0 } else { gs[0].1 + group_counts(gs.drop_first()) }
}

/// Sum of the sizes of the groups.
pub open spec fn group_sizes<K>(gs: Seq<(K, u64, u64)>) -> int
    decreases gs.len(),
{
    if gs.len() == 0 { 0 } else { gs[0].2 + group_sizes(gs.drop_first()) }
}

proof fn lemma_group_index<K>(gs: Seq<(K, u64, u64)>, k: K)
    ensures
        0 <= group_index(gs, k) <= gs.len(),
        group_index(gs, k) < gs.len() ==> gs[group_index(gs, k)].0 == k,
        forall|j: int| 0 <= j < group_index(gs, k) ==> (#[trigger] gs[j]).0 != k,
    decreases gs.len(),
{
    if gs.len() > 0 {
        lemma_group_index(gs.drop_first(), k);
        assert forall|j: int| 0 <= j < group_index(gs, k) implies (#[trigger] gs[j]).0 != k by {
            if j > 0 {
                assert(gs[j] == gs.drop_first()[j - 1]);
            }
        }
    }
}

proof fn lemma_group_index_at<K>(gs: Seq<(K, u64, u64)>, k: K, i: int)
    requires
        0 <= i <= gs.len(),
        forall|j: int| 0 <= j < i ==> (#[trigger] gs[j]).0 != k,
        i == gs.len() || gs[i].0 == k,
    ensures
        group_index(gs, k) == i,
    decreases gs.len(),
{
    if gs.len() > 0 && i > 0 {
        assert forall|j: int| 0 <= j < i - 1 implies (#[trigger] gs.drop_first()[j]).0 != k by {
            assert(gs.drop_first()[j] == gs[j + 1]);
        }
        lemma_group_index_at(gs.drop_first(), k, i - 1);
    }
}

proof fn lemma_group_sums_update<K>(gs: Seq<(K, u64, u64)>, i: int, g: (K, u64, u64))
    requires
        0 <= i < gs.len(),
    ensures
        group_counts(gs.update(i, g)) == group_counts(gs) - gs[i].1 + g.1,
        group_sizes(gs.update(i, g)) == group_sizes(gs) - gs[i].2 + g.2,
    decreases gs.len(),
{
    if i > 0 {
        lemma_group_sums_update(gs.drop_first(), i - 1, g);
        assert(gs.update(i, g).drop_first() =~= gs.drop_first().update(i - 1, g));
    } else {
        assert(gs.update(i, g).drop_first() =~= gs.drop_first());
    }
}

proof fn lemma_group_sums_push<K>(gs: Seq<(K, u64, u64)>, g: (K, u64, u64))
    ensures
        group_counts(gs.push(g)) == group_counts(gs) + g.1,
        group_sizes(gs.push(g)) == group_sizes(gs) + g.2,
    decreases gs.len(),
{
    if gs.len() == 0 {
        assert(gs.push(g).drop_first() =~= gs);
    } else {
        lemma_group_sums_push(gs.drop_first(), g);
        assert(gs.push(g).drop_first() =~= gs.drop_first().push(g));
    }
}

proof fn lemma_group_sums_nonneg<K>(gs: Seq<(K, u64, u64)>)
    ensures
        group_counts(gs) >= 0,
        group_sizes(gs) >= 0,
    decreases gs.len(),
{
    if gs.len() > 0 {
        lemma_group_sums_nonneg(gs.drop_first());
    }
}

proof fn lemma_group_le_sum<K>(gs: Seq<(K, u64, u64)>, i: int)
    requires
        0 <= i < gs.len(),
    ensures
        gs[i].1 <= group_counts(gs),
        gs[i].2 <= group_sizes(gs),
    decreases gs.len(),
{
    lemma_group_sums_nonneg(gs.drop_first());
    if i > 0 {
        lemma_group_le_sum(gs.drop_first(), i - 1);
    }
}

proof fn lemma_group_add<K>(gs: Seq<(K, u64, u64)>, k: K, size: u64, count_total: int, size_total: int)
    requires
        group_counts(gs) == count_total,
        group_sizes(gs) == size_total,
        count_total + 1 <= u64::MAX,
        size_total + size <= u64::MAX,
    ensures
        group_counts(group_add(gs, k, size)) == count_total + 1,
        group_sizes(group_add(gs, k, size)) == size_total + size,
        forall|i: int| 0 <= i < group_add(gs, k, size).len() ==> (#[trigger] group_add(gs, k, size)[i]).1
            <= count_total + 1 && group_add(gs, k, size)[i].2 <= size_total + size,
{
    lemma_group_index(gs, k);
    let i = group_index(gs, k);
    let r = group_add(gs, k, size);
    if i < gs.len() {
        lemma_group_le_sum(gs, i);
        lemma_group_sums_update(gs, i, (k, (gs[i].1 + 1) as u64, (gs[i].2 + size) as u64));
    } else {
        lemma_group_sums_push(gs, (k, 1u64, size));
    }
    assert forall|j: int| 0 <= j < r.len() implies (#[trigger] r[j]).1 <= count_total + 1 && r[j].2 <= size_total
        + size by {
        lemma_group_le_sum(r, j);
    }
}

proof fn lemma_post_le(size: u64, pct: nat)
    requires
        pct <= 100,
    ensures
        0 <= post_size(size, pct) <= size,
{
    let s = size as int;
    let p = pct as int;
    assert(0 <= (s * p + 50) / 100 <= s) by (nonlinear_arith)
        requires
            0 <= p <= 100,
            s >= 0,
    ;
}

proof fn lemma_tally_ok(files: Seq<ScannedFile>, algo: CompactAlgorithm, n: int)
    requires
        n <= files.len(),
        files.len() <= u64::MAX,
        scanned_total(files, n) <= u64::MAX,
    ensures
        tally_ok(tally(files, algo, n)),
        tally(files, algo, n).total == scanned_total(files, n),
        n >= 0 ==> tally(files, algo, n).files == n,
    decreases n,
{
    if n > 0 {
        lemma_scanned_total_mono(files, n - 1, n);
        lemma_tally_ok(files, algo, n - 1);
        let t = tally(files, algo, n - 1);
        let f = files[n - 1];
        match f.kind {
            FileKind::Candidate(c) => {
                lemma_post_le(f.size, ratio_pct_spec(c, algo));
                assert(ratio_pct_spec(c, algo) <= 100);
                lemma_group_add(t.class_groups, c, f.size, t.candidates, t.candidate_size);
            },
            FileKind::Skipped(r) => {
                lemma_group_add(t.skip_groups, r, f.size, t.skipped, t.skipped_size);
            },
        }
    }
}

proof fn lemma_scanned_total_mono(files: Seq<ScannedFile>, a: int, b: int)
    requires
        0 <= a <= b,
    ensures
        scanned_total(files, a) <= scanned_total(files, b),
    decreases b - a,
{
    if a < b {
        lemma_scanned_total_mono(files, a, b - 1);
    }
}

fn add_skip_group(gs: &mut Vec<(SkipReason, u64, u64)>, k: SkipReason, size: u64)
    requires
        forall|i: int| 0 <= i < old(gs)@.len() ==> (#[trigger] old(gs)@[i]).1 < u64::MAX && old(gs)@[i].2 + size
            <= u64::MAX,
    ensures
        final(gs)@ == group_add(old(gs)@, k, size),
{
    let mut i: usize = 0;
    while i < gs.len()
        invariant
            i <= gs@.len(),
            gs@ == old(gs)@,
            forall|j: int| 0 <= j < gs@.len() ==> (#[trigger] gs@[j]).1 < u64::MAX && gs@[j].2 + size <= u64::MAX,
            forall|j: int| 0 <= j < i ==> (#[trigger] gs@[j]).0 != k,
        decreases gs@.len() - i,
    {
        if gs[i].0 == k {
            proof {
                lemma_group_index_at(gs@, k, i as int);
            }
            let g = gs[i];
            gs.set(i, (k, g.1 + 1, g.2 + size));
            return;
        }
        i = i + 1;
    }
    proof {
        lemma_group_index_at(gs@, k, i as int);
    }
    gs.push((k, 1, size));
}

fn add_class_group(gs: &mut Vec<(FileClass, u64, u64)>, k: FileClass, size: u64)
    requires
        forall|i: int| 0 <= i < old(gs)@.len() ==> (#[trigger] old(gs)@[i]).1 < u64::MAX && old(gs)@[i].2 + size
            <= u64::MAX,
    ensures
        final(gs)@ == group_add(old(gs)@, k, size),
{
    let mut i: usize = 0;
    while i < gs.len()
        invariant
            i <= gs@.len(),
            gs@ == old(gs)@,
            forall|j: int| 0 <= j < gs@.len() ==> (#[trigger] gs@[j]).1 < u64::MAX && gs@[j].2 + size <= u64::MAX,
            forall|j: int| 0 <= j < i ==> (#[trigger] gs@[j]).0 != k,
        decreases gs@.len() - i,
    {
        if gs[i].0 == k {
            proof {
                lemma_group_index_at(gs@, k, i as int);
            }
            let g = gs[i];
            gs.set(i, (k, g.1 + 1, g.2 + size));
            return;
        }
        i = i + 1;
    }
    proof {
        lemma_group_index_at(gs@, k, i as int);
    }
    gs.push((k, 1, size));
}

fn sort_skip_groups(gs: &Vec<(SkipReason, u64, u64)>) -> (r: Vec<(SkipReason, u64, u64)>)
    ensures
        r@ == stable_sort(gs@, by_count_desc()),
{
    let ghost key = by_count_desc();
    let mut out: Vec<(SkipReason, u64, u64)> = Vec::new();
    let mut i: usize = 0;
    while i < gs.len()
        invariant
            i <= gs@.len(),
            key == by_count_desc(),
            out@ == stable_sort(gs@.subrange(0, i as int), key),
        decreases gs@.len() - i,
    {
        let x = gs[i];
        let mut p: usize = out.len();
        while p > 0 && out[p - 1].1 < x.1
            invariant
                p <= out@.len(),
                forall|k: int| p <= k < out@.len() ==> out@[k].1 < x.1,
            decreases p,
        {
            p = p - 1;
        }
        proof {
            assert(gs@.subrange(0, i + 1).drop_last() =~= gs@.subrange(0, i as int));
            assert(gs@.subrange(0, i + 1).last() == x);
            assert forall|k: int| p <= k < out@.len() implies key(x) < key(#[trigger] out@[k]) by {
                assert(out@[k].1 < x.1);
            }
            lemma_insert_at(out@, x, key, p as int);
        }
        out.insert(p, x);
        i = i + 1;
    }
    assert(gs@.subrange(0, gs@.len() as int) =~= gs@);
    out
}

fn sort_class_groups(gs: &Vec<(FileClass, u64, u64)>) -> (r: Vec<(FileClass, u64, u64)>)
    ensures
        r@ == stable_sort(gs@, by_size_desc()),
{
    let ghost key = by_size_desc();
    let mut out: Vec<(FileClass, u64, u64)> = Vec::new();
    let mut i: usize = 0;
    while i < gs.len()
        invariant
            i <= gs@.len(),
            key == by_size_desc(),
            out@ == stable_sort(gs@.subrange(0, i as int), key),
        decreases gs@.len() - i,
    {
        let x = gs[i];
        let mut p: usize = out.len();
        while p > 0 && out[p - 1].2 < x.2
            invariant
                p <= out@.len(),
                forall|k: int| p <= k < out@.len() ==> out@[k].2 < x.2,
            decreases p,
        {
            p = p - 1;
        }
        proof {
            assert(gs@.subrange(0, i + 1).drop_last() =~= gs@.subrange(0, i as int));
            assert(gs@.subrange(0, i + 1).last() == x);
            assert forall|k: int| p <= k < out@.len() implies key(x) < key(#[trigger] out@[k]) by {
                assert(out@[k].2 < x.2);
            }
            lemma_insert_at(out@, x, key, p as int);
        }
        out.insert(p, x);
        i = i + 1;
    }
    assert(gs@.subrange(0, gs@.len() as int) =~= gs@);
    out
}

/// Aggregates scanned files into an estimate with `algo`'s ratios.
pub fn summarize(files: &[ScannedFile], algo: CompactAlgorithm) -> (r: Estimate)
    requires
        scanned_total(files@, files@.len() as int) <= u64::MAX,
    ensures
        ({
            let t = tally(files@, algo, files@.len() as int);
            &&& r.total_files == t.files
            &&& r.candidate_files == t.candidates
            &&& r.skipped_files == t.skipped
            &&& r.total_size == t.total
            &&& r.candidate_size == t.candidate_size
            &&& r.skipped_size == t.skipped_size
            &&& r.estimated_after == t.after
            &&& r.estimated_savings == t.total - t.after
            &&& r.skipped_breakdown@ == stable_sort(t.skip_groups, by_count_desc())
            &&& r.candidate_breakdown@ == stable_sort(t.class_groups, by_size_desc())
        }),
        forall|a: int, b: int| 0 <= a <= b < r.candidate_breakdown@.len()
            ==> (#[trigger] r.candidate_breakdown@[a]).2 >= (#[trigger] r.candidate_breakdown@[b]).2,
        forall|a: int, b: int| 0 <= a <= b < r.skipped_breakdown@.len()
            ==> (#[trigger] r.skipped_breakdown@[a]).1 >= (#[trigger] r.skipped_breakdown@[b]).1,
        groups_exact(r.candidate_breakdown@, files@, class_key(), files@.len() as int),
        groups_exact(r.skipped_breakdown@, files@, reason_key(), files@.len() as int),
{
    let ghost n = files@.len() as int;
    let mut total_files: u64 = 0;
    let mut candidate_files: u64 = 0;
    let mut skipped_files: u64 = 0;
    let mut total_size: u64 = 0;
    let mut candidate_size: u64 = 0;
    let mut skipped_size: u64 = 0;
    let mut estimated_after: u64 = 0;
    let mut skip_groups: Vec<(SkipReason, u64, u64)> = Vec::new();
    let mut class_groups: Vec<(FileClass, u64, u64)> = Vec::new();
    let mut i: usize = 0;
    while i < files.len()
        invariant
            i <= files@.len(),
            n == files@.len(),
            scanned_total(files@, n) <= u64::MAX,
            ({
                let t = tally(files@, algo, i as int);
                &&& total_files == t.files
                &&& candidate_files == t.candidates
                &&& skipped_files == t.skipped
                &&& total_size == t.total
                &&& candidate_size == t.candidate_size
                &&& skipped_size == t.skipped_size
                &&& estimated_after == t.after
                &&& skip_groups@ == t.skip_groups
                &&& class_groups@ == t.class_groups
            }),
        decreases files@.len() - i,
    {
        proof {
            lemma_scanned_total_mono(files@, i + 1, n);
            lemma_tally_ok(files@, algo, i as int);
            lemma_tally_ok(files@, algo, i + 1);
        }
        let f = &files[i];
        let size = f.size;
        total_files = total_files + 1;
        total_size = total_size + size;
        match f.kind {
            FileKind::Candidate(cls) => {
                candidate_files = candidate_files + 1;
                candidate_size = candidate_size + size;
                let pct = cls.ratio_pct(algo);
                proof {
                    lemma_post_le(size, pct as nat);
                }
                let post = ((size as u128 * pct as u128 + 50) / 100) as u64;
                estimated_after = estimated_after + post;
                add_class_group(&mut class_groups, cls, size);
            },
            FileKind::Skipped(reason) => {
                skipped_files = skipped_files + 1;
                skipped_size = skipped_size + size;
                estimated_after = estimated_after + size;
                add_skip_group(&mut skip_groups, reason, size);
            },
        }
        i = i + 1;
    }
    proof {
        lemma_tally_ok(files@, algo, n);
    }
    let estimated_savings = total_size - estimated_after;
    let skipped_breakdown = sort_skip_groups(&skip_groups);
    let candidate_breakdown = sort_class_groups(&class_groups);
    proof {
        lemma_breakdowns_ordered(files@, algo);
        lemma_breakdowns_exact(files@, algo);
    }
    Estimate {
        total_files,
        candidate_files,
        skipped_files,
        total_size,
        candidate_size,
        skipped_size,
        estimated_after,
        estimated_savings,
        skipped_breakdown,
        candidate_breakdown,
    }
}

proof fn lemma_group_sums_insert_sorted<K>(s: Seq<(K, u64, u64)>, x: (K, u64, u64), key: spec_fn((K, u64, u64)) -> int)
    ensures
        group_counts(insert_sorted(s, x, key)) == group_counts(s) + x.1,
        group_sizes(insert_sorted(s, x, key)) == group_sizes(s) + x.2,
    decreases s.len(),
{
    if s.len() == 0 {
        lemma_group_sums_push(s, x);
        assert(s.push(x) =~= seq![x]);
    } else if key(s.last()) <= key(x) {
        lemma_group_sums_push(s, x);
    } else {
        lemma_group_sums_insert_sorted(s.drop_last(), x, key);
        lemma_group_sums_push(insert_sorted(s.drop_last(), x, key), s.last());
        lemma_group_sums_push(s.drop_last(), s.last());
        assert(s.drop_last().push(s.last()) =~= s);
    }
}

proof fn lemma_group_sums_sorted<K>(s: Seq<(K, u64, u64)>, key: spec_fn((K, u64, u64)) -> int)
    ensures
        group_counts(stable_sort(s, key)) == group_counts(s),
        group_sizes(stable_sort(s, key)) == group_sizes(s),
    decreases s.len(),
{
    if s.len() > 0 {
        lemma_group_sums_sorted(s.drop_last(), key);
        lemma_group_sums_insert_sorted(stable_sort(s.drop_last(), key), s.last(), key);
        lemma_group_sums_push(s.drop_last(), s.last());
        assert(s.drop_last().push(s.last()) =~= s);
    }
}

/// The breakdowns come in order: candidate classes by bytes, largest
/// first, and skip reasons by file count, most first.
pub proof fn lemma_breakdowns_ordered(files: Seq<ScannedFile>, algo: CompactAlgorithm)
    ensures
        ({
            let t = tally(files, algo, files.len() as int);
            let sb = stable_sort(t.skip_groups, by_count_desc());
            let cb = stable_sort(t.class_groups, by_size_desc());
            &&& forall|a: int, b: int| 0 <= a <= b < cb.len() ==> (#[trigger] cb[a]).2 >= (#[trigger] cb[b]).2
            &&& forall|a: int, b: int| 0 <= a <= b < sb.len() ==> (#[trigger] sb[a]).1 >= (#[trigger] sb[b]).1
        }),
{
    let t = tally(files, algo, files.len() as int);
    let sb = stable_sort(t.skip_groups, by_count_desc());
    let cb = stable_sort(t.class_groups, by_size_desc());
    lemma_stable_sort_sorted(t.skip_groups, by_count_desc());
    lemma_stable_sort_sorted(t.class_groups, by_size_desc());
    assert forall|a: int, b: int| 0 <= a <= b < cb.len() implies (#[trigger] cb[a]).2 >= (#[trigger] cb[b]).2 by {
        assert(by_size_desc()(cb[a]) <= by_size_desc()(cb[b]));
    }
    assert forall|a: int, b: int| 0 <= a <= b < sb.len() implies (#[trigger] sb[a]).1 >= (#[trigger] sb[b]).1 by {
        assert(by_count_desc()(sb[a]) <= by_count_desc()(sb[b]));
    }
}

/// The estimate adds up: every file is a candidate or skipped, and so is
/// every byte; the estimate never exceeds the original size; the
/// breakdowns account for every candidate and every skipped file, with
/// their bytes, and come most-files (skipped) and largest (candidates)
/// first.
pub proof fn lemma_estimate_adds_up(files: Seq<ScannedFile>, algo: CompactAlgorithm)
    requires
        files.len() <= u64::MAX,
        scanned_total(files, files.len() as int) <= u64::MAX,
    ensures
        ({
            let t = tally(files, algo, files.len() as int);
            let sb = stable_sort(t.skip_groups, by_count_desc());
            let cb = stable_sort(t.class_groups, by_size_desc());
            &&& t.files == files.len()
            &&& t.files == t.candidates + t.skipped
            &&& t.total == t.candidate_size + t.skipped_size
            &&& 0 <= t.after <= t.total
            &&& group_counts(sb) == t.skipped
            &&& group_sizes(sb) == t.skipped_size
            &&& group_counts(cb) == t.candidates
            &&& group_sizes(cb) == t.candidate_size
            &&& sorted_by(sb, by_count_desc())
            &&& sorted_by(cb, by_size_desc())
        }),
{
    let t = tally(files, algo, files.len() as int);
    lemma_tally_ok(files, algo, files.len() as int);
    lemma_group_sums_sorted(t.skip_groups, by_count_desc());
    lemma_group_sums_sorted(t.class_groups, by_size_desc());
    lemma_stable_sort_sorted(t.skip_groups, by_count_desc());
    lemma_stable_sort_sorted(t.class_groups, by_size_desc());
}


// ── What each breakdown entry counts ──────────────────────────────────

/// The class of a candidate file.
pub open spec fn class_key() -> spec_fn(ScannedFile) -> Option<FileClass> {
    |f: ScannedFile| match f.kind {
        FileKind::Candidate(c) => Some(c),
        FileKind::Skipped(_) => None,
    }
}

/// The reason a skipped file is skipped.
pub open spec fn reason_key() -> spec_fn(ScannedFile) -> Option<SkipReason> {
    |f: ScannedFile| match f.kind {
        FileKind::Candidate(_) => None,
        FileKind::Skipped(r) => Some(r),
    }
}

/// How many of the first `n` files `sel` puts under `k`.
pub open spec fn files_with<K>(files: Seq<ScannedFile>, sel: spec_fn(ScannedFile) -> Option<K>, k: K, n: int) -> int
    decreases n,
{
    if n <= 0 {
        0
    } else {
        files_with(files, sel, k, n - 1) + (if sel(files[n - 1]) == Some(k) { 1int } else { 0int })
    }
}

/// The bytes of the first `n` files that `sel` puts under `k`.
pub open spec fn bytes_with<K>(files: Seq<ScannedFile>, sel: spec_fn(ScannedFile) -> Option<K>, k: K, n: int) -> int
    decreases n,
{
    if n <= 0 {
        0
    } else {
        bytes_with(files, sel, k, n - 1) + (if sel(files[n - 1]) == Some(k) { files[n - 1].size as int } else { 0int })
    }
}

/// `gs` has one entry per key that `sel` gives among the first `n` files,
/// each with the number and the bytes of the files under its key.
pub open spec fn groups_exact<K>(gs: Seq<(K, u64, u64)>, files: Seq<ScannedFile>, sel: spec_fn(ScannedFile) -> Option<K>, n: int) -> bool {
    &&& forall|i: int| 0 <= i < gs.len() ==> (#[trigger] gs[i]).1 == files_with(files, sel, gs[i].0, n)
        && gs[i].2 == bytes_with(files, sel, gs[i].0, n) && gs[i].1 >= 1
    &&& forall|i: int, j: int| 0 <= i < j < gs.len() ==> (#[trigger] gs[i]).0 != (#[trigger] gs[j]).0
    &&& forall|f: int| 0 <= f < n && sel(#[trigger] files[f]) is Some ==> exists|i: int|
        0 <= i < gs.len() && (#[trigger] gs[i]).0 == sel(files[f])->0
}

proof fn lemma_with_bounds<K>(files: Seq<ScannedFile>, sel: spec_fn(ScannedFile) -> Option<K>, k: K, n: int)
    requires
        0 <= n <= files.len(),
    ensures
        0 <= files_with(files, sel, k, n) <= n,
        0 <= bytes_with(files, sel, k, n) <= scanned_total(files, n),
        (forall|f: int| 0 <= f < n ==> sel(#[trigger] files[f]) != Some(k)) ==> files_with(files, sel, k, n) == 0
            && bytes_with(files, sel, k, n) == 0,
    decreases n,
{
    if n > 0 {
        lemma_with_bounds(files, sel, k, n - 1);
        if forall|f: int| 0 <= f < n ==> sel(#[trigger] files[f]) != Some(k) {
            assert forall|f: int| 0 <= f < n - 1 implies sel(#[trigger] files[f]) != Some(k) by {}
        }
    }
}

proof fn lemma_with_step<K>(files: Seq<ScannedFile>, sel: spec_fn(ScannedFile) -> Option<K>, k: K, n: int)
    requires
        0 < n <= files.len(),
    ensures
        files_with(files, sel, k, n) == files_with(files, sel, k, n - 1) + (if sel(files[n - 1]) == Some(k) { 1int } else { 0int }),
        bytes_with(files, sel, k, n) == bytes_with(files, sel, k, n - 1) + (if sel(files[n - 1]) == Some(k) {
            files[n - 1].size as int
        } else {
            0int
        }),
{
}

/// Counting one more file keeps the groups exact.
proof fn lemma_groups_exact_step<K>(gs: Seq<(K, u64, u64)>, files: Seq<ScannedFile>, sel: spec_fn(ScannedFile) -> Option<K>, n: int)
    requires
        0 < n <= files.len(),
        files.len() <= u64::MAX,
        scanned_total(files, files.len() as int) <= u64::MAX,
        groups_exact(gs, files, sel, n - 1),
    ensures
        ({
            let f = files[n - 1];
            match sel(f) {
                Some(k) => groups_exact(group_add(gs, k, f.size), files, sel, n),
                None => groups_exact(gs, files, sel, n),
            }
        }),
{
    let f = files[n - 1];
    lemma_scanned_total_mono(files, n, files.len() as int);
    match sel(f) {
        None => {
            assert forall|i: int| 0 <= i < gs.len() implies (#[trigger] gs[i]).1 == files_with(files, sel, gs[i].0, n)
                && gs[i].2 == bytes_with(files, sel, gs[i].0, n) && gs[i].1 >= 1 by {
                lemma_with_step(files, sel, gs[i].0, n);
            }
            assert forall|g: int| 0 <= g < n && sel(#[trigger] files[g]) is Some implies exists|i: int|
                0 <= i < gs.len() && (#[trigger] gs[i]).0 == sel(files[g])->0 by {
                if g == n - 1 {
                    assert(sel(files[n - 1]) is None);
                }
            }
        },
        Some(k) => {
            lemma_group_index(gs, k);
            let i0 = group_index(gs, k);
            let r = group_add(gs, k, f.size);
            lemma_with_step(files, sel, k, n);
            lemma_with_bounds(files, sel, k, n);
            if i0 < gs.len() {
                assert(r == gs.update(i0, (k, (gs[i0].1 + 1) as u64, (gs[i0].2 + f.size) as u64)));
                assert forall|i: int| 0 <= i < r.len() implies (#[trigger] r[i]).1 == files_with(files, sel, r[i].0, n)
                    && r[i].2 == bytes_with(files, sel, r[i].0, n) && r[i].1 >= 1 by {
                    lemma_with_step(files, sel, gs[i].0, n);
                    if i != i0 {
                        assert(r[i] == gs[i]);
                        assert(gs[i].0 != gs[i0].0);
                    }
                }
                assert forall|i: int, j: int| 0 <= i < j < r.len() implies (#[trigger] r[i]).0 != (#[trigger] r[j]).0 by {
                    assert(r[i].0 == gs[i].0 && r[j].0 == gs[j].0);
                }
                assert forall|g: int| 0 <= g < n && sel(#[trigger] files[g]) is Some implies exists|i: int|
                    0 <= i < r.len() && (#[trigger] r[i]).0 == sel(files[g])->0 by {
                    if g == n - 1 {
                        assert(r[i0].0 == k);
                    } else {
                        let i = choose|i: int| 0 <= i < gs.len() && (#[trigger] gs[i]).0 == sel(files[g])->0;
                        assert(r[i].0 == gs[i].0);
                    }
                }
            } else {
                assert(r == gs.push((k, 1u64, f.size)));
                assert forall|g: int| 0 <= g < n - 1 implies sel(#[trigger] files[g]) != Some(k) by {
                    if sel(files[g]) == Some(k) {
                        let i = choose|i: int| 0 <= i < gs.len() && (#[trigger] gs[i]).0 == sel(files[g])->0;
                        assert(gs[i].0 != k);
                    }
                }
                lemma_with_bounds(files, sel, k, n - 1);
                assert forall|i: int| 0 <= i < r.len() implies (#[trigger] r[i]).1 == files_with(files, sel, r[i].0, n)
                    && r[i].2 == bytes_with(files, sel, r[i].0, n) && r[i].1 >= 1 by {
                    if i < gs.len() {
                        assert(r[i] == gs[i]);
                        assert(gs[i].0 != k);
                        lemma_with_step(files, sel, gs[i].0, n);
                    }
                }
                assert forall|i: int, j: int| 0 <= i < j < r.len() implies (#[trigger] r[i]).0 != (#[trigger] r[j]).0 by {
                    assert(r[i] == gs[i]);
                    if j < gs.len() {
                        assert(r[j] == gs[j]);
                    }
                }
                assert forall|g: int| 0 <= g < n && sel(#[trigger] files[g]) is Some implies exists|i: int|
                    0 <= i < r.len() && (#[trigger] r[i]).0 == sel(files[g])->0 by {
                    if g == n - 1 {
                        assert(r[gs.len() as int].0 == k);
                    } else {
                        let i = choose|i: int| 0 <= i < gs.len() && (#[trigger] gs[i]).0 == sel(files[g])->0;
                        assert(r[i] == gs[i]);
                    }
                }
            }
        },
    }
}

proof fn lemma_tally_groups_exact(files: Seq<ScannedFile>, algo: CompactAlgorithm, n: int)
    requires
        0 <= n <= files.len(),
        files.len() <= u64::MAX,
        scanned_total(files, files.len() as int) <= u64::MAX,
    ensures
        groups_exact(tally(files, algo, n).class_groups, files, class_key(), n),
        groups_exact(tally(files, algo, n).skip_groups, files, reason_key(), n),
    decreases n,
{
    if n > 0 {
        lemma_tally_groups_exact(files, algo, n - 1);
        let t = tally(files, algo, n - 1);
        lemma_groups_exact_step(t.class_groups, files, class_key(), n);
        lemma_groups_exact_step(t.skip_groups, files, reason_key(), n);
    }
}

proof fn lemma_insert_keys_distinct<K>(s: Seq<(K, u64, u64)>, x: (K, u64, u64), key: spec_fn((K, u64, u64)) -> int)
    requires
        forall|i: int, j: int| 0 <= i < j < s.len() ==> (#[trigger] s[i]).0 != (#[trigger] s[j]).0,
        forall|i: int| 0 <= i < s.len() ==> (#[trigger] s[i]).0 != x.0,
    ensures
        ({
            let t = insert_sorted(s, x, key);
            forall|i: int, j: int| 0 <= i < j < t.len() ==> (#[trigger] t[i]).0 != (#[trigger] t[j]).0
        }),
    decreases s.len(),
{
    broadcast use vstd::seq_lib::group_to_multiset_ensures;

    lemma_insert_sorted_multiset(s, x, key);
    if s.len() == 0 {
    } else if key(s.last()) <= key(x) {
        let t = s.push(x);
        assert forall|i: int, j: int| 0 <= i < j < t.len() implies (#[trigger] t[i]).0 != (#[trigger] t[j]).0 by {
            assert(t[i] == s[i]);
            if j < s.len() {
                assert(t[j] == s[j]);
            }
        }
    } else {
        let d = s.drop_last();
        assert forall|i: int, j: int| 0 <= i < j < d.len() implies (#[trigger] d[i]).0 != (#[trigger] d[j]).0 by {
            assert(d[i] == s[i] && d[j] == s[j]);
        }
        assert forall|i: int| 0 <= i < d.len() implies (#[trigger] d[i]).0 != x.0 by {
            assert(d[i] == s[i]);
        }
        lemma_insert_keys_distinct(d, x, key);
        let u = insert_sorted(d, x, key);
        lemma_insert_sorted_multiset(d, x, key);
        let t = u.push(s.last());
        assert forall|a: int| 0 <= a < u.len() implies (#[trigger] u[a]).0 != s.last().0 by {
            assert(u.to_multiset().count(u[a]) > 0);
            if u[a] != x {
                assert(d.to_multiset().count(u[a]) > 0);
                assert(d.contains(u[a]));
                let m = choose|m: int| 0 <= m < d.len() && d[m] == u[a];
                assert(s[m] == u[a]);
                assert(s[m].0 != s[s.len() - 1].0);
            } else {
                assert(s[s.len() - 1].0 != x.0);
            }
        }
        assert forall|i: int, j: int| 0 <= i < j < t.len() implies (#[trigger] t[i]).0 != (#[trigger] t[j]).0 by {
            assert(t[i] == u[i]);
            if j < u.len() {
                assert(t[j] == u[j]);
            }
        }
    }
}

proof fn lemma_sort_keys_distinct<K>(s: Seq<(K, u64, u64)>, key: spec_fn((K, u64, u64)) -> int)
    requires
        forall|i: int, j: int| 0 <= i < j < s.len() ==> (#[trigger] s[i]).0 != (#[trigger] s[j]).0,
    ensures
        ({
            let t = stable_sort(s, key);
            forall|i: int, j: int| 0 <= i < j < t.len() ==> (#[trigger] t[i]).0 != (#[trigger] t[j]).0
        }),
    decreases s.len(),
{
    broadcast use vstd::seq_lib::group_to_multiset_ensures;

    if s.len() > 0 {
        let d = s.drop_last();
        assert forall|i: int, j: int| 0 <= i < j < d.len() implies (#[trigger] d[i]).0 != (#[trigger] d[j]).0 by {
            assert(d[i] == s[i] && d[j] == s[j]);
        }
        lemma_sort_keys_distinct(d, key);
        let sd = stable_sort(d, key);
        lemma_stable_sort_permutes(d, key);
        assert forall|i: int| 0 <= i < sd.len() implies (#[trigger] sd[i]).0 != s.last().0 by {
            assert(sd.to_multiset().count(sd[i]) > 0);
            assert(d.contains(sd[i]));
            let m = choose|m: int| 0 <= m < d.len() && d[m] == sd[i];
            assert(s[m] == sd[i]);
        }
        lemma_insert_keys_distinct(sd, s.last(), key);
    }
}

/// A reordering of exact groups is exact.
proof fn lemma_groups_exact_sorted<K>(
    gs: Seq<(K, u64, u64)>,
    files: Seq<ScannedFile>,
    sel: spec_fn(ScannedFile) -> Option<K>,
    n: int,
    key: spec_fn((K, u64, u64)) -> int,
)
    requires
        groups_exact(gs, files, sel, n),
    ensures
        groups_exact(stable_sort(gs, key), files, sel, n),
{
    broadcast use vstd::seq_lib::group_to_multiset_ensures;

    let t = stable_sort(gs, key);
    lemma_stable_sort_permutes(gs, key);
    lemma_sort_keys_distinct(gs, key);
    assert forall|i: int| 0 <= i < t.len() implies (#[trigger] t[i]).1 == files_with(files, sel, t[i].0, n)
        && t[i].2 == bytes_with(files, sel, t[i].0, n) && t[i].1 >= 1 by {
        assert(t.to_multiset().count(t[i]) > 0);
        assert(gs.contains(t[i]));
        let m = choose|m: int| 0 <= m < gs.len() && gs[m] == t[i];
    }
    assert forall|f: int| 0 <= f < n && sel(#[trigger] files[f]) is Some implies exists|i: int|
        0 <= i < t.len() && (#[trigger] t[i]).0 == sel(files[f])->0 by {
        let m = choose|m: int| 0 <= m < gs.len() && (#[trigger] gs[m]).0 == sel(files[f])->0;
        assert(gs.to_multiset().count(gs[m]) > 0);
        assert(t.contains(gs[m]));
        let i = choose|i: int| 0 <= i < t.len() && t[i] == gs[m];
    }
}

/// Each candidate breakdown entry is one class, with the number of
/// candidate files of that class and their bytes; every class of a
/// candidate file has an entry, and no class has two. The skipped
/// breakdown does the same for skip reasons.
pub proof fn lemma_breakdowns_exact(files: Seq<ScannedFile>, algo: CompactAlgorithm)
    requires
        files.len() <= u64::MAX,
        scanned_total(files, files.len() as int) <= u64::MAX,
    ensures
        ({
            let n = files.len() as int;
            let t = tally(files, algo, n);
            groups_exact(stable_sort(t.class_groups, by_size_desc()), files, class_key(), n)
                && groups_exact(stable_sort(t.skip_groups, by_count_desc()), files, reason_key(), n)
        }),
{
    let n = files.len() as int;
    let t = tally(files, algo, n);
    lemma_tally_groups_exact(files, algo, n);
    lemma_groups_exact_sorted(t.class_groups, files, class_key(), n, by_size_desc());
    lemma_groups_exact_sorted(t.skip_groups, files, reason_key(), n, by_count_desc());
}

} // verus!
