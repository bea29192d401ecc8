//! Fragmentation analysis of individual files.
//!
//! A file's `(VCN, LCN)` extents (from `FSCTL_GET_RETRIEVAL_POINTERS`)
//! describe where its virtual clusters live on disk. A perfectly
//! contiguous file has one extent; the fragmentation ratio is
//! `allocated extents / clusters`.

use vstd::prelude::*;
use crate::error::GError;
use crate::le::{le_val, read_le};
use crate::text::{dec_seq, owned, push_str, u64_to_dec};

verus! {

/// LCN value NTFS reports for a sparse hole.
pub const SPARSE_LCN: u64 = 0xffff_ffff_ffff_ffff;

/// One `(VCN, LCN)` run of a file.
#[derive(Debug, Clone, Copy, PartialEq, Eq, Structural)]
pub struct FileExtent {
    pub vcn: u64,
    pub lcn: u64,
    pub len: u64,
}

impl FileExtent {
    /// `true` for a sparse hole (no physical clusters).
    pub fn is_sparse(&self) -> (r: bool)
        ensures
            r == (self.lcn == u64::MAX),
    {
        self.lcn == u64::MAX
    }

    /// `true` if `next` starts at the LCN right after this extent.
    pub fn contiguous_with(&self, next: &FileExtent) -> (r: bool)
        requires
            self.lcn != u64::MAX && next.lcn != u64::MAX ==> self.lcn + self.len <= u64::MAX,
        ensures
            r == (self.lcn != u64::MAX && next.lcn != u64::MAX && self.lcn + self.len == next.lcn),
    {
        if self.is_sparse() || next.is_sparse() {
            return false;
        }
        self.lcn + self.len == next.lcn
    }
}

/// Number of allocated (non-sparse) extents.
pub open spec fn allocated_count(es: Seq<FileExtent>) -> nat
    decreases es.len(),
{
    if es.len() == 0 {
        0
    } else {
        allocated_count(es.drop_last()) + (if es.last().lcn != u64::MAX { 1nat } else { 0nat })
    }
}

/// Smallest LCN of the allocated extents.
pub open spec fn min_lcn(es: Seq<FileExtent>) -> Option<u64>
    decreases es.len(),
{
    if es.len() == 0 {
        None
    } else {
        let rest = min_lcn(es.drop_last());
        let e = es.last();
        if e.lcn == u64::MAX {
            rest
        } else {
            match rest {
                None => Some(e.lcn),
                Some(m) => Some(if e.lcn < m { e.lcn } else { m }),
            }
        }
    }
}

/// Largest end LCN (`lcn + len`) of the allocated extents.
pub open spec fn max_end(es: Seq<FileExtent>) -> Option<u64>
    decreases es.len(),
{
    if es.len() == 0 {
        None
    } else {
        let rest = max_end(es.drop_last());
        let e = es.last();
        if e.lcn == u64::MAX {
            rest
        } else {
            let end = (e.lcn + e.len) as u64;
            match rest {
                None => Some(end),
                Some(m) => Some(if end > m { end } else { m }),
            }
        }
    }
}

/// Clusters needed for `size` bytes (rounded up); 0 for a zero cluster size.
pub open spec fn clusters_for(size: u64, bpc: u64) -> u64 {
    if bpc == 0 { 0 } else { ((size + bpc - 1) / bpc as int) as u64 }
}

/// `allocated / total * 100 >= threshold`, computed exactly; a file with
/// no clusters has ratio 0.
pub open spec fn fragmented_at(allocated: nat, total: nat, threshold_pct: nat) -> bool {
    if total == 0 { threshold_pct == 0 } else { allocated * 100 >= threshold_pct * total }
}

/// The full VCN→LCN map of one file.
#[derive(Debug, Clone)]
pub struct FileMap {
    pub path: String,
    pub size: u64,
    pub bytes_per_cluster: u64,
    pub extents: Vec<FileExtent>,
}

impl FileMap {
    /// Clusters the file occupies (size / cluster size, rounded up).
    pub fn total_clusters(&self) -> (r: u64)
        ensures
            r == clusters_for(self.size, self.bytes_per_cluster),
    {
        if self.bytes_per_cluster == 0 {
            0
        } else {
            let q = self.size / self.bytes_per_cluster;
            let rem = self.size % self.bytes_per_cluster;
            proof {
                let b = self.bytes_per_cluster as int;
                let s = self.size as int;
                assert(s == b * q + rem) by (nonlinear_arith)
                    requires
                        b > 0,
                        q == s / b,
                        rem == s % b,
                ;
                if rem == 0 {
                    assert((s + b - 1) / b == q) by (nonlinear_arith)
                        requires
                            s == b * q,
                            b > 0,
                    ;
                } else {
                    assert(q < u64::MAX) by (nonlinear_arith)
                        requires
                            s == b * q + rem,
                            0 < rem < b,
                            s <= u64::MAX,
                    ;
                    assert((s + b - 1) / b == q + 1) by (nonlinear_arith)
                        requires
                            s == b * q + rem,
                            0 < rem < b,
                    ;
                }
            }
            if rem == 0 { q } else { q + 1 }
        }
    }

    /// Number of non-sparse extents.
    pub fn allocated_extent_count(&self) -> (r: usize)
        ensures
            r == allocated_count(self.extents@),
    {
        let mut n: usize = 0;
        let mut i: usize = 0;
        while i < self.extents.len()
            invariant
                i <= self.extents@.len(),
                n == allocated_count(self.extents@.subrange(0, i as int)),
                n <= i,
            decreases self.extents@.len() - i,
        {
            assert(self.extents@.subrange(0, i + 1).drop_last() =~= self.extents@.subrange(0, i as int));
            if self.extents[i].lcn != u64::MAX {
                n = n + 1;
            }
            i = i + 1;
        }
        assert(self.extents@.subrange(0, i as int) =~= self.extents@);
        n
    }

    /// `true` when the fragmentation ratio (allocated extents per cluster)
    /// is at least `threshold_pct` percent.
    pub fn is_fragmented(&self, threshold_pct: u8) -> (r: bool)
        ensures
            r == fragmented_at(
                allocated_count(self.extents@),
                clusters_for(self.size, self.bytes_per_cluster) as nat,
                threshold_pct as nat,
            ),
    {
        let total = self.total_clusters();
        let count = self.allocated_extent_count();
        if total == 0 {
            return threshold_pct == 0;
        }
        let t = threshold_pct as u128;
        let c = total as u128;
        assert(t * c <= 255 * 18446744073709551615) by (nonlinear_arith)
            requires
                t <= 255,
                c <= 18446744073709551615,
        ;
        (count as u128) * 100 >= t * c
    }

    /// Lowest LCN of any allocated extent.
    pub fn lowest_lcn(&self) -> (r: Option<u64>)
        ensures
            r == min_lcn(self.extents@),
    {
        let mut best: Option<u64> = None;
        let mut i: usize = 0;
        while i < self.extents.len()
            invariant
                i <= self.extents@.len(),
                best == min_lcn(self.extents@.subrange(0, i as int)),
            decreases self.extents@.len() - i,
        {
            assert(self.extents@.subrange(0, i + 1).drop_last() =~= self.extents@.subrange(0, i as int));
            let e = self.extents[i];
            if e.lcn != u64::MAX {
                best = match best {
                    None => Some(e.lcn),
                    Some(m) => Some(if e.lcn < m { e.lcn } else { m }),
                };
            }
            i = i + 1;
        }
        assert(self.extents@.subrange(0, i as int) =~= self.extents@);
        best
    }

    /// Highest `lcn + len` of any allocated extent.
    pub fn highest_lcn_exclusive(&self) -> (r: Option<u64>)
        requires
            forall|i: int| 0 <= i < self.extents@.len() && self.extents@[i].lcn != u64::MAX
                ==> #[trigger] self.extents@[i].lcn + self.extents@[i].len <= u64::MAX,
        ensures
            r == max_end(self.extents@),
    {
        let mut best: Option<u64> = None;
        let mut i: usize = 0;
        while i < self.extents.len()
            invariant
                i <= self.extents@.len(),
                best == max_end(self.extents@.subrange(0, i as int)),
                forall|k: int| 0 <= k < self.extents@.len() && self.extents@[k].lcn != u64::MAX
                    ==> #[trigger] self.extents@[k].lcn + self.extents@[k].len <= u64::MAX,
            decreases self.extents@.len() - i,
        {
            assert(self.extents@.subrange(0, i + 1).drop_last() =~= self.extents@.subrange(0, i as int));
            let e = self.extents[i];
            if e.lcn != u64::MAX {
                let end = e.lcn + e.len;
                best = match best {
                    None => Some(end),
                    Some(m) => Some(if end > m { end } else { m }),
                };
            }
            i = i + 1;
        }
        assert(self.extents@.subrange(0, i as int) =~= self.extents@);
        best
    }

    /// Worth defragmenting: more than one allocated extent, and fragmented
    /// at `threshold_pct`.
    pub fn needs_defrag(&self, threshold_pct: u8) -> (r: bool)
        ensures
            r == (allocated_count(self.extents@) > 1 && fragmented_at(
                allocated_count(self.extents@),
                clusters_for(self.size, self.bytes_per_cluster) as nat,
                threshold_pct as nat,
            )),
    {
        self.allocated_extent_count() > 1 && self.is_fragmented(threshold_pct)
    }
}

/// Aggregated fragmentation statistics for a folder of files.
#[derive(Debug, Clone, Copy, PartialEq, Eq, Structural)]
pub struct FragmentationStats {
    pub total_files: u64,
    pub analyzed_files: u64,
    pub fragmented_files: u64,
    pub skipped_locked: u64,
    pub skipped_attrs: u64,
    pub skipped_too_small: u64,
    pub total_size: u64,
    pub fragmented_size: u64,
    pub total_extents: u64,
    pub max_extents_seen: u64,
}

impl Default for FragmentationStats {
    fn default() -> (r: Self)
        ensures
            r == (FragmentationStats {
                total_files: 0,
                analyzed_files: 0,
                fragmented_files: 0,
                skipped_locked: 0,
                skipped_attrs: 0,
                skipped_too_small: 0,
                total_size: 0,
                fragmented_size: 0,
                total_extents: 0,
                max_extents_seen: 0,
            }),
    {
        FragmentationStats {
            total_files: 0,
            analyzed_files: 0,
            fragmented_files: 0,
            skipped_locked: 0,
            skipped_attrs: 0,
            skipped_too_small: 0,
            total_size: 0,
            fragmented_size: 0,
            total_extents: 0,
            max_extents_seen: 0,
        }
    }
}

/// Counters of `a` and `b` together: sums, and the larger maximum.
pub open spec fn merged_stats(a: FragmentationStats, b: FragmentationStats) -> FragmentationStats {
    FragmentationStats {
        total_files: (a.total_files + b.total_files) as u64,
        analyzed_files: (a.analyzed_files + b.analyzed_files) as u64,
        fragmented_files: (a.fragmented_files + b.fragmented_files) as u64,
        skipped_locked: (a.skipped_locked + b.skipped_locked) as u64,
        skipped_attrs: (a.skipped_attrs + b.skipped_attrs) as u64,
        skipped_too_small: (a.skipped_too_small + b.skipped_too_small) as u64,
        total_size: (a.total_size + b.total_size) as u64,
        fragmented_size: (a.fragmented_size + b.fragmented_size) as u64,
        total_extents: (a.total_extents + b.total_extents) as u64,
        max_extents_seen: if a.max_extents_seen >= b.max_extents_seen { a.max_extents_seen } else { b.max_extents_seen },
    }
}

/// The sums of `merged_stats(a, b)` fit in a `u64`.
pub open spec fn merge_fits(a: FragmentationStats, b: FragmentationStats) -> bool {
    &&& a.total_files + b.total_files <= u64::MAX
    &&& a.analyzed_files + b.analyzed_files <= u64::MAX
    &&& a.fragmented_files + b.fragmented_files <= u64::MAX
    &&& a.skipped_locked + b.skipped_locked <= u64::MAX
    &&& a.skipped_attrs + b.skipped_attrs <= u64::MAX
    &&& a.skipped_too_small + b.skipped_too_small <= u64::MAX
    &&& a.total_size + b.total_size <= u64::MAX
    &&& a.fragmented_size + b.fragmented_size <= u64::MAX
    &&& a.total_extents + b.total_extents <= u64::MAX
}

impl FragmentationStats {
    /// Adds `other`'s counters into `self` (the maximum is kept).
    pub fn merge(&mut self, other: &FragmentationStats)
        requires
            merge_fits(*old(self), *other),
        ensures
            *final(self) == merged_stats(*old(self), *other),
    {
        self.total_files = self.total_files + other.total_files;
        self.analyzed_files = self.analyzed_files + other.analyzed_files;
        self.fragmented_files = self.fragmented_files + other.fragmented_files;
        self.skipped_locked = self.skipped_locked + other.skipped_locked;
        self.skipped_attrs = self.skipped_attrs + other.skipped_attrs;
        self.skipped_too_small = self.skipped_too_small + other.skipped_too_small;
        self.total_size = self.total_size + other.total_size;
        self.fragmented_size = self.fragmented_size + other.fragmented_size;
        self.total_extents = self.total_extents + other.total_extents;
        self.max_extents_seen = if self.max_extents_seen >= other.max_extents_seen {
            self.max_extents_seen
        } else {
            other.max_extents_seen
        };
    }
}

/// Merging statistics is commutative.
pub proof fn lemma_merge_commutes(a: FragmentationStats, b: FragmentationStats)
    ensures
        merged_stats(a, b) == merged_stats(b, a),
{
}

/// Merging statistics is associative.
pub proof fn lemma_merge_associates(a: FragmentationStats, b: FragmentationStats, c: FragmentationStats)
    requires
        merge_fits(a, b),
        merge_fits(b, c),
        merge_fits(merged_stats(a, b), c),
    ensures
        merged_stats(merged_stats(a, b), c) == merged_stats(a, merged_stats(b, c)),
{
}

/// Extents of a `RETRIEVAL_POINTERS_BUFFER`: extent `i` spans from the
/// previous `NextVcn` (the header's `StartingVcn` for the first) to its own
/// `NextVcn` (a saturating difference) and lives at its `NextLcn`.
pub open spec fn retrieval_extents(buf: Seq<u8>, count: nat) -> Seq<FileExtent> {
    Seq::new(
        count,
        |i: int|
            {
                let prev = if i == 0 {
                    le_val(buf.subrange(4, 12))
                } else {
                    le_val(buf.subrange(12 + (i - 1) * 16, 12 + (i - 1) * 16 + 8))
                };
                let next = le_val(buf.subrange(12 + i * 16, 12 + i * 16 + 8));
                FileExtent {
                    vcn: prev as u64,
                    lcn: le_val(buf.subrange(12 + i * 16 + 8, 12 + i * 16 + 16)) as u64,
                    len: if next >= prev { (next - prev) as u64 } else { 0 },
                }
            },
    )
}

/// Decodes the reply of `FSCTL_GET_RETRIEVAL_POINTERS`: a `u32` extent
/// count, a `u64` starting VCN, then `count` pairs of `u64`s
/// (`NextVcn`, `NextLcn`). A buffer shorter than the 12-byte header holds
/// no extents; one too short for the announced extents is an error.
pub fn parse_retrieval_pointers(buf: &[u8]) -> (r: Result<Vec<FileExtent>, GError>)
    ensures
        buf@.len() < 12 ==> (r matches Ok(v) && v@.len() == 0),
        buf@.len() >= 12 && 12 + le_val(buf@.subrange(0, 4)) * 16 > buf@.len() ==> (r matches Err(
            GError::Defrag(m),
        ) && m@ == "retrieval pointer buffer truncated: have "@ + dec_seq(buf@.len()) + " bytes, need "@
            + dec_seq(12 + le_val(buf@.subrange(0, 4)) * 16)),
        buf@.len() >= 12 && 12 + le_val(buf@.subrange(0, 4)) * 16 <= buf@.len() ==> (r matches Ok(v)
            && v@ == retrieval_extents(buf@, le_val(buf@.subrange(0, 4)))),
{
    let len = buf.len();
    if len < 12 {
        return Ok(Vec::new());
    }
    let count = read_le(buf, 0, 4);
    proof {
        crate::le::lemma_le4_bound(buf@.subrange(0, 4));
    }
    let start = read_le(buf, 4, 8);
    if count > ((len - 12) / 16) as u64 {
        let mut msg = owned("retrieval pointer buffer truncated: have ");
        let a = u64_to_dec(len as u64);
        push_str(&mut msg, a.as_str());
        push_str(&mut msg, " bytes, need ");
        let b = u64_to_dec(12 + count * 16);
        push_str(&mut msg, b.as_str());
        return Err(GError::Defrag(msg));
    }
    let count = count as usize;
    let mut extents: Vec<FileExtent> = Vec::new();
    let mut prev = start;
    let mut i: usize = 0;
    while i < count
        invariant
            len == buf@.len(),
            12 + count * 16 <= len,
            i <= count,
            extents@ == retrieval_extents(buf@, count as nat).subrange(0, i as int),
            prev as nat == (if i == 0 {
                le_val(buf@.subrange(4, 12))
            } else {
                le_val(buf@.subrange(12 + (i - 1) * 16, 12 + (i - 1) * 16 + 8))
            }),
        decreases count - i,
    {
        let off = 12 + i * 16;
        let next_vcn = read_le(buf, off, 8);
        let next_lcn = read_le(buf, off + 8, 8);
        let len_clusters = if next_vcn >= prev { next_vcn - prev } else { 0 };
        extents.push(FileExtent { vcn: prev, lcn: next_lcn, len: len_clusters });
        assert(extents@ =~= retrieval_extents(buf@, count as nat).subrange(0, i + 1));
        prev = next_vcn;
        i = i + 1;
    }
    assert(retrieval_extents(buf@, count as nat).subrange(0, count as int) =~= retrieval_extents(buf@, count as nat));
    Ok(extents)
}


/// The extents of a file. The retrieval-pointer query is a Windows
/// facility; on this platform a file reports no extents.
fn query_retrieval_pointers(path: &str) -> (r: Result<Vec<FileExtent>, GError>)
    ensures
        r matches Ok(v) && v@.len() == 0,
{
    let _ = path;
    Ok(Vec::new())
}

/// The map of one file of `size` bytes (the size is read by the caller).
pub fn analyze_fragmentation(path: &str, size: u64, bytes_per_cluster: u64) -> (r: Result<FileMap, GError>)
    ensures
        r matches Ok(m) && m.path@ == path@ && m.size == size && m.bytes_per_cluster == bytes_per_cluster
            && m.extents@.len() == 0,
{
    let extents = match query_retrieval_pointers(path) {
        Ok(v) => v,
        Err(e) => return Err(e),
    };
    Ok(FileMap { path: owned(path), size, bytes_per_cluster, extents })
}

} // verus!
