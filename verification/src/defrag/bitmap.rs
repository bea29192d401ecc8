//! Volume bitmap scanning: contiguous free regions on an NTFS volume.
//!
//! `FSCTL_GET_VOLUME_BITMAP` returns one bit per cluster (`1` = allocated,
//! `0` = free). A chunk of it is held in a [`VolumeBitmap`]; its runs of
//! equal bits are enumerated by [`VolumeBitmapRuns`], and the free runs are
//! collected, coalescing across chunk boundaries, into [`FreeRegion`]s.

use vstd::prelude::*;
use crate::error::GError;
use crate::le::{le_val, read_le};
use crate::text::{owned, push_str, u64_to_dec, dec_seq};

verus! {

/// How many clusters one bitmap chunk covers.
pub const BITMAP_CHUNK_CLUSTERS: u64 = 8388608;

/// One contiguous free run found in the volume bitmap.
#[derive(Debug, Clone, Copy, PartialEq, Eq, Structural)]
pub struct FreeRegion {
    /// Starting LCN of the free run.
    pub start_lcn: u64,
    /// Length in clusters.
    pub len_clusters: u64,
}

impl FreeRegion {
    /// First LCN after the region.
    pub fn end_lcn_exclusive(&self) -> (r: u64)
        requires
            self.start_lcn + self.len_clusters <= u64::MAX,
        ensures
            r == self.start_lcn + self.len_clusters,
    {
        self.start_lcn + self.len_clusters
    }

    /// `true` if the region can hold `needed_clusters` contiguous clusters.
    pub fn fits(&self, needed_clusters: u64) -> (r: bool)
        ensures
            r == (self.len_clusters >= needed_clusters),
    {
        self.len_clusters >= needed_clusters
    }

    /// Splits `n` clusters off the front: `(allocated, remainder)`.
    pub fn split_at(&self, n: u64) -> (r: (FreeRegion, Option<FreeRegion>))
        requires
            n < self.len_clusters ==> self.start_lcn + n <= u64::MAX,
        ensures
            n >= self.len_clusters ==> r == (*self, None::<FreeRegion>),
            n < self.len_clusters ==> r == (
                FreeRegion { start_lcn: self.start_lcn, len_clusters: n },
                Some(FreeRegion { start_lcn: (self.start_lcn + n) as u64, len_clusters: (self.len_clusters - n) as u64 }),
            ),
    {
        if n >= self.len_clusters {
            (FreeRegion { start_lcn: self.start_lcn, len_clusters: self.len_clusters }, None)
        } else {
            (
                FreeRegion { start_lcn: self.start_lcn, len_clusters: n },
                Some(FreeRegion { start_lcn: self.start_lcn + n, len_clusters: self.len_clusters - n }),
            )
        }
    }
}

/// A run of equal bits inside a bitmap chunk.
#[derive(Debug, Clone, Copy, PartialEq, Eq, Structural)]
pub struct ContiguousRun {
    pub start_bit: u64,
    pub len_bits: u64,
    /// `true` = allocated, `false` = free.
    pub set: bool,
}

/// One chunk of the volume bitmap. Bit `i` (least significant bit first
/// within each byte) describes cluster `starting_lcn + i`.
#[derive(Debug, Clone)]
pub struct VolumeBitmap {
    pub starting_lcn: u64,
    pub cluster_count: u64,
    pub bitmap: Vec<u8>,
}

/// Bit `rel` of a bitmap; bits past the stored bytes read as free.
pub open spec fn bit_of(bytes: Seq<u8>, rel: int) -> bool {
    if 0 <= rel && rel / 8 < bytes.len() {
        ((bytes[rel / 8] >> ((rel % 8) as u8)) & 1u8) == 1u8
    } else {
        false
    }
}

/// End of the run of bits equal to `v` that continues at `i`.
pub open spec fn scan_end(bytes: Seq<u8>, total: int, v: bool, i: int) -> int
    decreases total - i,
{
    if i >= total || bit_of(bytes, i) != v {
        i
    } else {
        scan_end(bytes, total, v, i + 1)
    }
}

/// End of the maximal run that starts at `pos`.
pub open spec fn run_end(bytes: Seq<u8>, total: int, pos: int) -> int {
    scan_end(bytes, total, bit_of(bytes, pos), pos + 1)
}

proof fn lemma_scan_end(bytes: Seq<u8>, total: int, v: bool, i: int)
    requires
        i <= total,
    ensures
        i <= scan_end(bytes, total, v, i) <= total,
        forall|k: int| i <= k < scan_end(bytes, total, v, i) ==> bit_of(bytes, k) == v,
        scan_end(bytes, total, v, i) < total ==> bit_of(bytes, scan_end(bytes, total, v, i)) != v,
    decreases total - i,
{
    if i < total && bit_of(bytes, i) == v {
        lemma_scan_end(bytes, total, v, i + 1);
    }
}

/// The maximal runs of the bits `pos..total`, in order, with absolute
/// start positions (`base + bit index`).
pub open spec fn runs_from(bytes: Seq<u8>, base: int, total: int, pos: int) -> Seq<ContiguousRun>
    decreases total - pos,
{
    if pos >= total || pos < 0 {
        Seq::empty()
    } else {
        let e = run_end(bytes, total, pos);
        if e <= pos || e > total {
            Seq::empty()
        } else {
            seq![ContiguousRun { start_bit: (base + pos) as u64, len_bits: (e - pos) as u64, set: bit_of(bytes, pos) }]
                + runs_from(bytes, base, total, e)
        }
    }
}

/// The runs of bits `pos..total` tile that range: each run is non-empty
/// and uniform, each run starts where the previous one ends, neighbouring
/// runs differ, and together they cover exactly `pos..total`.
pub proof fn lemma_runs_tile(bytes: Seq<u8>, base: int, total: int, pos: int)
    requires
        0 <= pos <= total,
        0 <= base,
        base + total <= u64::MAX,
    ensures
        ({
            let r = runs_from(bytes, base, total, pos);
            &&& (r.len() == 0 <==> pos == total)
            &&& r.len() > 0 ==> r[0].start_bit == base + pos
            &&& r.len() > 0 ==> r[r.len() - 1].start_bit + r[r.len() - 1].len_bits == base + total
            &&& forall|k: int| 0 <= k < r.len() ==> #[trigger] r[k].len_bits > 0
            &&& forall|k: int, i: int| 0 <= k < r.len() && r[k].start_bit - base <= i
                < r[k].start_bit - base + r[k].len_bits ==> #[trigger] bit_of(bytes, i) == #[trigger] r[k].set
            &&& forall|k: int| 0 <= k < r.len() - 1 ==> #[trigger] r[k + 1].start_bit
                == r[k].start_bit + r[k].len_bits && r[k + 1].set != r[k].set
        }),
    decreases total - pos,
{
    if pos < total {
        let v = bit_of(bytes, pos);
        lemma_scan_end(bytes, total, v, pos + 1);
        let e = run_end(bytes, total, pos);
        lemma_runs_tile(bytes, base, total, e);
        let rest = runs_from(bytes, base, total, e);
        let r = runs_from(bytes, base, total, pos);
        let first = ContiguousRun { start_bit: (base + pos) as u64, len_bits: (e - pos) as u64, set: v };
        assert(r == seq![first] + rest);
        assert forall|k: int, i: int| 0 <= k < r.len() && r[k].start_bit - base <= i
            < r[k].start_bit - base + r[k].len_bits implies #[trigger] bit_of(bytes, i) == #[trigger] r[k].set by {
            if k > 0 {
                assert(r[k] == rest[k - 1]);
            }
        }
        assert forall|k: int| 0 <= k < r.len() - 1 implies #[trigger] r[k + 1].start_bit
            == r[k].start_bit + r[k].len_bits && r[k + 1].set != r[k].set by {
            if k > 0 {
                let j = k - 1;
                assert(r[k] == rest[j]);
                assert(r[k + 1] == rest[j + 1]);
                assert(rest[j + 1].start_bit == rest[j].start_bit + rest[j].len_bits && rest[j + 1].set != rest[j].set);
            } else {
                assert(rest[0].start_bit == base + e);
                assert(r[1] == rest[0]);
                assert(rest.len() > 0);
                assert(e < total);
                lemma_scan_end(bytes, total, bit_of(bytes, e), e + 1);
                assert(rest[0].set == bit_of(bytes, e));
                assert(bit_of(bytes, e) != v);
            }
        }
    }
}

/// The free runs of a run list, as regions.
pub open spec fn free_regions_of(runs: Seq<ContiguousRun>) -> Seq<FreeRegion>
    decreases runs.len(),
{
    if runs.len() == 0 {
        Seq::empty()
    } else {
        let rest = free_regions_of(runs.drop_first());
        if runs[0].set {
            rest
        } else {
            seq![FreeRegion { start_lcn: runs[0].start_bit, len_clusters: runs[0].len_bits }] + rest
        }
    }
}

/// The runs of a whole chunk.
pub open spec fn chunk_runs(b: VolumeBitmap) -> Seq<ContiguousRun> {
    runs_from(b.bitmap@, b.starting_lcn as int, b.cluster_count as int, 0)
}

impl VolumeBitmap {
    /// Absolute cluster numbers of the chunk fit in a `u64`.
    pub open spec fn wf(&self) -> bool {
        self.starting_lcn + self.cluster_count <= u64::MAX
    }

    /// Whether absolute cluster `lcn` is allocated, or `None` when it lies
    /// outside this chunk or past the stored bytes.
    pub fn is_allocated(&self, lcn: u64) -> (r: Option<bool>)
        ensures
            r == (if lcn < self.starting_lcn || lcn - self.starting_lcn >= self.cluster_count
                || (lcn - self.starting_lcn) / 8 >= self.bitmap@.len() {
                None
            } else {
                Some(bit_of(self.bitmap@, lcn - self.starting_lcn))
            }),
    {
        if lcn < self.starting_lcn {
            return None;
        }
        let rel = lcn - self.starting_lcn;
        if rel >= self.cluster_count {
            return None;
        }
        if rel / 8 >= self.bitmap.len() as u64 {
            return None;
        }
        let byte_idx = (rel / 8) as usize;
        let bit_idx = (rel % 8) as u8;
        Some((self.bitmap[byte_idx] >> bit_idx) & 1 == 1)
    }

    /// An enumerator over all runs (free or allocated) of this chunk.
    pub fn runs(&self) -> (r: VolumeBitmapRuns<'_>)
        requires
            self.wf(),
        ensures
            r.wf(),
            r.remaining() == chunk_runs(*self),
    {
        VolumeBitmapRuns {
            bitmap: self.bitmap.as_slice(),
            starting_lcn: self.starting_lcn,
            pos: 0,
            total: self.cluster_count,
        }
    }

    /// All runs of this chunk, in ascending order.
    pub fn all_runs(&self) -> (r: Vec<ContiguousRun>)
        requires
            self.wf(),
        ensures
            r@ == chunk_runs(*self),
    {
        let mut it = self.runs();
        let mut out: Vec<ContiguousRun> = Vec::new();
        loop
            invariant
                it.wf(),
                out@ + it.remaining() == chunk_runs(*self),
            decreases it.left(),
        {
            let ghost before = it.remaining();
            match it.next() {
                Some(run) => {
                    out.push(run);
                    assert(out@ + it.remaining() =~= chunk_runs(*self));
                },
                None => {
                    assert(out@ =~= chunk_runs(*self));
                    return out;
                },
            }
        }
    }

    /// All free runs of this chunk, in ascending LCN order.
    pub fn free_runs(&self) -> (r: Vec<FreeRegion>)
        requires
            self.wf(),
        ensures
            r@ == free_regions_of(chunk_runs(*self)),
    {
        let mut it = self.runs();
        let mut out: Vec<FreeRegion> = Vec::new();
        loop
            invariant
                it.wf(),
                out@ + free_regions_of(it.remaining()) == free_regions_of(chunk_runs(*self)),
            decreases it.left(),
        {
            let ghost rem = it.remaining();
            match it.next() {
                Some(run) => {
                    proof {
                        assert(rem.drop_first() =~= it.remaining());
                    }
                    if !run.set {
                        out.push(FreeRegion { start_lcn: run.start_bit, len_clusters: run.len_bits });
                    }
                    assert(out@ + free_regions_of(it.remaining()) =~= free_regions_of(chunk_runs(*self)));
                },
                None => {
                    assert(out@ =~= free_regions_of(chunk_runs(*self)));
                    return out;
                },
            }
        }
    }
}

/// Enumerates the maximal runs of equal bits of a bitmap chunk.
pub struct VolumeBitmapRuns<'a> {
    bitmap: &'a [u8],
    starting_lcn: u64,
    pos: u64,
    total: u64,
}

impl<'a> VolumeBitmapRuns<'a> {
    pub closed spec fn wf(&self) -> bool {
        &&& self.pos <= self.total
        &&& self.starting_lcn + self.total <= u64::MAX
    }

    /// The runs not yet returned.
    pub closed spec fn remaining(&self) -> Seq<ContiguousRun> {
        runs_from(self.bitmap@, self.starting_lcn as int, self.total as int, self.pos as int)
    }

    /// How many bits are still to be enumerated.
    pub closed spec fn left(&self) -> nat {
        (self.total - self.pos) as nat
    }

    /// Whether bit `rel` of the chunk is set (bits past the bytes are free).
    fn bit_set(&self, rel: u64) -> (r: bool)
        ensures
            r == bit_of(self.bitmap@, rel as int),
    {
        if rel / 8 >= self.bitmap.len() as u64 {
            return false;
        }
        let byte_idx = (rel / 8) as usize;
        let bit_idx = (rel % 8) as u8;
        (self.bitmap[byte_idx] >> bit_idx) & 1 == 1
    }

    /// The next run, or `None` when the chunk is exhausted.
    pub fn next(&mut self) -> (r: Option<ContiguousRun>)
        requires
            old(self).wf(),
        ensures
            final(self).wf(),
            old(self).remaining().len() == 0 ==> r is None && final(self).remaining() == old(self).remaining()
                && final(self).left() == old(self).left(),
            old(self).remaining().len() > 0 ==> r == Some(old(self).remaining()[0])
                && final(self).remaining() == old(self).remaining().drop_first()
                && final(self).left() < old(self).left(),
    {
        if self.pos >= self.total {
            return None;
        }
        let start = self.pos;
        let start_set = self.bit_set(start);
        let mut end = start;
        proof {
            lemma_scan_end(self.bitmap@, self.total as int, start_set, start as int + 1);
        }
        while end < self.total && self.bit_set(end) == start_set
            invariant
                start <= end <= self.total,
                start < self.total,
                start_set == bit_of(self.bitmap@, start as int),
                end > start ==> scan_end(self.bitmap@, self.total as int, start_set, start + 1)
                    == scan_end(self.bitmap@, self.total as int, start_set, end as int),
                end == start ==> true,
            decreases self.total - end,
        {
            end = end + 1;
        }
        proof {
            assert(end > start);
            assert(run_end(self.bitmap@, self.total as int, start as int) == end);
        }
        self.pos = end;
        let run = ContiguousRun { start_bit: self.starting_lcn + start, len_bits: end - start, set: start_set };
        Some(run)
    }
}

/// What a `FSCTL_GET_VOLUME_BITMAP` reply decodes to: the starting LCN
/// (bytes 0..8), the bit count (bytes 8..16) and the bitmap bytes after the
/// 16-byte header, or an error when the reply holds fewer bytes than the bit
/// count needs.
pub open spec fn volume_bitmap_reply(buf: Seq<u8>) -> Result<VolumeBitmap, Seq<char>> {
    let start = le_val(buf.subrange(0, 8));
    let bits = le_val(buf.subrange(8, 16));
    let nbytes = (bits + 7) / 8;
    let need = 16 + nbytes;
    if need > buf.len() {
        Err("volume bitmap buffer too small: got "@ + dec_seq(buf.len()) + " bytes, need "@ + dec_seq(
            need as nat,
        ))
    } else {
        Ok(VolumeBitmap { starting_lcn: start as u64, cluster_count: bits as u64, bitmap: arbitrary() })
    }
}

/// Decodes the reply buffer of `FSCTL_GET_VOLUME_BITMAP`
/// (`VOLUME_BITMAP_BUFFER`: two little-endian `u64`s, then the bits).
pub fn parse_volume_bitmap(buf: &[u8]) -> (r: Result<VolumeBitmap, GError>)
    requires
        buf@.len() >= 16,
        le_val(buf@.subrange(8, 16)) + 7 <= u64::MAX,
    ensures
        match volume_bitmap_reply(buf@) {
            Ok(v) => r matches Ok(b) && b.starting_lcn == v.starting_lcn && b.cluster_count
                == v.cluster_count && b.bitmap@ == buf@.subrange(
                16,
                16 + (v.cluster_count + 7) / 8,
            ),
            Err(m) => r matches Err(GError::Defrag(msg)) && msg@ == m,
        },
{
    let start = read_le(buf, 0, 8);
    let bits = read_le(buf, 8, 8);
    let nbytes: u64 = (bits + 7) / 8;
    let len = buf.len();
    let need: u64 = 16 + nbytes;
    if nbytes > (len - 16) as u64 {
        let mut msg = owned("volume bitmap buffer too small: got ");
        let a = u64_to_dec(len as u64);
        push_str(&mut msg, a.as_str());
        push_str(&mut msg, " bytes, need ");
        let b = u64_to_dec(need);
        push_str(&mut msg, b.as_str());
        return Err(GError::Defrag(msg));
    }
    let end: usize = 16 + nbytes as usize;
    let mut bytes: Vec<u8> = Vec::new();
    let mut i: usize = 16;
    while i < end
        invariant
            16 <= i <= end,
            end <= buf@.len(),
            bytes@ == buf@.subrange(16, i as int),
        decreases end - i,
    {
        bytes.push(buf[i]);
        assert(bytes@ =~= buf@.subrange(16, i + 1));
        i = i + 1;
    }
    Ok(VolumeBitmap { starting_lcn: start, cluster_count: bits, bitmap: bytes })
}

/// Builds a bitmap chunk from its parts.
pub fn make_test_bitmap(starting_lcn: u64, cluster_count: u64, bitmap: Vec<u8>) -> (r: VolumeBitmap)
    ensures
        r.starting_lcn == starting_lcn,
        r.cluster_count == cluster_count,
        r.bitmap@ == bitmap@,
{
    VolumeBitmap { starting_lcn, cluster_count, bitmap }
}

/// Fetches one bitmap chunk of volume `drive` starting at `starting_lcn`.
/// The volume bitmap is a Windows facility; on this platform the call
/// reports that the platform is not supported.
pub fn bitmap_chunk(drive: char, starting_lcn: u64) -> (r: Result<VolumeBitmap, GError>)
    ensures
        r matches Err(GError::NotSupportedPlatform),
{
    Err(GError::NotSupportedPlatform)
}

/// A region's end LCN fits in a `u64`.
pub open spec fn region_fits(r: FreeRegion) -> bool {
    r.start_lcn + r.len_clusters <= u64::MAX
}

/// Appends the free runs of one chunk to the collected list, merging a run
/// into the last collected region when it starts right where that region
/// ends (a free region spanning a chunk boundary).
pub open spec fn absorb_runs(free: Seq<FreeRegion>, runs: Seq<FreeRegion>) -> Seq<FreeRegion>
    decreases runs.len(),
{
    if runs.len() == 0 {
        free
    } else {
        let r = runs[0];
        if free.len() > 0 && free.last().start_lcn + free.last().len_clusters == r.start_lcn {
            let last = free.last();
            absorb_runs(
                free.drop_last().push(
                    FreeRegion { start_lcn: last.start_lcn, len_clusters: (last.len_clusters + r.len_clusters) as u64 },
                ),
                runs.drop_first(),
            )
        } else {
            absorb_runs(free.push(r), runs.drop_first())
        }
    }
}

/// Folds the free runs of one chunk into `free` (see [`absorb_runs`]).
pub fn absorb_chunk_runs(free: &mut Vec<FreeRegion>, runs: &Vec<FreeRegion>)
    requires
        forall|i: int| 0 <= i < old(free)@.len() ==> region_fits(#[trigger] old(free)@[i]),
        forall|i: int| 0 <= i < runs@.len() ==> region_fits(#[trigger] runs@[i]),
    ensures
        final(free)@ == absorb_runs(old(free)@, runs@),
{
    let mut i: usize = 0;
    let n = runs.len();
    assert(runs@.subrange(0, n as int) =~= runs@);
    while i < n
        invariant
            n == runs@.len(),
            i <= n,
            forall|k: int| 0 <= k < free@.len() ==> region_fits(#[trigger] free@[k]),
            forall|k: int| 0 <= k < runs@.len() ==> region_fits(#[trigger] runs@[k]),
            absorb_runs(free@, runs@.subrange(i as int, n as int)) == absorb_runs(old(free)@, runs@),
        decreases n - i,
    {
        let r = runs[i];
        let ghost rest = runs@.subrange(i as int, n as int);
        proof {
            assert(rest[0] == r);
            assert(rest.drop_first() =~= runs@.subrange(i + 1, n as int));
        }
        let fl = free.len();
        let ghost f0 = free@;
        if fl > 0 && free[fl - 1].end_lcn_exclusive() == r.start_lcn {
            let last = free[fl - 1];
            assert(region_fits(runs@[i as int]));
            let merged = FreeRegion { start_lcn: last.start_lcn, len_clusters: last.len_clusters + r.len_clusters };
            free.set(fl - 1, merged);
            proof {
                assert(free@ =~= f0.drop_last().push(merged));
                assert(f0.last() == last);
            }
        } else {
            free.push(r);
            proof {
                assert(region_fits(runs@[i as int]));
            }
        }
        i = i + 1;
    }
    proof {
        assert(runs@.subrange(n as int, n as int) =~= Seq::<FreeRegion>::empty());
    }
}

/// Scans the whole volume bitmap chunk by chunk and returns all free
/// regions in ascending LCN order, merging regions across chunk borders.
pub fn scan_all_free_regions(drive: char, total_clusters: u64) -> (r: Result<Vec<FreeRegion>, GError>)
    ensures
        total_clusters == 0 ==> (r matches Ok(v) && v@.len() == 0),
        total_clusters > 0 ==> (r matches Err(GError::NotSupportedPlatform)),
{
    let mut free: Vec<FreeRegion> = Vec::new();
    let mut lcn: u64 = 0;
    while lcn < total_clusters
        invariant
            lcn == 0,
            free@.len() == 0,
        ensures
            lcn >= total_clusters,
            free@.len() == 0,
        decreases total_clusters - lcn,
    {
        let chunk = bitmap_chunk(drive, lcn)?;
        if chunk.cluster_count == 0 {
            break;
        }
        let runs = chunk.free_runs();
        absorb_chunk_runs(&mut free, &runs);
        lcn = lcn + chunk.cluster_count;
        if chunk.cluster_count < BITMAP_CHUNK_CLUSTERS {
            break;
        }
    }
    Ok(free)
}

/// Whether cluster `lcn` of volume `drive` is free right now.
pub fn is_lcn_free(drive: char, lcn: u64) -> (r: Result<bool, GError>)
    ensures
        r matches Err(GError::NotSupportedPlatform),
{
    let chunk = bitmap_chunk(drive, lcn)?;
    Ok(chunk.is_allocated(lcn) == Some(false))
}

} // verus!
