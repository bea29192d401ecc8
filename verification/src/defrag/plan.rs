//! Turning fragmentation analysis into a concrete move plan.
//!
//! 1. Files that failed the safety check, have no cluster, or are a single
//!    extent while consolidation is off are not candidates.
//! 2. Candidates are taken largest first (a stable order by size).
//! 3. Each one that is fragmented beyond the threshold gets the first free
//!    region, by ascending LCN, that holds the whole file from a start
//!    rounded up with the physical sector mask; that region is shrunk.
//! 4. Files that failed the safety check are reported as skipped.
//!
//! [`plan_outcome`] states the whole result; the laws at the end of the
//! file state what every plan satisfies.

use vstd::prelude::*;
use crate::defrag::bitmap::FreeRegion;
use crate::defrag::file_map::{FileMap, allocated_count, clusters_for, fragmented_at};
use crate::defrag::safety::FileSafety;
use crate::defrag::volume::{VolumeInfo, sector_mask};
use crate::defrag::DefragOptions;
use crate::sorting::{insert_sorted, stable_sort, sorted_by, lemma_insert_at, lemma_stable_sort_sorted, lemma_stable_sort_permutes};

verus! {

broadcast use vstd::seq_lib::group_to_multiset_ensures;

/// One VCN range of a file and the LCN it goes to.
#[derive(Debug, Clone, Copy, PartialEq, Eq, Structural)]
pub struct PlannedMove {
    /// Source VCN (file-relative).
    pub start_vcn: u64,
    /// Number of clusters in this move.
    pub cluster_count: u64,
    /// Destination LCN (volume-absolute, rounded with the sector mask).
    pub target_lcn: u64,
}

/// Why a file was selected.
#[derive(Debug, Clone, Copy, PartialEq, Eq, Structural)]
pub enum PlanReason {
    /// Fragmented beyond the threshold.
    Fragmented,
    /// Contiguous but on slow tracks.
    Consolidate,
}

/// One file in the plan, with its placement decided.
#[derive(Debug, Clone)]
pub struct PlannedFile {
    pub path: String,
    pub size: u64,
    pub clusters: u64,
    pub extents_before: usize,
    /// The moves, walked in order; the first one starts at VCN 0.
    pub moves: Vec<PlannedMove>,
    pub reason: PlanReason,
}

/// A [`PlannedFile`] as plain values.
pub struct PlannedFileView {
    pub path: Seq<char>,
    pub size: u64,
    pub clusters: u64,
    pub extents_before: usize,
    pub moves: Seq<PlannedMove>,
    pub reason: PlanReason,
}

impl View for PlannedFile {
    type V = PlannedFileView;

    open spec fn view(&self) -> PlannedFileView {
        PlannedFileView {
            path: self.path@,
            size: self.size,
            clusters: self.clusters,
            extents_before: self.extents_before,
            moves: self.moves@,
            reason: self.reason,
        }
    }
}

/// Why the planner passed over a file.
#[derive(Debug, Clone, Copy, PartialEq, Eq, Structural)]
pub enum SkipReason {
    BelowFragmentThreshold,
    SingleExtent,
    TooSmall,
    SafetyBlock,
    Locked,
    NoContiguousFit,
    ExtentCapExceeded,
    Inaccessible,
}

pub open spec fn skip_reason_text(r: SkipReason) -> Seq<char> {
    match r {
        SkipReason::BelowFragmentThreshold => "below fragment threshold"@,
        SkipReason::SingleExtent => "already contiguous (single extent)"@,
        SkipReason::TooSmall => "smaller than one cluster"@,
        SkipReason::SafetyBlock => "compressed/encrypted/sparse/etc"@,
        SkipReason::Locked => "locked by another process"@,
        SkipReason::NoContiguousFit => "no single free region fits"@,
        SkipReason::ExtentCapExceeded => "would exceed extent cap"@,
        SkipReason::Inaccessible => "inaccessible"@,
    }
}

impl SkipReason {
    pub fn as_str(&self) -> (r: &'static str)
        ensures
            r@ == skip_reason_text(*self),
    {
        match self {
            SkipReason::BelowFragmentThreshold => "below fragment threshold",
            SkipReason::SingleExtent => "already contiguous (single extent)",
            SkipReason::TooSmall => "smaller than one cluster",
            SkipReason::SafetyBlock => "compressed/encrypted/sparse/etc",
            SkipReason::Locked => "locked by another process",
            SkipReason::NoContiguousFit => "no single free region fits",
            SkipReason::ExtentCapExceeded => "would exceed extent cap",
            SkipReason::Inaccessible => "inaccessible",
        }
    }
}

/// A file the planner passed over, with the reason.
#[derive(Debug, Clone)]
pub struct SkippedFile {
    pub path: String,
    pub size: u64,
    pub reason: SkipReason,
}

/// A [`SkippedFile`] as plain values.
pub struct SkippedFileView {
    pub path: Seq<char>,
    pub size: u64,
    pub reason: SkipReason,
}

impl View for SkippedFile {
    type V = SkippedFileView;

    open spec fn view(&self) -> SkippedFileView {
        SkippedFileView { path: self.path@, size: self.size, reason: self.reason }
    }
}

/// The outcome of planning.
#[derive(Debug, Clone)]
pub struct DefragPlan {
    pub planned: Vec<PlannedFile>,
    pub skipped: Vec<SkippedFile>,
    pub bytes_to_move: u64,
    pub clusters_to_move: u64,
    pub planned_count: u64,
    pub skipped_count: u64,
}

/// A [`DefragPlan`] as plain values.
pub struct DefragPlanView {
    pub planned: Seq<PlannedFileView>,
    pub skipped: Seq<SkippedFileView>,
    pub bytes_to_move: u64,
    pub clusters_to_move: u64,
    pub planned_count: u64,
    pub skipped_count: u64,
}

impl View for DefragPlan {
    type V = DefragPlanView;

    open spec fn view(&self) -> DefragPlanView {
        DefragPlanView {
            planned: self.planned@.map_values(|p: PlannedFile| p@),
            skipped: self.skipped@.map_values(|s: SkippedFile| s@),
            bytes_to_move: self.bytes_to_move,
            clusters_to_move: self.clusters_to_move,
            planned_count: self.planned_count,
            skipped_count: self.skipped_count,
        }
    }
}

impl Default for DefragPlan {
    fn default() -> (r: Self)
        ensures
            r@.planned.len() == 0,
            r@.skipped.len() == 0,
            r.bytes_to_move == 0 && r.clusters_to_move == 0,
            r.planned_count == 0 && r.skipped_count == 0,
    {
        DefragPlan {
            planned: Vec::new(),
            skipped: Vec::new(),
            bytes_to_move: 0,
            clusters_to_move: 0,
            planned_count: 0,
            skipped_count: 0,
        }
    }
}

/// Why no plan was made.
#[derive(Debug, Clone, PartialEq, Eq, Structural)]
pub enum PlanError {
    OutOfFreeSpace { free_pct: u8, min_pct: u8 },
    EmptyPlan,
}

// ── The model ─────────────────────────────────────────────────────────

pub type FileEntry = (FileMap, FileSafety);

pub open spec fn file_clusters(m: FileMap) -> u64 {
    clusters_for(m.size, m.bytes_per_cluster)
}

/// Safe, at least one cluster, and fragmented or open to consolidation.
pub open spec fn is_candidate(f: FileEntry, consolidate: bool) -> bool {
    &&& f.1 == FileSafety::Safe
    &&& file_clusters(f.0) > 0
    &&& (allocated_count(f.0.extents@) > 1 || consolidate)
}

/// Indices below `n` of the candidate files, in input order.
pub open spec fn candidates_upto(files: Seq<FileEntry>, consolidate: bool, n: int) -> Seq<usize>
    decreases n,
{
    if n <= 0 {
        Seq::empty()
    } else {
        let p = candidates_upto(files, consolidate, n - 1);
        if is_candidate(files[n - 1], consolidate) {
            p.push((n - 1) as usize)
        } else {
            p
        }
    }
}

/// Larger files come first.
pub open spec fn by_size_desc(files: Seq<FileEntry>) -> spec_fn(usize) -> int {
    |i: usize| -(files[i as int].0.size as int)
}

/// Lower LCNs come first.
pub open spec fn by_start_lcn() -> spec_fn(FreeRegion) -> int {
    |r: FreeRegion| r.start_lcn as int
}

/// The order in which candidates are planned.
pub open spec fn plan_order(files: Seq<FileEntry>, consolidate: bool) -> Seq<usize> {
    stable_sort(candidates_upto(files, consolidate, files.len() as int), by_size_desc(files))
}

/// `start` rounded up with the mask of physical sector size `phys`.
pub open spec fn align_up(start: u64, phys: u32) -> u64 {
    ((start + (phys - 1)) as u64) & sector_mask(phys)
}

/// The region holds `needed` clusters from its aligned start.
pub open spec fn fit_ok(r: FreeRegion, needed: u64, phys: u32) -> bool {
    &&& r.len_clusters >= needed
    &&& r.len_clusters >= (align_up(r.start_lcn, phys) - r.start_lcn) + needed
}

/// Index of the first region from `i` on that fits, or the length.
pub open spec fn first_fit(rs: Seq<FreeRegion>, needed: u64, phys: u32, i: int) -> int
    decreases rs.len() - i,
{
    if i < 0 || i >= rs.len() {
        rs.len() as int
    } else if fit_ok(rs[i], needed, phys) {
        i
    } else {
        first_fit(rs, needed, phys, i + 1)
    }
}

/// What is left of a region after `needed` clusters are carved from its
/// aligned start.
pub open spec fn carve(r: FreeRegion, needed: u64, phys: u32) -> FreeRegion {
    let end = align_up(r.start_lcn, phys) + needed;
    let new_len = r.len_clusters - (end - r.start_lcn);
    if new_len == 0 {
        FreeRegion { start_lcn: r.start_lcn, len_clusters: 0 }
    } else {
        FreeRegion { start_lcn: end as u64, len_clusters: new_len as u64 }
    }
}

/// Start and end of a region fit the LCN space with a sector to spare.
pub open spec fn addressable(r: FreeRegion, phys: u32) -> bool {
    r.start_lcn + r.len_clusters + phys <= u64::MAX + 1
}

/// What the planner carries from one candidate to the next.
pub struct PlanProgress {
    pub planned: Seq<PlannedFileView>,
    pub skipped: Seq<SkippedFileView>,
    pub bytes: int,
    pub clusters: int,
    pub regions: Seq<FreeRegion>,
}

pub open spec fn skip_view(m: FileMap, reason: SkipReason) -> SkippedFileView {
    SkippedFileView { path: m.path@, size: m.size, reason }
}

pub open spec fn with_skip(st: PlanProgress, m: FileMap, reason: SkipReason) -> PlanProgress {
    PlanProgress {
        planned: st.planned,
        skipped: st.skipped.push(skip_view(m, reason)),
        bytes: st.bytes,
        clusters: st.clusters,
        regions: st.regions,
    }
}

pub open spec fn planned_view(m: FileMap, target_lcn: u64) -> PlannedFileView {
    PlannedFileView {
        path: m.path@,
        size: m.size,
        clusters: file_clusters(m),
        extents_before: allocated_count(m.extents@) as usize,
        moves: seq![PlannedMove { start_vcn: 0, cluster_count: file_clusters(m), target_lcn }],
        reason: PlanReason::Fragmented,
    }
}

/// One candidate through the planner.
pub open spec fn plan_step(st: PlanProgress, m: FileMap, opts: DefragOptions, phys: u32) -> PlanProgress {
    let needed = file_clusters(m);
    let count = allocated_count(m.extents@);
    if count <= 1 {
        with_skip(st, m, SkipReason::SingleExtent)
    } else if !fragmented_at(count, needed as nat, opts.fragment_threshold_pct as nat) {
        with_skip(st, m, SkipReason::BelowFragmentThreshold)
    } else {
        let i = first_fit(st.regions, needed, phys, 0);
        if i >= st.regions.len() {
            with_skip(st, m, SkipReason::NoContiguousFit)
        } else {
            let lcn = align_up(st.regions[i].start_lcn, phys);
            let regions = st.regions.update(i, carve(st.regions[i], needed, phys));
            if opts.max_extents_per_file < 1 {
                PlanProgress {
                    planned: st.planned,
                    skipped: st.skipped.push(skip_view(m, SkipReason::ExtentCapExceeded)),
                    bytes: st.bytes,
                    clusters: st.clusters,
                    regions,
                }
            } else {
                PlanProgress {
                    planned: st.planned.push(planned_view(m, lcn)),
                    skipped: st.skipped,
                    bytes: st.bytes + m.size,
                    clusters: st.clusters + needed,
                    regions,
                }
            }
        }
    }
}

pub open spec fn plan_start(regions: Seq<FreeRegion>) -> PlanProgress {
    PlanProgress { planned: Seq::empty(), skipped: Seq::empty(), bytes: 0, clusters: 0, regions }
}

/// The planner after the first `k` candidates of `order`.
pub open spec fn plan_through(
    files: Seq<FileEntry>,
    order: Seq<usize>,
    opts: DefragOptions,
    phys: u32,
    regions: Seq<FreeRegion>,
    k: int,
) -> PlanProgress
    decreases k,
{
    if k <= 0 {
        plan_start(regions)
    } else {
        plan_step(plan_through(files, order, opts, phys, regions, k - 1), files[order[k - 1] as int].0, opts, phys)
    }
}

pub open spec fn safety_reason(s: FileSafety) -> Option<SkipReason> {
    match s {
        FileSafety::Safe => None,
        FileSafety::SkipAttrs(_) => Some(SkipReason::SafetyBlock),
        FileSafety::Locked => Some(SkipReason::Locked),
        FileSafety::Inaccessible => Some(SkipReason::Inaccessible),
    }
}

/// The files below `n` that failed the safety check, in input order.
pub open spec fn safety_skips(files: Seq<FileEntry>, n: int) -> Seq<SkippedFileView>
    decreases n,
{
    if n <= 0 {
        Seq::empty()
    } else {
        let p = safety_skips(files, n - 1);
        match safety_reason(files[n - 1].1) {
            Some(r) => p.push(skip_view(files[n - 1].0, r)),
            None => p,
        }
    }
}

/// The planner's state after every candidate.
pub open spec fn plan_final(files: Seq<FileEntry>, free: Seq<FreeRegion>, phys: u32, opts: DefragOptions) -> PlanProgress {
    let order = plan_order(files, opts.consolidate);
    plan_through(files, order, opts, phys, stable_sort(free, by_start_lcn()), order.len() as int)
}

/// The result of [`build_plan`].
pub open spec fn plan_outcome(
    files: Seq<FileEntry>,
    free: Seq<FreeRegion>,
    volume: VolumeInfo,
    opts: DefragOptions,
) -> Result<DefragPlanView, PlanError> {
    if volume.free_pct < opts.min_free_pct {
        Err(PlanError::OutOfFreeSpace { free_pct: volume.free_pct, min_pct: opts.min_free_pct })
    } else {
        let st = plan_final(files, free, volume.bytes_per_sector_phys, opts);
        let skipped = st.skipped + safety_skips(files, files.len() as int);
        if st.planned.len() == 0 && skipped.len() == 0 {
            Err(PlanError::EmptyPlan)
        } else {
            Ok(
                DefragPlanView {
                    planned: st.planned,
                    skipped,
                    bytes_to_move: st.bytes as u64,
                    clusters_to_move: st.clusters as u64,
                    planned_count: st.planned.len() as u64,
                    skipped_count: skipped.len() as u64,
                },
            )
        }
    }
}

/// Sum of the sizes of the files at the given indices.
pub open spec fn sum_sizes(files: Seq<FileEntry>, s: Seq<usize>) -> int
    decreases s.len(),
{
    if s.len() == 0 {
        0
    } else {
        files[s[0] as int].0.size + sum_sizes(files, s.drop_first())
    }
}

/// Sum of the sizes of the first `n` files.
pub open spec fn files_size(files: Seq<FileEntry>, n: int) -> int
    decreases n,
{
    if n <= 0 {
        0
    } else {
        files_size(files, n - 1) + files[n - 1].0.size
    }
}

/// The conditions under which planning runs without overflow: a physical
/// sector size, regions that fit the LCN space, and file sizes that sum
/// to at most `u64::MAX`.
pub open spec fn plan_inputs_ok(files: Seq<FileEntry>, free: Seq<FreeRegion>, volume: VolumeInfo) -> bool {
    &&& volume.bytes_per_sector_phys > 0
    &&& files.len() <= usize::MAX
    &&& forall|k: int| 0 <= k < free.len() ==> addressable(#[trigger] free[k], volume.bytes_per_sector_phys)
    &&& files_size(files, files.len() as int) <= u64::MAX
}

/// `first_fit` names a fitting index from `i` on, or the length.
pub proof fn lemma_first_fit_range(rs: Seq<FreeRegion>, needed: u64, phys: u32, i: int)
    requires
        0 <= i,
    ensures
        ({
            let f = first_fit(rs, needed, phys, i);
            &&& (i <= f < rs.len() && fit_ok(rs[f], needed, phys)) || f == rs.len()
            &&& forall|k: int| i <= k < f && k < rs.len() ==> !fit_ok(#[trigger] rs[k], needed, phys)
        }),
    decreases rs.len() - i,
{
    if i < rs.len() && !fit_ok(rs[i], needed, phys) {
        lemma_first_fit_range(rs, needed, phys, i + 1);
    }
}

// ── Arithmetic facts ──────────────────────────────────────────────────

proof fn lemma_sum_insert(files: Seq<FileEntry>, s: Seq<usize>, p: int, x: usize)
    requires
        0 <= p <= s.len(),
    ensures
        sum_sizes(files, s.insert(p, x)) == sum_sizes(files, s) + files[x as int].0.size,
    decreases s.len(),
{
    if p == 0 {
        assert(s.insert(0, x).drop_first() =~= s);
    } else {
        lemma_sum_insert(files, s.drop_first(), p - 1, x);
        assert(s.insert(p, x).drop_first() =~= s.drop_first().insert(p - 1, x));
    }
}

proof fn lemma_sum_nonneg(files: Seq<FileEntry>, s: Seq<usize>)
    ensures
        sum_sizes(files, s) >= 0,
    decreases s.len(),
{
    if s.len() > 0 {
        lemma_sum_nonneg(files, s.drop_first());
    }
}

proof fn lemma_sum_suffix(files: Seq<FileEntry>, s: Seq<usize>, j: int)
    requires
        0 <= j < s.len(),
    ensures
        sum_sizes(files, s.subrange(j, s.len() as int)) == files[s[j] as int].0.size + sum_sizes(
            files,
            s.subrange(j + 1, s.len() as int),
        ),
{
    assert(s.subrange(j, s.len() as int).drop_first() =~= s.subrange(j + 1, s.len() as int));
}

proof fn lemma_clusters_le_size(size: u64, bpc: u64)
    ensures
        clusters_for(size, bpc) <= size,
{
    if bpc > 0 {
        let s = size as int;
        let b = bpc as int;
        assert((s + b - 1) / b <= s) by (nonlinear_arith)
            requires
                b >= 1,
                s >= 0,
        ;
    }
}

proof fn lemma_mask_facts(start: u64, phys: u32)
    requires
        phys > 0,
        start + phys - 1 <= u64::MAX,
    ensures
        !sector_mask(phys) == (phys - 1) as u64,
        align_up(start, phys) >= start,
        align_up(start, phys) <= start + phys - 1,
        align_up(start, phys) & ((phys - 1) as u64) == 0,
{
    let m: u64 = (phys - 1) as u64;
    let a: u64 = (start + m) as u64;
    assert(!(!m) == m) by (bit_vector);
    assert((a & !m) <= a && a - (a & !m) <= m) by (bit_vector);
    assert(((a & !m) & m) == 0) by (bit_vector);
}

// ── Executable planner ────────────────────────────────────────────────

/// Finds the lowest-index region that holds `needed` clusters from its
/// aligned start, shrinks it and returns that start.
fn find_fit(regions: &mut Vec<FreeRegion>, needed: u64, volume: &VolumeInfo) -> (r: Option<u64>)
    requires
        volume.bytes_per_sector_phys > 0,
        forall|k: int| 0 <= k < old(regions)@.len() ==> addressable(#[trigger] old(regions)@[k], volume.bytes_per_sector_phys),
    ensures
        ({
            let phys = volume.bytes_per_sector_phys;
            let i = first_fit(old(regions)@, needed, phys, 0);
            if i < old(regions)@.len() {
                &&& r == Some(align_up(old(regions)@[i].start_lcn, phys))
                &&& final(regions)@ == old(regions)@.update(i, carve(old(regions)@[i], needed, phys))
            } else {
                &&& r.is_none()
                &&& final(regions)@ == old(regions)@
            }
        }),
{
    let ghost phys = volume.bytes_per_sector_phys;
    let align_mask = volume.physical_sector_mask();
    let mut i: usize = 0;
    while i < regions.len()
        invariant
            i <= regions@.len(),
            regions@ == old(regions)@,
            phys == volume.bytes_per_sector_phys,
            phys > 0,
            align_mask == sector_mask(phys),
            first_fit(regions@, needed, phys, 0) == first_fit(regions@, needed, phys, i as int),
            forall|k: int| 0 <= k < regions@.len() ==> addressable(#[trigger] regions@[k], phys),
        decreases regions@.len() - i,
    {
        let region = regions[i];
        assert(addressable(regions@[i as int], phys));
        if !region.fits(needed) {
            i = i + 1;
            continue;
        }
        proof {
            lemma_mask_facts(region.start_lcn, phys);
        }
        let aligned_start = (region.start_lcn + (!align_mask)) & align_mask;
        let aligned_offset = aligned_start.saturating_sub(region.start_lcn);
        if region.len_clusters - needed < aligned_offset {
            i = i + 1;
            continue;
        }
        let consumed_to = aligned_start + needed;
        let new_len = region.len_clusters - (consumed_to - region.start_lcn);
        if new_len == 0 {
            regions.set(i, FreeRegion { start_lcn: region.start_lcn, len_clusters: 0 });
        } else {
            regions.set(i, FreeRegion { start_lcn: consumed_to, len_clusters: new_len });
        }
        return Some(aligned_start);
    }
    None
}

/// Indices of the candidate files, largest first (stable among equal sizes).
fn candidate_order(files: &[FileEntry], consolidate: bool) -> (r: Vec<usize>)
    ensures
        r@ == plan_order(files@, consolidate),
        forall|k: int| 0 <= k < r@.len() ==> r@[k] < files@.len(),
        sum_sizes(files@, r@) <= files_size(files@, files@.len() as int),
{
    let ghost key = by_size_desc(files@);
    let mut order: Vec<usize> = Vec::new();
    let mut i: usize = 0;
    while i < files.len()
        invariant
            i <= files@.len(),
            key == by_size_desc(files@),
            order@ == stable_sort(candidates_upto(files@, consolidate, i as int), key),
            forall|k: int| 0 <= k < order@.len() ==> order@[k] < i,
            sum_sizes(files@, order@) <= files_size(files@, i as int),
        decreases files@.len() - i,
    {
        let m = &files[i].0;
        let safe = match &files[i].1 {
            FileSafety::Safe => true,
            _ => false,
        };
        let ghost before = candidates_upto(files@, consolidate, i as int);
        if safe && m.total_clusters() != 0 && (m.allocated_extent_count() > 1 || consolidate) {
            let size_x = m.size;
            let mut p: usize = order.len();
            while p > 0 && files[order[p - 1]].0.size < size_x
                invariant
                    p <= order@.len(),
                    forall|k: int| 0 <= k < order@.len() ==> order@[k] < i,
                    i < files@.len(),
                    size_x == files@[i as int].0.size,
                    forall|k: int| p <= k < order@.len() ==> files@[order@[k] as int].0.size < size_x,
                decreases p,
            {
                p = p - 1;
            }
            proof {
                assert(is_candidate(files@[i as int], consolidate));
                assert(candidates_upto(files@, consolidate, i + 1) == before.push(i));
                assert(before.push(i).drop_last() =~= before);
                assert forall|k: int| p <= k < order@.len() implies key(i) < key(#[trigger] order@[k]) by {
                    assert(files@[order@[k] as int].0.size < size_x);
                }
                lemma_insert_at(order@, i, key, p as int);
                lemma_sum_insert(files@, order@, p as int, i);
            }
            order.insert(p, i);
        } else {
            proof {
                assert(!is_candidate(files@[i as int], consolidate));
            }
        }
        i = i + 1;
    }
    order
}

/// A copy of `free`, stably sorted by starting LCN.
fn sorted_regions(free: &[FreeRegion]) -> (r: Vec<FreeRegion>)
    ensures
        r@ == stable_sort(free@, by_start_lcn()),
{
    let ghost key = by_start_lcn();
    let mut out: Vec<FreeRegion> = Vec::new();
    let mut i: usize = 0;
    while i < free.len()
        invariant
            i <= free@.len(),
            key == by_start_lcn(),
            out@ == stable_sort(free@.subrange(0, i as int), key),
        decreases free@.len() - i,
    {
        let x = free[i];
        let mut p: usize = out.len();
        while p > 0 && out[p - 1].start_lcn > x.start_lcn
            invariant
                p <= out@.len(),
                forall|k: int| p <= k < out@.len() ==> out@[k].start_lcn > x.start_lcn,
            decreases p,
        {
            p = p - 1;
        }
        proof {
            let pre = free@.subrange(0, i as int);
            assert(free@.subrange(0, i + 1).drop_last() =~= pre);
            assert(free@.subrange(0, i + 1).last() == x);
            assert forall|k: int| p <= k < out@.len() implies key(x) < key(#[trigger] out@[k]) by {
                assert(out@[k].start_lcn > x.start_lcn);
            }
            lemma_insert_at(out@, x, key, p as int);
        }
        out.insert(p, x);
        i = i + 1;
    }
    assert(free@.subrange(0, free@.len() as int) =~= free@);
    out
}

/// Builds the plan from the analyzed files and the free regions.
///
/// `files` pairs each file map with its safety verdict; `free_regions`
/// is expected in ascending LCN order (a sorted copy is used either way).
pub fn build_plan(
    files: &[FileEntry],
    free_regions: &[FreeRegion],
    volume: &VolumeInfo,
    opts: &DefragOptions,
) -> (r: Result<DefragPlan, PlanError>)
    requires
        plan_inputs_ok(files@, free_regions@, *volume),
    ensures
        match plan_outcome(files@, free_regions@, *volume, *opts) {
            Ok(v) => r matches Ok(p) && p@ == v,
            Err(e) => r == Err::<DefragPlan, PlanError>(e),
        },
        r matches Ok(p) ==> forall|a: int| 0 <= a < p@.planned.len() ==> exists|j: int|
            0 <= j < files@.len() && files@[j].1 == FileSafety::Safe
                && #[trigger] p@.planned[a] == planned_view(#[trigger] files@[j].0, p@.planned[a].moves[0].target_lcn)
                && allocated_count(files@[j].0.extents@) > 1
                && allocated_count(files@[j].0.extents@) * 100
                    >= opts.fragment_threshold_pct * clusters_for(files@[j].0.size, files@[j].0.bytes_per_cluster),
{
    if volume.free_below(opts.min_free_pct) {
        return Err(PlanError::OutOfFreeSpace { free_pct: volume.free_pct, min_pct: opts.min_free_pct });
    }
    let ghost phys = volume.bytes_per_sector_phys;
    let ghost total = files_size(files@, files@.len() as int);
    let order = candidate_order(files, opts.consolidate);
    let mut regions = sorted_regions(free_regions);
    let ghost regions0 = regions@;
    proof {
        lemma_stable_sort_permutes(free_regions@, by_start_lcn());
        assert forall|k: int| 0 <= k < regions0.len() implies addressable(#[trigger] regions0[k], phys) by {
            assert(regions0.to_multiset().count(regions0[k]) > 0);
            assert(free_regions@.contains(regions0[k]));
        }
    }
    let mut planned: Vec<PlannedFile> = Vec::new();
    let mut skipped: Vec<SkippedFile> = Vec::new();
    let mut bytes_to_move: u64 = 0;
    let mut clusters_to_move: u64 = 0;
    let mut j: usize = 0;
    assert(order@.subrange(0, order@.len() as int) =~= order@);
    while j < order.len()
        invariant
            j <= order@.len(),
            phys == volume.bytes_per_sector_phys,
            phys > 0,
            order@ == plan_order(files@, opts.consolidate),
            forall|k: int| 0 <= k < order@.len() ==> order@[k] < files@.len(),
            sum_sizes(files@, order@) <= total,
            total <= u64::MAX,
            ({
                let st = plan_through(files@, order@, *opts, phys, regions0, j as int);
                &&& planned@.map_values(|p: PlannedFile| p@) == st.planned
                &&& skipped@.map_values(|s: SkippedFile| s@) == st.skipped
                &&& bytes_to_move == st.bytes
                &&& clusters_to_move == st.clusters
                &&& regions@ == st.regions
            }),
            clusters_to_move <= bytes_to_move,
            bytes_to_move + sum_sizes(files@, order@.subrange(j as int, order@.len() as int)) <= total,
            forall|k: int| 0 <= k < regions@.len() ==> addressable(#[trigger] regions@[k], phys),
        decreases order@.len() - j,
    {
        let ghost st = plan_through(files@, order@, *opts, phys, regions0, j as int);
        let idx = order[j];
        let fm = &files[idx].0;
        proof {
            lemma_sum_suffix(files@, order@, j as int);
            lemma_sum_nonneg(files@, order@.subrange(j + 1, order@.len() as int));
            assert(order@.subrange(0, order@.len() as int) =~= order@);
        }
        let clusters_needed = fm.total_clusters();
        let count = fm.allocated_extent_count();
        if count <= 1 {
            let sf = SkippedFile { path: fm.path.clone(), size: fm.size, reason: SkipReason::SingleExtent };
            proof {
                assert(skipped@.push(sf).map_values(|s: SkippedFile| s@) =~= skipped@.map_values(|s: SkippedFile| s@).push(sf@));
            }
            skipped.push(sf);
        } else if !fm.needs_defrag(opts.fragment_threshold_pct) {
            let sf = SkippedFile { path: fm.path.clone(), size: fm.size, reason: SkipReason::BelowFragmentThreshold };
            proof {
                assert(skipped@.push(sf).map_values(|s: SkippedFile| s@) =~= skipped@.map_values(|s: SkippedFile| s@).push(sf@));
            }
            skipped.push(sf);
        } else {
            let ghost before = regions@;
            let found = find_fit(&mut regions, clusters_needed, volume);
            let ghost fit = first_fit(before, clusters_needed, phys, 0);
            proof {
                lemma_first_fit_range(before, clusters_needed, phys, 0);
            }
            assert(found.is_some() <==> fit < before.len());
            match found {
                None => {
                    let sf = SkippedFile { path: fm.path.clone(), size: fm.size, reason: SkipReason::NoContiguousFit };
                    proof {
                        assert(skipped@.push(sf).map_values(|s: SkippedFile| s@) =~= skipped@.map_values(|s: SkippedFile| s@).push(sf@));
                    }
                    skipped.push(sf);
                },
                Some(target_lcn) => {
                    proof {
                        let i = fit;
                        assert(addressable(before[i], phys));
                        assert forall|k: int| 0 <= k < regions@.len() implies addressable(#[trigger] regions@[k], phys) by {
                            if k != i {
                                assert(regions@[k] == before[k]);
                            }
                        }
                    }
                    if opts.max_extents_per_file < 1 {
                        let sf = SkippedFile { path: fm.path.clone(), size: fm.size, reason: SkipReason::ExtentCapExceeded };
                        proof {
                            assert(skipped@.push(sf).map_values(|s: SkippedFile| s@) =~= skipped@.map_values(|s: SkippedFile| s@).push(sf@));
                        }
                        skipped.push(sf);
                    } else {
                        proof {
                            lemma_clusters_le_size(fm.size, fm.bytes_per_cluster);
                        }
                        let mv = PlannedMove { start_vcn: 0, cluster_count: clusters_needed, target_lcn };
                        let mut moves: Vec<PlannedMove> = Vec::new();
                        moves.push(mv);
                        bytes_to_move = bytes_to_move + fm.size;
                        clusters_to_move = clusters_to_move + clusters_needed;
                        let pf = PlannedFile {
                            path: fm.path.clone(),
                            size: fm.size,
                            clusters: clusters_needed,
                            extents_before: count,
                            moves,
                            reason: PlanReason::Fragmented,
                        };
                        proof {
                            assert(pf@.moves =~= seq![mv]);
                            assert(pf@ == planned_view(*fm, target_lcn));
                            assert(planned@.push(pf).map_values(|p: PlannedFile| p@) =~= planned@.map_values(|p: PlannedFile| p@).push(pf@));
                        }
                        planned.push(pf);
                    }
                },
            }
        }
        j = j + 1;
    }
    let ghost st = plan_through(files@, order@, *opts, phys, regions0, order@.len() as int);
    assert(st == plan_final(files@, free_regions@, phys, *opts));
    let ghost main_skips = skipped@.map_values(|s: SkippedFile| s@);
    let mut k: usize = 0;
    while k < files.len()
        invariant
            k <= files@.len(),
            skipped@.map_values(|s: SkippedFile| s@) == main_skips + safety_skips(files@, k as int),
        decreases files@.len() - k,
    {
        let fm = &files[k].0;
        let reason = match &files[k].1 {
            FileSafety::Safe => None,
            FileSafety::SkipAttrs(_) => Some(SkipReason::SafetyBlock),
            FileSafety::Locked => Some(SkipReason::Locked),
            FileSafety::Inaccessible => Some(SkipReason::Inaccessible),
        };
        match reason {
            Some(reason) => {
                let sf = SkippedFile { path: fm.path.clone(), size: fm.size, reason };
                proof {
                    assert(skipped@.push(sf).map_values(|s: SkippedFile| s@) =~= skipped@.map_values(|s: SkippedFile| s@).push(sf@));
                    assert(main_skips + safety_skips(files@, k + 1) =~= (main_skips + safety_skips(files@, k as int)).push(sf@));
                }
                skipped.push(sf);
            },
            None => {},
        }
        k = k + 1;
    }
    let planned_count = planned.len() as u64;
    let skipped_count = skipped.len() as u64;
    if planned.len() == 0 && skipped.len() == 0 {
        return Err(PlanError::EmptyPlan);
    }
    let r = DefragPlan { planned, skipped, bytes_to_move, clusters_to_move, planned_count, skipped_count };
    proof {
        lemma_plan_only_fragmented(files@, free_regions@, *volume, *opts);
        assert(r@ == plan_outcome(files@, free_regions@, *volume, *opts)->Ok_0);
    }
    Ok(r)
}

// ── Laws ──────────────────────────────────────────────────────────────

/// The clusters `[a_start, a_start + a_len)` and `[b_start, b_start + b_len)`
/// share at least one cluster.
pub open spec fn overlap(a_start: int, a_len: int, b_start: int, b_len: int) -> bool {
    a_len > 0 && b_len > 0 && a_start < b_start + b_len && b_start < a_start + a_len
}

/// `[start, start + len)` lies inside `outer` (or is empty).
pub open spec fn within(start: int, len: int, outer: FreeRegion) -> bool {
    len == 0 || (outer.start_lcn <= start && start + len <= outer.start_lcn + outer.len_clusters)
}

pub open spec fn region_overlap(a: FreeRegion, b: FreeRegion) -> bool {
    overlap(a.start_lcn as int, a.len_clusters as int, b.start_lcn as int, b.len_clusters as int)
}

/// No two regions share a cluster.
pub open spec fn regions_disjoint(rs: Seq<FreeRegion>) -> bool {
    forall|i: int, j: int| 0 <= i < j < rs.len() ==> !region_overlap(#[trigger] rs[i], #[trigger] rs[j])
}

/// A planned file moves as one piece from VCN 0, to an LCN whose bits
/// below the physical sector size are clear.
pub open spec fn move_shape_ok(p: PlannedFileView, phys: u32) -> bool {
    &&& p.moves.len() == 1
    &&& p.moves[0].start_vcn == 0
    &&& p.moves[0].cluster_count == p.clusters
    &&& p.moves[0].target_lcn & ((phys - 1) as u64) == 0
}

pub open spec fn target_of(p: PlannedFileView) -> int {
    p.moves[0].target_lcn as int
}

pub open spec fn planned_bytes(ps: Seq<PlannedFileView>) -> int
    decreases ps.len(),
{
    if ps.len() == 0 { 0 } else { planned_bytes(ps.drop_last()) + ps.last().size }
}

pub open spec fn planned_clusters(ps: Seq<PlannedFileView>) -> int
    decreases ps.len(),
{
    if ps.len() == 0 { 0 } else { planned_clusters(ps.drop_last()) + ps.last().clusters }
}

/// What holds of the planner's state at every step.
pub open spec fn progress_ok(st: PlanProgress, regions0: Seq<FreeRegion>, phys: u32) -> bool {
    &&& st.regions.len() == regions0.len()
    &&& forall|i: int| 0 <= i < st.regions.len() ==> addressable(#[trigger] st.regions[i], phys)
    &&& forall|i: int| 0 <= i < st.regions.len() ==> within(
        (#[trigger] st.regions[i]).start_lcn as int,
        st.regions[i].len_clusters as int,
        regions0[i],
    )
    &&& forall|a: int| 0 <= a < st.planned.len() ==> move_shape_ok(#[trigger] st.planned[a], phys)
    &&& forall|a: int| 0 <= a < st.planned.len() ==> exists|i: int|
        0 <= i < regions0.len() && within(target_of(#[trigger] st.planned[a]), st.planned[a].clusters as int, #[trigger] regions0[i])
    &&& forall|a: int, i: int| 0 <= a < st.planned.len() && 0 <= i < st.regions.len() ==> !overlap(
        target_of(#[trigger] st.planned[a]),
        st.planned[a].clusters as int,
        (#[trigger] st.regions[i]).start_lcn as int,
        st.regions[i].len_clusters as int,
    )
    &&& forall|a: int, b: int| 0 <= a < b < st.planned.len() ==> !overlap(
        target_of(#[trigger] st.planned[a]),
        st.planned[a].clusters as int,
        target_of(#[trigger] st.planned[b]),
        st.planned[b].clusters as int,
    )
    &&& st.bytes == planned_bytes(st.planned)
    &&& st.clusters == planned_clusters(st.planned)
}

proof fn lemma_carve_inside(r: FreeRegion, needed: u64, phys: u32)
    requires
        phys > 0,
        addressable(r, phys),
        fit_ok(r, needed, phys),
    ensures
        within(carve(r, needed, phys).start_lcn as int, carve(r, needed, phys).len_clusters as int, r),
        addressable(carve(r, needed, phys), phys),
        within(align_up(r.start_lcn, phys) as int, needed as int, r),
        !overlap(
            align_up(r.start_lcn, phys) as int,
            needed as int,
            carve(r, needed, phys).start_lcn as int,
            carve(r, needed, phys).len_clusters as int,
        ),
        align_up(r.start_lcn, phys) & ((phys - 1) as u64) == 0,
{
    lemma_mask_facts(r.start_lcn, phys);
}

proof fn lemma_plan_step_ok(st: PlanProgress, m: FileMap, opts: DefragOptions, phys: u32, regions0: Seq<FreeRegion>)
    requires
        phys > 0,
        regions_disjoint(regions0),
        progress_ok(st, regions0, phys),
    ensures
        progress_ok(plan_step(st, m, opts, phys), regions0, phys),
{
    let needed = file_clusters(m);
    let count = allocated_count(m.extents@);
    if count <= 1 || !fragmented_at(count, needed as nat, opts.fragment_threshold_pct as nat) {
        return;
    }
    lemma_first_fit_range(st.regions, needed, phys, 0);
    let i = first_fit(st.regions, needed, phys, 0);
    if i >= st.regions.len() {
        return;
    }
    let cur = st.regions[i];
    assert(addressable(cur, phys));
    lemma_carve_inside(cur, needed, phys);
    let lcn = align_up(cur.start_lcn, phys);
    let c = carve(cur, needed, phys);
    let regions = st.regions.update(i, c);
    let nst = plan_step(st, m, opts, phys);
    assert(nst.regions == regions);
    assert forall|k: int| 0 <= k < regions.len() implies within(
        (#[trigger] regions[k]).start_lcn as int,
        regions[k].len_clusters as int,
        regions0[k],
    ) by {
        if k != i {
            assert(regions[k] == st.regions[k]);
        } else {
            assert(within(cur.start_lcn as int, cur.len_clusters as int, regions0[i]));
        }
    }
    assert forall|a: int, k: int| 0 <= a < st.planned.len() && 0 <= k < regions.len() implies !overlap(
        target_of(#[trigger] st.planned[a]),
        st.planned[a].clusters as int,
        (#[trigger] regions[k]).start_lcn as int,
        regions[k].len_clusters as int,
    ) by {
        assert(!overlap(
            target_of(st.planned[a]),
            st.planned[a].clusters as int,
            st.regions[k].start_lcn as int,
            st.regions[k].len_clusters as int,
        ));
    }
    if opts.max_extents_per_file < 1 {
        return;
    }
    let pv = planned_view(m, lcn);
    let planned = st.planned.push(pv);
    assert(nst.planned == planned);
    assert(planned.drop_last() =~= st.planned);
    assert(move_shape_ok(pv, phys));
    assert forall|a: int| 0 <= a < planned.len() implies exists|j: int|
        0 <= j < regions0.len() && within(target_of(#[trigger] planned[a]), planned[a].clusters as int, #[trigger] regions0[j]) by {
        if a == st.planned.len() {
            assert(within(lcn as int, needed as int, regions0[i]));
            assert(within(target_of(planned[a]), planned[a].clusters as int, regions0[i]));
        } else {
            assert(planned[a] == st.planned[a]);
        }
    }
    assert forall|a: int, k: int| 0 <= a < planned.len() && 0 <= k < regions.len() implies !overlap(
        target_of(#[trigger] planned[a]),
        planned[a].clusters as int,
        (#[trigger] regions[k]).start_lcn as int,
        regions[k].len_clusters as int,
    ) by {
        if a == st.planned.len() {
            if k != i {
                assert(regions[k] == st.regions[k]);
                assert(within(st.regions[k].start_lcn as int, st.regions[k].len_clusters as int, regions0[k]));
                assert(within(cur.start_lcn as int, cur.len_clusters as int, regions0[i]));
                if i < k {
                    assert(!region_overlap(regions0[i], regions0[k]));
                } else {
                    assert(!region_overlap(regions0[k], regions0[i]));
                }
            }
        } else {
            assert(planned[a] == st.planned[a]);
        }
    }
    assert forall|a: int, b: int| 0 <= a < b < planned.len() implies !overlap(
        target_of(#[trigger] planned[a]),
        planned[a].clusters as int,
        target_of(#[trigger] planned[b]),
        planned[b].clusters as int,
    ) by {
        assert(planned[a] == st.planned[a]);
        if b == st.planned.len() {
            assert(!overlap(
                target_of(st.planned[a]),
                st.planned[a].clusters as int,
                st.regions[i].start_lcn as int,
                st.regions[i].len_clusters as int,
            ));
        } else {
            assert(planned[b] == st.planned[b]);
        }
    }
}

proof fn lemma_plan_through_ok(
    files: Seq<FileEntry>,
    order: Seq<usize>,
    opts: DefragOptions,
    phys: u32,
    regions0: Seq<FreeRegion>,
    k: int,
)
    requires
        phys > 0,
        regions_disjoint(regions0),
        forall|i: int| 0 <= i < regions0.len() ==> addressable(#[trigger] regions0[i], phys),
    ensures
        progress_ok(plan_through(files, order, opts, phys, regions0, k), regions0, phys),
    decreases k,
{
    if k <= 0 {
        let st = plan_start(regions0);
        assert forall|i: int| 0 <= i < st.regions.len() implies within(
            (#[trigger] st.regions[i]).start_lcn as int,
            st.regions[i].len_clusters as int,
            regions0[i],
        ) by {}
    } else {
        lemma_plan_through_ok(files, order, opts, phys, regions0, k - 1);
        lemma_plan_step_ok(
            plan_through(files, order, opts, phys, regions0, k - 1),
            files[order[k - 1] as int].0,
            opts,
            phys,
            regions0,
        );
    }
}

proof fn lemma_plan_step_size(st: PlanProgress, m: FileMap, opts: DefragOptions, phys: u32)
    ensures
        plan_step(st, m, opts, phys).bytes <= st.bytes + m.size,
        plan_step(st, m, opts, phys).bytes >= st.bytes,
        plan_step(st, m, opts, phys).planned == st.planned || plan_step(st, m, opts, phys).planned == st.planned.push(
            planned_view(m, align_up(st.regions[first_fit(st.regions, file_clusters(m), phys, 0)].start_lcn, phys)),
        ),
{
}

proof fn lemma_sum_push(files: Seq<FileEntry>, s: Seq<usize>, x: usize)
    ensures
        sum_sizes(files, s.push(x)) == sum_sizes(files, s) + files[x as int].0.size,
{
    lemma_sum_insert(files, s, s.len() as int, x);
    assert(s.insert(s.len() as int, x) =~= s.push(x));
}

proof fn lemma_sum_insert_sorted(files: Seq<FileEntry>, s: Seq<usize>, x: usize, key: spec_fn(usize) -> int)
    ensures
        sum_sizes(files, insert_sorted(s, x, key)) == sum_sizes(files, s) + files[x as int].0.size,
    decreases s.len(),
{
    if s.len() == 0 {
        lemma_sum_push(files, s, x);
        assert(s.push(x) =~= seq![x]);
    } else if key(s.last()) <= key(x) {
        lemma_sum_push(files, s, x);
    } else {
        lemma_sum_insert_sorted(files, s.drop_last(), x, key);
        lemma_sum_push(files, insert_sorted(s.drop_last(), x, key), s.last());
        lemma_sum_push(files, s.drop_last(), s.last());
        assert(s.drop_last().push(s.last()) =~= s);
    }
}

proof fn lemma_sum_sorted(files: Seq<FileEntry>, s: Seq<usize>, key: spec_fn(usize) -> int)
    ensures
        sum_sizes(files, stable_sort(s, key)) == sum_sizes(files, s),
    decreases s.len(),
{
    if s.len() > 0 {
        lemma_sum_sorted(files, s.drop_last(), key);
        lemma_sum_insert_sorted(files, stable_sort(s.drop_last(), key), s.last(), key);
        lemma_sum_push(files, s.drop_last(), s.last());
        assert(s.drop_last().push(s.last()) =~= s);
    }
}

proof fn lemma_sum_candidates(files: Seq<FileEntry>, consolidate: bool, n: int)
    requires
        n <= usize::MAX,
    ensures
        sum_sizes(files, candidates_upto(files, consolidate, n)) <= files_size(files, n),
    decreases n,
{
    if n > 0 {
        lemma_sum_candidates(files, consolidate, n - 1);
        lemma_sum_push(files, candidates_upto(files, consolidate, n - 1), (n - 1) as usize);
    }
}

proof fn lemma_plan_bytes_bound(
    files: Seq<FileEntry>,
    order: Seq<usize>,
    opts: DefragOptions,
    phys: u32,
    regions0: Seq<FreeRegion>,
    k: int,
)
    requires
        0 <= k <= order.len(),
    ensures
        plan_through(files, order, opts, phys, regions0, k).bytes + sum_sizes(files, order.subrange(k, order.len() as int))
            <= sum_sizes(files, order),
        plan_through(files, order, opts, phys, regions0, k).bytes >= 0,
    decreases k,
{
    if k == 0 {
        assert(order.subrange(0, order.len() as int) =~= order);
    } else {
        lemma_plan_bytes_bound(files, order, opts, phys, regions0, k - 1);
        lemma_sum_suffix(files, order, k - 1);
        lemma_plan_step_size(plan_through(files, order, opts, phys, regions0, k - 1), files[order[k - 1] as int].0, opts, phys);
        lemma_sum_nonneg(files, order.subrange(k, order.len() as int));
    }
}

proof fn lemma_plan_step_shape(st: PlanProgress, m: FileMap, opts: DefragOptions, phys: u32)
    requires
        phys > 0,
        st.regions.len() >= 0,
        forall|i: int| 0 <= i < st.regions.len() ==> addressable(#[trigger] st.regions[i], phys),
        forall|a: int| 0 <= a < st.planned.len() ==> move_shape_ok(#[trigger] st.planned[a], phys),
        forall|a: int| 0 <= a < st.planned.len() ==> (#[trigger] st.planned[a]).clusters <= st.planned[a].size,
        st.bytes == planned_bytes(st.planned),
        st.clusters == planned_clusters(st.planned),
    ensures
        ({
            let n = plan_step(st, m, opts, phys);
            &&& n.regions.len() == st.regions.len()
            &&& forall|i: int| 0 <= i < n.regions.len() ==> addressable(#[trigger] n.regions[i], phys)
            &&& forall|a: int| 0 <= a < n.planned.len() ==> move_shape_ok(#[trigger] n.planned[a], phys)
            &&& forall|a: int| 0 <= a < n.planned.len() ==> (#[trigger] n.planned[a]).clusters <= n.planned[a].size
            &&& n.bytes == planned_bytes(n.planned)
            &&& n.clusters == planned_clusters(n.planned)
        }),
{
    let needed = file_clusters(m);
    lemma_clusters_le_size(m.size, m.bytes_per_cluster);
    lemma_first_fit_range(st.regions, needed, phys, 0);
    let i = first_fit(st.regions, needed, phys, 0);
    let n = plan_step(st, m, opts, phys);
    if i < st.regions.len() {
        assert(addressable(st.regions[i], phys));
        lemma_carve_inside(st.regions[i], needed, phys);
        assert forall|k: int| 0 <= k < n.regions.len() implies addressable(#[trigger] n.regions[k], phys) by {
            if k != i && n.regions.len() == st.regions.len() {
                assert(n.regions[k] == st.regions[k] || n.regions == st.regions);
            }
        }
        if n.planned.len() > st.planned.len() {
            assert(n.planned.drop_last() =~= st.planned);
        }
    }
}

proof fn lemma_plan_through_shape(
    files: Seq<FileEntry>,
    order: Seq<usize>,
    opts: DefragOptions,
    phys: u32,
    regions0: Seq<FreeRegion>,
    k: int,
)
    requires
        phys > 0,
        forall|i: int| 0 <= i < regions0.len() ==> addressable(#[trigger] regions0[i], phys),
    ensures
        ({
            let st = plan_through(files, order, opts, phys, regions0, k);
            &&& forall|i: int| 0 <= i < st.regions.len() ==> addressable(#[trigger] st.regions[i], phys)
            &&& forall|a: int| 0 <= a < st.planned.len() ==> move_shape_ok(#[trigger] st.planned[a], phys)
            &&& forall|a: int| 0 <= a < st.planned.len() ==> (#[trigger] st.planned[a]).clusters <= st.planned[a].size
            &&& st.bytes == planned_bytes(st.planned)
            &&& st.clusters == planned_clusters(st.planned)
        }),
    decreases k,
{
    if k > 0 {
        lemma_plan_through_shape(files, order, opts, phys, regions0, k - 1);
        lemma_plan_step_shape(plan_through(files, order, opts, phys, regions0, k - 1), files[order[k - 1] as int].0, opts, phys);
    }
}

proof fn lemma_sorted_regions_addressable(free: Seq<FreeRegion>, phys: u32)
    requires
        forall|k: int| 0 <= k < free.len() ==> addressable(#[trigger] free[k], phys),
    ensures
        forall|k: int| 0 <= k < stable_sort(free, by_start_lcn()).len()
            ==> addressable(#[trigger] stable_sort(free, by_start_lcn())[k], phys),
{
    let r = stable_sort(free, by_start_lcn());
    lemma_stable_sort_permutes(free, by_start_lcn());
    assert forall|k: int| 0 <= k < r.len() implies addressable(#[trigger] r[k], phys) by {
        assert(r.to_multiset().count(r[k]) > 0);
        assert(free.contains(r[k]));
    }
}

/// Every planned file moves as one piece: a single move from VCN 0 of
/// all its clusters, to an LCN with the bits below the physical sector
/// size clear. `bytes_to_move` and `clusters_to_move` are the totals of
/// the planned files.
pub proof fn lemma_plan_moves_aligned(files: Seq<FileEntry>, free: Seq<FreeRegion>, volume: VolumeInfo, opts: DefragOptions)
    requires
        plan_inputs_ok(files, free, volume),
    ensures
        plan_outcome(files, free, volume, opts) matches Ok(v) ==> {
            &&& forall|a: int| 0 <= a < v.planned.len() ==> move_shape_ok(#[trigger] v.planned[a], volume.bytes_per_sector_phys)
            &&& v.bytes_to_move == planned_bytes(v.planned)
            &&& v.clusters_to_move == planned_clusters(v.planned)
        },
{
    let phys = volume.bytes_per_sector_phys;
    let order = plan_order(files, opts.consolidate);
    let regions0 = stable_sort(free, by_start_lcn());
    lemma_sorted_regions_addressable(free, phys);
    lemma_plan_through_shape(files, order, opts, phys, regions0, order.len() as int);
    lemma_plan_bytes_bound(files, order, opts, phys, regions0, order.len() as int);
    lemma_sum_nonneg(files, order.subrange(order.len() as int, order.len() as int));
    lemma_sum_sorted(files, candidates_upto(files, opts.consolidate, files.len() as int), by_size_desc(files));
    lemma_sum_candidates(files, opts.consolidate, files.len() as int);
    let st = plan_through(files, order, opts, phys, regions0, order.len() as int);
    assert(st == plan_final(files, free, phys, opts));
    assert(order.subrange(order.len() as int, order.len() as int) =~= Seq::<usize>::empty());
    assert(st.bytes <= u64::MAX);
    lemma_plan_clusters_le_bytes(st.planned);
}

proof fn lemma_plan_clusters_le_bytes(ps: Seq<PlannedFileView>)
    requires
        forall|a: int| 0 <= a < ps.len() ==> (#[trigger] ps[a]).clusters <= ps[a].size,
    ensures
        0 <= planned_clusters(ps) <= planned_bytes(ps),
    decreases ps.len(),
{
    if ps.len() > 0 {
        lemma_plan_clusters_le_bytes(ps.drop_last());
    }
}

proof fn lemma_insert_disjoint(s: Seq<FreeRegion>, x: FreeRegion)
    requires
        regions_disjoint(s),
        forall|i: int| 0 <= i < s.len() ==> !region_overlap(#[trigger] s[i], x),
    ensures
        regions_disjoint(insert_sorted(s, x, by_start_lcn())),
        forall|k: int| 0 <= k < insert_sorted(s, x, by_start_lcn()).len() ==> (#[trigger] insert_sorted(s, x, by_start_lcn())[k]) == x
            || s.contains(insert_sorted(s, x, by_start_lcn())[k]),
    decreases s.len(),
{
    let key = by_start_lcn();
    if s.len() == 0 {
    } else if key(s.last()) <= key(x) {
        let t = s.push(x);
        assert forall|k: int| 0 <= k < t.len() implies (#[trigger] t[k]) == x || s.contains(t[k]) by {
            if k < s.len() {
                assert(t[k] == s[k]);
            }
        }
    } else {
        let d = s.drop_last();
        let last = s.last();
        assert(regions_disjoint(d)) by {
            assert forall|i: int, j: int| 0 <= i < j < d.len() implies !region_overlap(#[trigger] d[i], #[trigger] d[j]) by {
                assert(d[i] == s[i] && d[j] == s[j]);
            }
        }
        assert forall|i: int| 0 <= i < d.len() implies !region_overlap(#[trigger] d[i], x) by {
            assert(d[i] == s[i]);
        }
        lemma_insert_disjoint(d, x);
        let u = insert_sorted(d, x, key);
        let t = u.push(last);
        assert forall|a: int| 0 <= a < u.len() implies !region_overlap(#[trigger] u[a], last) by {
            if u[a] == x {
                assert(!region_overlap(s[s.len() - 1], x));
            } else {
                assert(d.contains(u[a]));
                let m = choose|m: int| 0 <= m < d.len() && d[m] == u[a];
                assert(s[m] == u[a]);
                assert(!region_overlap(s[m], s[s.len() - 1]));
            }
        }
        assert forall|i: int, j: int| 0 <= i < j < t.len() implies !region_overlap(#[trigger] t[i], #[trigger] t[j]) by {
            if j == u.len() {
                assert(t[i] == u[i]);
            } else {
                assert(t[i] == u[i] && t[j] == u[j]);
            }
        }
        assert forall|k: int| 0 <= k < t.len() implies (#[trigger] t[k]) == x || s.contains(t[k]) by {
            if k == u.len() {
                assert(s[s.len() - 1] == t[k]);
            } else {
                assert(t[k] == u[k]);
                if u[k] != x {
                    assert(d.contains(u[k]));
                    let m = choose|m: int| 0 <= m < d.len() && d[m] == u[k];
                    assert(s[m] == u[k]);
                }
            }
        }
    }
}

proof fn lemma_sorted_regions_disjoint(s: Seq<FreeRegion>)
    requires
        regions_disjoint(s),
    ensures
        regions_disjoint(stable_sort(s, by_start_lcn())),
        forall|k: int| 0 <= k < stable_sort(s, by_start_lcn()).len() ==> s.contains(#[trigger] stable_sort(s, by_start_lcn())[k]),
    decreases s.len(),
{
    let key = by_start_lcn();
    if s.len() > 0 {
        let d = s.drop_last();
        assert(regions_disjoint(d)) by {
            assert forall|i: int, j: int| 0 <= i < j < d.len() implies !region_overlap(#[trigger] d[i], #[trigger] d[j]) by {
                assert(d[i] == s[i] && d[j] == s[j]);
            }
        }
        lemma_sorted_regions_disjoint(d);
        let sd = stable_sort(d, key);
        assert forall|i: int| 0 <= i < sd.len() implies !region_overlap(#[trigger] sd[i], s.last()) by {
            assert(d.contains(sd[i]));
            let m = choose|m: int| 0 <= m < d.len() && d[m] == sd[i];
            assert(s[m] == sd[i]);
            assert(!region_overlap(s[m], s[s.len() - 1]));
        }
        lemma_insert_disjoint(sd, s.last());
        let t = stable_sort(s, key);
        assert forall|k: int| 0 <= k < t.len() implies s.contains(#[trigger] t[k]) by {
            if t[k] == s.last() {
                assert(s[s.len() - 1] == t[k]);
            } else {
                assert(sd.contains(t[k]));
                let a = choose|a: int| 0 <= a < sd.len() && sd[a] == t[k];
                assert(d.contains(sd[a]));
                let m = choose|m: int| 0 <= m < d.len() && d[m] == sd[a];
                assert(s[m] == t[k]);
            }
        }
    }
}

/// When the free regions given do not overlap, every planned move lands
/// inside one of them, and no two planned moves share a cluster.
pub proof fn lemma_plan_moves_into_free_space(
    files: Seq<FileEntry>,
    free: Seq<FreeRegion>,
    volume: VolumeInfo,
    opts: DefragOptions,
)
    requires
        plan_inputs_ok(files, free, volume),
        regions_disjoint(free),
    ensures
        plan_outcome(files, free, volume, opts) matches Ok(v) ==> {
            &&& forall|a: int| 0 <= a < v.planned.len() ==> exists|j: int|
                0 <= j < free.len() && within(target_of(#[trigger] v.planned[a]), v.planned[a].clusters as int, #[trigger] free[j])
            &&& forall|a: int, b: int| 0 <= a < b < v.planned.len() ==> !overlap(
                target_of(#[trigger] v.planned[a]),
                v.planned[a].clusters as int,
                target_of(#[trigger] v.planned[b]),
                v.planned[b].clusters as int,
            )
        },
{
    let phys = volume.bytes_per_sector_phys;
    let order = plan_order(files, opts.consolidate);
    let regions0 = stable_sort(free, by_start_lcn());
    lemma_sorted_regions_addressable(free, phys);
    lemma_sorted_regions_disjoint(free);
    lemma_plan_through_ok(files, order, opts, phys, regions0, order.len() as int);
    let st = plan_through(files, order, opts, phys, regions0, order.len() as int);
    assert(st == plan_final(files, free, phys, opts));
    assert forall|a: int| 0 <= a < st.planned.len() implies exists|j: int|
        0 <= j < free.len() && within(target_of(#[trigger] st.planned[a]), st.planned[a].clusters as int, #[trigger] free[j]) by {
        let i = choose|i: int| 0 <= i < regions0.len() && within(target_of(st.planned[a]), st.planned[a].clusters as int, regions0[i]);
        assert(free.contains(regions0[i]));
        let j = choose|j: int| 0 <= j < free.len() && free[j] == regions0[i];
        assert(within(target_of(st.planned[a]), st.planned[a].clusters as int, free[j]));
    }
}

/// Planned files come largest first.
pub proof fn lemma_plan_largest_first(files: Seq<FileEntry>, free: Seq<FreeRegion>, volume: VolumeInfo, opts: DefragOptions)
    ensures
        plan_outcome(files, free, volume, opts) matches Ok(v) ==> forall|a: int, b: int|
            0 <= a <= b < v.planned.len() ==> (#[trigger] v.planned[a]).size >= (#[trigger] v.planned[b]).size,
{
    let phys = volume.bytes_per_sector_phys;
    let order = plan_order(files, opts.consolidate);
    let regions0 = stable_sort(free, by_start_lcn());
    lemma_stable_sort_sorted(candidates_upto(files, opts.consolidate, files.len() as int), by_size_desc(files));
    lemma_plan_through_largest_first(files, order, opts, phys, regions0, order.len() as int);
    assert(plan_through(files, order, opts, phys, regions0, order.len() as int) == plan_final(files, free, phys, opts));
}

proof fn lemma_plan_through_largest_first(
    files: Seq<FileEntry>,
    order: Seq<usize>,
    opts: DefragOptions,
    phys: u32,
    regions0: Seq<FreeRegion>,
    k: int,
)
    requires
        0 <= k <= order.len(),
        sorted_by(order, by_size_desc(files)),
    ensures
        ({
            let ps = plan_through(files, order, opts, phys, regions0, k).planned;
            &&& forall|a: int, b: int| 0 <= a <= b < ps.len() ==> (#[trigger] ps[a]).size >= (#[trigger] ps[b]).size
            &&& forall|a: int, m: int| 0 <= a < ps.len() && k <= m < order.len()
                ==> (#[trigger] ps[a]).size >= files[(#[trigger] order[m]) as int].0.size
        }),
    decreases k,
{
    if k > 0 {
        lemma_plan_through_largest_first(files, order, opts, phys, regions0, k - 1);
        let st = plan_through(files, order, opts, phys, regions0, k - 1);
        let m0 = files[order[k - 1] as int].0;
        lemma_plan_step_size(st, m0, opts, phys);
        let ps = plan_through(files, order, opts, phys, regions0, k).planned;
        let key = by_size_desc(files);
        assert forall|a: int, m: int| 0 <= a < ps.len() && k <= m < order.len()
            implies (#[trigger] ps[a]).size >= files[(#[trigger] order[m]) as int].0.size by {
            assert(key(order[k - 1]) <= key(order[m]));
            if a < st.planned.len() {
                assert(ps[a] == st.planned[a]);
                assert(st.planned[a].size >= files[order[m] as int].0.size);
            }
        }
        assert forall|a: int, b: int| 0 <= a <= b < ps.len() implies (#[trigger] ps[a]).size >= (#[trigger] ps[b]).size by {
            if b < st.planned.len() {
                assert(ps[a] == st.planned[a] && ps[b] == st.planned[b]);
            } else if a < st.planned.len() {
                assert(ps[a] == st.planned[a]);
                assert(st.planned[a].size >= files[order[k - 1] as int].0.size);
            }
        }
    }
}


/// Files that failed the safety check never reach the plan, and each of
/// them is listed among the skips with the reason it failed. Every planned
/// entry is the view of a file that passed the check, and with such a file
/// present the plan fails only for want of free space.
pub proof fn lemma_plan_skips_unsafe(files: Seq<FileEntry>, free: Seq<FreeRegion>, volume: VolumeInfo, opts: DefragOptions)
    requires
        files.len() <= usize::MAX,
    ensures
        plan_outcome(files, free, volume, opts) matches Ok(v) ==> {
            &&& forall|a: int| 0 <= a < v.planned.len() ==> exists|j: int|
                0 <= j < files.len() && files[j].1 == FileSafety::Safe
                    && #[trigger] v.planned[a] == planned_view(#[trigger] files[j].0, v.planned[a].moves[0].target_lcn)
            &&& forall|i: int| 0 <= i < files.len() && (#[trigger] files[i]).1 != FileSafety::Safe
                ==> v.skipped.contains(skip_view(files[i].0, safety_reason(files[i].1)->0))
        },
        (exists|i: int| 0 <= i < files.len() && (#[trigger] files[i]).1 != FileSafety::Safe)
            && volume.free_pct >= opts.min_free_pct ==> plan_outcome(files, free, volume, opts) is Ok,
{
    let phys = volume.bytes_per_sector_phys;
    let cands = candidates_upto(files, opts.consolidate, files.len() as int);
    let order = plan_order(files, opts.consolidate);
    let regions0 = stable_sort(free, by_start_lcn());
    lemma_stable_sort_permutes(cands, by_size_desc(files));
    lemma_candidates_safe(files, opts.consolidate, files.len() as int);
    lemma_plan_through_from_order(files, order, opts, phys, regions0, order.len() as int);
    lemma_safety_skips_list(files, files.len() as int);
    let st = plan_through(files, order, opts, phys, regions0, order.len() as int);
    assert(st == plan_final(files, free, phys, opts));
    let skipped = st.skipped + safety_skips(files, files.len() as int);
    assert forall|a: int| 0 <= a < st.planned.len() implies exists|j: int|
        0 <= j < files.len() && files[j].1 == FileSafety::Safe
            && #[trigger] st.planned[a] == planned_view(#[trigger] files[j].0, st.planned[a].moves[0].target_lcn) by {
        let t = choose|t: int| 0 <= t < order.len() as int
            && st.planned[a] == planned_view(files[#[trigger] order[t] as int].0, st.planned[a].moves[0].target_lcn);
        assert(order.to_multiset().count(order[t]) > 0);
        assert(cands.contains(order[t]));
        let j = order[t] as int;
        assert(files[j].1 == FileSafety::Safe);
    }
    assert forall|i: int| 0 <= i < files.len() && (#[trigger] files[i]).1 != FileSafety::Safe
        implies skipped.contains(skip_view(files[i].0, safety_reason(files[i].1)->0)) by {
        let ss = safety_skips(files, files.len() as int);
        let w = skip_view(files[i].0, safety_reason(files[i].1)->0);
        assert(ss.contains(w));
        let q = choose|q: int| 0 <= q < ss.len() && ss[q] == w;
        assert(skipped[st.skipped.len() + q] == w);
    }
    if exists|i: int| 0 <= i < files.len() && (#[trigger] files[i]).1 != FileSafety::Safe {
        let i = choose|i: int| 0 <= i < files.len() && (#[trigger] files[i]).1 != FileSafety::Safe;
        assert(safety_skips(files, files.len() as int).len() > 0);
        assert(skipped.len() > 0);
    }
}

/// Every planned file passed the safety check and is fragmented at the
/// options' threshold: it has more than one allocated extent, and its
/// extents number at least `fragment_threshold_pct` per hundred of its
/// clusters.
pub proof fn lemma_plan_only_fragmented(files: Seq<FileEntry>, free: Seq<FreeRegion>, volume: VolumeInfo, opts: DefragOptions)
    requires
        files.len() <= usize::MAX,
    ensures
        plan_outcome(files, free, volume, opts) matches Ok(v) ==> forall|a: int| 0 <= a < v.planned.len() ==> exists|j: int|
            0 <= j < files.len() && files[j].1 == FileSafety::Safe
                && #[trigger] v.planned[a] == planned_view(#[trigger] files[j].0, v.planned[a].moves[0].target_lcn)
                && allocated_count(files[j].0.extents@) > 1
                && allocated_count(files[j].0.extents@) * 100
                    >= opts.fragment_threshold_pct * clusters_for(files[j].0.size, files[j].0.bytes_per_cluster),
{
    let phys = volume.bytes_per_sector_phys;
    let cands = candidates_upto(files, opts.consolidate, files.len() as int);
    let order = plan_order(files, opts.consolidate);
    let regions0 = stable_sort(free, by_start_lcn());
    lemma_stable_sort_permutes(cands, by_size_desc(files));
    lemma_candidates_safe(files, opts.consolidate, files.len() as int);
    lemma_plan_through_from_order(files, order, opts, phys, regions0, order.len() as int);
    let st = plan_through(files, order, opts, phys, regions0, order.len() as int);
    assert(st == plan_final(files, free, phys, opts));
    assert forall|a: int| 0 <= a < st.planned.len() implies exists|j: int|
        0 <= j < files.len() && files[j].1 == FileSafety::Safe
            && #[trigger] st.planned[a] == planned_view(#[trigger] files[j].0, st.planned[a].moves[0].target_lcn)
            && allocated_count(files[j].0.extents@) > 1
            && allocated_count(files[j].0.extents@) * 100
                >= opts.fragment_threshold_pct * clusters_for(files[j].0.size, files[j].0.bytes_per_cluster) by {
        let t = choose|t: int| 0 <= t < order.len() as int
            && st.planned[a] == planned_view(files[#[trigger] order[t] as int].0, st.planned[a].moves[0].target_lcn)
            && passes_threshold(files[order[t] as int].0, opts.fragment_threshold_pct);
        assert(order.to_multiset().count(order[t]) > 0);
        assert(cands.contains(order[t]));
        let j = order[t] as int;
        assert(files[j].1 == FileSafety::Safe);
    }
}

proof fn lemma_candidates_safe(files: Seq<FileEntry>, consolidate: bool, n: int)
    requires
        n <= usize::MAX,
    ensures
        forall|x: usize| #[trigger] candidates_upto(files, consolidate, n).contains(x)
            ==> x < n && files[x as int].1 == FileSafety::Safe && is_candidate(files[x as int], consolidate),
    decreases n,
{
    if n > 0 {
        lemma_candidates_safe(files, consolidate, n - 1);
        let p = candidates_upto(files, consolidate, n - 1);
        assert forall|x: usize| #[trigger] candidates_upto(files, consolidate, n).contains(x)
            implies x < n && files[x as int].1 == FileSafety::Safe && is_candidate(files[x as int], consolidate) by {
            let c = candidates_upto(files, consolidate, n);
            if is_candidate(files[n - 1], consolidate) {
                assert(c == p.push((n - 1) as usize));
                let q = choose|q: int| 0 <= q < c.len() && c[q] == x;
                if q < p.len() {
                    assert(c[q] == p[q]);
                    assert(p.contains(x));
                } else {
                    assert(x == n - 1);
                }
            } else {
                assert(c == p);
                assert(p.contains(x));
            }
        }
    }
}

/// More than one allocated extent, and at least `threshold_pct` extents
/// per hundred clusters.
pub open spec fn passes_threshold(m: FileMap, threshold_pct: u8) -> bool {
    &&& allocated_count(m.extents@) > 1
    &&& allocated_count(m.extents@) * 100 >= threshold_pct * clusters_for(m.size, m.bytes_per_cluster)
}

proof fn lemma_plan_step_moves_fragmented(st: PlanProgress, m: FileMap, opts: DefragOptions, phys: u32)
    ensures
        plan_step(st, m, opts, phys).planned.len() > st.planned.len() ==> passes_threshold(m, opts.fragment_threshold_pct),
{
}

proof fn lemma_plan_through_from_order(
    files: Seq<FileEntry>,
    order: Seq<usize>,
    opts: DefragOptions,
    phys: u32,
    regions0: Seq<FreeRegion>,
    k: int,
)
    requires
        0 <= k <= order.len(),
    ensures
        ({
            let ps = plan_through(files, order, opts, phys, regions0, k).planned;
            forall|a: int| #![trigger ps[a]] 0 <= a < ps.len() ==> exists|t: int| 0 <= t < k
                && ps[a] == planned_view(files[#[trigger] order[t] as int].0, ps[a].moves[0].target_lcn)
                && passes_threshold(files[order[t] as int].0, opts.fragment_threshold_pct)
        }),
    decreases k,
{
    if k > 0 {
        lemma_plan_through_from_order(files, order, opts, phys, regions0, k - 1);
        let st = plan_through(files, order, opts, phys, regions0, k - 1);
        let m0 = files[order[k - 1] as int].0;
        lemma_plan_step_size(st, m0, opts, phys);
        lemma_plan_step_moves_fragmented(st, m0, opts, phys);
        let ps = plan_through(files, order, opts, phys, regions0, k).planned;
        assert forall|a: int| #![trigger ps[a]] 0 <= a < ps.len() implies exists|t: int| 0 <= t < k
            && ps[a] == planned_view(files[#[trigger] order[t] as int].0, ps[a].moves[0].target_lcn)
            && passes_threshold(files[order[t] as int].0, opts.fragment_threshold_pct) by {
            if a < st.planned.len() {
                assert(ps[a] == st.planned[a]);
            }
        }
    }
}

proof fn lemma_safety_skips_list(files: Seq<FileEntry>, n: int)
    requires
        n <= files.len(),
    ensures
        forall|i: int| 0 <= i < n && (#[trigger] files[i]).1 != FileSafety::Safe
            ==> safety_skips(files, n).contains(skip_view(files[i].0, safety_reason(files[i].1)->0)),
    decreases n,
{
    if n > 0 {
        lemma_safety_skips_list(files, n - 1);
        let p = safety_skips(files, n - 1);
        let s = safety_skips(files, n);
        assert forall|i: int| 0 <= i < n && (#[trigger] files[i]).1 != FileSafety::Safe
            implies s.contains(skip_view(files[i].0, safety_reason(files[i].1)->0)) by {
            let w = skip_view(files[i].0, safety_reason(files[i].1)->0);
            if i == n - 1 {
                assert(s[s.len() - 1] == w);
            } else {
                let q = choose|q: int| 0 <= q < p.len() && p[q] == w;
                if s != p {
                    assert(s[q] == p[q]);
                }
            }
        }
    }
}


/// What a skip with `reason` says of the file `f` it names, stated on the
/// file and the options.
pub open spec fn skip_justified(f: FileEntry, reason: SkipReason, opts: DefragOptions) -> bool {
    let count = allocated_count(f.0.extents@);
    let clusters = clusters_for(f.0.size, f.0.bytes_per_cluster);
    match reason {
        SkipReason::SingleExtent => f.1 == FileSafety::Safe && opts.consolidate && clusters > 0 && count <= 1,
        SkipReason::BelowFragmentThreshold => f.1 == FileSafety::Safe && count > 1
            && count * 100 < opts.fragment_threshold_pct * clusters,
        SkipReason::NoContiguousFit => f.1 == FileSafety::Safe && count > 1
            && count * 100 >= opts.fragment_threshold_pct * clusters,
        SkipReason::ExtentCapExceeded => f.1 == FileSafety::Safe && opts.max_extents_per_file == 0,
        SkipReason::SafetyBlock => f.1 is SkipAttrs,
        SkipReason::Locked => f.1 == FileSafety::Locked,
        SkipReason::Inaccessible => f.1 == FileSafety::Inaccessible,
        SkipReason::TooSmall => false,
    }
}

/// What one planner step's skip says of the file.
spec fn step_skip_ok(m: FileMap, reason: SkipReason, opts: DefragOptions) -> bool {
    let count = allocated_count(m.extents@);
    let needed = file_clusters(m);
    match reason {
        SkipReason::SingleExtent => count <= 1,
        SkipReason::BelowFragmentThreshold => count > 1 && !fragmented_at(count, needed as nat, opts.fragment_threshold_pct as nat),
        SkipReason::NoContiguousFit => count > 1 && fragmented_at(count, needed as nat, opts.fragment_threshold_pct as nat),
        SkipReason::ExtentCapExceeded => opts.max_extents_per_file < 1,
        _ => false,
    }
}

proof fn lemma_plan_step_skips(st: PlanProgress, m: FileMap, opts: DefragOptions, phys: u32)
    ensures
        ({
            let n = plan_step(st, m, opts, phys);
            n.skipped == st.skipped || (n.skipped.len() == st.skipped.len() + 1 && n.skipped.drop_last() == st.skipped
                && n.skipped.last() == skip_view(m, n.skipped.last().reason) && step_skip_ok(m, n.skipped.last().reason, opts))
        }),
{
    let n = plan_step(st, m, opts, phys);
    if n.skipped != st.skipped {
        assert(n.skipped.drop_last() =~= st.skipped);
    }
}

proof fn lemma_plan_through_skips(
    files: Seq<FileEntry>,
    order: Seq<usize>,
    opts: DefragOptions,
    phys: u32,
    regions0: Seq<FreeRegion>,
    k: int,
)
    requires
        0 <= k <= order.len(),
    ensures
        ({
            let ss = plan_through(files, order, opts, phys, regions0, k).skipped;
            forall|s: int| #![trigger ss[s]] 0 <= s < ss.len() ==> exists|t: int| 0 <= t < k
                && ss[s] == skip_view(files[#[trigger] order[t] as int].0, ss[s].reason)
                && step_skip_ok(files[order[t] as int].0, ss[s].reason, opts)
        }),
    decreases k,
{
    if k > 0 {
        lemma_plan_through_skips(files, order, opts, phys, regions0, k - 1);
        let st = plan_through(files, order, opts, phys, regions0, k - 1);
        let m0 = files[order[k - 1] as int].0;
        lemma_plan_step_skips(st, m0, opts, phys);
        let ss = plan_through(files, order, opts, phys, regions0, k).skipped;
        assert forall|s: int| #![trigger ss[s]] 0 <= s < ss.len() implies exists|t: int| 0 <= t < k
            && ss[s] == skip_view(files[#[trigger] order[t] as int].0, ss[s].reason)
            && step_skip_ok(files[order[t] as int].0, ss[s].reason, opts) by {
            if s < st.skipped.len() {
                assert(ss[s] == st.skipped[s]);
            } else {
                assert(ss[s] == ss.last());
            }
        }
    }
}

proof fn lemma_safety_skips_sound(files: Seq<FileEntry>, n: int)
    requires
        0 <= n <= files.len(),
    ensures
        ({
            let ss = safety_skips(files, n);
            forall|s: int| #![trigger ss[s]] 0 <= s < ss.len() ==> exists|i: int| 0 <= i < n
                && safety_reason((#[trigger] files[i]).1) is Some
                && ss[s] == skip_view(files[i].0, safety_reason(files[i].1)->0)
        }),
    decreases n,
{
    if n > 0 {
        lemma_safety_skips_sound(files, n - 1);
        let p = safety_skips(files, n - 1);
        let ss = safety_skips(files, n);
        assert forall|s: int| #![trigger ss[s]] 0 <= s < ss.len() implies exists|i: int| 0 <= i < n
            && safety_reason((#[trigger] files[i]).1) is Some
            && ss[s] == skip_view(files[i].0, safety_reason(files[i].1)->0) by {
            if s < p.len() {
                assert(ss[s] == p[s]);
            }
        }
    }
}

/// Every skipped entry names a file, and its reason holds of that file:
/// a single extent only when consolidating, a fragment count below the
/// threshold, no free region for a file above it, an extent cap of zero,
/// or the safety check's own verdict.
pub proof fn lemma_plan_skips_justified(files: Seq<FileEntry>, free: Seq<FreeRegion>, volume: VolumeInfo, opts: DefragOptions)
    requires
        files.len() <= usize::MAX,
    ensures
        plan_outcome(files, free, volume, opts) matches Ok(v) ==> forall|s: int| 0 <= s < v.skipped.len() ==> exists|j: int|
            0 <= j < files.len() && #[trigger] v.skipped[s] == skip_view(#[trigger] files[j].0, v.skipped[s].reason)
                && skip_justified(files[j], v.skipped[s].reason, opts),
{
    let phys = volume.bytes_per_sector_phys;
    let cands = candidates_upto(files, opts.consolidate, files.len() as int);
    let order = plan_order(files, opts.consolidate);
    let regions0 = stable_sort(free, by_start_lcn());
    lemma_stable_sort_permutes(cands, by_size_desc(files));
    lemma_candidates_safe(files, opts.consolidate, files.len() as int);
    lemma_plan_through_skips(files, order, opts, phys, regions0, order.len() as int);
    lemma_safety_skips_sound(files, files.len() as int);
    let st = plan_through(files, order, opts, phys, regions0, order.len() as int);
    assert(st == plan_final(files, free, phys, opts));
    let ss = safety_skips(files, files.len() as int);
    let all = st.skipped + ss;
    assert forall|s: int| 0 <= s < all.len() implies exists|j: int|
        0 <= j < files.len() && #[trigger] all[s] == skip_view(#[trigger] files[j].0, all[s].reason)
            && skip_justified(files[j], all[s].reason, opts) by {
        if s < st.skipped.len() {
            assert(all[s] == st.skipped[s]);
            let t = choose|t: int| 0 <= t < order.len() as int
                && st.skipped[s] == skip_view(files[#[trigger] order[t] as int].0, st.skipped[s].reason)
                && step_skip_ok(files[order[t] as int].0, st.skipped[s].reason, opts);
            assert(order.to_multiset().count(order[t]) > 0);
            assert(cands.contains(order[t]));
            let j = order[t] as int;
            assert(files[j].1 == FileSafety::Safe);
            assert(is_candidate(files[j], opts.consolidate));
        } else {
            assert(all[s] == ss[s - st.skipped.len()]);
            let i = choose|i: int| 0 <= i < files.len()
                && safety_reason((#[trigger] files[i]).1) is Some
                && ss[s - st.skipped.len()] == skip_view(files[i].0, safety_reason(files[i].1)->0);
        }
    }
}


/// Clusters of the first `n` files, plus one physical sector's worth
/// (`phys` clusters) of alignment slack for each.
pub open spec fn files_room(files: Seq<FileEntry>, phys: u32, n: int) -> int
    decreases n,
{
    if n <= 0 {
        0
    } else {
        files_room(files, phys, n - 1) + clusters_for(files[n - 1].0.size, files[n - 1].0.bytes_per_cluster) + phys
    }
}

/// The room the files at the given indices take, as in [`files_room`].
spec fn idx_room(files: Seq<FileEntry>, phys: u32, s: Seq<usize>) -> int
    decreases s.len(),
{
    if s.len() == 0 {
        0
    } else {
        file_clusters(files[s[0] as int].0) + phys + idx_room(files, phys, s.drop_first())
    }
}

proof fn lemma_idx_room_insert(files: Seq<FileEntry>, phys: u32, s: Seq<usize>, p: int, x: usize)
    requires
        0 <= p <= s.len(),
    ensures
        idx_room(files, phys, s.insert(p, x)) == idx_room(files, phys, s) + file_clusters(files[x as int].0) + phys,
    decreases s.len(),
{
    if p == 0 {
        assert(s.insert(0, x).drop_first() =~= s);
    } else {
        lemma_idx_room_insert(files, phys, s.drop_first(), p - 1, x);
        assert(s.insert(p, x).drop_first() =~= s.drop_first().insert(p - 1, x));
    }
}

proof fn lemma_idx_room_push(files: Seq<FileEntry>, phys: u32, s: Seq<usize>, x: usize)
    ensures
        idx_room(files, phys, s.push(x)) == idx_room(files, phys, s) + file_clusters(files[x as int].0) + phys,
{
    lemma_idx_room_insert(files, phys, s, s.len() as int, x);
    assert(s.insert(s.len() as int, x) =~= s.push(x));
}

proof fn lemma_idx_room_insert_sorted(files: Seq<FileEntry>, phys: u32, s: Seq<usize>, x: usize, key: spec_fn(usize) -> int)
    ensures
        idx_room(files, phys, insert_sorted(s, x, key)) == idx_room(files, phys, s) + file_clusters(files[x as int].0) + phys,
    decreases s.len(),
{
    if s.len() == 0 {
        lemma_idx_room_push(files, phys, s, x);
        assert(s.push(x) =~= seq![x]);
    } else if key(s.last()) <= key(x) {
        lemma_idx_room_push(files, phys, s, x);
    } else {
        lemma_idx_room_insert_sorted(files, phys, s.drop_last(), x, key);
        lemma_idx_room_push(files, phys, insert_sorted(s.drop_last(), x, key), s.last());
        lemma_idx_room_push(files, phys, s.drop_last(), s.last());
        assert(s.drop_last().push(s.last()) =~= s);
    }
}

proof fn lemma_idx_room_sorted(files: Seq<FileEntry>, phys: u32, s: Seq<usize>, key: spec_fn(usize) -> int)
    ensures
        idx_room(files, phys, stable_sort(s, key)) == idx_room(files, phys, s),
    decreases s.len(),
{
    if s.len() > 0 {
        lemma_idx_room_sorted(files, phys, s.drop_last(), key);
        lemma_idx_room_insert_sorted(files, phys, stable_sort(s.drop_last(), key), s.last(), key);
        lemma_idx_room_push(files, phys, s.drop_last(), s.last());
        assert(s.drop_last().push(s.last()) =~= s);
    }
}

proof fn lemma_idx_room_candidates(files: Seq<FileEntry>, consolidate: bool, phys: u32, n: int)
    requires
        0 <= n <= files.len(),
        n <= usize::MAX,
    ensures
        0 <= idx_room(files, phys, candidates_upto(files, consolidate, n)) <= files_room(files, phys, n),
    decreases n,
{
    if n > 0 {
        lemma_idx_room_candidates(files, consolidate, phys, n - 1);
        lemma_idx_room_push(files, phys, candidates_upto(files, consolidate, n - 1), (n - 1) as usize);
    }
}

proof fn lemma_idx_room_nonneg(files: Seq<FileEntry>, phys: u32, s: Seq<usize>)
    ensures
        idx_room(files, phys, s) >= 0,
    decreases s.len(),
{
    if s.len() > 0 {
        lemma_idx_room_nonneg(files, phys, s.drop_first());
    }
}

/// Some region is addressable and holds at least `room` clusters.
spec fn has_room(rs: Seq<FreeRegion>, phys: u32, room: int) -> bool {
    exists|q: int| 0 <= q < rs.len() && addressable(#[trigger] rs[q], phys) && rs[q].len_clusters >= room
}

proof fn lemma_plan_step_room(st: PlanProgress, m: FileMap, opts: DefragOptions, phys: u32, rest: int)
    requires
        phys > 0,
        rest >= 0,
        has_room(st.regions, phys, file_clusters(m) + phys + rest),
    ensures
        ({
            let n = plan_step(st, m, opts, phys);
            &&& has_room(n.regions, phys, rest)
            &&& n.skipped == st.skipped || (n.skipped.drop_last() == st.skipped && n.skipped.len() == st.skipped.len() + 1
                && n.skipped.last().reason != SkipReason::NoContiguousFit)
        }),
{
    let needed = file_clusters(m);
    let n = plan_step(st, m, opts, phys);
    let q = choose|q: int| 0 <= q < st.regions.len() && addressable(#[trigger] st.regions[q], phys)
        && st.regions[q].len_clusters >= needed + phys + rest;
    let r = st.regions[q];
    lemma_mask_facts(r.start_lcn, phys);
    assert(fit_ok(r, needed, phys));
    lemma_first_fit_range(st.regions, needed, phys, 0);
    let i = first_fit(st.regions, needed, phys, 0);
    assert(i < st.regions.len());
    if n.skipped != st.skipped {
        assert(n.skipped.drop_last() =~= st.skipped);
    }
    if n.regions != st.regions {
        assert(n.regions == st.regions.update(i, carve(st.regions[i], needed, phys)));
        if i == q {
            lemma_carve_inside(r, needed, phys);
            assert(n.regions[q] == carve(r, needed, phys));
            assert(has_room(n.regions, phys, rest)) by {
                assert(addressable(n.regions[q], phys));
            }
        } else {
            assert(n.regions[q] == r);
            assert(has_room(n.regions, phys, rest)) by {
                assert(addressable(n.regions[q], phys));
            }
        }
    } else {
        assert(has_room(n.regions, phys, rest)) by {
            assert(addressable(n.regions[q], phys));
        }
    }
}

proof fn lemma_plan_through_room(
    files: Seq<FileEntry>,
    order: Seq<usize>,
    opts: DefragOptions,
    phys: u32,
    regions0: Seq<FreeRegion>,
    k: int,
)
    requires
        0 <= k <= order.len(),
        phys > 0,
        has_room(regions0, phys, idx_room(files, phys, order)),
    ensures
        ({
            let st = plan_through(files, order, opts, phys, regions0, k);
            &&& has_room(st.regions, phys, idx_room(files, phys, order.subrange(k, order.len() as int)))
            &&& forall|s: int| 0 <= s < st.skipped.len() ==> (#[trigger] st.skipped[s]).reason != SkipReason::NoContiguousFit
        }),
    decreases k,
{
    if k == 0 {
        assert(order.subrange(0, order.len() as int) =~= order);
    } else {
        lemma_plan_through_room(files, order, opts, phys, regions0, k - 1);
        let st = plan_through(files, order, opts, phys, regions0, k - 1);
        let m0 = files[order[k - 1] as int].0;
        let rest = idx_room(files, phys, order.subrange(k, order.len() as int));
        assert(order.subrange(k - 1, order.len() as int).drop_first() =~= order.subrange(k, order.len() as int));
        lemma_idx_room_nonneg(files, phys, order.subrange(k, order.len() as int));
        lemma_plan_step_room(st, m0, opts, phys, rest);
        let n = plan_through(files, order, opts, phys, regions0, k);
        assert forall|s: int| 0 <= s < n.skipped.len() implies (#[trigger] n.skipped[s]).reason != SkipReason::NoContiguousFit by {
            if s < st.skipped.len() {
                assert(n.skipped[s] == st.skipped[s]);
            }
        }
    }
}

/// Given room, no file is passed over for want of space: when some free
/// region fits the LCN space with a sector to spare and holds, for every
/// file, its clusters plus one physical sector of slack, no file is
/// skipped for lack of a contiguous fit.
pub proof fn lemma_plan_room_fits_all(files: Seq<FileEntry>, free: Seq<FreeRegion>, volume: VolumeInfo, opts: DefragOptions)
    requires
        files.len() <= usize::MAX,
        volume.bytes_per_sector_phys > 0,
        exists|q: int| 0 <= q < free.len() && addressable(#[trigger] free[q], volume.bytes_per_sector_phys)
            && free[q].len_clusters >= files_room(files, volume.bytes_per_sector_phys, files.len() as int),
    ensures
        plan_outcome(files, free, volume, opts) matches Ok(v) ==> forall|s: int| 0 <= s < v.skipped.len()
            ==> (#[trigger] v.skipped[s]).reason != SkipReason::NoContiguousFit,
{
    broadcast use vstd::seq_lib::group_to_multiset_ensures;

    let phys = volume.bytes_per_sector_phys;
    let cands = candidates_upto(files, opts.consolidate, files.len() as int);
    let order = plan_order(files, opts.consolidate);
    let regions0 = stable_sort(free, by_start_lcn());
    lemma_idx_room_sorted(files, phys, cands, by_size_desc(files));
    lemma_idx_room_candidates(files, opts.consolidate, phys, files.len() as int);
    lemma_stable_sort_permutes(free, by_start_lcn());
    let q = choose|q: int| 0 <= q < free.len() && addressable(#[trigger] free[q], phys)
        && free[q].len_clusters >= files_room(files, phys, files.len() as int);
    assert(free.to_multiset().count(free[q]) > 0);
    assert(regions0.contains(free[q]));
    let q2 = choose|q2: int| 0 <= q2 < regions0.len() && regions0[q2] == free[q];
    assert(has_room(regions0, phys, idx_room(files, phys, order))) by {
        assert(addressable(regions0[q2], phys));
    }
    lemma_plan_through_room(files, order, opts, phys, regions0, order.len() as int);
    let st = plan_through(files, order, opts, phys, regions0, order.len() as int);
    assert(st == plan_final(files, free, phys, opts));
    let ss = safety_skips(files, files.len() as int);
    lemma_safety_skips_sound(files, files.len() as int);
    let all = st.skipped + ss;
    assert forall|s: int| 0 <= s < all.len() implies (#[trigger] all[s]).reason != SkipReason::NoContiguousFit by {
        if s < st.skipped.len() {
            assert(all[s] == st.skipped[s]);
        } else {
            assert(all[s] == ss[s - st.skipped.len()]);
            let i = choose|i: int| 0 <= i < files.len()
                && safety_reason((#[trigger] files[i]).1) is Some
                && ss[s - st.skipped.len()] == skip_view(files[i].0, safety_reason(files[i].1)->0);
        }
    }
}


proof fn lemma_plan_step_records(st: PlanProgress, m: FileMap, opts: DefragOptions, phys: u32)
    ensures
        ({
            let n = plan_step(st, m, opts, phys);
            ||| n.skipped == st.skipped && n.planned.len() == st.planned.len() + 1 && n.planned.drop_last() == st.planned
                && n.planned.last() == planned_view(m, n.planned.last().moves[0].target_lcn)
            ||| n.planned == st.planned && n.skipped.len() == st.skipped.len() + 1 && n.skipped.drop_last() == st.skipped
                && n.skipped.last() == skip_view(m, n.skipped.last().reason)
        }),
{
    let n = plan_step(st, m, opts, phys);
    if n.skipped != st.skipped {
        assert(n.skipped.drop_last() =~= st.skipped);
    }
    if n.planned != st.planned {
        assert(n.planned.drop_last() =~= st.planned);
    }
}

/// Some planned entry is file `m`'s.
pub open spec fn planned_has(ps: Seq<PlannedFileView>, m: FileMap) -> bool {
    exists|a: int| 0 <= a < ps.len() && #[trigger] ps[a] == planned_view(m, ps[a].moves[0].target_lcn)
}

/// Some skipped entry is file `m`'s.
pub open spec fn skipped_has(ss: Seq<SkippedFileView>, m: FileMap) -> bool {
    exists|s: int| 0 <= s < ss.len() && #[trigger] ss[s] == skip_view(m, ss[s].reason)
}

proof fn lemma_plan_through_records(
    files: Seq<FileEntry>,
    order: Seq<usize>,
    opts: DefragOptions,
    phys: u32,
    regions0: Seq<FreeRegion>,
    k: int,
)
    requires
        0 <= k <= order.len(),
    ensures
        ({
            let st = plan_through(files, order, opts, phys, regions0, k);
            forall|t: int| 0 <= t < k ==> planned_has(st.planned, files[#[trigger] order[t] as int].0)
                || skipped_has(st.skipped, files[order[t] as int].0)
        }),
    decreases k,
{
    if k > 0 {
        lemma_plan_through_records(files, order, opts, phys, regions0, k - 1);
        let st = plan_through(files, order, opts, phys, regions0, k - 1);
        let m0 = files[order[k - 1] as int].0;
        lemma_plan_step_records(st, m0, opts, phys);
        let n = plan_through(files, order, opts, phys, regions0, k);
        assert forall|t: int| 0 <= t < k implies planned_has(n.planned, files[#[trigger] order[t] as int].0)
            || skipped_has(n.skipped, files[order[t] as int].0) by {
            let m = files[order[t] as int].0;
            if t < k - 1 {
                if planned_has(st.planned, m) {
                    let a = choose|a: int| 0 <= a < st.planned.len() && #[trigger] st.planned[a] == planned_view(m, st.planned[a].moves[0].target_lcn);
                    assert(n.planned[a] == st.planned[a]);
                } else {
                    let s = choose|s: int| 0 <= s < st.skipped.len() && #[trigger] st.skipped[s] == skip_view(m, st.skipped[s].reason);
                    assert(n.skipped[s] == st.skipped[s]);
                }
            } else {
                if n.planned.len() > st.planned.len() {
                    assert(n.planned[n.planned.len() - 1] == n.planned.last());
                } else {
                    assert(n.skipped[n.skipped.len() - 1] == n.skipped.last());
                }
            }
        }
    }
}

proof fn lemma_candidates_cover(files: Seq<FileEntry>, consolidate: bool, n: int)
    requires
        0 <= n <= files.len(),
        n <= usize::MAX,
    ensures
        forall|j: int| 0 <= j < n && is_candidate(#[trigger] files[j], consolidate)
            ==> candidates_upto(files, consolidate, n).contains(j as usize),
    decreases n,
{
    if n > 0 {
        lemma_candidates_cover(files, consolidate, n - 1);
        let p = candidates_upto(files, consolidate, n - 1);
        let c = candidates_upto(files, consolidate, n);
        assert forall|j: int| 0 <= j < n && is_candidate(#[trigger] files[j], consolidate) implies c.contains(j as usize) by {
            if j < n - 1 {
                let q = choose|q: int| 0 <= q < p.len() && p[q] == j as usize;
                if is_candidate(files[n - 1], consolidate) {
                    assert(c[q] == p[q]);
                }
            } else {
                assert(c[c.len() - 1] == (n - 1) as usize);
            }
        }
    }
}

/// Every file that passed the safety check, has a cluster, and is
/// fragmented or open to consolidation is either planned or skipped: none
/// is dropped silently.
pub proof fn lemma_plan_accounts_for_candidates(files: Seq<FileEntry>, free: Seq<FreeRegion>, volume: VolumeInfo, opts: DefragOptions)
    requires
        files.len() <= usize::MAX,
    ensures
        plan_outcome(files, free, volume, opts) matches Ok(v) ==> forall|j: int| 0 <= j < files.len()
            && (#[trigger] files[j]).1 == FileSafety::Safe
            && clusters_for(files[j].0.size, files[j].0.bytes_per_cluster) > 0
            && (allocated_count(files[j].0.extents@) > 1 || opts.consolidate)
            ==> planned_has(v.planned, files[j].0) || skipped_has(v.skipped, files[j].0),
{
    broadcast use vstd::seq_lib::group_to_multiset_ensures;

    let phys = volume.bytes_per_sector_phys;
    let cands = candidates_upto(files, opts.consolidate, files.len() as int);
    let order = plan_order(files, opts.consolidate);
    let regions0 = stable_sort(free, by_start_lcn());
    lemma_stable_sort_permutes(cands, by_size_desc(files));
    lemma_candidates_cover(files, opts.consolidate, files.len() as int);
    lemma_plan_through_records(files, order, opts, phys, regions0, order.len() as int);
    let st = plan_through(files, order, opts, phys, regions0, order.len() as int);
    assert(st == plan_final(files, free, phys, opts));
    let all = st.skipped + safety_skips(files, files.len() as int);
    assert forall|j: int| 0 <= j < files.len()
        && (#[trigger] files[j]).1 == FileSafety::Safe
        && clusters_for(files[j].0.size, files[j].0.bytes_per_cluster) > 0
        && (allocated_count(files[j].0.extents@) > 1 || opts.consolidate)
        implies planned_has(st.planned, files[j].0) || skipped_has(all, files[j].0) by {
        assert(is_candidate(files[j], opts.consolidate));
        assert(cands.contains(j as usize));
        assert(cands.to_multiset().count(j as usize) > 0);
        assert(order.contains(j as usize));
        let t = choose|t: int| 0 <= t < order.len() && order[t] == j as usize;
        assert(planned_has(st.planned, files[order[t] as int].0) || skipped_has(st.skipped, files[order[t] as int].0));
        if !planned_has(st.planned, files[j].0) {
            let s = choose|s: int| 0 <= s < st.skipped.len() && #[trigger] st.skipped[s] == skip_view(files[j].0, st.skipped[s].reason);
            assert(all[s] == st.skipped[s]);
        }
    }
}

} // verus!
