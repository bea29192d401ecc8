use gim::commands::defrag::{media_kind_desc, resolve_target_dirs};
use gim::config::Paths;
use gim::defrag::admin::{is_elevated, join_args, request_elevation, ElevationToken};
use gim::defrag::bitmap::{
    absorb_chunk_runs, bitmap_chunk, is_lcn_free, make_test_bitmap, parse_volume_bitmap, FreeRegion,
    BITMAP_CHUNK_CLUSTERS,
};
use gim::defrag::file_map::{FileExtent, FileMap, FragmentationStats};
use gim::defrag::media::{detect_media_kind, drive_letter_str, media_from_seek_penalty, MediaKind};
use gim::defrag::move_file::{
    classify_move_error, execute_move, moved_outcome, verify_target_free, MoveOutcome, MoveRequest,
};
use gim::defrag::plan::{build_plan, PlanError, PlanReason, SkipReason};
use gim::defrag::safety::{check_file_safety, check_locked, decode_attrs, read_file_attrs, FileAttrs, FileSafety};
use gim::defrag::throttle::IoThrottle;
use gim::defrag::volume::{detect_vss_active, query_volume_info, VolumeInfo};
use gim::defrag::{lock_file_path, state_file_path, DefragOptions, DefragPhase, DefragState, TargetFolder};
use gim::error::GError;

// ── admin ──────────────────────────────────────────────────────────────

#[test]
fn join_args_simple() {
    assert_eq!(join_args(&["defrag".into(), "cp2077".into()]), "\"defrag\" \"cp2077\"");
}

#[test]
fn join_args_with_spaces() {
    let s = join_args(&["defrag".into(), "C:\\Program Files\\Game".into()]);
    assert_eq!(s, "\"defrag\" \"C:\\Program Files\\Game\"");
}

#[test]
fn join_args_with_trailing_backslash() {
    let s = join_args(&["defrag".into(), "C:\\Games\\".into()]);
    assert_eq!(s, "\"defrag\" \"C:\\Games\\\\\"");
}

#[test]
fn join_args_with_embedded_quote() {
    let s = join_args(&["--msg".into(), "hello \"world\"".into()]);
    assert!(s.contains("\"hello \\\"world\\\"\""));
}

#[test]
fn is_elevated_returns_not_elevated_off_windows() {
    assert_eq!(is_elevated().unwrap(), ElevationToken::NotElevated);
}

#[test]
fn request_elevation_unsupported_off_windows() {
    assert!(matches!(request_elevation(), Err(GError::NotSupportedPlatform)));
}

// ── bitmap ─────────────────────────────────────────────────────────────

#[test]
fn chunk_runs_merge_across_boundary() {
    let mut free = vec![FreeRegion { start_lcn: 0, len_clusters: 10 }];
    let runs = vec![FreeRegion { start_lcn: 10, len_clusters: 5 }, FreeRegion { start_lcn: 20, len_clusters: 3 }];
    absorb_chunk_runs(&mut free, &runs);
    assert_eq!(
        free,
        vec![FreeRegion { start_lcn: 0, len_clusters: 15 }, FreeRegion { start_lcn: 20, len_clusters: 3 }]
    );
    let more = vec![FreeRegion { start_lcn: 23, len_clusters: 7 }, FreeRegion { start_lcn: 40, len_clusters: 1 }];
    absorb_chunk_runs(&mut free, &more);
    assert_eq!(
        free,
        vec![
            FreeRegion { start_lcn: 0, len_clusters: 15 },
            FreeRegion { start_lcn: 20, len_clusters: 10 },
            FreeRegion { start_lcn: 40, len_clusters: 1 },
        ]
    );
}

#[test]
fn chunk_runs_into_empty_list() {
    let mut free: Vec<FreeRegion> = Vec::new();
    let runs = vec![FreeRegion { start_lcn: 4, len_clusters: 2 }, FreeRegion { start_lcn: 8, len_clusters: 1 }];
    absorb_chunk_runs(&mut free, &runs);
    assert_eq!(free, runs);
}

#[test]
fn free_region_split_exact() {
    let r = FreeRegion { start_lcn: 100, len_clusters: 50 };
    let (a, b) = r.split_at(50);
    assert_eq!(a.len_clusters, 50);
    assert_eq!(b, None);
}

#[test]
fn free_region_split_partial() {
    let r = FreeRegion { start_lcn: 100, len_clusters: 50 };
    let (a, b) = r.split_at(20);
    assert_eq!(a.len_clusters, 20);
    assert_eq!(a.start_lcn, 100);
    assert_eq!(b.unwrap().len_clusters, 30);
    assert_eq!(b.unwrap().start_lcn, 120);
}

#[test]
fn free_region_fits_check() {
    let r = FreeRegion { start_lcn: 0, len_clusters: 100 };
    assert!(r.fits(100));
    assert!(r.fits(50));
    assert!(!r.fits(101));
    assert_eq!(r.end_lcn_exclusive(), 100);
}

#[test]
fn bitmap_is_allocated() {
    let b = make_test_bitmap(1000, 8, vec![0b10110001]);
    assert_eq!(b.is_allocated(1000), Some(true));
    assert_eq!(b.is_allocated(1001), Some(false));
    assert_eq!(b.is_allocated(1002), Some(false));
    assert_eq!(b.is_allocated(1003), Some(false));
    assert_eq!(b.is_allocated(1004), Some(true));
    assert_eq!(b.is_allocated(1005), Some(true));
    assert_eq!(b.is_allocated(1006), Some(false));
    assert_eq!(b.is_allocated(1007), Some(true));
    assert_eq!(b.is_allocated(2000), None);
}

#[test]
fn bitmap_free_runs() {
    let b = make_test_bitmap(0, 16, vec![0b00001111, 0b11110000]);
    let runs = b.free_runs();
    assert_eq!(runs.len(), 1);
    assert_eq!(runs[0], FreeRegion { start_lcn: 4, len_clusters: 8 });
}

#[test]
fn bitmap_runs_iter_yields_all_runs() {
    let b = make_test_bitmap(0, 16, vec![0b00001111, 0b11110000]);
    let runs = b.all_runs();
    assert_eq!(runs.len(), 3);
    assert!(runs[0].set);
    assert_eq!(runs[0].len_bits, 4);
    assert!(!runs[1].set);
    assert_eq!(runs[1].len_bits, 8);
    assert!(runs[2].set);
    assert_eq!(runs[2].len_bits, 4);

    let mut it = b.runs();
    let mut n = 0;
    while let Some(run) = it.next() {
        assert_eq!(run, runs[n]);
        n += 1;
    }
    assert_eq!(n, 3);
}

#[test]
fn chunk_size_is_reasonable() {
    assert!(BITMAP_CHUNK_CLUSTERS >= 1_000_000);
    assert!(BITMAP_CHUNK_CLUSTERS <= 100_000_000);
}

#[test]
fn bitmap_chunk_unsupported_off_windows() {
    assert!(matches!(bitmap_chunk('C', 0), Err(GError::NotSupportedPlatform)));
}

#[test]
fn is_lcn_free_unsupported_off_windows() {
    assert!(matches!(is_lcn_free('C', 0), Err(GError::NotSupportedPlatform)));
}

#[test]
fn volume_bitmap_reply_is_decoded() {
    let mut buf = Vec::new();
    buf.extend_from_slice(&7u64.to_le_bytes());
    buf.extend_from_slice(&12u64.to_le_bytes());
    buf.extend_from_slice(&[0xff, 0x0f, 0xaa]);
    let b = parse_volume_bitmap(&buf).unwrap();
    assert_eq!(b.starting_lcn, 7);
    assert_eq!(b.cluster_count, 12);
    assert_eq!(b.bitmap, vec![0xff, 0x0f]);

    let mut short = Vec::new();
    short.extend_from_slice(&0u64.to_le_bytes());
    short.extend_from_slice(&64u64.to_le_bytes());
    short.push(0);
    assert!(matches!(parse_volume_bitmap(&short), Err(GError::Defrag(_))));
}

// ── file_map ───────────────────────────────────────────────────────────

fn file_map(path: &str, size: u64, extents: Vec<FileExtent>) -> FileMap {
    FileMap { path: path.to_string(), size, bytes_per_cluster: 4096, extents }
}

#[test]
fn sparse_extent_detection() {
    let sparse = FileExtent { vcn: 0, lcn: u64::MAX, len: 10 };
    let real = FileExtent { vcn: 10, lcn: 1000, len: 50 };
    assert!(sparse.is_sparse());
    assert!(!real.is_sparse());
}

#[test]
fn contiguous_check() {
    let a = FileExtent { vcn: 0, lcn: 100, len: 50 };
    let b = FileExtent { vcn: 50, lcn: 150, len: 30 };
    let c = FileExtent { vcn: 80, lcn: 200, len: 10 };
    assert!(a.contiguous_with(&b));
    assert!(!b.contiguous_with(&c));
}

#[test]
fn fragmentation_contiguous_file() {
    let map = file_map("foo.pak", 100 * 4096, vec![FileExtent { vcn: 0, lcn: 1000, len: 100 }]);
    assert_eq!(map.allocated_extent_count(), 1);
    assert_eq!(map.total_clusters(), 100);
    assert!(!map.is_fragmented(5));
    assert!(!map.needs_defrag(5));
}

#[test]
fn fragmentation_fragmented_file() {
    let extents = (0..10).map(|i| FileExtent { vcn: i * 10, lcn: 1000 + i * 100, len: 10 }).collect();
    let map = file_map("bar.pak", 100 * 4096, extents);
    assert_eq!(map.allocated_extent_count(), 10);
    assert!(map.is_fragmented(5));
    assert!(map.needs_defrag(5));
}

#[test]
fn fragmentation_with_sparse_extents() {
    let map = file_map(
        "sparse.bin",
        100 * 4096,
        vec![
            FileExtent { vcn: 0, lcn: 100, len: 30 },
            FileExtent { vcn: 30, lcn: u64::MAX, len: 40 },
            FileExtent { vcn: 70, lcn: 200, len: 30 },
        ],
    );
    assert_eq!(map.allocated_extent_count(), 2);
    assert!(!map.is_fragmented(5));
}

#[test]
fn lowest_highest_lcn() {
    let map = file_map(
        "x.bin",
        300 * 4096,
        vec![
            FileExtent { vcn: 0, lcn: 5000, len: 100 },
            FileExtent { vcn: 100, lcn: 2000, len: 100 },
            FileExtent { vcn: 200, lcn: 8000, len: 100 },
        ],
    );
    assert_eq!(map.lowest_lcn(), Some(2000));
    assert_eq!(map.highest_lcn_exclusive(), Some(8100));
}

#[test]
fn needs_defrag_requires_multiple_extents() {
    let map = file_map("single.pak", 100 * 4096, vec![FileExtent { vcn: 0, lcn: 1000, len: 100 }]);
    assert!(!map.needs_defrag(5));
}

#[test]
fn stats_merge_adds_counts() {
    let mut a = FragmentationStats {
        total_files: 10,
        analyzed_files: 8,
        fragmented_files: 4,
        skipped_locked: 1,
        skipped_attrs: 1,
        skipped_too_small: 0,
        total_size: 1_000_000,
        fragmented_size: 400_000,
        total_extents: 40,
        max_extents_seen: 12,
    };
    let b = FragmentationStats {
        total_files: 5,
        analyzed_files: 4,
        fragmented_files: 2,
        skipped_locked: 0,
        skipped_attrs: 1,
        skipped_too_small: 0,
        total_size: 500_000,
        fragmented_size: 200_000,
        total_extents: 18,
        max_extents_seen: 15,
    };
    a.merge(&b);
    assert_eq!(a.total_files, 15);
    assert_eq!(a.analyzed_files, 12);
    assert_eq!(a.fragmented_files, 6);
    assert_eq!(a.skipped_attrs, 2);
    assert_eq!(a.total_size, 1_500_000);
    assert_eq!(a.max_extents_seen, 15);
}

// ── media ──────────────────────────────────────────────────────────────

#[test]
fn media_kind_classification() {
    assert!(MediaKind::Hdd.is_hdd());
    assert!(!MediaKind::Hdd.is_ssd());
    assert!(MediaKind::Ssd.is_ssd());
    assert!(MediaKind::Unknown.is_ssd());
}

#[test]
fn media_kind_as_str() {
    assert_eq!(MediaKind::Hdd.as_str(), "hdd");
    assert_eq!(MediaKind::Ssd.as_str(), "ssd");
    assert_eq!(MediaKind::Unknown.as_str(), "unknown");
}

#[test]
fn drive_letter_extracts_uppercase() {
    assert_eq!(drive_letter_str("c:\\Games"), Some('C'));
    assert_eq!(drive_letter_str("D:/foo"), Some('D'));
    assert_eq!(drive_letter_str("\\\\server\\share"), None);
    assert_eq!(drive_letter_str("relative"), None);
}

#[test]
fn detect_returns_ssd_off_windows() {
    assert_eq!(detect_media_kind("/tmp").unwrap(), MediaKind::Ssd);
}

#[test]
fn seek_penalty_decides_media() {
    assert_eq!(media_from_seek_penalty(true, 1), MediaKind::Hdd);
    assert_eq!(media_from_seek_penalty(true, 0), MediaKind::Ssd);
    assert_eq!(media_from_seek_penalty(false, 1), MediaKind::Unknown);
    assert_eq!(media_kind_desc(MediaKind::Hdd), "spinning disk — defrag helps");
}

// ── mod ────────────────────────────────────────────────────────────────

#[test]
fn target_folder_parse_roundtrip() {
    for s in ["game", "data", "both"] {
        let t = TargetFolder::parse(s).unwrap();
        assert_eq!(t.as_str(), s);
    }
}

#[test]
fn defrag_target_aliases() {
    assert_eq!(TargetFolder::parse("GameDir").unwrap(), TargetFolder::GameDir);
    assert_eq!(TargetFolder::parse("objects").unwrap(), TargetFolder::DataDir);
    assert_eq!(TargetFolder::parse("ALL").unwrap(), TargetFolder::Both);
}

#[test]
fn defrag_target_invalid() {
    assert!(TargetFolder::parse("network").is_err());
}

#[test]
fn defrag_phase_roundtrip() {
    for p in [
        DefragPhase::Authorizing,
        DefragPhase::DetectingMedia,
        DefragPhase::Analyzing,
        DefragPhase::ScanningBitmap,
        DefragPhase::Validating,
        DefragPhase::Defragmenting,
        DefragPhase::Consolidating,
        DefragPhase::Done,
        DefragPhase::Failed,
        DefragPhase::Cancelled,
    ] {
        assert_eq!(DefragPhase::parse(p.as_str()), p);
    }
}

#[test]
fn defrag_state_paths_under_data_dir() {
    assert_eq!(state_file_path("data", "cp2077"), "data/cp2077/defrag.state");
    assert_eq!(lock_file_path("data", "cp2077"), "data/cp2077/defrag.lock");
}

#[test]
fn defrag_new_state() {
    let s = DefragState::new_at(TargetFolder::Both, 42);
    assert_eq!(s.target, "both");
    assert_eq!(s.started_at, 42);
    assert_eq!(s.total_files, 0);
}

#[test]
fn defaults_match_instruction_rules() {
    let o = DefragOptions::default();
    assert_eq!(o.min_free_pct, 15, "15% free space rule");
    assert_eq!(o.fragment_threshold_pct, 5, "skip files <5% fragmented");
    assert!(o.max_extents_per_file <= 20, "MFT attribute list safety");
    assert!(o.max_extents_per_file >= 10, "don't be too aggressive");
    assert_eq!(o.throttle_mb, 500, "throttle after 500 MB");
}

#[test]
fn defrag_target_dirs() {
    let paths = Paths::from_binary_dir("/opt/gim".to_string());
    let dirs = resolve_target_dirs("/games/foo", "", &paths, "foo", TargetFolder::DataDir);
    assert_eq!(dirs, vec!["/opt/gim/data/foo/objects".to_string()]);
}

// ── move_file ──────────────────────────────────────────────────────────

#[test]
fn move_request_layout() {
    let r = MoveRequest { file_handle: 0, start_vcn: 0, cluster_count: 100, target_lcn: 5000 };
    assert_eq!(r.start_vcn, 0);
    assert_eq!(r.cluster_count, 100);
    assert_eq!(r.target_lcn, 5000);
}

#[test]
fn move_outcome_classification() {
    assert!(matches!(MoveOutcome::Moved { bytes: 4096 }, MoveOutcome::Moved { .. }));
    assert_eq!(MoveOutcome::TargetOccupied, MoveOutcome::TargetOccupied);
    assert_eq!(MoveOutcome::Locked, MoveOutcome::Locked);
    assert_eq!(MoveOutcome::HardError(1224), MoveOutcome::HardError(1224));
    assert_eq!(classify_move_error(32), MoveOutcome::Locked);
    assert_eq!(classify_move_error(112), MoveOutcome::TargetOccupied);
    assert_eq!(classify_move_error(1224), MoveOutcome::HardError(1224));
    assert_eq!(moved_outcome(10, 4096), MoveOutcome::Moved { bytes: 40960 });
}

#[test]
fn execute_move_unsupported_off_windows() {
    let r = MoveRequest { file_handle: 0, start_vcn: 0, cluster_count: 10, target_lcn: 1000 };
    assert!(matches!(execute_move('C', 0, r, 4096), Err(GError::NotSupportedPlatform)));
}

#[test]
fn verify_target_free_unsupported_off_windows() {
    assert!(matches!(verify_target_free('C', 0, 10), Err(GError::NotSupportedPlatform)));
}

// ── safety ─────────────────────────────────────────────────────────────

#[test]
fn attrs_default_allows_defrag() {
    let a = FileAttrs::default();
    assert!(!a.blocks_defrag());
    assert_eq!(a.block_reason(), "");
}

#[test]
fn attrs_compressed_blocks() {
    let a = FileAttrs { compressed: true, ..Default::default() };
    assert!(a.blocks_defrag());
    assert_eq!(a.block_reason(), "NTFS-compressed");
}

#[test]
fn attrs_encrypted_blocks() {
    let a = FileAttrs { encrypted: true, ..Default::default() };
    assert!(a.blocks_defrag());
    assert_eq!(a.block_reason(), "EFS-encrypted");
}

#[test]
fn attrs_sparse_blocks() {
    let a = FileAttrs { sparse: true, ..Default::default() };
    assert!(a.blocks_defrag());
    assert_eq!(a.block_reason(), "sparse");
}

#[test]
fn attrs_reparse_blocks() {
    let a = FileAttrs { reparse_point: true, ..Default::default() };
    assert!(a.blocks_defrag());
    assert_eq!(a.block_reason(), "reparse point (symlink/junction)");
}

#[test]
fn attrs_offline_blocks() {
    let a = FileAttrs { offline: true, ..Default::default() };
    assert!(a.blocks_defrag());
    assert_eq!(a.block_reason(), "offline (HSM)");
}

#[test]
fn attrs_readonly_does_not_block() {
    let a = FileAttrs { readonly: true, ..Default::default() };
    assert!(!a.blocks_defrag());
}

#[test]
fn attrs_compressed_takes_priority_over_others() {
    let a = FileAttrs { compressed: true, encrypted: true, sparse: true, ..Default::default() };
    assert_eq!(a.block_reason(), "NTFS-compressed");
}

#[test]
fn read_file_attrs_empty_off_windows() {
    let a = read_file_attrs("/tmp/somefile").unwrap();
    assert!(!a.blocks_defrag());
}

#[test]
fn check_locked_returns_false_off_windows() {
    assert!(!check_locked("/tmp/somefile").unwrap());
}

#[test]
fn check_file_safety_ok_off_windows() {
    let s = check_file_safety("/tmp/somefile").unwrap();
    assert_eq!(s, FileSafety::Safe);
}

#[test]
fn attribute_bits_are_decoded() {
    // FILE_ATTRIBUTE_READONLY (0x1) | FILE_ATTRIBUTE_COMPRESSED (0x800)
    let a = decode_attrs(0x1 | 0x800);
    assert!(a.readonly && a.compressed);
    assert!(!a.encrypted && !a.sparse && !a.offline && !a.reparse_point);
}

// ── throttle ───────────────────────────────────────────────────────────

#[test]
fn records_total_bytes() {
    let mut t = IoThrottle::new(u64::MAX, 0);
    t.record_bytes(100);
    t.record_bytes(200);
    assert_eq!(t.total_bytes_moved(), 300);
    assert_eq!(t.total_sleeps(), 0);
}

#[test]
fn triggers_sleep_at_threshold() {
    let mut t = IoThrottle::new(500, 1);
    assert!(!t.record_bytes(300));
    assert_eq!(t.total_sleeps(), 0);
    assert!(t.record_bytes(300));
    assert_eq!(t.total_sleeps(), 1);
    assert_eq!(t.total_bytes_moved(), 600);
}

#[test]
fn multiple_sleeps_accumulate() {
    let mut t = IoThrottle::new(100, 1);
    for _ in 0..5 {
        t.record_bytes(100);
    }
    assert_eq!(t.total_bytes_moved(), 500);
    assert_eq!(t.total_sleeps(), 5);
}

#[test]
fn zero_budget_sleeps_every_call() {
    let mut t = IoThrottle::new(0, 1);
    t.record_bytes(1);
    t.record_bytes(1);
    assert_eq!(t.total_sleeps(), 2);
    assert_eq!(t.sleep_duration_ms(), 1);
    t.reset();
    assert_eq!(t.total_sleeps(), 0);
}

// ── volume ─────────────────────────────────────────────────────────────

fn volume(phys: u32, free_pct: u8) -> VolumeInfo {
    VolumeInfo {
        drive: 'C',
        volume_path: "\\\\.\\C:".into(),
        total_bytes: 1_000_000_000,
        free_bytes: 200_000_000,
        bytes_per_cluster: 4096,
        bytes_per_sector_log: 512,
        bytes_per_sector_phys: phys,
        free_pct,
        vss_active: false,
    }
}

#[test]
fn volume_info_helpers() {
    let v = volume(4096, 20);
    assert!(!v.free_below(15));
    assert!(v.free_below(25));
    assert_eq!(v.physical_sector_mask(), !4095u64);
    assert_eq!(v.total_clusters(), 1_000_000_000 / 4096);
}

#[test]
fn physical_sector_mask_for_512() {
    let mut v = volume(512, 0);
    v.bytes_per_cluster = 512;
    assert_eq!(v.physical_sector_mask(), !511u64);
}

#[test]
fn query_volume_info_unsupported_off_windows() {
    assert!(matches!(query_volume_info("/tmp"), Err(GError::NotSupportedPlatform)));
}

#[test]
fn detect_vss_returns_false_off_windows() {
    assert!(!detect_vss_active("/tmp").unwrap());
}

// ── plan ───────────────────────────────────────────────────────────────

fn make_volume() -> VolumeInfo {
    VolumeInfo {
        drive: 'C',
        volume_path: "\\\\.\\C:".into(),
        total_bytes: 1_000_000_000_000,
        free_bytes: 500_000_000_000,
        bytes_per_cluster: 4096,
        bytes_per_sector_log: 512,
        bytes_per_sector_phys: 4096,
        free_pct: 50,
        vss_active: false,
    }
}

fn make_fragmented_file(path: &str, size_clusters: u64, n_extents: usize) -> FileMap {
    let per_extent = size_clusters / n_extents as u64;
    let mut extents = Vec::new();
    for i in 0..n_extents {
        extents.push(FileExtent { vcn: i as u64 * per_extent, lcn: 1000 + (i as u64) * 500, len: per_extent });
    }
    FileMap { path: path.to_string(), size: size_clusters * 4096, bytes_per_cluster: 4096, extents }
}

#[test]
fn plan_skips_below_threshold() {
    let volume = make_volume();
    let opts = DefragOptions::default();
    let fm = file_map("single.pak", 100 * 4096, vec![FileExtent { vcn: 0, lcn: 1000, len: 100 }]);
    let files = vec![(fm, FileSafety::Safe)];
    let free = vec![FreeRegion { start_lcn: 0, len_clusters: 100_000 }];
    let plan = build_plan(&files, &free, &volume, &opts).unwrap();
    assert_eq!(plan.planned_count, 0);
    assert!(plan.skipped.iter().any(|s| s.reason == SkipReason::SingleExtent));
}

#[test]
fn plan_fits_fragmented_file() {
    let volume = make_volume();
    let opts = DefragOptions::default();
    let fm = make_fragmented_file("foo.pak", 100, 10);
    let files = vec![(fm, FileSafety::Safe)];
    let free = vec![FreeRegion { start_lcn: 0, len_clusters: 100_000 }];
    let plan = build_plan(&files, &free, &volume, &opts).unwrap();
    assert_eq!(plan.planned_count, 1);
    assert_eq!(plan.planned[0].moves.len(), 1);
    assert_eq!(plan.planned[0].moves[0].cluster_count, 100);
    assert_eq!(plan.planned[0].reason, PlanReason::Fragmented);
    assert_eq!(plan.bytes_to_move, 100 * 4096);
}

#[test]
fn plan_skips_safety_blocked() {
    let volume = make_volume();
    let opts = DefragOptions::default();
    let fm = make_fragmented_file("compressed.pak", 100, 10);
    let files = vec![(fm, FileSafety::SkipAttrs("NTFS-compressed"))];
    let free = vec![FreeRegion { start_lcn: 0, len_clusters: 100_000 }];
    let plan = build_plan(&files, &free, &volume, &opts).unwrap();
    assert_eq!(plan.planned_count, 0);
    assert_eq!(plan.skipped_count, 1);
    assert!(plan.skipped.iter().any(|s| s.reason == SkipReason::SafetyBlock));
}

#[test]
fn plan_skips_locked() {
    let volume = make_volume();
    let opts = DefragOptions::default();
    let fm = make_fragmented_file("locked.pak", 100, 10);
    let files = vec![(fm, FileSafety::Locked)];
    let free = vec![FreeRegion { start_lcn: 0, len_clusters: 100_000 }];
    let plan = build_plan(&files, &free, &volume, &opts).unwrap();
    assert_eq!(plan.planned_count, 0);
    assert_eq!(plan.skipped_count, 1);
    assert!(plan.skipped.iter().any(|s| s.reason == SkipReason::Locked));
}

#[test]
fn plan_never_moves_unsafe_files() {
    let volume = make_volume();
    let opts = DefragOptions::default();
    let files = vec![
        (make_fragmented_file("gone.pak", 100, 10), FileSafety::Inaccessible),
        (make_fragmented_file("ok.pak", 50, 5), FileSafety::Safe),
        (make_fragmented_file("open.pak", 200, 10), FileSafety::Locked),
        (make_fragmented_file("packed.pak", 300, 10), FileSafety::SkipAttrs("NTFS-compressed")),
    ];
    let free = vec![FreeRegion { start_lcn: 0, len_clusters: 100_000 }];
    let plan = build_plan(&files, &free, &volume, &opts).unwrap();
    assert_eq!(plan.planned_count, 1);
    assert_eq!(plan.planned[0].path, "ok.pak");
    assert_eq!(plan.skipped_count, 3);
    assert!(plan.skipped.iter().any(|s| s.path == "gone.pak" && s.reason == SkipReason::Inaccessible));
    assert!(plan.skipped.iter().any(|s| s.path == "open.pak" && s.reason == SkipReason::Locked));
    assert!(plan.skipped.iter().any(|s| s.path == "packed.pak" && s.reason == SkipReason::SafetyBlock));
    assert!(!plan.planned.iter().any(|p| p.path != "ok.pak"));
}

#[test]
fn plan_errors_when_free_space_below_threshold() {
    let mut volume = make_volume();
    volume.free_pct = 5;
    let opts = DefragOptions::default();
    let fm = make_fragmented_file("foo.pak", 100, 10);
    let files = vec![(fm, FileSafety::Safe)];
    let free = vec![FreeRegion { start_lcn: 0, len_clusters: 100_000 }];
    assert!(matches!(
        build_plan(&files, &free, &volume, &opts),
        Err(PlanError::OutOfFreeSpace { free_pct: 5, min_pct: 15 })
    ));
}

#[test]
fn plan_skips_when_no_contiguous_fit() {
    let volume = make_volume();
    let opts = DefragOptions::default();
    let fm = make_fragmented_file("big.pak", 100, 10);
    let files = vec![(fm, FileSafety::Safe)];
    let free = vec![FreeRegion { start_lcn: 0, len_clusters: 50 }];
    let plan = build_plan(&files, &free, &volume, &opts).unwrap();
    assert_eq!(plan.planned_count, 0);
    assert!(plan.skipped.iter().any(|s| s.reason == SkipReason::NoContiguousFit));
}

#[test]
fn plan_picks_lowest_lcn_first() {
    let volume = make_volume();
    let opts = DefragOptions::default();
    let fm = make_fragmented_file("foo.pak", 100, 10);
    let files = vec![(fm, FileSafety::Safe)];
    let mut free = vec![
        FreeRegion { start_lcn: 10000, len_clusters: 100_000 },
        FreeRegion { start_lcn: 100, len_clusters: 100_000 },
    ];
    free.sort_by_key(|r| r.start_lcn);
    let plan = build_plan(&files, &free, &volume, &opts).unwrap();
    assert!(plan.planned[0].moves[0].target_lcn >= 100);
    assert!(plan.planned[0].moves[0].target_lcn < 10000);
}

#[test]
fn plan_aligns_to_physical_sector() {
    let mut volume = make_volume();
    volume.bytes_per_sector_phys = 8192;
    let opts = DefragOptions::default();
    let fm = make_fragmented_file("foo.pak", 100, 10);
    let files = vec![(fm, FileSafety::Safe)];
    let free = vec![FreeRegion { start_lcn: 5, len_clusters: 100_000 }];
    let plan = build_plan(&files, &free, &volume, &opts).unwrap();
    let target = plan.planned[0].moves[0].target_lcn;
    assert_eq!(target % 2, 0, "target LCN must be aligned to 2-cluster sector boundary");
}

#[test]
fn plan_processes_files_largest_first() {
    let volume = make_volume();
    let opts = DefragOptions::default();
    let big = make_fragmented_file("big.pak", 200, 10);
    let small = make_fragmented_file("small.pak", 50, 10);
    let files = vec![(big, FileSafety::Safe), (small, FileSafety::Safe)];
    let free = vec![FreeRegion { start_lcn: 0, len_clusters: 1_000_000 }];
    let plan = build_plan(&files, &free, &volume, &opts).unwrap();
    assert!(plan.planned[0].size >= plan.planned[1].size);
    // Moves never overlap: the second file lands after the first.
    let a = plan.planned[0].moves[0];
    let b = plan.planned[1].moves[0];
    assert!(a.target_lcn + a.cluster_count <= b.target_lcn);
}

#[test]
fn skip_reason_strings_nonempty() {
    for r in [
        SkipReason::BelowFragmentThreshold,
        SkipReason::SingleExtent,
        SkipReason::TooSmall,
        SkipReason::SafetyBlock,
        SkipReason::Locked,
        SkipReason::NoContiguousFit,
        SkipReason::ExtentCapExceeded,
        SkipReason::Inaccessible,
    ] {
        assert!(!r.as_str().is_empty());
    }
}
