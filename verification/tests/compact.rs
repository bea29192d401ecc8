use gim::commands::compact::{cls_label, format_duration, resolve_target_dirs};
use gim::compact::algorithm::{CompactAlgorithm, CompactMode};
use gim::compact::estimate::{
    classify_ext, classify_scanned, summarize, FileClass, FileKind, ScannedFile, SkipReason,
    MIN_COMPRESS_SIZE,
};
use gim::compact::game_running::{exe_inside_game_dir, GameRunState, RunningGame};
use gim::compact::ntfs::{
    set_ntfs_compression, COMPRESSION_FORMAT_LZNT1, COMPRESSION_FORMAT_NONE, FSCTL_SET_COMPRESSION,
};
use gim::compact::wof::{
    backing_algorithm, build_backing_payload, check_wof_available, enable_wof_driver,
    get_wof_compression, probe_outcome, probe_wof_driver, probe_wof_runtime,
    remove_wof_compression, reset_wof_availability, set_wof_compression, WofAvailability,
    WofDriverStatus, WofRuntimeProbe, FILE_PROVIDER_COMPRESSION_LZX,
    FILE_PROVIDER_COMPRESSION_XPRESS4K, WOF_CURRENT_VERSION, WOF_PROVIDER_FILE,
};
use gim::compact::{
    compress_file, decompress_file, lock_file_path, state_file_path, CompactOptions, CompactPhase,
    CompactState, TargetFolder,
};
use gim::config::Paths;
use gim::error::GError;

// ── algorithm ──────────────────────────────────────────────────────────

#[test]
fn parse_roundtrip() {
    for name in CompactAlgorithm::all_strs() {
        let algo = CompactAlgorithm::parse(name).unwrap();
        assert_eq!(algo.as_str(), name);
    }
}

#[test]
fn parse_case_insensitive() {
    assert_eq!(CompactAlgorithm::parse("LZX").unwrap(), CompactAlgorithm::Lzx);
    assert_eq!(CompactAlgorithm::parse("  Lzx ").unwrap(), CompactAlgorithm::Lzx);
    assert_eq!(CompactAlgorithm::parse("NTFS").unwrap(), CompactAlgorithm::Ntfs);
}

#[test]
fn aliases() {
    assert_eq!(CompactAlgorithm::parse("lznt1").unwrap(), CompactAlgorithm::Ntfs);
    assert_eq!(CompactAlgorithm::parse("off").unwrap(), CompactAlgorithm::Decompress);
    assert_eq!(CompactAlgorithm::parse("decompress").unwrap(), CompactAlgorithm::Decompress);
}

#[test]
fn parse_invalid() {
    assert!(CompactAlgorithm::parse("gzip").is_err());
    assert!(CompactAlgorithm::parse("").is_err());
}

#[test]
fn default_is_lzx() {
    assert_eq!(CompactAlgorithm::default(), CompactAlgorithm::Lzx);
}

#[test]
fn mode_mapping() {
    assert_eq!(CompactAlgorithm::Ntfs.mode(), CompactMode::Ntfs);
    assert_eq!(CompactAlgorithm::Lzx.mode(), CompactMode::Wof);
    assert_eq!(CompactAlgorithm::Xpress4k.mode(), CompactMode::Wof);
    assert_eq!(CompactAlgorithm::Decompress.mode(), CompactMode::Wof);
}

#[test]
fn algorithm_labels_and_decompress_flag() {
    assert_eq!(CompactAlgorithm::Decompress.as_str(), "none");
    assert!(CompactAlgorithm::Decompress.is_decompress());
    assert!(!CompactAlgorithm::Lzx.is_decompress());
    assert_eq!(CompactAlgorithm::all_strs().len(), 6);
}

// ── estimate ───────────────────────────────────────────────────────────

#[test]
fn classify_precompressed() {
    assert_eq!(classify_ext("mp4"), None);
    assert_eq!(classify_ext("ZIP"), None);
    assert_eq!(classify_ext("pak"), None);
}

#[test]
fn classify_executable_and_text() {
    assert_eq!(classify_ext("exe"), Some(FileClass::Executable));
    assert_eq!(classify_ext("DLL"), Some(FileClass::Executable));
    assert_eq!(classify_ext("json"), Some(FileClass::Text));
    assert_eq!(classify_ext("Lua"), Some(FileClass::Text));
}

#[test]
fn classify_other() {
    assert_eq!(classify_ext("dat"), Some(FileClass::Other));
    assert_eq!(classify_ext(""), Some(FileClass::Other));
}

fn scanned(path: &str, size: u64, kind: FileKind) -> ScannedFile {
    ScannedFile { path: path.to_string(), size, kind }
}

#[test]
fn summarize_mixed() {
    let files = vec![
        scanned("a.exe", 1000, FileKind::Candidate(FileClass::Executable)),
        scanned("b.txt", 1000, FileKind::Candidate(FileClass::Text)),
        scanned("c.mp4", 5000, FileKind::Skipped(SkipReason::PrecompressedExt)),
        scanned("d.bin", 100, FileKind::Skipped(SkipReason::TooSmall)),
    ];
    let est = summarize(&files, CompactAlgorithm::Lzx);
    assert_eq!(est.total_files, 4);
    assert_eq!(est.candidate_files, 2);
    assert_eq!(est.skipped_files, 2);
    assert_eq!(est.total_size, 7100);
    assert_eq!(est.candidate_size, 2000);
    assert_eq!(est.skipped_size, 5100);
    // Candidates: 1000*0.55 + 1000*0.30 = 850, + skipped 5100 = 5950.
    assert_eq!(est.estimated_after, 5950);
    assert_eq!(est.estimated_savings, 7100 - 5950);
}

#[test]
fn low_savings_flag() {
    let files = vec![scanned("a.mp4", 10000, FileKind::Skipped(SkipReason::PrecompressedExt))];
    let est = summarize(&files, CompactAlgorithm::Lzx);
    assert!(est.low_savings());
}

#[test]
fn empty_folder_zero_estimate() {
    let est = summarize(&[], CompactAlgorithm::Lzx);
    assert_eq!(est.total_files, 0);
    assert_eq!(est.total_size, 0);
    assert_eq!(est.estimated_savings, 0);
    assert!(est.low_savings());
}

#[test]
fn lzx_ratio_pct_text_best() {
    assert!(FileClass::Text.ratio_pct(CompactAlgorithm::Lzx) < FileClass::Executable.ratio_pct(CompactAlgorithm::Lzx));
    assert_eq!(FileClass::Text.ratio_pct(CompactAlgorithm::Lzx), 30);
    assert_eq!(FileClass::Executable.ratio_pct(CompactAlgorithm::Lzx), 55);
}

#[test]
fn decompress_ratio_pct_is_identity() {
    for cls in [FileClass::Executable, FileClass::Text, FileClass::UncompressedMedia, FileClass::Other] {
        assert_eq!(cls.ratio_pct(CompactAlgorithm::Decompress), 100);
    }
}

#[test]
fn estimate_groups_add_up() {
    let files = vec![
        scanned("a.exe", 1000, FileKind::Candidate(FileClass::Executable)),
        scanned("b.exe", 3000, FileKind::Candidate(FileClass::Executable)),
        scanned("c.mp4", 5000, FileKind::Skipped(SkipReason::PrecompressedExt)),
        scanned("d.bin", 100, FileKind::Skipped(SkipReason::TooSmall)),
        scanned("e.bin", 200, FileKind::Skipped(SkipReason::TooSmall)),
    ];
    let est = summarize(&files, CompactAlgorithm::Lzx);
    let skipped_total: u64 = est.skipped_breakdown.iter().map(|g| g.2).sum();
    let candidate_total: u64 = est.candidate_breakdown.iter().map(|g| g.2).sum();
    assert_eq!(skipped_total, est.skipped_size);
    assert_eq!(candidate_total, est.candidate_size);
    assert_eq!(est.candidate_size + est.skipped_size, est.total_size);
    // The reason with the most files comes first.
    assert_eq!(est.skipped_breakdown[0], (SkipReason::TooSmall, 2, 300));
    assert_eq!(est.candidate_breakdown, vec![(FileClass::Executable, 2, 4000)]);
}

#[test]
fn classify_scanned_rules() {
    assert_eq!(classify_scanned(None, false, "exe"), FileKind::Skipped(SkipReason::Inaccessible));
    assert_eq!(classify_scanned(Some(10_000), true, "exe"), FileKind::Skipped(SkipReason::AlreadyCompressed));
    assert_eq!(classify_scanned(Some(MIN_COMPRESS_SIZE - 1), false, "exe"), FileKind::Skipped(SkipReason::TooSmall));
    assert_eq!(classify_scanned(Some(MIN_COMPRESS_SIZE), false, "zip"), FileKind::Skipped(SkipReason::PrecompressedExt));
    assert_eq!(classify_scanned(Some(MIN_COMPRESS_SIZE), false, "exe"), FileKind::Candidate(FileClass::Executable));
}

#[test]
fn skip_labels() {
    assert_eq!(SkipReason::TooSmall.label(), "small file (<4 KB)");
    assert_eq!(cls_label(FileClass::UncompressedMedia), "uncompressed media");
    assert_eq!(cls_label(FileClass::Other), "other");
}

// ── game_running ───────────────────────────────────────────────────────

#[test]
fn empty_state_is_not_any() {
    let s = GameRunState::default();
    assert!(!s.any());
    assert_eq!(s.summary(), "");
}

#[test]
fn summary_lists_aliases() {
    let s = GameRunState {
        running: vec![RunningGame {
            alias: "cp2077".into(),
            title: "Cyberpunk".into(),
            exe: "C:/Games/CP2077/cp.exe".into(),
        }],
    };
    assert!(s.any());
    assert_eq!(s.summary(), "cp2077 (cp.exe)");
}

#[test]
fn exe_inside_checks_prefix() {
    assert!(exe_inside_game_dir("C:/Games/Foo/game.exe", "C:/Games/Foo"));
    assert!(!exe_inside_game_dir("C:/Games/Bar/game.exe", "C:/Games/Foo"));
}

// ── mod ────────────────────────────────────────────────────────────────

#[test]
fn mod_target_parse_roundtrip() {
    for s in ["game", "data", "both"] {
        let t = TargetFolder::parse(s).unwrap();
        assert_eq!(t.as_str(), s);
    }
}

#[test]
fn mod_target_aliases() {
    assert_eq!(TargetFolder::parse("GameDir").unwrap(), TargetFolder::GameDir);
    assert_eq!(TargetFolder::parse("objects").unwrap(), TargetFolder::DataDir);
    assert_eq!(TargetFolder::parse("ALL").unwrap(), TargetFolder::Both);
}

#[test]
fn mod_target_invalid() {
    assert!(TargetFolder::parse("network").is_err());
}

#[test]
fn mod_phase_roundtrip() {
    for p in [CompactPhase::Starting, CompactPhase::Running, CompactPhase::Paused, CompactPhase::Done, CompactPhase::Failed] {
        assert_eq!(CompactPhase::parse(p.as_str()), p);
    }
}

#[test]
fn mod_state_paths_under_data_dir() {
    assert_eq!(state_file_path("data", "cp2077"), "data/cp2077/compact.state");
    assert_eq!(lock_file_path("data", "cp2077"), "data/cp2077/compact.lock");
}

#[test]
fn new_state_starts_at_phase_starting() {
    let s = CompactState::new_at(CompactAlgorithm::Lzx, TargetFolder::GameDir, 1234);
    assert_eq!(s.phase(), CompactPhase::Starting);
    assert_eq!(s.algorithm, "lzx");
    assert_eq!(s.target, "game");
    assert_eq!(s.started_at, 1234);
    assert_eq!(s.processed_files, 0);
}

#[test]
fn small_files_are_left_alone() {
    let opts = CompactOptions::default();
    assert!(compress_file("/tmp/nope", Some(MIN_COMPRESS_SIZE - 1), &opts).is_ok());
}

#[test]
fn compress_and_decompress_unsupported_off_windows() {
    let opts = CompactOptions::default();
    assert!(matches!(compress_file("/tmp/nope", Some(1 << 20), &opts), Err(GError::NotSupportedPlatform)));
    assert!(matches!(decompress_file("/tmp/nope"), Err(GError::NotSupportedPlatform)));
}

// ── ntfs ───────────────────────────────────────────────────────────────

#[test]
fn format_constants_match_winioctl() {
    assert_eq!(COMPRESSION_FORMAT_NONE, 0);
    assert_eq!(COMPRESSION_FORMAT_LZNT1, 2);
    assert_eq!(FSCTL_SET_COMPRESSION, 0x0009C040);
}

#[test]
fn ntfs_non_windows_returns_not_supported() {
    assert!(matches!(
        set_ntfs_compression("/tmp/nope", COMPRESSION_FORMAT_LZNT1),
        Err(GError::NotSupportedPlatform)
    ));
}

// ── wof ────────────────────────────────────────────────────────────────

#[test]
fn payload_layout_is_20_bytes() {
    let p = build_backing_payload(FILE_PROVIDER_COMPRESSION_LZX);
    assert_eq!(p.len(), 20);
    assert_eq!(u32::from_le_bytes([p[0], p[1], p[2], p[3]]), WOF_CURRENT_VERSION);
    assert_eq!(u32::from_le_bytes([p[4], p[5], p[6], p[7]]), WOF_PROVIDER_FILE);
    assert_eq!(u32::from_le_bytes([p[8], p[9], p[10], p[11]]), 1);
    assert_eq!(u32::from_le_bytes([p[12], p[13], p[14], p[15]]), FILE_PROVIDER_COMPRESSION_LZX);
    assert_eq!(u32::from_le_bytes([p[16], p[17], p[18], p[19]]), 0);
}

#[test]
fn payload_xpress4k_roundtrips() {
    let p = build_backing_payload(FILE_PROVIDER_COMPRESSION_XPRESS4K);
    assert_eq!(u32::from_le_bytes([p[12], p[13], p[14], p[15]]), FILE_PROVIDER_COMPRESSION_XPRESS4K);
    assert_eq!(backing_algorithm(&p, 20), Some(FILE_PROVIDER_COMPRESSION_XPRESS4K));
    assert_eq!(backing_algorithm(&p, 12), None);
}

#[test]
fn wof_non_windows_returns_not_supported() {
    assert!(matches!(set_wof_compression("/tmp/nope", 1), Err(GError::NotSupportedPlatform)));
    assert!(matches!(remove_wof_compression("/tmp/nope"), Err(GError::NotSupportedPlatform)));
    assert_eq!(get_wof_compression("/tmp/nope").unwrap(), None);
}

#[test]
fn reset_wof_availability_clears_flag() {
    let mut cache = WofAvailability::new();
    cache.mark_unavailable();
    assert!(cache.unavailable);
    reset_wof_availability(&mut cache);
    assert!(!cache.unavailable);
}

#[test]
fn probe_returns_not_installed_on_non_windows() {
    assert_eq!(probe_wof_driver(), WofDriverStatus::NotInstalled);
}

#[test]
fn enable_returns_not_supported_on_non_windows() {
    assert!(matches!(enable_wof_driver(), Err(GError::NotSupportedPlatform)));
    assert!(matches!(check_wof_available(&WofAvailability::new()), Err(GError::NotSupportedPlatform)));
}

#[test]
fn probe_outcome_classifies_errors() {
    assert_eq!(probe_outcome(Ok(())), WofRuntimeProbe::Works);
    assert_eq!(probe_outcome(Err(1)), WofRuntimeProbe::NotAttachedToVolume(1));
    assert_eq!(probe_outcome(Err(50)), WofRuntimeProbe::NotAttachedToVolume(50));
    assert!(matches!(probe_outcome(Err(5)), WofRuntimeProbe::ProbeFailed(_)));
    assert!(matches!(probe_wof_runtime("/tmp"), WofRuntimeProbe::ProbeFailed(_)));
}

// ── subcommand helpers ─────────────────────────────────────────────────

#[test]
fn compact_target_dirs() {
    let paths = Paths::from_binary_dir("/opt/gim".to_string());
    let both = resolve_target_dirs("/games/foo", "/opt/gim/data/foo", &paths, "foo", TargetFolder::Both);
    assert_eq!(both, vec!["/games/foo".to_string(), "/opt/gim/data/foo/objects".to_string()]);
    let game = resolve_target_dirs("/games/foo", "", &paths, "foo", TargetFolder::GameDir);
    assert_eq!(game, vec!["/games/foo".to_string()]);
}

#[test]
fn durations_are_formatted() {
    assert_eq!(format_duration(5), "5s");
    assert_eq!(format_duration(-3), "-3s");
    assert_eq!(format_duration(125), "2m 5s");
    assert_eq!(format_duration(3725), "1h 2m");
}
