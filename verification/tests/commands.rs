use gim::commands::compact::{apply_pause, finish_run, record_batch};
use gim::compact::{CompactState, TargetFolder};
use gim::compact::algorithm::CompactAlgorithm;
use gim::compact::wof::{wof_status, WofDriverStatus};
use gim::defrag::file_map::FileExtent;
use gim::hashing::{is_retryable, retry_step, ReadFailure, RetryStep};
use gim::path_utils::{denormalize, normalize};
use std::collections::HashMap;
use gim::hashing::{hash_bytes, HashAlgorithm, StreamHasher};
use gim::defrag::volume::drive_letter;
use gim::defrag::file_map::parse_retrieval_pointers;
use gim::cli::Command;
use gim::commands::branch::{check_branch_delete, validate_branch_name};
use gim::commands::compact::{auto_pause_step, completion_message, is_wof_limit_error, split_failures, PauseAction};
use gim::commands::defrag::{media_gate, MediaGate};
use gim::defrag::media::MediaKind;
use gim::commands::gc::orphaned_hashes;
use gim::commands::ignore_cmd::remove_pattern_text;
use gim::commands::restore::restore_plan;
use gim::commands::snap::{next_snapshot_id, validate_id, with_inherited};
use gim::commands::threads_from_command;
use gim::db::snaps::{snapshot_diff, FileMeta};
use gim::defrag::file_map::analyze_fragmentation;
use gim::error::{exit_code, GError};
use gim::text::{contains_text, i64_to_dec};

fn meta(hash: &str, size: i64) -> FileMeta {
    FileMeta { hash: gim::hashing::Hash(hash.to_string()), file_size: size, modified_time: 0 }
}

fn entry(path: &str, hash: &str, size: i64) -> (String, FileMeta) {
    (path.to_string(), meta(hash, size))
}

fn strings(v: &[&str]) -> Vec<String> {
    v.iter().map(|s| s.to_string()).collect()
}

#[test]
fn next_id_unused_base() {
    let existing = strings(&["20240101-120000-1"]);
    assert_eq!(next_snapshot_id("20240101-120001", &existing), "20240101-120001");
}

#[test]
fn next_id_base_in_use() {
    let existing = strings(&["20240101-120000"]);
    assert_eq!(next_snapshot_id("20240101-120000", &existing), "20240101-120000-2");
}

#[test]
fn next_id_after_largest_suffix() {
    let existing = strings(&["20240101-120000", "20240101-120000-2", "20240101-120000-7", "20240101-120000-x"]);
    assert_eq!(next_snapshot_id("20240101-120000", &existing), "20240101-120000-8");
}

#[test]
fn snapshot_ids_are_validated() {
    assert!(validate_id("v1.0-final").is_ok());
    assert!(matches!(validate_id(""), Err(GError::InvalidSnapshotId(_))));
    assert!(matches!(validate_id(".hidden"), Err(GError::InvalidSnapshotId(_))));
    assert!(matches!(validate_id("a b"), Err(GError::InvalidSnapshotId(_))));
}

#[test]
fn inherited_files_follow_walked_ones() {
    let parent = vec![entry("a.txt", "h1", 1), entry("saves/s1", "h2", 2), entry("b.txt", "h3", 3)];
    let walked = vec![entry("a.txt", "h9", 9)];
    // saves/ was filtered out; b.txt would have been walked but was not found.
    let filtered_out = vec![false, true, false];
    let r = with_inherited(&parent, &walked, &filtered_out);
    let paths: Vec<&str> = r.iter().map(|e| e.0.as_str()).collect();
    assert_eq!(paths, vec!["a.txt", "saves/s1"]);
    assert_eq!(r[0].1.hash.0, "h9");
    assert_eq!(r[1].1.hash.0, "h2");
}

#[test]
fn snapshot_diff_sizes_and_net() {
    let a = vec![entry("keep", "k", 10), entry("mod", "m1", 100), entry("gone", "g", 50)];
    let b = vec![entry("keep", "k", 10), entry("mod", "m2", 120), entry("new", "n", 30)];
    let d = snapshot_diff(&a, &b);
    assert_eq!(d.added, vec![("new".to_string(), 30)]);
    assert_eq!(d.modified, vec![("mod".to_string(), 100, 120)]);
    assert_eq!(d.deleted, vec![("gone".to_string(), 50)]);
    assert_eq!(d.net, 30 + 20 - 50);
}

#[test]
fn restore_plan_copies_changes_only() {
    let target = vec![entry("a", "h1", 1), entry("b", "h2", 2), entry("c", "h3", 3)];
    let current = vec![entry("a", "h1", 1), entry("b", "hx", 2), entry("z", "hz", 5)];
    let plan = restore_plan(&target, &current, false);
    let copied: Vec<&str> = plan.to_copy.iter().map(|e| e.file_path.as_str()).collect();
    assert_eq!(copied, vec!["c", "b"]);
    assert_eq!(plan.to_delete, vec!["z".to_string()]);
}

#[test]
fn restore_plan_full_copies_everything() {
    let target = vec![entry("a", "h1", 1), entry("b", "h2", 2)];
    let current = vec![entry("a", "h1", 1)];
    let plan = restore_plan(&target, &current, true);
    let copied: Vec<&str> = plan.to_copy.iter().map(|e| e.file_path.as_str()).collect();
    assert_eq!(copied, vec!["a", "b"]);
    assert!(plan.to_delete.is_empty());
}

#[test]
fn branch_names_are_validated() {
    assert!(validate_branch_name("feature-1").is_ok());
    match validate_branch_name("bad name") {
        Err(GError::Other(m)) => assert_eq!(m, "invalid branch \"bad name\""),
        other => panic!("unexpected {:?}", other),
    }
    assert!(validate_branch_name("").is_err());
    assert!(validate_branch_name(".x").is_err());
}

#[test]
fn branch_delete_rules() {
    assert!(matches!(check_branch_delete("main", true, None, "g"), Err(GError::CannotDeleteMainBranch)));
    match check_branch_delete("dev", false, None, "g") {
        Err(GError::BranchNotFound(n, a)) => {
            assert_eq!(n, "dev");
            assert_eq!(a, "g");
        }
        other => panic!("unexpected {:?}", other),
    }
    assert!(matches!(
        check_branch_delete("dev", true, Some("dev"), "g"),
        Err(GError::CannotDeleteCurrentBranch(n)) if n == "dev"
    ));
    assert!(check_branch_delete("dev", true, Some("main"), "g").is_ok());
}

#[test]
fn gc_finds_unreferenced_objects() {
    let stored = strings(&["aa", "bb", "cc", "dd"]);
    let referenced = strings(&["bb", "dd", "ee"]);
    assert_eq!(orphaned_hashes(&stored, &referenced), strings(&["aa", "cc"]));
    assert!(orphaned_hashes(&stored, &stored).is_empty());
}

#[test]
fn ignore_remove_drops_matching_lines() {
    let text = "*.log\n  saves/  \ncache/\n";
    assert_eq!(remove_pattern_text(text, "saves/"), "*.log\ncache/\n");
    assert_eq!(remove_pattern_text("a\nb", "zzz"), "a\nb\n");
}

#[test]
fn auto_pause_transitions() {
    assert_eq!(auto_pause_step(false, true), PauseAction::Pause);
    assert_eq!(auto_pause_step(true, false), PauseAction::Resume);
    assert_eq!(auto_pause_step(true, true), PauseAction::Keep);
    assert_eq!(auto_pause_step(false, false), PauseAction::Keep);
}

#[test]
fn wof_limit_errors_are_recognised() {
    assert!(is_wof_limit_error("WofSetFileDataLocation failed: Win32 error 344 (file not supported)"));
    assert!(!is_wof_limit_error("Win32 error 5"));
    assert!(contains_text("abcabd", "abd"));
    assert!(contains_text("abc", ""));
    assert!(!contains_text("ab", "abc"));
}

#[test]
fn signed_decimal_text() {
    assert_eq!(i64_to_dec(0), "0");
    assert_eq!(i64_to_dec(-42), "-42");
    assert_eq!(i64_to_dec(i64::MIN), "-9223372036854775808");
    assert_eq!(i64_to_dec(i64::MAX), "9223372036854775807");
}

#[test]
fn error_messages_match_their_variants() {
    assert_eq!(GError::AliasNotFound("g".into()).message(), "game with alias \"g\" does not exist");
    assert_eq!(
        GError::SnapshotNotFound("s1".into(), "g".into()).message(),
        "snapshot \"s1\" does not exist for game \"g\""
    );
    assert_eq!(
        GError::SnapshotReferencedByBranch("s1".into(), 2, "a, b".into()).message(),
        "snapshot \"s1\" is referenced by 2 branch(es): a, b"
    );
    assert_eq!(GError::CannotDeleteMainBranch.message(), "cannot delete the protected \"main\" branch");
    assert_eq!(GError::Other("plain".into()).message(), "plain");
    assert_eq!(exit_code(&GError::AliasNotFound("g".into())), 2);
    assert_eq!(exit_code(&GError::Other("x".into())), 1);
}

#[test]
fn fragmentation_map_of_a_file() {
    let m = analyze_fragmentation("C:\\games\\x.pak", 8192, 4096).unwrap();
    assert_eq!(m.path, "C:\\games\\x.pak");
    assert_eq!(m.size, 8192);
    assert_eq!(m.bytes_per_cluster, 4096);
    assert!(m.extents.is_empty());
}

#[test]
fn thread_counts_come_from_the_command() {
    let snap = Command::Snap {
        alias: "g".into(),
        id: None,
        msg: None,
        threads: Some(4),
        dry_run: false,
        full_hash: false,
        exclude: None,
        include_only: None,
    };
    assert_eq!(threads_from_command(&snap), Some(4));
    assert_eq!(threads_from_command(&Command::List { details: false, json: false }), None);
}

#[test]
fn failures_split_into_skipped_and_real() {
    let msgs = strings(&["Win32 error 344 on x", "access denied", "WOF: Win32 error 344", "locked"]);
    let (skipped, real) = split_failures(&msgs);
    assert_eq!(skipped, 2);
    assert_eq!(real, vec![1, 3]);
}

#[test]
fn worker_completion_messages() {
    assert_eq!(completion_message(10, 0, 0), "completed: 10 compressed");
    assert_eq!(completion_message(10, 3, 3), "completed: 10 compressed, 3 skipped (Win32 344)");
    assert_eq!(completion_message(10, 5, 3), "completed: 10 compressed, 2 failed, 3 skipped (Win32 344)");
    assert_eq!(completion_message(7, 2, 0), "completed: 7 compressed, 2 failed, 0 skipped (Win32 344)");
}

#[test]
fn only_spinning_disks_are_defragmented() {
    assert_eq!(media_gate(MediaKind::Hdd, false), MediaGate::Proceed);
    assert_eq!(media_gate(MediaKind::Hdd, true), MediaGate::Proceed);
    assert_eq!(media_gate(MediaKind::Ssd, false), MediaGate::NotHdd);
    assert_eq!(media_gate(MediaKind::Ssd, true), MediaGate::SkipSsd);
    assert_eq!(media_gate(MediaKind::Unknown, false), MediaGate::NotHdd);
}

#[test]
fn restore_plan_reaches_target_state() {
    let target = vec![entry("a", "h1", 1), entry("b", "h2", 2), entry("c", "h3", 3)];
    let current = vec![entry("a", "h1", 1), entry("b", "hx", 2), entry("z", "hz", 5), entry("y", "hy", 6)];
    for full in [false, true] {
        let plan = restore_plan(&target, &current, full);
        let mut disk: HashMap<String, String> = current.iter().map(|(p, m)| (p.clone(), m.hash.0.clone())).collect();
        for e in &plan.to_copy {
            disk.insert(e.file_path.clone(), e.hash.0.clone());
        }
        for p in &plan.to_delete {
            disk.remove(p);
        }
        let want: HashMap<String, String> = target.iter().map(|(p, m)| (p.clone(), m.hash.0.clone())).collect();
        assert_eq!(disk, want);
    }
}

#[test]
fn next_id_is_never_in_use() {
    let existing = strings(&["20240101-120000", "20240101-120000-2", "20240101-120000-3"]);
    let id = next_snapshot_id("20240101-120000", &existing);
    assert!(!existing.contains(&id));
    assert_eq!(id, "20240101-120000-4");
}

#[test]
fn same_content_shows_no_change() {
    let state = vec![entry("a", "h1", 1), entry("b", "h2", 2)];
    let reordered = vec![entry("b", "h2", 7), entry("a", "h1", 1)];
    let d = gim::db::snaps::diff_states(&state, &reordered);
    assert!(d.added.is_empty());
    assert!(d.modified.is_empty());
    assert!(d.deleted.is_empty());
    assert_eq!(d.unchanged.len(), 2);
}

#[test]
fn drive_letters_are_read_from_paths() {
    assert_eq!(drive_letter("c:\\Games\\x").unwrap(), 'C');
    assert_eq!(drive_letter("D:/x").unwrap(), 'D');
    assert!(matches!(drive_letter("\\\\server\\share"), Err(GError::Defrag(_))));
    assert!(matches!(drive_letter("relative"), Err(GError::Defrag(_))));
    assert!(matches!(gim::defrag::volume::open_volume_for('C'), Err(GError::NotSupportedPlatform)));
}

#[test]
fn relative_paths_keep_forward_slashes() {
    assert_eq!(gim::path_utils::to_forward_slash("saves/slot1.dat"), "saves/slot1.dat");
}

#[test]
fn retrieval_pointer_replies_are_decoded() {
    let mut buf: Vec<u8> = Vec::new();
    buf.extend_from_slice(&2u32.to_le_bytes());
    buf.extend_from_slice(&0u64.to_le_bytes());
    for (next, lcn) in [(4u64, 100u64), (10, 200)] {
        buf.extend_from_slice(&next.to_le_bytes());
        buf.extend_from_slice(&lcn.to_le_bytes());
    }
    let ext = parse_retrieval_pointers(&buf).unwrap();
    assert_eq!(ext.len(), 2);
    assert_eq!((ext[0].vcn, ext[0].lcn, ext[0].len), (0, 100, 4));
    assert_eq!((ext[1].vcn, ext[1].lcn, ext[1].len), (4, 200, 6));
    assert!(parse_retrieval_pointers(&buf[..8]).unwrap().is_empty());
    match parse_retrieval_pointers(&buf[..20]) {
        Err(GError::Defrag(m)) => assert_eq!(m, "retrieval pointer buffer truncated: have 20 bytes, need 44"),
        other => panic!("unexpected {:?}", other),
    }
}

#[test]
fn different_hashes_get_different_object_paths() {
    let a = gim::path_utils::object_path("/data/g/objects", "ab12");
    let b = gim::path_utils::object_path("/data/g/objects", "ab13");
    assert_eq!(a, "/data/g/objects/ab/ab12");
    assert_ne!(a, b);
}

#[test]
fn hashing_in_chunks_matches_hashing_at_once() {
    let data: Vec<u8> = (0..5000u32).map(|i| (i * 31 % 251) as u8).collect();
    for algo in [HashAlgorithm::Xxhash, HashAlgorithm::Blake3] {
        let mut h = StreamHasher::new(algo);
        for chunk in data.chunks(777) {
            h.update(chunk);
        }
        assert_eq!(h.finish(), hash_bytes(&data, algo));
        assert_eq!(StreamHasher::new(algo).finish(), hash_bytes(&[], algo));
    }
}

#[test]
fn filtered_out_files_are_not_deleted() {
    let parent = vec![entry("a.txt", "h1", 1), entry("saves/s1", "h2", 2), entry("b.txt", "h3", 3)];
    let walked = vec![entry("a.txt", "h1", 1)];
    let filtered_out = vec![false, true, false];
    let state = with_inherited(&parent, &walked, &filtered_out);
    let d = gim::db::snaps::diff_states(&parent, &state);
    assert_eq!(d.deleted, vec!["b.txt".to_string()]);
    assert!(d.added.is_empty());
    assert!(d.modified.is_empty());
}

#[test]
fn hash_algorithms_parse_through_from_str() {
    assert_eq!(" XXH3 ".parse::<HashAlgorithm>().unwrap(), HashAlgorithm::Xxhash);
    assert_eq!("blake3".parse::<HashAlgorithm>().unwrap(), HashAlgorithm::Blake3);
    match "md5".parse::<HashAlgorithm>() {
        Err(GError::Other(m)) => assert_eq!(m, "unknown hash algorithm \"md5\" (supported: xxhash, blake3)"),
        other => panic!("unexpected {:?}", other),
    }
}

#[test]
fn wof_driver_status_from_file_and_service() {
    assert_eq!(wof_status(false, Some(0)), WofDriverStatus::NotInstalled);
    assert_eq!(wof_status(true, Some(4)), WofDriverStatus::Disabled);
    assert_eq!(wof_status(true, None), WofDriverStatus::Disabled);
    assert_eq!(wof_status(true, Some(0)), WofDriverStatus::Available);
    assert_eq!(wof_status(true, Some(3)), WofDriverStatus::Available);
}

#[test]
fn sparse_successor_is_never_contiguous() {
    let a = FileExtent { vcn: 0, lcn: u64::MAX - 1, len: 10 };
    let hole = FileExtent { vcn: 10, lcn: u64::MAX, len: 5 };
    assert!(!a.contiguous_with(&hole));
}

#[test]
fn blocked_reads_are_retried_then_given_up() {
    assert!(is_retryable(ReadFailure::PermissionDenied, None));
    assert!(is_retryable(ReadFailure::Other, Some(32)));
    assert!(is_retryable(ReadFailure::Other, Some(33)));
    assert!(!is_retryable(ReadFailure::Other, Some(2)));
    assert_eq!(retry_step(0, 3, ReadFailure::ResourceBusy, None), RetryStep::Retry);
    assert_eq!(retry_step(3, 3, ReadFailure::ResourceBusy, None), RetryStep::GiveUp);
    assert_eq!(retry_step(0, 3, ReadFailure::Other, Some(2)), RetryStep::GiveUp);
    assert_eq!(retry_step(0, 3, ReadFailure::NotIo, None), RetryStep::Fail);
}

#[test]
fn denormalize_undoes_normalize() {
    for root in ["/games/x", "/games/x/", "/"] {
        let file = gim::path_utils::join(root, "saves/slot1.dat");
        let n = normalize(root, &file).unwrap();
        assert_eq!(n, "saves/slot1.dat");
        assert_eq!(denormalize(root, &n), file);
    }
}

#[test]
fn worker_state_follows_pauses_batches_and_the_end() {
    let mut st = CompactState::new_at(CompactAlgorithm::Lzx, TargetFolder::GameDir, 100);
    apply_pause(&mut st, PauseAction::Pause, "game (game.exe)");
    assert_eq!(st.phase, "paused");
    assert_eq!(st.message, "paused: game (game.exe)");
    apply_pause(&mut st, PauseAction::Keep, "other");
    assert_eq!(st.message, "paused: game (game.exe)");
    apply_pause(&mut st, PauseAction::Resume, "");
    assert_eq!(st.phase, "running");
    assert_eq!(st.message, "");
    record_batch(&mut st, 64, 60, 4, 200);
    assert_eq!((st.processed_files, st.compressed_files, st.failed_files, st.updated_at), (64, 60, 4, 200));
    finish_run(&mut st, 70, 65, 5, 2, 300);
    assert_eq!(st.phase, "done");
    assert_eq!(st.processed_files, 70);
    assert_eq!(st.message, "completed: 65 compressed, 3 failed, 2 skipped (Win32 344)");
}
