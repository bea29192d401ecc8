use gim::cli::Command;
use gim::commands::add::validate_alias;
use gim::commands::log_cmd::fmt_b;
use gim::commands::snap::validate_id;
use gim::commands::threads_from_command;
use gim::db::snaps::{diff_states, FileMeta};
use gim::error::{exit_code, GError};
use gim::hashing::{hash_bytes, HashAlgorithm};
use gim::ignore_mod::{build_for_game, default_patterns, text_lines, IgnoreSet};
use gim::output::color::Colorizer;
use gim::output::fmt::format_timestamp;
use gim::output::progress::{format_count, render_done, render_frame, spinner_frames};
use gim::path_utils::{components, denormalize, file_name, normalize, object_path, path_starts_with};
use gim::repack::compression::{compress_bytes, decompress_bytes, CompressAlgorithm};

// ── hashing ────────────────────────────────────────────────────────────

#[test]
fn xxhash_deterministic() {
    let a = hash_bytes(b"hello", HashAlgorithm::Xxhash);
    let b = hash_bytes(b"hello", HashAlgorithm::Xxhash);
    assert_eq!(a, b);
    assert_eq!(a.0.len(), 32);
}

#[test]
fn blake3_deterministic() {
    let a = hash_bytes(b"hello", HashAlgorithm::Blake3);
    let b = hash_bytes(b"hello", HashAlgorithm::Blake3);
    assert_eq!(a, b);
    assert_eq!(a.0.len(), 64);
}

#[test]
fn different_algos_different_output() {
    let xxh = hash_bytes(b"hello", HashAlgorithm::Xxhash);
    let blk = hash_bytes(b"hello", HashAlgorithm::Blake3);
    assert_ne!(xxh, blk);
    assert_ne!(xxh.0.len(), blk.0.len());
}

#[test]
fn parse_algorithm() {
    assert_eq!("xxhash".parse::<HashAlgorithm>().unwrap(), HashAlgorithm::Xxhash);
    assert_eq!("blake3".parse::<HashAlgorithm>().unwrap(), HashAlgorithm::Blake3);
    assert_eq!("XXHASH".parse::<HashAlgorithm>().unwrap(), HashAlgorithm::Xxhash);
    assert!("unknown".parse::<HashAlgorithm>().is_err());
}

#[test]
fn hex_len_correct() {
    assert_eq!(HashAlgorithm::Xxhash.hex_len(), 32);
    assert_eq!(HashAlgorithm::Blake3.hex_len(), 64);
}

#[test]
fn hashes_depend_on_content() {
    let a = hash_bytes(b"hello", HashAlgorithm::Blake3);
    let b = hash_bytes(b"hellp", HashAlgorithm::Blake3);
    assert_ne!(a, b);
    // The digest is hex text, not the input echoed back.
    assert!(a.as_str().chars().all(|c| c.is_ascii_hexdigit() && !c.is_ascii_uppercase()));
    let known = hash_bytes(b"", HashAlgorithm::Blake3);
    assert_eq!(known.as_str(), "af1349b9f5f9a1a6a0404dea36dcc9499bcb25c9adc112b7cc9a93cae41f3262");
    assert_eq!(HashAlgorithm::parse("xxh3").unwrap(), HashAlgorithm::Xxhash);
    assert_eq!(HashAlgorithm::Blake3.as_str(), "blake3");
    assert_eq!(gim::hashing::Hash::from("ab".to_string()).as_str(), "ab");
}

// ── output ─────────────────────────────────────────────────────────────

#[test]
fn spinner_frames_are_ascii() {
    for frame in spinner_frames() {
        assert!(frame.is_ascii(), "spinner frame \"{frame}\" contains non-ASCII");
    }
}

#[test]
fn format_count_thousands() {
    assert_eq!(format_count(0), "0");
    assert_eq!(format_count(999), "999");
    assert_eq!(format_count(1000), "1,000");
    assert_eq!(format_count(12345), "12,345");
    assert_eq!(format_count(9744), "9,744");
}

#[test]
fn frames_render_without_color() {
    let f = render_frame("|", "hashing", 5, 10, false);
    let expected = format!("| hashing    {}{} 5/10  50%", "━".repeat(15), "╌".repeat(15));
    assert_eq!(f, expected);
    assert_eq!(render_frame("-", "walking", 1234, 0, false), "- walking... 1234");
    assert_eq!(render_done("hashed", 1500, false), "✓ hashed 1,500");
}

#[test]
fn timestamps_are_utc() {
    assert_eq!(format_timestamp(0), "1970-01-01 00:00:00");
    assert_eq!(format_timestamp(1_700_000_000_000), "2023-11-14 22:13:20");
}

#[test]
fn colorizer_passes_text_through_when_disabled() {
    let c = Colorizer::new(false);
    assert_eq!(c.green("x"), "x");
    assert_eq!(c.status_label("added"), "added   ");
}

// ── compression ────────────────────────────────────────────────────────

fn roundtrip(algo: CompressAlgorithm, level: u32, label: &str) {
    let data = format!("Hello World! {label} roundtrip test data.").repeat(100).into_bytes();
    let comp = compress_bytes(&data, algo, level).unwrap();
    assert_ne!(comp, data);
    let back = decompress_bytes(&comp, algo).unwrap();
    assert_eq!(back, data);
}

#[test]
fn zstd_roundtrip() {
    roundtrip(CompressAlgorithm::Zstd, 19, "zstd");
}

#[test]
fn lzma_roundtrip() {
    roundtrip(CompressAlgorithm::Lzma, 6, "lzma");
}

#[test]
fn lz4_roundtrip() {
    roundtrip(CompressAlgorithm::Lz4, 6, "lz4");
}

#[test]
fn parse_algorithms() {
    assert_eq!(CompressAlgorithm::parse("zstd").unwrap(), CompressAlgorithm::Zstd);
    assert_eq!(CompressAlgorithm::parse("lzma").unwrap(), CompressAlgorithm::Lzma);
    assert_eq!(CompressAlgorithm::parse("lz4").unwrap(), CompressAlgorithm::Lz4);
    assert!(CompressAlgorithm::parse("invalid").is_err());
}

#[test]
fn corrupt_input_is_an_error() {
    assert!(decompress_bytes(&[1, 2, 3], CompressAlgorithm::Zstd).is_err());
    assert!(decompress_bytes(&[1, 2, 3], CompressAlgorithm::Lzma).is_err());
    assert!(decompress_bytes(&[1, 2], CompressAlgorithm::Lz4).is_err());
}

#[test]
fn compression_levels() {
    assert_eq!(CompressAlgorithm::Zstd.max_level(), 22);
    assert_eq!(CompressAlgorithm::Zstd.validate_level_or_default(99), 22);
    assert_eq!(CompressAlgorithm::Zstd.validate_level_or_default(3), 3);
    assert_eq!(CompressAlgorithm::Zstd.validate_level_or_default(0), 1);
    assert_eq!(CompressAlgorithm::Lzma.validate_level_or_default(12), 9);
}

// ── paths ──────────────────────────────────────────────────────────────

#[test]
fn normalize_relative_and_absolute() {
    assert_eq!(normalize("/games/foo", "/games/foo/data/a.pak").unwrap(), "data/a.pak");
    assert_eq!(normalize("/games/foo", "data/./x/../a.pak").unwrap(), "data/a.pak");
    assert!(matches!(normalize("/games/foo", "/other/a.pak"), Err(GError::Path(_))));
    assert!(matches!(normalize("/games/foo", "."), Err(GError::Path(_))));
}

#[test]
fn path_helpers() {
    assert_eq!(denormalize("/games/foo", "data/a.pak"), "/games/foo/data/a.pak");
    assert_eq!(object_path("/objs", "abcdef"), "/objs/ab/abcdef");
    assert_eq!(components("/a/./b//c"), vec!["/".to_string(), "a".to_string(), "b".to_string(), "c".to_string()]);
    assert!(path_starts_with("/a/b/c", "/a/b"));
    assert!(!path_starts_with("/a/bc", "/a/b"));
    assert_eq!(file_name("/a/b/c.exe"), Some("c.exe".to_string()));
    assert_eq!(file_name("/"), None);
}

// ── snapshots ──────────────────────────────────────────────────────────

fn meta(hash: &str, size: i64) -> FileMeta {
    FileMeta { hash: gim::hashing::Hash(hash.to_string()), file_size: size, modified_time: 0 }
}

#[test]
fn diff_partitions_files() {
    let parent = vec![
        ("a".to_string(), meta("h1", 10)),
        ("b".to_string(), meta("h2", 20)),
        ("c".to_string(), meta("h3", 30)),
    ];
    let current = vec![
        ("a".to_string(), meta("h1", 10)),
        ("b".to_string(), meta("h9", 25)),
        ("d".to_string(), meta("h4", 40)),
    ];
    let d = diff_states(&parent, &current);
    assert_eq!(d.added.iter().map(|e| e.file_path.as_str()).collect::<Vec<_>>(), vec!["d"]);
    assert_eq!(d.modified.iter().map(|e| e.file_path.as_str()).collect::<Vec<_>>(), vec!["b"]);
    assert_eq!(d.unchanged.iter().map(|e| e.file_path.as_str()).collect::<Vec<_>>(), vec!["a"]);
    assert_eq!(d.deleted, vec!["c".to_string()]);
    assert_eq!(d.total_changes(), 3);
    assert_eq!(d.added_size(), 65);
}

// ── errors ─────────────────────────────────────────────────────────────

#[test]
fn exit_codes() {
    assert_eq!(exit_code(&GError::AliasNotFound("x".into())), 2);
    assert_eq!(exit_code(&GError::NotSupportedPlatform), 2);
    assert_eq!(exit_code(&GError::Io("disk".into())), 1);
    assert_eq!(exit_code(&GError::Sqlite("db".into())), 1);
}

// ── subcommand arguments ───────────────────────────────────────────────

#[test]
fn alias_validation() {
    assert!(validate_alias("cp2077").is_ok());
    assert!(validate_alias("my_game-1.0").is_ok());
    assert!(matches!(validate_alias(""), Err(GError::Other(m)) if m == "alias cannot be empty"));
    assert!(matches!(validate_alias(".x"), Err(GError::Other(m)) if m == "alias \".x\" cannot start with a dot"));
    assert!(matches!(validate_alias("a b"), Err(GError::Other(m)) if m == "alias \"a b\" contains invalid characters"));
}

#[test]
fn snapshot_id_validation() {
    assert!(validate_id("v1.0").is_ok());
    assert!(matches!(validate_id(""), Err(GError::InvalidSnapshotId(s)) if s.is_empty()));
    assert!(matches!(validate_id(".hidden"), Err(GError::InvalidSnapshotId(s)) if s == ".hidden"));
    assert!(matches!(validate_id("a/b"), Err(GError::InvalidSnapshotId(s)) if s == "a/b"));
}

#[test]
fn threads_come_from_the_commands_that_take_them() {
    let snap = Command::Snap {
        alias: "g".into(),
        id: None,
        msg: None,
        threads: Some(4),
        dry_run: false,
        full_hash: false,
        exclude: None,
        include_only: None,
    };
    assert_eq!(threads_from_command(&snap), Some(4));
    let status = Command::Status { alias: "g".into(), threads: None, json: false, full_hash: false };
    assert_eq!(threads_from_command(&status), None);
    let log = Command::Log { alias: "g".into(), oneline: false, json: false, n: Some(3) };
    assert_eq!(threads_from_command(&log), None);
}

#[test]
fn branch_marks() {
    let c = Colorizer::new(false);
    let br = vec!["main".to_string(), "dev".to_string()];
    assert_eq!(fmt_b(&br, &Some("dev".to_string()), &c), "[main, *dev]");
    assert_eq!(fmt_b(&br, &None, &c), "[main, dev]");
    assert_eq!(fmt_b(&[], &None, &c), "");
}

// ── ignore rules ───────────────────────────────────────────────────────

#[test]
fn defaults_ignore_temp_files() {
    let set = build_for_game("foo", "/games/foo", None, None, None).unwrap();
    assert_eq!(set.sources.len(), 1);
    assert_eq!(set.sources[0].label, "# Global defaults");
    assert_eq!(set.sources[0].patterns.len(), default_patterns().len());
    assert!(set.is_ignored("save.tmp", false));
    assert!(set.is_ignored("sub/Thumbs.db", false));
    assert!(!set.is_ignored("data/a.pak", false));
}

#[test]
fn sources_merge_in_order() {
    let global = "# logs\n*.log\n\n";
    let per_game = "cache/\r\n!keep.log\n";
    let set = build_for_game("foo", "/games/foo", Some(global), Some(per_game), None).unwrap();
    let labels: Vec<&str> = set.sources.iter().map(|s| s.label.as_str()).collect();
    assert_eq!(labels, vec!["# Global defaults", "# Global gignore", "# Per-game (data/foo/.gignore)"]);
    assert_eq!(set.sources[1].patterns, vec!["*.log".to_string()]);
    assert_eq!(set.sources[2].patterns, vec!["cache/".to_string(), "!keep.log".to_string()]);
    assert!(set.is_ignored("debug.log", false));
    assert!(!set.is_ignored("keep.log", false));
    assert!(set.is_ignored("cache", true));
    assert!(!set.is_ignored("cache", false));
}

#[test]
fn bad_pattern_rejects_the_source() {
    let mut set = IgnoreSet::empty().unwrap();
    let lines = vec!["*.ok".to_string(), "{a,b".to_string()];
    let r = set.add_lines("/g", "# mine", &lines);
    match r {
        Err(GError::IgnorePattern { file, message }) => {
            assert_eq!(file, "# mine");
            assert!(message.starts_with("line \"{a,b\": "));
        }
        other => panic!("unexpected {other:?}"),
    }
    assert!(set.sources.is_empty());
    assert!(!set.is_ignored("x.ok", false));
}

#[test]
fn text_lines_like_str_lines() {
    assert_eq!(text_lines("a\r\nb\n\nc\r"), vec!["a", "b", "", "c\r"]);
    assert_eq!(text_lines(""), Vec::<String>::new());
    assert_eq!(text_lines("x\n"), vec!["x"]);
}
