use gim::commands::config_cmd::config_value_description;
use gim::compact::algorithm::CompactAlgorithm;
use gim::config::gim_config::{defaults, is_known_key, validate_key, validate_value, GimConfig};
use gim::config::Paths;
use gim::hashing::HashAlgorithm;

fn empty_config() -> GimConfig {
    GimConfig::new("")
}

#[test]
fn defaults_applied() {
    let cfg = empty_config();
    assert_eq!(cfg.get("hash.algorithm"), "xxhash");
    assert_eq!(cfg.get("hash.threads"), "0");
    assert_eq!(cfg.get("snapshot.auto_gc"), "false");
    assert_eq!(cfg.get("snapshot.lock_retry"), "3");
    assert_eq!(cfg.get("compact.algorithm"), "lzx");
    assert_eq!(cfg.get("compact.threads"), "0");
    assert_eq!(cfg.get("compact.auto_pause"), "true");
    assert_eq!(cfg.get("defrag.min_free_pct"), "15");
    assert_eq!(cfg.get("defrag.fragment_threshold_pct"), "5");
    assert_eq!(cfg.get("defrag.max_extents"), "20");
    assert_eq!(cfg.get("defrag.throttle_mb"), "500");
    assert_eq!(cfg.get("defrag.throttle_sleep_ms"), "200");
    assert_eq!(cfg.get("defrag.consolidate"), "true");
}

#[test]
fn override_works() {
    let mut cfg = empty_config();
    cfg.set("hash.algorithm", "blake3");
    cfg.set("compact.algorithm", "ntfs");
    assert_eq!(cfg.get("hash.algorithm"), "blake3");
    assert_eq!(cfg.hash_algorithm().unwrap(), HashAlgorithm::Blake3);
    assert_eq!(cfg.get("compact.algorithm"), "ntfs");
    assert_eq!(cfg.compact_algorithm().unwrap(), CompactAlgorithm::Ntfs);
}

#[test]
fn validate_known_keys() {
    assert!(validate_key("hash.algorithm").is_ok());
    assert!(validate_key("hash.threads").is_ok());
    assert!(validate_key("snapshot.auto_gc").is_ok());
    assert!(validate_key("compact.algorithm").is_ok());
    assert!(validate_key("compact.threads").is_ok());
    assert!(validate_key("compact.auto_pause").is_ok());
    assert!(validate_key("defrag.min_free_pct").is_ok());
    assert!(validate_key("defrag.fragment_threshold_pct").is_ok());
    assert!(validate_key("defrag.max_extents").is_ok());
    assert!(validate_key("defrag.throttle_mb").is_ok());
    assert!(validate_key("defrag.throttle_sleep_ms").is_ok());
    assert!(validate_key("defrag.consolidate").is_ok());
    assert!(validate_key("unknown.key").is_err());
}

#[test]
fn validate_values() {
    assert!(validate_value("hash.algorithm", "xxhash").is_ok());
    assert!(validate_value("hash.algorithm", "blake3").is_ok());
    assert!(validate_value("hash.algorithm", "invalid").is_err());
    assert!(validate_value("hash.threads", "4").is_ok());
    assert!(validate_value("hash.threads", "abc").is_err());
    assert!(validate_value("snapshot.auto_gc", "true").is_ok());
    assert!(validate_value("snapshot.auto_gc", "maybe").is_err());
    assert!(validate_value("compact.algorithm", "lzx").is_ok());
    assert!(validate_value("compact.algorithm", "ntfs").is_ok());
    assert!(validate_value("compact.algorithm", "gzip").is_err());
    assert!(validate_value("compact.threads", "4").is_ok());
    assert!(validate_value("compact.threads", "abc").is_err());
    assert!(validate_value("compact.auto_pause", "true").is_ok());
    assert!(validate_value("compact.auto_pause", "maybe").is_err());
    assert!(validate_value("defrag.min_free_pct", "15").is_ok());
    assert!(validate_value("defrag.min_free_pct", "0").is_ok());
    assert!(validate_value("defrag.min_free_pct", "100").is_ok());
    assert!(validate_value("defrag.min_free_pct", "101").is_err());
    assert!(validate_value("defrag.min_free_pct", "abc").is_err());
    assert!(validate_value("defrag.fragment_threshold_pct", "5").is_ok());
    assert!(validate_value("defrag.fragment_threshold_pct", "200").is_err());
    assert!(validate_value("defrag.max_extents", "20").is_ok());
    assert!(validate_value("defrag.max_extents", "1").is_ok());
    assert!(validate_value("defrag.max_extents", "0").is_err());
    assert!(validate_value("defrag.max_extents", "31").is_err());
    assert!(validate_value("defrag.throttle_mb", "500").is_ok());
    assert!(validate_value("defrag.throttle_mb", "abc").is_err());
    assert!(validate_value("defrag.throttle_sleep_ms", "200").is_ok());
    assert!(validate_value("defrag.throttle_sleep_ms", "-1").is_err());
    assert!(validate_value("defrag.consolidate", "true").is_ok());
    assert!(validate_value("defrag.consolidate", "false").is_ok());
    assert!(validate_value("defrag.consolidate", "maybe").is_err());
}

#[test]
fn defrag_accessors() {
    let cfg = empty_config();
    assert_eq!(cfg.defrag_min_free_pct(), 15);
    assert_eq!(cfg.defrag_fragment_threshold_pct(), 5);
    assert_eq!(cfg.defrag_max_extents(), 20);
    assert_eq!(cfg.defrag_throttle_mb(), 500);
    assert_eq!(cfg.defrag_throttle_sleep_ms(), 200);
    assert!(cfg.defrag_consolidate());
}

#[test]
fn get_after_set_and_unset() {
    let mut cfg = empty_config();
    cfg.set("hash.threads", "8");
    assert_eq!(cfg.get("hash.threads"), "8");
    assert_eq!(cfg.hash_threads(), 8);
    cfg.set("hash.threads", "2");
    assert_eq!(cfg.get("hash.threads"), "2");
    cfg.unset("hash.threads");
    assert_eq!(cfg.get("hash.threads"), "0");
    assert_eq!(cfg.get("no.such.key"), "");
}

#[test]
fn typed_accessors_fall_back_on_bad_values() {
    let mut cfg = empty_config();
    cfg.set("hash.threads", "lots");
    assert_eq!(cfg.hash_threads(), 0);
    cfg.set("snapshot.auto_gc", "true");
    assert!(cfg.auto_gc());
    cfg.set("hash.algorithm", "md5");
    assert!(cfg.hash_algorithm().is_err());
    assert_eq!(cfg.get_parsed("defrag.max_extents", 1000), Some(20));
    assert_eq!(cfg.get_parsed("hash.algorithm", 1000), None);
}

#[test]
fn text_roundtrip() {
    let mut cfg = GimConfig::new("cfg.toml");
    cfg.set("hash.algorithm", "blake3");
    cfg.set("compact.threads", "4");
    cfg.set("custom.key", "x y");
    let text = cfg.render();
    let back = GimConfig::from_text(&text, "cfg.toml");
    assert_eq!(back.get("hash.algorithm"), "blake3");
    assert_eq!(back.get("compact.threads"), "4");
    assert_eq!(back.get("custom.key"), "x y");
    assert_eq!(back.get("hash.threads"), "0");
}

#[test]
fn from_text_skips_comments_and_trims() {
    let cfg = GimConfig::from_text("# comment\n  hash.threads =  6 \nnot a pair\n\ncompact.algorithm=ntfs", "p");
    assert_eq!(cfg.get("hash.threads"), "6");
    assert_eq!(cfg.get("compact.algorithm"), "ntfs");
    assert_eq!(cfg.source_path, "p");
}

#[test]
fn adopt_global_fills_missing_and_pins_hash() {
    let mut global = empty_config();
    global.set("hash.algorithm", "blake3");
    global.set("compact.threads", "3");
    let mut game = empty_config();
    game.set("compact.threads", "5");
    game.adopt_global(&global);
    assert_eq!(game.get("compact.threads"), "5");
    assert_eq!(game.get("hash.algorithm"), "blake3");

    let mut plain = empty_config();
    plain.adopt_global(&empty_config());
    assert_eq!(plain.get("hash.algorithm"), "xxhash");
}

#[test]
fn list_all_marks_defaults() {
    let mut cfg = empty_config();
    cfg.set("hash.threads", "4");
    cfg.set("zzz.extra", "1");
    let rows = cfg.list_all();
    assert_eq!(rows.len(), defaults().len() + 1);
    let threads = rows.iter().find(|r| r.0 == "hash.threads").unwrap();
    assert_eq!(threads.1, "4");
    let gc = rows.iter().find(|r| r.0 == "snapshot.auto_gc").unwrap();
    assert_eq!(gc.1, "false");
    assert_ne!(threads.2, gc.2);
    assert_eq!(rows.last().unwrap().0, "zzz.extra");
}

#[test]
fn known_keys() {
    assert!(is_known_key("defrag.consolidate"));
    assert!(!is_known_key("hash"));
}

#[test]
fn value_descriptions() {
    assert_eq!(config_value_description("hash.threads", "0"), "0 = auto (use all CPUs) | N = exact thread count");
    assert_eq!(config_value_description("nope", "x"), "");
}

#[test]
fn paths_layout() {
    let p = Paths::from_binary_dir("/opt/gim".to_string());
    assert_eq!(p.data_dir, "/opt/gim/data");
    assert_eq!(p.objects_dir("foo"), "/opt/gim/data/foo/objects");
    assert_eq!(p.snaps_db("foo"), "/opt/gim/data/foo/snaps.db");
    assert_eq!(p.per_game_gignore("foo"), "/opt/gim/data/foo/.gignore");
}
