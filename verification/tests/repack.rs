use gim::repack::profile_file::{CompressConfig, PrecompConfig, ProfileFile};
use gim::repack::profiles::{CompressionConfig, CompressionProfile};
use gim::repack::xtool::Xtool;

#[test]
fn profiles_parse_and_describe() {
    assert_eq!(CompressionProfile::parse("FAST").unwrap(), CompressionProfile::Fast);
    assert_eq!(CompressionProfile::parse("default").unwrap(), CompressionProfile::Balanced);
    assert!(CompressionProfile::parse("ultra").is_err());
    assert_eq!(CompressionProfile::Max.codec_string(), "zlib+preflate+reflate");
    assert_eq!(CompressionProfile::Balanced.codecs(), vec!["zlib".to_string(), "preflate".to_string()]);
    assert_eq!(CompressionProfile::Fast.chunk_size(), "16mb");
    assert_eq!(CompressionProfile::Max.default_level(), 9);
    assert_eq!(CompressionProfile::Balanced.as_str(), "balanced");
}

#[test]
fn machine_sized_config() {
    let c = CompressionConfig::for_machine(CompressionProfile::Balanced, None, 8, 16 * 1024 * 1024 * 1024);
    assert_eq!(c.level, 5);
    assert_eq!(c.threads, 7);
    assert_eq!(c.memory_mb, 13107);
    assert_eq!(
        c.xtool_encode_args(),
        vec!["precomp", "-mzlib+preflate:l5", "-c64mb", "-t7", "--mem=13107mb"]
    );
    let small = CompressionConfig::for_machine(CompressionProfile::Fast, Some(1), 2, 0);
    assert_eq!(small.threads, 1);
    assert_eq!(small.level, 1);
    assert!(CompressionConfig::new(CompressionProfile::Fast, None).threads >= 1);
}

fn profile(dedup: bool, codecs: &str) -> ProfileFile {
    let mut precomp = PrecompConfig::default();
    precomp.dedup = dedup;
    precomp.codecs = codecs.to_string();
    ProfileFile { name: "p".into(), description: String::new(), precomp, compress: CompressConfig::default() }
}

#[test]
fn profile_file_arguments() {
    let p = profile(true, "auto");
    assert_eq!(
        p.xtool_encode_args(Some(4)),
        vec![
            "precomp",
            "-mzstd+zlib+lz4+kraken+mermaid+preflate",
            "-c64mb",
            "-t4",
            "--dbase",
            "--dedup=dedup.bin",
            "-",
            "-"
        ]
    );
    assert_eq!(p.xtool_decode_args(None), vec!["decode", "-t0", "--dedup=dedup.bin"]);
    assert_eq!(p.summary(), "compress: zstd@19, precomp: auto, dedup");
    let q = profile(false, "zlib");
    assert_eq!(q.summary(), "compress: zstd@19, precomp: zlib");
}

#[test]
fn xtool_location() {
    assert_eq!(Xtool::expected_path("/opt/gim"), "/opt/gim/xtool/xtool");
}

#[test]
fn objects_are_packed_once_in_first_seen_order() {
    let hs: Vec<String> = ["b", "a", "b", "c", "a"].iter().map(|s| s.to_string()).collect();
    assert_eq!(gim::repack::pack::unique_hashes(&hs), vec!["b".to_string(), "a".to_string(), "c".to_string()]);
}

#[test]
fn object_table_locates_each_object() {
    let blobs: Vec<Vec<u8>> = vec![b"hello".to_vec(), Vec::new(), b"world!".to_vec()];
    let hashes: Vec<String> = vec!["h1".into(), "h2".into(), "h3".into()];
    let sizes: Vec<u64> = blobs.iter().map(|b| b.len() as u64).collect();
    let table = gim::repack::pack::object_table(&hashes, &sizes);
    let stream: Vec<u8> = blobs.concat();
    for (e, b) in table.iter().zip(blobs.iter()) {
        let start = e.offset as usize;
        let end = start + e.orig_size as usize;
        assert_eq!(&stream[start..end], b.as_slice());
    }
    assert_eq!(table[2].offset, 5);
    assert_eq!(table[2].hash, "h3");
}

#[test]
fn algorithm_and_profile_names_parse_back() {
    for a in [
        gim::repack::compression::CompressAlgorithm::Zstd,
        gim::repack::compression::CompressAlgorithm::Lzma,
        gim::repack::compression::CompressAlgorithm::Lz4,
    ] {
        assert_eq!(gim::repack::compression::CompressAlgorithm::parse(a.as_str()).unwrap(), a);
    }
    for p in [CompressionProfile::Fast, CompressionProfile::Balanced, CompressionProfile::Max] {
        assert_eq!(CompressionProfile::parse(p.as_str()).unwrap(), p);
    }
    for h in [gim::hashing::HashAlgorithm::Xxhash, gim::hashing::HashAlgorithm::Blake3] {
        assert_eq!(gim::hashing::HashAlgorithm::parse(h.as_str()).unwrap(), h);
    }
}

#[test]
fn encode_and_decode_agree_on_dedup() {
    for dedup in [false, true] {
        let p = profile(dedup, "auto");
        let flag = "--dedup=dedup.bin".to_string();
        assert_eq!(p.xtool_encode_args(None).contains(&flag), dedup);
        assert_eq!(p.xtool_decode_args(Some(2)).contains(&flag), dedup);
    }
}
