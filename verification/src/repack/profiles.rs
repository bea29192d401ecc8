//! Preset compression profiles for repacking: each maps to an xtool codec
//! combination, a chunk size and a default level (1-10).

use vstd::prelude::*;
use crate::error::GError;
use crate::text::{all_ascii, dec_seq, lemma_lower_plain, lower_text, owned, push_str, str_eq, to_lowercase, u64_to_dec};

verus! {

#[derive(Debug, Clone, Copy, PartialEq, Eq, Structural)]
pub enum CompressionProfile {
    /// zlib, 16 MB chunks, level 2.
    Fast,
    /// zlib+preflate, 64 MB chunks, level 5.
    Balanced,
    /// zlib+preflate+reflate, 256 MB chunks, level 9.
    Max,
}

pub open spec fn profile_name(p: CompressionProfile) -> Seq<char> {
    match p {
        CompressionProfile::Fast => "fast"@,
        CompressionProfile::Balanced => "balanced"@,
        CompressionProfile::Max => "max"@,
    }
}

pub open spec fn profile_codecs(p: CompressionProfile) -> Seq<Seq<char>> {
    match p {
        CompressionProfile::Fast => seq!["zlib"@],
        CompressionProfile::Balanced => seq!["zlib"@, "preflate"@],
        CompressionProfile::Max => seq!["zlib"@, "preflate"@, "reflate"@],
    }
}

pub open spec fn profile_codec_string(p: CompressionProfile) -> Seq<char> {
    match p {
        CompressionProfile::Fast => "zlib"@,
        CompressionProfile::Balanced => "zlib"@ + "+"@ + "preflate"@,
        CompressionProfile::Max => "zlib"@ + "+"@ + "preflate"@ + "+"@ + "reflate"@,
    }
}

pub open spec fn profile_chunk(p: CompressionProfile) -> Seq<char> {
    match p {
        CompressionProfile::Fast => "16mb"@,
        CompressionProfile::Balanced => "64mb"@,
        CompressionProfile::Max => "256mb"@,
    }
}

pub open spec fn profile_default_level(p: CompressionProfile) -> u32 {
    match p {
        CompressionProfile::Fast => 2,
        CompressionProfile::Balanced => 5,
        CompressionProfile::Max => 9,
    }
}

/// What `CompressionProfile::parse` gives: the name lower-cased
/// (Unicode), then looked up.
pub open spec fn parse_profile_spec(s: Seq<char>) -> Result<CompressionProfile, Seq<char>> {
    let k = lower_text(s);
    if k == "fast"@ {
        Ok(CompressionProfile::Fast)
    } else if k == "balanced"@ || k == "default"@ {
        Ok(CompressionProfile::Balanced)
    } else if k == "max"@ {
        Ok(CompressionProfile::Max)
    } else {
        Err("unknown compression profile \""@ + k + "\" (supported: fast, balanced, max)"@)
    }
}

/// Parsing the name of a profile gives that profile back.
pub proof fn lemma_profile_name_roundtrip(p: CompressionProfile)
    ensures
        parse_profile_spec(profile_name(p)) === Ok(p),
{
    reveal_strlit("fast");
    reveal_strlit("balanced");
    reveal_strlit("default");
    reveal_strlit("max");
    let s = profile_name(p);
    assert(all_ascii(s));
    lemma_lower_plain(s);
}

impl CompressionProfile {
    pub fn as_str(&self) -> (r: &'static str)
        ensures
            r@ == profile_name(*self),
    {
        match self {
            CompressionProfile::Fast => "fast",
            CompressionProfile::Balanced => "balanced",
            CompressionProfile::Max => "max",
        }
    }

    /// Default level (1-10).
    pub fn default_level(&self) -> (r: u32)
        ensures
            r == profile_default_level(*self),
    {
        match self {
            CompressionProfile::Fast => 2,
            CompressionProfile::Balanced => 5,
            CompressionProfile::Max => 9,
        }
    }

    /// The xtool codecs.
    pub fn codecs(&self) -> (r: Vec<String>)
        ensures
            r@.map_values(|s: String| s@) == profile_codecs(*self),
    {
        let mut v: Vec<String> = Vec::new();
        v.push(owned("zlib"));
        match self {
            CompressionProfile::Fast => {},
            CompressionProfile::Balanced => {
                v.push(owned("preflate"));
            },
            CompressionProfile::Max => {
                v.push(owned("preflate"));
                v.push(owned("reflate"));
            },
        }
        assert(v@.map_values(|s: String| s@) =~= profile_codecs(*self));
        v
    }

    /// The codecs joined with `+` (xtool's `-m`).
    pub fn codec_string(&self) -> (r: String)
        ensures
            r@ == profile_codec_string(*self),
    {
        let mut s = owned("zlib");
        match self {
            CompressionProfile::Fast => {},
            CompressionProfile::Balanced => {
                push_str(&mut s, "+");
                push_str(&mut s, "preflate");
            },
            CompressionProfile::Max => {
                push_str(&mut s, "+");
                push_str(&mut s, "preflate");
                push_str(&mut s, "+");
                push_str(&mut s, "reflate");
            },
        }
        s
    }

    /// Chunk size (xtool's `-c`).
    pub fn chunk_size(&self) -> (r: &'static str)
        ensures
            r@ == profile_chunk(*self),
    {
        match self {
            CompressionProfile::Fast => "16mb",
            CompressionProfile::Balanced => "64mb",
            CompressionProfile::Max => "256mb",
        }
    }

    /// Parses a profile name (case-insensitive; `default` is `balanced`).
    pub fn parse(s: &str) -> (r: Result<CompressionProfile, GError>)
        ensures
            match parse_profile_spec(s@) {
                Ok(p) => r == Ok::<CompressionProfile, GError>(p),
                Err(m) => r matches Err(GError::Other(msg)) && msg@ == m,
            },
    {
        let k = to_lowercase(s);
        let ks = k.as_str();
        if str_eq(ks, "fast") {
            Ok(CompressionProfile::Fast)
        } else if str_eq(ks, "balanced") || str_eq(ks, "default") {
            Ok(CompressionProfile::Balanced)
        } else if str_eq(ks, "max") {
            Ok(CompressionProfile::Max)
        } else {
            let mut msg = owned("unknown compression profile \"");
            push_str(&mut msg, ks);
            push_str(&mut msg, "\" (supported: fast, balanced, max)");
            Err(GError::Other(msg))
        }
    }
}

#[verifier::external_type_specification]
#[verifier::external_body]
pub struct ExSystem(sysinfo::System);

/// `sysinfo::System::new_with_specifics` with memory information
/// refreshed. Nothing is stated: it describes the machine.
#[verifier::external_body]
fn system_with_memory() -> sysinfo::System {
    sysinfo::System::new_with_specifics(
        sysinfo::RefreshKind::everything().with_memory(sysinfo::MemoryRefreshKind::everything()),
    )
}

/// `System::cpus` then its length. Nothing is stated: it depends on the
/// machine.
#[verifier::external_body]
fn cpu_count(sys: &sysinfo::System) -> usize {
    sys.cpus().len()
}

/// `System::total_memory` (bytes of RAM). Nothing is stated: it depends
/// on the machine.
#[verifier::external_body]
fn total_memory(sys: &sysinfo::System) -> u64 {
    sys.total_memory()
}

/// A profile with its level and the resources xtool may use.
#[derive(Debug, Clone)]
pub struct CompressionConfig {
    pub profile: CompressionProfile,
    pub level: u32,
    pub threads: usize,
    pub memory_mb: u64,
}

/// One thread less than the CPUs, at least one.
pub open spec fn threads_for(cpus: usize) -> usize {
    if cpus <= 2 { 1 } else { (cpus - 1) as usize }
}

/// 80% of `total_memory` bytes, in MiB.
pub open spec fn memory_mb_for(total_memory: u64) -> u64 {
    ((total_memory * 80) / 100 / 1048576int) as u64
}

impl CompressionConfig {
    /// The configuration for a machine with `cpus` CPUs and
    /// `total_memory` bytes of RAM.
    pub fn for_machine(profile: CompressionProfile, level: Option<u32>, cpus: usize, total_memory: u64) -> (r: CompressionConfig)
        ensures
            r.profile == profile,
            r.level == (match level {
                Some(l) => l,
                None => profile_default_level(profile),
            }),
            r.threads == threads_for(cpus),
            r.memory_mb == memory_mb_for(total_memory),
    {
        let threads = if cpus <= 2 { 1 } else { cpus - 1 };
        let memory_mb = ((total_memory as u128 * 80 / 100) / (1024 * 1024)) as u64;
        let level = match level {
            Some(l) => l,
            None => profile.default_level(),
        };
        CompressionConfig { profile, level, threads, memory_mb }
    }

    /// The configuration for this machine.
    pub fn new(profile: CompressionProfile, level: Option<u32>) -> (r: CompressionConfig)
        ensures
            r.profile == profile,
            r.level == (match level {
                Some(l) => l,
                None => profile_default_level(profile),
            }),
            r.threads >= 1,
    {
        let sys = system_with_memory();
        let cpus = cpu_count(&sys);
        let mem = total_memory(&sys);
        CompressionConfig::for_machine(profile, level, cpus, mem)
    }

    /// xtool's precompression arguments:
    /// `precomp -m<codecs>:l<level> -c<chunk> -t<threads> --mem=<mb>mb`.
    pub fn xtool_encode_args(&self) -> (r: Vec<String>)
        ensures
            r@.map_values(|s: String| s@) == seq![
                "precomp"@,
                "-m"@ + profile_codec_string(self.profile) + ":l"@ + dec_seq(self.level as nat),
                "-c"@ + profile_chunk(self.profile),
                "-t"@ + dec_seq(self.threads as nat),
                "--mem="@ + dec_seq(self.memory_mb as nat) + "mb"@,
            ],
    {
        let mut v: Vec<String> = Vec::new();
        v.push(owned("precomp"));
        let mut m = owned("-m");
        let cs = self.profile.codec_string();
        push_str(&mut m, cs.as_str());
        push_str(&mut m, ":l");
        let l = u64_to_dec(self.level as u64);
        push_str(&mut m, l.as_str());
        v.push(m);
        let mut c = owned("-c");
        push_str(&mut c, self.profile.chunk_size());
        v.push(c);
        let mut t = owned("-t");
        let tn = u64_to_dec(self.threads as u64);
        push_str(&mut t, tn.as_str());
        v.push(t);
        let mut mem = owned("--mem=");
        let mn = u64_to_dec(self.memory_mb);
        push_str(&mut mem, mn.as_str());
        push_str(&mut mem, "mb");
        v.push(mem);
        assert(v@.map_values(|s: String| s@) =~= seq![
            "precomp"@,
            "-m"@ + profile_codec_string(self.profile) + ":l"@ + dec_seq(self.level as nat),
            "-c"@ + profile_chunk(self.profile),
            "-t"@ + dec_seq(self.threads as nat),
            "--mem="@ + dec_seq(self.memory_mb as nat) + "mb"@,
        ]);
        v
    }

    /// xtool's decoding arguments: `decode -t<threads>`.
    pub fn xtool_decode_args(&self) -> (r: Vec<String>)
        ensures
            r@.map_values(|s: String| s@) == seq!["decode"@, "-t"@ + dec_seq(self.threads as nat)],
    {
        let mut v: Vec<String> = Vec::new();
        v.push(owned("decode"));
        let mut t = owned("-t");
        let tn = u64_to_dec(self.threads as u64);
        push_str(&mut t, tn.as_str());
        v.push(t);
        assert(v@.map_values(|s: String| s@) =~= seq!["decode"@, "-t"@ + dec_seq(self.threads as nat)]);
        v
    }
}

impl Default for CompressionConfig {
    fn default() -> (r: CompressionConfig)
        ensures
            r.profile == CompressionProfile::Balanced,
            r.level == 5,
            r.threads >= 1,
    {
        CompressionConfig::new(CompressionProfile::Balanced, None)
    }
}

} // verus!
