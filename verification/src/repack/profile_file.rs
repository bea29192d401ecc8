//! Compression profile files (TOML, one per profile, with a `[precomp]`
//! section for xtool and a `[compress]` section for the outer
//! compression), kept in `<bin_dir>/xtool/profiles/*.toml`. Reading and
//! parsing the files is outside the library.

use vstd::prelude::*;
use crate::text::{owned, push_str, str_eq, u64_to_dec, dec_seq};

verus! {

pub const PROFILE_EXT: &'static str = ".toml";

/// Layer 1: xtool precompression settings.
#[derive(Debug, Clone)]
pub struct PrecompConfig {
    /// `auto` (every codec) or an explicit `+`-joined list.
    pub codecs: String,
    pub chunk_size: String,
    /// Scan depth: 0 fast, 1 for nested archives.
    pub depth: u32,
    pub dbase: bool,
    pub dedup: bool,
    pub low_memory: bool,
    pub skip_verify: bool,
    /// `0` = automatic.
    pub threads: String,
}

impl Default for PrecompConfig {
    fn default() -> (r: PrecompConfig)
        ensures
            r.codecs@ == "auto"@,
            r.chunk_size@ == "64mb"@,
            r.depth == 0,
            r.dbase && r.dedup && !r.low_memory && !r.skip_verify,
            r.threads@ == "0"@,
    {
        PrecompConfig {
            codecs: owned("auto"),
            chunk_size: owned("64mb"),
            depth: 0,
            dbase: true,
            dedup: true,
            low_memory: false,
            skip_verify: false,
            threads: owned("0"),
        }
    }
}

/// Layer 2: the outer compression.
#[derive(Debug, Clone)]
pub struct CompressConfig {
    /// `zstd`, `lzma` or `lz4`.
    pub algorithm: String,
    /// zstd 1-22, lzma 1-9, lz4 1-12.
    pub level: u32,
    pub threads: String,
}

impl Default for CompressConfig {
    fn default() -> (r: CompressConfig)
        ensures
            r.algorithm@ == "zstd"@,
            r.level == 19,
            r.threads@ == "0"@,
    {
        CompressConfig { algorithm: owned("zstd"), level: 19, threads: owned("0") }
    }
}

/// A profile file.
#[derive(Debug, Clone)]
pub struct ProfileFile {
    pub name: String,
    pub description: String,
    pub precomp: PrecompConfig,
    pub compress: CompressConfig,
}

/// The codecs passed to xtool: every scanner for `auto`.
pub open spec fn effective_codecs(codecs: Seq<char>) -> Seq<char> {
    if codecs == "auto"@ { "zstd+zlib+lz4+kraken+mermaid+preflate"@ } else { codecs }
}

/// The thread count passed to xtool: the override, else the file's.
pub open spec fn threads_text(p: PrecompConfig, threads_override: Option<usize>) -> Seq<char> {
    match threads_override {
        Some(t) => dec_seq(t as nat),
        None => p.threads@,
    }
}

/// `seq` followed by `x` when `cond` holds.
pub open spec fn push_if(s: Seq<Seq<char>>, cond: bool, x: Seq<char>) -> Seq<Seq<char>> {
    if cond { s.push(x) } else { s }
}

pub open spec fn encode_args_spec(p: PrecompConfig, threads_override: Option<usize>) -> Seq<Seq<char>> {
    let base = seq![
        "precomp"@,
        "-m"@ + effective_codecs(p.codecs@),
        "-c"@ + p.chunk_size@,
        "-t"@ + threads_text(p, threads_override),
    ];
    let a = push_if(base, p.depth > 0, "-d"@ + dec_seq(p.depth as nat));
    let b = push_if(a, p.dbase, "--dbase"@);
    let c = push_if(b, p.dedup, "--dedup=dedup.bin"@);
    let d = push_if(c, p.low_memory, "-lm"@);
    let e = push_if(d, p.skip_verify, "-s"@);
    e.push("-"@).push("-"@)
}

pub open spec fn decode_args_spec(p: PrecompConfig, threads_override: Option<usize>) -> Seq<Seq<char>> {
    push_if(seq!["decode"@, "-t"@ + threads_text(p, threads_override)], p.dedup, "--dedup=dedup.bin"@)
}

pub open spec fn summary_spec(f: ProfileFile) -> Seq<char> {
    let first = "compress: "@ + f.compress.algorithm@ + "@"@ + dec_seq(f.compress.level as nat);
    let second = if f.precomp.codecs@ == "auto"@ { "precomp: auto"@ } else { "precomp: "@ + f.precomp.codecs@ };
    first + ", "@ + second + (if f.precomp.dedup { ", "@ + "dedup"@ } else { Seq::empty() })
}

proof fn lemma_push_contains(s: Seq<Seq<char>>, x: Seq<char>, f: Seq<char>)
    ensures
        s.push(x).contains(f) <==> s.contains(f) || x == f,
{
    if s.push(x).contains(f) {
        let k = choose|k: int| 0 <= k < s.push(x).len() && s.push(x)[k] == f;
        if k < s.len() {
            assert(s[k] == f);
        }
    }
    if s.contains(f) {
        let k = choose|k: int| 0 <= k < s.len() && s[k] == f;
        assert(s.push(x)[k] == f);
    }
    if x == f {
        assert(s.push(x)[s.len() as int] == f);
    }
}

/// An argument that starts with `-` and a letter is not the dedup flag.
proof fn lemma_not_dedup(prefix: char, rest: Seq<char>)
    requires
        prefix != '-',
    ensures
        seq!['-', prefix] + rest != "--dedup=dedup.bin"@,
{
    reveal_strlit("--dedup=dedup.bin");
    assert((seq!['-', prefix] + rest)[1] == prefix);
}

/// The arguments that xtool encodes and decodes with agree on dedup: the
/// `--dedup=dedup.bin` flag is in both exactly when the profile asks for
/// dedup.
pub proof fn lemma_dedup_flag_agrees(p: PrecompConfig, threads_override: Option<usize>)
    ensures
        encode_args_spec(p, threads_override).contains("--dedup=dedup.bin"@) == p.dedup,
        decode_args_spec(p, threads_override).contains("--dedup=dedup.bin"@) == p.dedup,
{
    let f = "--dedup=dedup.bin"@;
    reveal_strlit("--dedup=dedup.bin");
    reveal_strlit("precomp");
    reveal_strlit("decode");
    reveal_strlit("-m");
    reveal_strlit("-c");
    reveal_strlit("-t");
    reveal_strlit("-d");
    reveal_strlit("--dbase");
    reveal_strlit("-lm");
    reveal_strlit("-s");
    reveal_strlit("-");
    assert("-m"@ =~= seq!['-', 'm']);
    assert("-c"@ =~= seq!['-', 'c']);
    assert("-t"@ =~= seq!['-', 't']);
    assert("-d"@ =~= seq!['-', 'd']);
    let m = "-m"@ + effective_codecs(p.codecs@);
    let c = "-c"@ + p.chunk_size@;
    let t = "-t"@ + threads_text(p, threads_override);
    let d = "-d"@ + dec_seq(p.depth as nat);
    lemma_not_dedup('m', effective_codecs(p.codecs@));
    lemma_not_dedup('c', p.chunk_size@);
    lemma_not_dedup('t', threads_text(p, threads_override));
    lemma_not_dedup('d', dec_seq(p.depth as nat));
    assert("precomp"@ != f) by { assert("precomp"@[1] != f[1]); }
    assert("decode"@ != f) by { assert("decode"@.len() != f.len()); }
    assert("--dbase"@ != f) by { assert("--dbase"@.len() != f.len()); }
    assert("-lm"@ != f) by { assert("-lm"@.len() != f.len()); }
    assert("-s"@ != f) by { assert("-s"@.len() != f.len()); }
    assert("-"@ != f) by { assert("-"@.len() != f.len()); }
    // Encoding.
    let base = seq!["precomp"@, m, c, t];
    assert(!base.contains(f)) by {
        if base.contains(f) {
            let k = choose|k: int| 0 <= k < base.len() && base[k] == f;
            assert(k == 0 || k == 1 || k == 2 || k == 3);
        }
    }
    let a = push_if(base, p.depth > 0, d);
    let b = push_if(a, p.dbase, "--dbase"@);
    let cc = push_if(b, p.dedup, f);
    let dd = push_if(cc, p.low_memory, "-lm"@);
    let e = push_if(dd, p.skip_verify, "-s"@);
    lemma_push_contains(base, d, f);
    lemma_push_contains(a, "--dbase"@, f);
    lemma_push_contains(b, f, f);
    lemma_push_contains(cc, "-lm"@, f);
    lemma_push_contains(dd, "-s"@, f);
    lemma_push_contains(e, "-"@, f);
    lemma_push_contains(e.push("-"@), "-"@, f);
    assert(encode_args_spec(p, threads_override) == e.push("-"@).push("-"@));
    // Decoding.
    let dbase = seq!["decode"@, t];
    assert(!dbase.contains(f)) by {
        if dbase.contains(f) {
            let k = choose|k: int| 0 <= k < dbase.len() && dbase[k] == f;
            assert(k == 0 || k == 1);
        }
    }
    lemma_push_contains(dbase, f, f);
}

fn threads_string(p: &PrecompConfig, threads_override: Option<usize>) -> (r: String)
    ensures
        r@ == threads_text(*p, threads_override),
{
    match threads_override {
        Some(t) => u64_to_dec(t as u64),
        None => p.threads.clone(),
    }
}

fn push_text(v: &mut Vec<String>, s: String)
    ensures
        final(v)@.map_values(|x: String| x@) == old(v)@.map_values(|x: String| x@).push(s@),
{
    v.push(s);
    assert(v@.map_values(|x: String| x@) =~= old(v)@.map_values(|x: String| x@).push(s@));
}

impl ProfileFile {
    /// xtool's precompression arguments (ending with `- -` for standard
    /// input and output).
    pub fn xtool_encode_args(&self, threads_override: Option<usize>) -> (r: Vec<String>)
        ensures
            r@.map_values(|x: String| x@) == encode_args_spec(self.precomp, threads_override),
    {
        let p = &self.precomp;
        let mut v: Vec<String> = Vec::new();
        push_text(&mut v, owned("precomp"));
        let mut m = owned("-m");
        if str_eq(p.codecs.as_str(), "auto") {
            push_str(&mut m, "zstd+zlib+lz4+kraken+mermaid+preflate");
        } else {
            push_str(&mut m, p.codecs.as_str());
        }
        push_text(&mut v, m);
        let mut c = owned("-c");
        push_str(&mut c, p.chunk_size.as_str());
        push_text(&mut v, c);
        let mut t = owned("-t");
        let ts = threads_string(p, threads_override);
        push_str(&mut t, ts.as_str());
        push_text(&mut v, t);
        assert(v@.map_values(|x: String| x@) =~= seq![
            "precomp"@,
            "-m"@ + effective_codecs(p.codecs@),
            "-c"@ + p.chunk_size@,
            "-t"@ + threads_text(*p, threads_override),
        ]);
        if p.depth > 0 {
            let mut d = owned("-d");
            let ds = u64_to_dec(p.depth as u64);
            push_str(&mut d, ds.as_str());
            push_text(&mut v, d);
        }
        if p.dbase {
            push_text(&mut v, owned("--dbase"));
        }
        if p.dedup {
            push_text(&mut v, owned("--dedup=dedup.bin"));
        }
        if p.low_memory {
            push_text(&mut v, owned("-lm"));
        }
        if p.skip_verify {
            push_text(&mut v, owned("-s"));
        }
        push_text(&mut v, owned("-"));
        push_text(&mut v, owned("-"));
        v
    }

    /// xtool's decoding arguments.
    pub fn xtool_decode_args(&self, threads_override: Option<usize>) -> (r: Vec<String>)
        ensures
            r@.map_values(|x: String| x@) == decode_args_spec(self.precomp, threads_override),
    {
        let mut v: Vec<String> = Vec::new();
        push_text(&mut v, owned("decode"));
        let mut t = owned("-t");
        let ts = threads_string(&self.precomp, threads_override);
        push_str(&mut t, ts.as_str());
        push_text(&mut v, t);
        assert(v@.map_values(|x: String| x@) =~= seq!["decode"@, "-t"@ + threads_text(self.precomp, threads_override)]);
        if self.precomp.dedup {
            push_text(&mut v, owned("--dedup=dedup.bin"));
        }
        v
    }

    /// A one-line summary, e.g. `compress: zstd@19, precomp: auto, dedup`.
    pub fn summary(&self) -> (r: String)
        ensures
            r@ == summary_spec(*self),
    {
        let mut s = owned("compress: ");
        push_str(&mut s, self.compress.algorithm.as_str());
        push_str(&mut s, "@");
        let l = u64_to_dec(self.compress.level as u64);
        push_str(&mut s, l.as_str());
        push_str(&mut s, ", ");
        if str_eq(self.precomp.codecs.as_str(), "auto") {
            push_str(&mut s, "precomp: auto");
        } else {
            push_str(&mut s, "precomp: ");
            push_str(&mut s, self.precomp.codecs.as_str());
        }
        if self.precomp.dedup {
            push_str(&mut s, ", ");
            push_str(&mut s, "dedup");
        }
        assert(s@ =~= summary_spec(*self));
        s
    }
}

} // verus!
