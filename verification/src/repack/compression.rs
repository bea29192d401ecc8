//! Layer-2 compression of precompressed data: zstd (recommended), LZMA
//! (best ratio) or LZ4 (fastest). The algorithm and level are recorded in
//! the manifest, so unpacking needs no profile.
//!
//! LZ4 output is framed as the original size (8 bytes, little endian)
//! followed by `lz4_flex`'s size-prepended block.

use vstd::prelude::*;
use std::io::{Read, Write};
use crate::error::GError;
use crate::le::{le_bytes_u32, le_val};
use crate::text::{all_ascii, ascii_lower, lemma_lower_plain, lower_text, owned, push_str, str_eq, to_lowercase};

verus! {

#[derive(Debug, Clone, Copy, PartialEq, Eq, Structural)]
pub enum CompressAlgorithm {
    Zstd,
    Lzma,
    Lz4,
}

pub open spec fn compress_name(a: CompressAlgorithm) -> Seq<char> {
    match a {
        CompressAlgorithm::Zstd => "zstd"@,
        CompressAlgorithm::Lzma => "lzma"@,
        CompressAlgorithm::Lz4 => "lz4"@,
    }
}

/// The algorithm a lower-cased name stands for.
pub open spec fn compress_for_key(k: Seq<char>) -> Option<CompressAlgorithm> {
    if k == "zstd"@ {
        Some(CompressAlgorithm::Zstd)
    } else if k == "lzma"@ || k == "xz"@ || k == "lzma2"@ {
        Some(CompressAlgorithm::Lzma)
    } else if k == "lz4"@ {
        Some(CompressAlgorithm::Lz4)
    } else {
        None
    }
}

/// What `CompressAlgorithm::parse` gives: the name lower-cased
/// (Unicode, no trimming), then looked up.
pub open spec fn parse_compress_spec(s: Seq<char>) -> Result<CompressAlgorithm, Seq<char>> {
    let k = lower_text(s);
    match compress_for_key(k) {
        Some(a) => Ok(a),
        None => Err("unknown compression algorithm \""@ + k + "\" (supported: zstd, lzma, lz4)"@),
    }
}

/// Parsing the name of an algorithm (as a manifest records it) gives that
/// algorithm back.
pub proof fn lemma_compress_name_roundtrip(a: CompressAlgorithm)
    ensures
        parse_compress_spec(compress_name(a)) === Ok(a),
{
    reveal_strlit("zstd");
    reveal_strlit("lzma");
    reveal_strlit("xz");
    reveal_strlit("lzma2");
    reveal_strlit("lz4");
    let s = compress_name(a);
    assert(all_ascii(s));
    lemma_lower_plain(s);
    match a {
        CompressAlgorithm::Zstd => {},
        CompressAlgorithm::Lzma => {
            assert("lzma"@[0] != "zstd"@[0]);
        },
        CompressAlgorithm::Lz4 => {
            assert("lz4"@[0] != "zstd"@[0]);
            assert("lz4"@.len() != "lzma"@.len());
            assert("lz4"@.len() != "xz"@.len());
            assert("lz4"@.len() != "lzma2"@.len());
        },
    }
}

pub open spec fn max_level_spec(a: CompressAlgorithm) -> u32 {
    match a {
        CompressAlgorithm::Zstd => 22,
        CompressAlgorithm::Lzma => 9,
        CompressAlgorithm::Lz4 => 12,
    }
}

pub open spec fn default_level_spec(a: CompressAlgorithm) -> u32 {
    match a {
        CompressAlgorithm::Zstd => 19,
        CompressAlgorithm::Lzma => 6,
        CompressAlgorithm::Lz4 => 6,
    }
}

impl CompressAlgorithm {
    pub fn as_str(&self) -> (r: &'static str)
        ensures
            r@ == compress_name(*self),
    {
        match self {
            CompressAlgorithm::Zstd => "zstd",
            CompressAlgorithm::Lzma => "lzma",
            CompressAlgorithm::Lz4 => "lz4",
        }
    }

    /// Parses an algorithm name (case-insensitive, with aliases).
    pub fn parse(s: &str) -> (r: Result<CompressAlgorithm, GError>)
        ensures
            match parse_compress_spec(s@) {
                Ok(a) => r == Ok::<CompressAlgorithm, GError>(a),
                Err(m) => r matches Err(GError::Other(msg)) && msg@ == m,
            },
    {
        let k = to_lowercase(s);
        let ks = k.as_str();
        if str_eq(ks, "zstd") {
            Ok(CompressAlgorithm::Zstd)
        } else if str_eq(ks, "lzma") || str_eq(ks, "xz") || str_eq(ks, "lzma2") {
            Ok(CompressAlgorithm::Lzma)
        } else if str_eq(ks, "lz4") {
            Ok(CompressAlgorithm::Lz4)
        } else {
            let mut msg = owned("unknown compression algorithm \"");
            push_str(&mut msg, ks);
            push_str(&mut msg, "\" (supported: zstd, lzma, lz4)");
            Err(GError::Other(msg))
        }
    }

    pub fn max_level(&self) -> (r: u32)
        ensures
            r == max_level_spec(*self),
    {
        match self {
            CompressAlgorithm::Zstd => 22,
            CompressAlgorithm::Lzma => 9,
            CompressAlgorithm::Lz4 => 12,
        }
    }

    pub fn default_level(&self) -> (r: u32)
        ensures
            r == default_level_spec(*self),
    {
        match self {
            CompressAlgorithm::Zstd => 19,
            CompressAlgorithm::Lzma => 6,
            CompressAlgorithm::Lz4 => 6,
        }
    }

    /// `level` clamped into the valid range `1..=max_level`.
    pub fn validate_level_or_default(&self, level: u32) -> (r: u32)
        ensures
            1 <= level <= max_level_spec(*self) ==> r == level,
            level > max_level_spec(*self) ==> r == max_level_spec(*self),
            level == 0 ==> r == 1,
            1 <= r <= max_level_spec(*self),
    {
        let max = self.max_level();
        if level == 0 {
            1
        } else if level > max {
            max
        } else {
            level
        }
    }
}

// ── zstd ──────────────────────────────────────────────────────────────

/// What `zstd::encode_all` gives for `data` at `level` (the error as its
/// message).
pub uninterp spec fn zstd_encoded(data: Seq<u8>, level: i32) -> Result<Seq<u8>, Seq<char>>;

/// `zstd::encode_all` over a byte slice. Claimed: the result (with the
/// error's message) is `zstd_encoded` of the bytes and level.
#[verifier::external_body]
fn zstd_encode(data: &[u8], level: i32) -> (r: Result<Vec<u8>, String>)
    ensures
        match r {
            Ok(v) => zstd_encoded(data@, level) == Ok::<Seq<u8>, Seq<char>>(v@),
            Err(m) => zstd_encoded(data@, level) == Err::<Seq<u8>, Seq<char>>(m@),
        },
{
    zstd::encode_all(data, level).map_err(|e| format!("{e}"))
}

/// What `zstd::decode_all` gives for `data` (the error as its message).
pub uninterp spec fn zstd_decoded(data: Seq<u8>) -> Result<Seq<u8>, Seq<char>>;

/// `zstd::decode_all` over a byte slice. Claimed: the result (with the
/// error's message) is `zstd_decoded` of the bytes, and (zstd being
/// lossless) a frame that `zstd::encode_all` made decodes to the bytes it
/// was made from.
#[verifier::external_body]
fn zstd_decode(data: &[u8]) -> (r: Result<Vec<u8>, String>)
    ensures
        match r {
            Ok(v) => zstd_decoded(data@) == Ok::<Seq<u8>, Seq<char>>(v@),
            Err(m) => zstd_decoded(data@) == Err::<Seq<u8>, Seq<char>>(m@),
        },
        r is Err ==> !exists|src: (Seq<u8>, i32)| #[trigger] zstd_encoded(src.0, src.1) matches Ok(enc) && enc == data@,
        r matches Ok(v) ==> forall|src: (Seq<u8>, i32)|
            #[trigger] zstd_encoded(src.0, src.1) matches Ok(enc) && enc == data@ ==> v@ == src.0,
{
    zstd::decode_all(data).map_err(|e| format!("{e}"))
}

// ── LZMA (xz) ─────────────────────────────────────────────────────────

/// Where an LZMA compression failed: writing the data, or finishing the
/// stream.
#[derive(Debug, Clone)]
pub enum XzFailure {
    Write(String),
    Finish(String),
}

/// What compressing `data` with `xz2` at `level` gives: the bytes, or the
/// failure (`true` when finishing failed) with the error's message.
pub uninterp spec fn xz_compressed(data: Seq<u8>, level: u32) -> Result<Seq<u8>, (bool, Seq<char>)>;

/// A preset `xz2` (liblzma's `lzma_easy_encoder`) accepts: a level of
/// 0-9 in the low five bits, and no flag but `LZMA_PRESET_EXTREME`
/// (bit 31). `XzEncoder::new` unwraps the encoder it makes, so any other
/// preset panics (as does a failed allocation there, which no argument
/// rules out).
pub open spec fn xz_preset_ok(level: u32) -> bool {
    level % 32 <= 9 && (level / 32) % 0x400_0000 == 0
}

/// `xz2::write::XzEncoder::new` over an empty `Vec` at `level`, then
/// `write_all` of the data and `finish`. Claimed: the result is
/// `xz_compressed` of the bytes and level. (The encoder type cannot be
/// declared here: its bound is an outside trait.)
#[verifier::external_body]
fn xz_compress(data: &[u8], level: u32) -> (r: Result<Vec<u8>, XzFailure>)
    requires
        xz_preset_ok(level),
    ensures
        match r {
            Ok(v) => xz_compressed(data@, level) == Ok::<Seq<u8>, (bool, Seq<char>)>(v@),
            Err(XzFailure::Write(m)) => xz_compressed(data@, level) == Err::<Seq<u8>, (bool, Seq<char>)>((false, m@)),
            Err(XzFailure::Finish(m)) => xz_compressed(data@, level) == Err::<Seq<u8>, (bool, Seq<char>)>((true, m@)),
        },
{
    let mut enc = xz2::write::XzEncoder::new(Vec::new(), level);
    if let Err(e) = enc.write_all(data) {
        return Err(XzFailure::Write(format!("{e}")));
    }
    enc.finish().map_err(|e| XzFailure::Finish(format!("{e}")))
}

/// What decompressing `data` with `xz2` gives (the error as its message).
pub uninterp spec fn xz_decompressed(data: Seq<u8>) -> Result<Seq<u8>, Seq<char>>;

/// `xz2::read::XzDecoder::new` over the bytes, then `read_to_end` into a
/// new `Vec`. Claimed: the result is `xz_decompressed` of the bytes, and
/// (xz being lossless) a stream that the encoder made at an accepted
/// preset decodes to the bytes it was made from.
#[verifier::external_body]
fn xz_decompress(data: &[u8]) -> (r: Result<Vec<u8>, String>)
    ensures
        match r {
            Ok(v) => xz_decompressed(data@) == Ok::<Seq<u8>, Seq<char>>(v@),
            Err(m) => xz_decompressed(data@) == Err::<Seq<u8>, Seq<char>>(m@),
        },
        r is Err ==> !exists|src: (Seq<u8>, u32)|
            xz_preset_ok(src.1) && (#[trigger] xz_compressed(src.0, src.1) matches Ok(enc) && enc == data@),
        r matches Ok(v) ==> forall|src: (Seq<u8>, u32)|
            xz_preset_ok(src.1) && (#[trigger] xz_compressed(src.0, src.1) matches Ok(enc) && enc == data@)
                ==> v@ == src.0,
{
    let mut dec = xz2::read::XzDecoder::new(data);
    let mut out = Vec::new();
    match dec.read_to_end(&mut out) {
        Ok(_) => Ok(out),
        Err(e) => Err(format!("{e}")),
    }
}

// ── LZ4 ───────────────────────────────────────────────────────────────

/// What `lz4_flex::compress_prepend_size` gives for `data`.
pub uninterp spec fn lz4_compressed(data: Seq<u8>) -> Seq<u8>;

/// `lz4_flex::compress_prepend_size`. Claimed: the result is
/// `lz4_compressed` of the bytes, and starts with the input length as a
/// little-endian `u32` (the source writes `input.len() as u32`).
#[verifier::external_body]
fn lz4_compress(data: &[u8]) -> (r: Vec<u8>)
    ensures
        r@ == lz4_compressed(data@),
        r@.len() >= 4,
        r@.subrange(0, 4) == le_bytes_u32((data@.len() % 4294967296) as u32),
{
    lz4_flex::compress_prepend_size(data)
}

/// What `lz4_flex::decompress_size_prepended` gives for `data` (the
/// error as its `Display` text).
pub uninterp spec fn lz4_decompressed(data: Seq<u8>) -> Result<Seq<u8>, Seq<char>>;

/// `lz4_flex::decompress_size_prepended`. Claimed: the result is
/// `lz4_decompressed` of the bytes, and (as its documentation pairs it
/// with `compress_prepend_size`) it gives back what that compressed, for
/// inputs whose length fits the `u32` size prefix.
#[verifier::external_body]
fn lz4_decompress(data: &[u8]) -> (r: Result<Vec<u8>, String>)
    ensures
        match r {
            Ok(v) => lz4_decompressed(data@) == Ok::<Seq<u8>, Seq<char>>(v@),
            Err(m) => lz4_decompressed(data@) == Err::<Seq<u8>, Seq<char>>(m@),
        },
        r is Err ==> !exists|orig: Seq<u8>| #[trigger] lz4_compressed(orig) == data@ && orig.len() < 4294967296,
        r matches Ok(v) ==> forall|orig: Seq<u8>| #[trigger] lz4_compressed(orig) == data@ && orig.len() < 4294967296
            ==> v@ == orig,
{
    lz4_flex::decompress_size_prepended(data).map_err(|e| format!("{e}"))
}

/// The little-endian bytes of a `u64`.
pub open spec fn le_bytes_u64(x: u64) -> Seq<u8> {
    Seq::new(8, |i: int| ((x as nat / crate::le::pow256(i as nat)) % 256) as u8)
}

fn u64_le_bytes(x: u64) -> (r: Vec<u8>)
    ensures
        r@ == le_bytes_u64(x),
{
    let mut r: Vec<u8> = Vec::new();
    let mut v: u64 = x;
    let mut i: usize = 0;
    assert(crate::le::pow256(0) == 1);
    while i < 8
        invariant
            i <= 8,
            r@.len() == i,
            v as nat == x as nat / crate::le::pow256(i as nat),
            forall|k: int| 0 <= k < i ==> r@[k] == ((x as nat / crate::le::pow256(k as nat)) % 256) as u8,
        decreases 8 - i,
    {
        proof {
            lemma_pow_div_step(x as nat, i as nat);
        }
        r.push((v % 256) as u8);
        v = v / 256;
        i = i + 1;
    }
    assert(r@ =~= le_bytes_u64(x));
    r
}

proof fn lemma_pow_div_step(x: nat, i: nat)
    ensures
        x / crate::le::pow256(i) / 256 == x / crate::le::pow256(i + 1),
{
    crate::le::lemma_pow256_pos(i);
    assert(crate::le::pow256(i + 1) == 256 * crate::le::pow256(i));
    vstd::arithmetic::div_mod::lemma_div_denominator(x as int, crate::le::pow256(i) as int, 256);
    assert(crate::le::pow256(i) * 256 == 256 * crate::le::pow256(i)) by (nonlinear_arith);
}

// ── Whole-buffer compression ──────────────────────────────────────────

/// What compressing `data` with `algorithm` at `level` gives: zstd and
/// LZMA by name, LZ4 framed (original size as 8 bytes, then the
/// size-prepended block).
pub open spec fn compressed_spec(data: Seq<u8>, algorithm: CompressAlgorithm, level: u32) -> Result<Seq<u8>, Seq<char>> {
    match algorithm {
        CompressAlgorithm::Zstd => match zstd_encoded(data, level as i32) {
            Ok(v) => Ok(v),
            Err(m) => Err("zstd compress: "@ + m),
        },
        CompressAlgorithm::Lzma => match xz_compressed(data, level) {
            Ok(v) => Ok(v),
            Err((false, m)) => Err("lzma write: "@ + m),
            Err((true, m)) => Err("lzma finish: "@ + m),
        },
        CompressAlgorithm::Lz4 => Ok(le_bytes_u64(data.len() as u64) + lz4_compressed(data)),
    }
}

/// Compresses a buffer (the computing half of `compress_file`).
pub fn compress_bytes(data: &[u8], algorithm: CompressAlgorithm, level: u32) -> (r: Result<Vec<u8>, GError>)
    requires
        algorithm is Lzma ==> xz_preset_ok(level),
    ensures
        match compressed_spec(data@, algorithm, level) {
            Ok(v) => r matches Ok(out) && out@ == v,
            Err(m) => r matches Err(GError::Other(msg)) && msg@ == m,
        },
{
    match algorithm {
        CompressAlgorithm::Zstd => {
            match zstd_encode(data, level as i32) {
                Ok(v) => Ok(v),
                Err(e) => {
                    let mut msg = owned("zstd compress: ");
                    push_str(&mut msg, e.as_str());
                    Err(GError::Other(msg))
                },
            }
        },
        CompressAlgorithm::Lzma => {
            match xz_compress(data, level) {
                Ok(v) => Ok(v),
                Err(XzFailure::Write(e)) => {
                    let mut msg = owned("lzma write: ");
                    push_str(&mut msg, e.as_str());
                    Err(GError::Other(msg))
                },
                Err(XzFailure::Finish(e)) => {
                    let mut msg = owned("lzma finish: ");
                    push_str(&mut msg, e.as_str());
                    Err(GError::Other(msg))
                },
            }
        },
        CompressAlgorithm::Lz4 => {
            let mut out = u64_le_bytes(data.len() as u64);
            let compressed = lz4_compress(data);
            let mut i: usize = 0;
            let ghost head = out@;
            while i < compressed.len()
                invariant
                    i <= compressed@.len(),
                    out@ == head + compressed@.subrange(0, i as int),
                decreases compressed@.len() - i,
            {
                out.push(compressed[i]);
                assert(out@ =~= head + compressed@.subrange(0, i + 1));
                i = i + 1;
            }
            assert(compressed@.subrange(0, compressed@.len() as int) =~= compressed@);
            Ok(out)
        },
    }
}

/// The inputs on which compression is promised to be undone: any for
/// zstd, an accepted preset for LZMA, and under 4 GiB for LZ4 (the reach
/// of `lz4_flex`'s size prefix).
pub open spec fn roundtrip_inputs_ok(orig: Seq<u8>, algorithm: CompressAlgorithm, level: u32) -> bool {
    match algorithm {
        CompressAlgorithm::Zstd => true,
        CompressAlgorithm::Lzma => xz_preset_ok(level),
        CompressAlgorithm::Lz4 => orig.len() < 4294967296,
    }
}

/// What decompressing `data` with `algorithm` gives.
pub open spec fn decompressed_spec(data: Seq<u8>, algorithm: CompressAlgorithm) -> Result<Seq<u8>, Seq<char>> {
    match algorithm {
        CompressAlgorithm::Zstd => match zstd_decoded(data) {
            Ok(v) => Ok(v),
            Err(m) => Err("zstd decompress: "@ + m),
        },
        CompressAlgorithm::Lzma => match xz_decompressed(data) {
            Ok(v) => Ok(v),
            Err(m) => Err("lzma decompress: "@ + m),
        },
        CompressAlgorithm::Lz4 => if data.len() < 8 {
            Err("lz4 decompress: data too short"@)
        } else {
            match lz4_decompressed(data.subrange(8, data.len() as int)) {
                Ok(v) => Ok(v),
                Err(m) => Err("lz4 decompress: "@ + m),
            }
        },
    }
}

/// Decompresses a buffer (the computing half of `decompress_file`).
/// Whatever `compress_bytes` made (on the inputs of
/// [`roundtrip_inputs_ok`]) decompresses to the bytes it was made from,
/// for all three algorithms.
pub fn decompress_bytes(data: &[u8], algorithm: CompressAlgorithm) -> (r: Result<Vec<u8>, GError>)
    ensures
        match decompressed_spec(data@, algorithm) {
            Ok(v) => r matches Ok(out) && out@ == v,
            Err(m) => r matches Err(GError::Other(msg)) && msg@ == m,
        },
        forall|src: (Seq<u8>, u32)|
            roundtrip_inputs_ok(src.0, algorithm, src.1) && #[trigger] compressed_spec(src.0, algorithm, src.1) == Ok::<
                Seq<u8>,
                Seq<char>,
            >(data@) ==> (r matches Ok(out) && out@ == src.0),
{
    match algorithm {
        CompressAlgorithm::Zstd => {
            let res = zstd_decode(data);
            proof {
                assert forall|src: (Seq<u8>, u32)|
                    roundtrip_inputs_ok(src.0, algorithm, src.1) && #[trigger] compressed_spec(src.0, algorithm, src.1)
                        == Ok::<Seq<u8>, Seq<char>>(data@) implies (res matches Ok(v) && v@ == src.0) by {
                    let z = (src.0, src.1 as i32);
                    assert(zstd_encoded(z.0, z.1) matches Ok(enc) && enc == data@);
                }
            }
            match res {
                Ok(v) => Ok(v),
                Err(e) => {
                    let mut msg = owned("zstd decompress: ");
                    push_str(&mut msg, e.as_str());
                    Err(GError::Other(msg))
                },
            }
        },
        CompressAlgorithm::Lzma => {
            let res = xz_decompress(data);
            proof {
                assert forall|src: (Seq<u8>, u32)|
                    roundtrip_inputs_ok(src.0, algorithm, src.1) && #[trigger] compressed_spec(src.0, algorithm, src.1)
                        == Ok::<Seq<u8>, Seq<char>>(data@) implies (res matches Ok(v) && v@ == src.0) by {
                    assert(xz_compressed(src.0, src.1) matches Ok(enc) && enc == data@);
                }
            }
            match res {
                Ok(v) => Ok(v),
                Err(e) => {
                    let mut msg = owned("lzma decompress: ");
                    push_str(&mut msg, e.as_str());
                    Err(GError::Other(msg))
                },
            }
        },
        CompressAlgorithm::Lz4 => {
            if data.len() < 8 {
                proof {
                    assert forall|src: (Seq<u8>, u32)|
                        roundtrip_inputs_ok(src.0, algorithm, src.1) && #[trigger] compressed_spec(src.0, algorithm, src.1)
                            == Ok::<Seq<u8>, Seq<char>>(data@) implies false by {
                        lemma_lz4_frame_roundtrip(src.0);
                    }
                }
                return Err(GError::Other(owned("lz4 decompress: data too short")));
            }
            let body = slice_from(data, 8);
            let res = lz4_decompress(body.as_slice());
            proof {
                assert forall|src: (Seq<u8>, u32)|
                    roundtrip_inputs_ok(src.0, algorithm, src.1) && #[trigger] compressed_spec(src.0, algorithm, src.1)
                        == Ok::<Seq<u8>, Seq<char>>(data@) implies (res matches Ok(v) && v@ == src.0) by {
                    lemma_lz4_frame_roundtrip(src.0);
                    assert(lz4_compressed(src.0) == body@);
                }
            }
            match res {
                Ok(v) => Ok(v),
                Err(e) => {
                    let mut msg = owned("lz4 decompress: ");
                    push_str(&mut msg, e.as_str());
                    Err(GError::Other(msg))
                },
            }
        },
    }
}

fn slice_from(data: &[u8], start: usize) -> (r: Vec<u8>)
    requires
        start <= data@.len(),
    ensures
        r@ == data@.subrange(start as int, data@.len() as int),
{
    let mut out: Vec<u8> = Vec::new();
    let mut i: usize = start;
    while i < data.len()
        invariant
            start <= i <= data@.len(),
            out@ == data@.subrange(start as int, i as int),
        decreases data@.len() - i,
    {
        out.push(data[i]);
        assert(out@ =~= data@.subrange(start as int, i + 1));
        i = i + 1;
    }
    out
}

/// LZ4 framing round-trips: decompressing what `compress_bytes` made
/// with LZ4 gives the original bytes back (for inputs below 4 GiB, the
/// reach of `lz4_flex`'s size prefix).
pub proof fn lemma_lz4_frame_roundtrip(data: Seq<u8>)
    requires
        data.len() < 4294967296,
    ensures
        ({
            let framed = le_bytes_u64(data.len() as u64) + lz4_compressed(data);
            &&& framed.len() >= 8
            &&& framed.subrange(8, framed.len() as int) == lz4_compressed(data)
        }),
{
    let framed = le_bytes_u64(data.len() as u64) + lz4_compressed(data);
    assert(framed.subrange(8, framed.len() as int) =~= lz4_compressed(data));
}

} // verus!
