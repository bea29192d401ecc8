//! Compression algorithms for `gim compact`.
//!
//! NTFS compression supports only LZNT1; the Windows Overlay Filter (WOF)
//! supports XPRESS4K, XPRESS8K, XPRESS16K and LZX (the project default).

use vstd::prelude::*;
use crate::error::GError;
use crate::text::{ascii_lower, lemma_lower_plain, lemma_trim_plain, owned, push_str, str_eq, to_ascii_lower, trim, trim_seq};

verus! {

/// Which Windows compression mechanism backs an algorithm.
#[derive(Debug, Clone, Copy, PartialEq, Eq, Structural)]
pub enum CompactMode {
    /// NTFS live compression (`FSCTL_SET_COMPRESSION`), LZNT1 only.
    Ntfs,
    /// Windows Overlay Filter (`FSCTL_SET_EXTERNAL_BACKING`).
    Wof,
}

/// A concrete compression algorithm.
#[derive(Debug, Clone, Copy, PartialEq, Eq, Structural)]
pub enum CompactAlgorithm {
    Ntfs,
    Xpress4k,
    Lzx,
    Xpress8k,
    Xpress16k,
    /// Decompress / remove any existing compression.
    Decompress,
}

impl Default for CompactAlgorithm {
    fn default() -> (r: Self)
        ensures
            r == CompactAlgorithm::Lzx,
    {
        CompactAlgorithm::Lzx
    }
}

/// Canonical short name of an algorithm.
pub open spec fn algorithm_name(a: CompactAlgorithm) -> Seq<char> {
    match a {
        CompactAlgorithm::Ntfs => "ntfs"@,
        CompactAlgorithm::Xpress4k => "xpress4k"@,
        CompactAlgorithm::Lzx => "lzx"@,
        CompactAlgorithm::Xpress8k => "xpress8k"@,
        CompactAlgorithm::Xpress16k => "xpress16k"@,
        CompactAlgorithm::Decompress => "none"@,
    }
}

/// The algorithm a normalized (trimmed, lower-cased) name stands for.
pub open spec fn algorithm_for_key(k: Seq<char>) -> Option<CompactAlgorithm> {
    if k == "lzx"@ {
        Some(CompactAlgorithm::Lzx)
    } else if k == "xpress4k"@ {
        Some(CompactAlgorithm::Xpress4k)
    } else if k == "xpress8k"@ {
        Some(CompactAlgorithm::Xpress8k)
    } else if k == "xpress16k"@ {
        Some(CompactAlgorithm::Xpress16k)
    } else if k == "ntfs"@ || k == "lznt1"@ {
        Some(CompactAlgorithm::Ntfs)
    } else if k == "none"@ || k == "off"@ || k == "decompress"@ {
        Some(CompactAlgorithm::Decompress)
    } else {
        None
    }
}

/// The message of the error for an unknown algorithm name `k`.
pub open spec fn unknown_algorithm_message(k: Seq<char>) -> Seq<char> {
    "unknown compact algorithm \""@ + k
        + "\" (supported: lzx, xpress4k, xpress8k, xpress16k, ntfs, none)"@
}

/// What `CompactAlgorithm::parse` gives for the text `s`.
pub open spec fn parse_algorithm_spec(s: Seq<char>) -> Result<CompactAlgorithm, Seq<char>> {
    let k = ascii_lower(trim_seq(s));
    match algorithm_for_key(k) {
        Some(a) => Ok(a),
        None => Err(unknown_algorithm_message(k)),
    }
}

/// Parsing the canonical name of an algorithm gives that algorithm back.
pub proof fn lemma_parse_name_roundtrip(a: CompactAlgorithm)
    ensures
        parse_algorithm_spec(algorithm_name(a)) === Ok(a),
{
    reveal_strlit("ntfs");
    reveal_strlit("xpress4k");
    reveal_strlit("lzx");
    reveal_strlit("xpress8k");
    reveal_strlit("xpress16k");
    reveal_strlit("none");
    reveal_strlit("lznt1");
    let s = algorithm_name(a);
    lemma_trim_plain(s);
    lemma_lower_plain(s);
    if a == CompactAlgorithm::Xpress8k {
        assert(s[6] != "xpress4k"@[6]);
    } else if a == CompactAlgorithm::Xpress16k {
        assert(s.len() != "xpress4k"@.len());
    } else if a == CompactAlgorithm::Decompress {
        assert(s[1] != "ntfs"@[1]);
    }

}

impl CompactAlgorithm {
    /// The mechanism this algorithm runs through.
    pub fn mode(&self) -> (m: CompactMode)
        ensures
            m == (if *self == CompactAlgorithm::Ntfs { CompactMode::Ntfs } else { CompactMode::Wof }),
    {
        match self {
            CompactAlgorithm::Ntfs => CompactMode::Ntfs,
            CompactAlgorithm::Xpress4k | CompactAlgorithm::Lzx | CompactAlgorithm::Xpress8k
            | CompactAlgorithm::Xpress16k | CompactAlgorithm::Decompress => CompactMode::Wof,
        }
    }

    /// Canonical short name used in config and on the command line.
    pub fn as_str(&self) -> (r: &'static str)
        ensures
            r@ == algorithm_name(*self),
    {
        match self {
            CompactAlgorithm::Ntfs => "ntfs",
            CompactAlgorithm::Xpress4k => "xpress4k",
            CompactAlgorithm::Lzx => "lzx",
            CompactAlgorithm::Xpress8k => "xpress8k",
            CompactAlgorithm::Xpress16k => "xpress16k",
            CompactAlgorithm::Decompress => "none",
        }
    }

    /// Human-readable label for summaries.
    pub fn label(&self) -> (r: &'static str)
        ensures
            r@ == (match *self {
                CompactAlgorithm::Ntfs => "NTFS LZNT1"@,
                CompactAlgorithm::Xpress4k => "WOF XPRESS4K"@,
                CompactAlgorithm::Lzx => "WOF LZX"@,
                CompactAlgorithm::Xpress8k => "WOF XPRESS8K"@,
                CompactAlgorithm::Xpress16k => "WOF XPRESS16K"@,
                CompactAlgorithm::Decompress => "none (decompress)"@,
            }),
    {
        match self {
            CompactAlgorithm::Ntfs => "NTFS LZNT1",
            CompactAlgorithm::Xpress4k => "WOF XPRESS4K",
            CompactAlgorithm::Lzx => "WOF LZX",
            CompactAlgorithm::Xpress8k => "WOF XPRESS8K",
            CompactAlgorithm::Xpress16k => "WOF XPRESS16K",
            CompactAlgorithm::Decompress => "none (decompress)",
        }
    }

    /// All accepted short names, in help-display order.
    pub fn all_strs() -> (r: Vec<&'static str>)
        ensures
            r@.len() == 6,
            r@[0]@ == "lzx"@,
            r@[1]@ == "xpress4k"@,
            r@[2]@ == "xpress8k"@,
            r@[3]@ == "xpress16k"@,
            r@[4]@ == "ntfs"@,
            r@[5]@ == "none"@,
    {
        vec!["lzx", "xpress4k", "xpress8k", "xpress16k", "ntfs", "none"]
    }

    /// Parse a short name (surrounding whitespace ignored, ASCII
    /// case-insensitive).
    pub fn parse(s: &str) -> (r: Result<CompactAlgorithm, GError>)
        ensures
            match parse_algorithm_spec(s@) {
                Ok(a) => r == Ok::<CompactAlgorithm, GError>(a),
                Err(m) => r matches Err(GError::Other(msg)) && msg@ == m,
            },
    {
        let k = to_ascii_lower(trim(s));
        let ks = k.as_str();
        if str_eq(ks, "lzx") {
            Ok(CompactAlgorithm::Lzx)
        } else if str_eq(ks, "xpress4k") {
            Ok(CompactAlgorithm::Xpress4k)
        } else if str_eq(ks, "xpress8k") {
            Ok(CompactAlgorithm::Xpress8k)
        } else if str_eq(ks, "xpress16k") {
            Ok(CompactAlgorithm::Xpress16k)
        } else if str_eq(ks, "ntfs") || str_eq(ks, "lznt1") {
            Ok(CompactAlgorithm::Ntfs)
        } else if str_eq(ks, "none") || str_eq(ks, "off") || str_eq(ks, "decompress") {
            Ok(CompactAlgorithm::Decompress)
        } else {
            let mut msg = owned("unknown compact algorithm \"");
            push_str(&mut msg, ks);
            push_str(&mut msg, "\" (supported: lzx, xpress4k, xpress8k, xpress16k, ntfs, none)");
            Err(GError::Other(msg))
        }
    }

    /// `true` for the variant that decompresses rather than compresses.
    pub fn is_decompress(&self) -> (r: bool)
        ensures
            r == (*self == CompactAlgorithm::Decompress),
    {
        match self {
            CompactAlgorithm::Decompress => true,
            _ => false,
        }
    }
}

} // verus!
