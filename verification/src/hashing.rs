//! Content hashing: XXH3-128 (default) and BLAKE3.
//!
//! The algorithm is chosen per game (`hash.algorithm`). Digests are kept
//! as lower-case hexadecimal text: 32 characters for XXH3-128, 64 for
//! BLAKE3.

use vstd::prelude::*;
use crate::error::GError;
use crate::text::{
    all_ascii, ascii_lower, hex_char, hex_pad_seq, lemma_lower_plain, lemma_trim_plain, owned, push_char, push_str,
    str_eq, to_lowercase, trim, trim_seq, u128_to_hex_pad, lower_text,
};

verus! {

#[derive(Debug, Clone, Copy, PartialEq, Eq, Structural)]
pub enum HashAlgorithm {
    Xxhash,
    Blake3,
}

pub open spec fn hash_algorithm_name(a: HashAlgorithm) -> Seq<char> {
    match a {
        HashAlgorithm::Xxhash => "xxhash"@,
        HashAlgorithm::Blake3 => "blake3"@,
    }
}

/// The algorithm a lower-cased, trimmed name stands for.
pub open spec fn hash_algorithm_for_key(k: Seq<char>) -> Option<HashAlgorithm> {
    if k == "xxhash"@ || k == "xxh3"@ || k == "xxh3-128"@ {
        Some(HashAlgorithm::Xxhash)
    } else if k == "blake3"@ {
        Some(HashAlgorithm::Blake3)
    } else {
        None
    }
}

/// What `HashAlgorithm::parse` gives for `s`: the name is trimmed and
/// lower-cased (Unicode), then looked up.
pub open spec fn parse_hash_algorithm_spec(s: Seq<char>) -> Result<HashAlgorithm, Seq<char>> {
    let k = lower_text(trim_seq(s));
    match hash_algorithm_for_key(k) {
        Some(a) => Ok(a),
        None => Err("unknown hash algorithm \""@ + k + "\" (supported: xxhash, blake3)"@),
    }
}

impl HashAlgorithm {
    pub fn as_str(&self) -> (r: &'static str)
        ensures
            r@ == hash_algorithm_name(*self),
    {
        match self {
            HashAlgorithm::Xxhash => "xxhash",
            HashAlgorithm::Blake3 => "blake3",
        }
    }

    /// Length of the hexadecimal digest.
    pub fn hex_len(&self) -> (r: usize)
        ensures
            r == (match *self {
                HashAlgorithm::Xxhash => 32usize,
                HashAlgorithm::Blake3 => 64usize,
            }),
    {
        match self {
            HashAlgorithm::Xxhash => 32,
            HashAlgorithm::Blake3 => 64,
        }
    }

    /// Parses an algorithm name (surrounding whitespace ignored,
    /// case-insensitive, with aliases).
    pub fn parse(s: &str) -> (r: Result<HashAlgorithm, GError>)
        ensures
            match parse_hash_algorithm_spec(s@) {
                Ok(a) => r == Ok::<HashAlgorithm, GError>(a),
                Err(m) => r matches Err(GError::Other(msg)) && msg@ == m,
            },
    {
        let k = to_lowercase(trim(s));
        let ks = k.as_str();
        if str_eq(ks, "xxhash") || str_eq(ks, "xxh3") || str_eq(ks, "xxh3-128") {
            Ok(HashAlgorithm::Xxhash)
        } else if str_eq(ks, "blake3") {
            Ok(HashAlgorithm::Blake3)
        } else {
            let mut msg = owned("unknown hash algorithm \"");
            push_str(&mut msg, ks);
            push_str(&mut msg, "\" (supported: xxhash, blake3)");
            Err(GError::Other(msg))
        }
    }
}

impl core::str::FromStr for HashAlgorithm {
    type Err = GError;

    /// The same as [`HashAlgorithm::parse`].
    fn from_str(s: &str) -> (r: Result<HashAlgorithm, GError>)
        ensures
            match parse_hash_algorithm_spec(s@) {
                Ok(a) => r == Ok::<HashAlgorithm, GError>(a),
                Err(m) => r matches Err(GError::Other(msg)) && msg@ == m,
            },
    {
        HashAlgorithm::parse(s)
    }
}

/// Parsing the name of an algorithm gives that algorithm back.
pub proof fn lemma_hash_algorithm_roundtrip(a: HashAlgorithm)
    ensures
        parse_hash_algorithm_spec(hash_algorithm_name(a)) === Ok(a),
{
    reveal_strlit("xxhash");
    reveal_strlit("xxh3");
    reveal_strlit("xxh3-128");
    reveal_strlit("blake3");
    let s = hash_algorithm_name(a);
    lemma_trim_plain(s);
    assert(all_ascii(s));
    lemma_lower_plain(s);
    assert("blake3"@[0] != "xxhash"@[0]);
}

/// A content digest as lower-case hexadecimal text.
#[derive(Debug, Clone, PartialEq, Eq, Hash)]
pub struct Hash(pub String);

impl Hash {
    pub fn as_str(&self) -> (r: &str)
        ensures
            r@ == self.0@,
    {
        self.0.as_str()
    }
}

impl From<String> for Hash {
    fn from(s: String) -> (r: Hash) {
        Hash(s)
    }
}

impl vstd::std_specs::convert::FromSpecImpl<String> for Hash {
    open spec fn obeys_from_spec() -> bool {
        true
    }

    open spec fn from_spec(v: String) -> Hash {
        Hash(v)
    }
}

/// What `xxhash_rust::xxh3::xxh3_128` returns for `data`.
pub uninterp spec fn xxh3_128_of(data: Seq<u8>) -> u128;

/// `xxhash_rust::xxh3::xxh3_128`: the 128-bit XXH3 digest (seed 0, default
/// secret). Claimed: the result is `xxh3_128_of` of the bytes.
#[verifier::external_body]
fn xxh3_128_digest(data: &[u8]) -> (r: u128)
    ensures
        r == xxh3_128_of(data@),
{
    xxhash_rust::xxh3::xxh3_128(data)
}

/// What `blake3::hash` returns for `data`, as its 32 bytes.
pub uninterp spec fn blake3_of(data: Seq<u8>) -> Seq<u8>;

/// `blake3::hash`, read out with `Hash::as_bytes`. Claimed: the result is
/// `blake3_of` of the bytes, and it is 32 bytes long (`OUT_LEN`).
#[verifier::external_body]
fn blake3_digest(data: &[u8]) -> (r: Vec<u8>)
    ensures
        r@ == blake3_of(data@),
        r@.len() == 32,
{
    blake3::hash(data).as_bytes().to_vec()
}

/// Two lower-case hexadecimal digits per byte, high nibble first.
pub open spec fn bytes_hex(b: Seq<u8>) -> Seq<char>
    decreases b.len(),
{
    if b.len() == 0 {
        Seq::empty()
    } else {
        bytes_hex(b.drop_last()).push(hex_char((b.last() / 16) as nat)).push(hex_char((b.last() % 16) as nat))
    }
}

/// The hexadecimal text of a digest computed by `algo` over `data`.
pub open spec fn digest_hex(data: Seq<u8>, algo: HashAlgorithm) -> Seq<char> {
    match algo {
        HashAlgorithm::Xxhash => hex_pad_seq(xxh3_128_of(data) as nat, 32),
        HashAlgorithm::Blake3 => bytes_hex(blake3_of(data)),
    }
}

fn hex_digit(d: u8) -> (c: char)
    requires
        d < 16,
    ensures
        c == hex_char(d as nat),
{
    if d < 10 {
        ('0' as u8 + d) as char
    } else {
        ('a' as u8 + (d - 10)) as char
    }
}

/// A 128-bit digest as 32 lower-case hexadecimal digits.
pub fn xxh3_hex(digest: u128) -> (r: String)
    ensures
        r@ == hex_pad_seq(digest as nat, 32),
{
    u128_to_hex_pad(digest, 32)
}

/// A byte digest as lower-case hexadecimal, two digits per byte.
pub fn blake3_hex(digest: &[u8]) -> (r: String)
    ensures
        r@ == bytes_hex(digest@),
{
    let mut out = String::new();
    let mut i: usize = 0;
    while i < digest.len()
        invariant
            i <= digest@.len(),
            out@ == bytes_hex(digest@.subrange(0, i as int)),
        decreases digest@.len() - i,
    {
        let b = digest[i];
        proof {
            assert(digest@.subrange(0, i + 1).drop_last() =~= digest@.subrange(0, i as int));
        }
        push_char(&mut out, hex_digit(b / 16));
        push_char(&mut out, hex_digit(b % 16));
        i = i + 1;
    }
    assert(digest@.subrange(0, digest@.len() as int) =~= digest@);
    out
}

/// Hashes an in-memory byte slice with `algo`.
pub fn hash_bytes(data: &[u8], algo: HashAlgorithm) -> (r: Hash)
    ensures
        r.0@ == digest_hex(data@, algo),
{
    match algo {
        HashAlgorithm::Xxhash => Hash(xxh3_hex(xxh3_128_digest(data))),
        HashAlgorithm::Blake3 => {
            let d = blake3_digest(data);
            Hash(blake3_hex(d.as_slice()))
        },
    }
}

// ── Hashing a stream of chunks ─────────────────────────────────────────

#[verifier::external_type_specification]
#[verifier::external_body]
pub struct ExXxh3(xxhash_rust::xxh3::Xxh3);

#[verifier::external_type_specification]
#[verifier::external_body]
pub struct ExBlake3Hasher(blake3::Hasher);

/// The bytes an `xxhash_rust::xxh3::Xxh3` hasher has been fed.
pub uninterp spec fn xxh3_fed(h: xxhash_rust::xxh3::Xxh3) -> Seq<u8>;

/// The bytes a `blake3::Hasher` has been fed.
pub uninterp spec fn blake3_fed(h: blake3::Hasher) -> Seq<u8>;

/// `Xxh3::new`: a hasher with seed 0 and the default secret. Claimed: it
/// has been fed nothing.
#[verifier::external_body]
fn xxh3_start() -> (h: xxhash_rust::xxh3::Xxh3)
    ensures
        xxh3_fed(h) == Seq::<u8>::empty(),
{
    xxhash_rust::xxh3::Xxh3::new()
}

/// `Xxh3::update`. Claimed: the chunk is appended to what the hasher has
/// been fed.
#[verifier::external_body]
fn xxh3_feed(h: &mut xxhash_rust::xxh3::Xxh3, data: &[u8])
    ensures
        xxh3_fed(*final(h)) == xxh3_fed(*old(h)) + data@,
{
    h.update(data);
}

/// `Xxh3::digest128`. Claimed: the streaming digest is the one-shot
/// `xxh3_128` of everything fed (the crate's tests check the two agree).
#[verifier::external_body]
fn xxh3_result(h: &xxhash_rust::xxh3::Xxh3) -> (r: u128)
    ensures
        r == xxh3_128_of(xxh3_fed(*h)),
{
    h.digest128()
}

/// `blake3::Hasher::new`. Claimed: it has been fed nothing.
#[verifier::external_body]
fn blake3_start() -> (h: blake3::Hasher)
    ensures
        blake3_fed(h) == Seq::<u8>::empty(),
{
    blake3::Hasher::new()
}

/// `blake3::Hasher::update` (its returned `&mut Self` is dropped).
/// Claimed: the chunk is appended to what the hasher has been fed.
#[verifier::external_body]
fn blake3_feed(h: &mut blake3::Hasher, data: &[u8])
    ensures
        blake3_fed(*final(h)) == blake3_fed(*old(h)) + data@,
{
    h.update(data);
}

/// `blake3::Hasher::finalize`, read out with `Hash::as_bytes`. Claimed: it
/// is `blake3::hash` of everything fed (as the crate documents), 32 bytes.
#[verifier::external_body]
fn blake3_result(h: &blake3::Hasher) -> (r: Vec<u8>)
    ensures
        r@ == blake3_of(blake3_fed(*h)),
        r@.len() == 32,
{
    h.finalize().as_bytes().to_vec()
}

/// The state of one of the two hashers.
enum HasherState {
    Xxh3(xxhash_rust::xxh3::Xxh3),
    Blake3(blake3::Hasher),
}

/// Hashes content handed over in chunks, as a file is read; the digest is
/// the same as [`hash_bytes`] of all the chunks together.
pub struct StreamHasher {
    state: HasherState,
}

impl StreamHasher {
    /// The algorithm in use.
    pub closed spec fn algorithm(&self) -> HashAlgorithm {
        match self.state {
            HasherState::Xxh3(_) => HashAlgorithm::Xxhash,
            HasherState::Blake3(_) => HashAlgorithm::Blake3,
        }
    }

    /// Everything fed so far.
    pub closed spec fn fed(&self) -> Seq<u8> {
        match self.state {
            HasherState::Xxh3(h) => xxh3_fed(h),
            HasherState::Blake3(h) => blake3_fed(h),
        }
    }

    /// A hasher for `algo` that has been fed nothing.
    pub fn new(algo: HashAlgorithm) -> (r: StreamHasher)
        ensures
            r.algorithm() == algo,
            r.fed() == Seq::<u8>::empty(),
    {
        match algo {
            HashAlgorithm::Xxhash => StreamHasher { state: HasherState::Xxh3(xxh3_start()) },
            HashAlgorithm::Blake3 => StreamHasher { state: HasherState::Blake3(blake3_start()) },
        }
    }

    /// Feeds the next chunk.
    pub fn update(&mut self, data: &[u8])
        ensures
            final(self).algorithm() == old(self).algorithm(),
            final(self).fed() == old(self).fed() + data@,
    {
        match &mut self.state {
            HasherState::Xxh3(h) => xxh3_feed(h, data),
            HasherState::Blake3(h) => blake3_feed(h, data),
        }
    }

    /// The digest of everything fed.
    pub fn finish(&self) -> (r: Hash)
        ensures
            r.0@ == digest_hex(self.fed(), self.algorithm()),
    {
        match &self.state {
            HasherState::Xxh3(h) => Hash(xxh3_hex(xxh3_result(h))),
            HasherState::Blake3(h) => {
                let d = blake3_result(h);
                Hash(blake3_hex(d.as_slice()))
            },
        }
    }
}

// ── Retrying a read that another process blocks ───────────────────────

/// How reading a file failed, as far as retrying is concerned.
#[derive(Debug, Clone, Copy, PartialEq, Eq, Structural)]
pub enum ReadFailure {
    PermissionDenied,
    WouldBlock,
    TimedOut,
    ResourceBusy,
    /// Any other kind of I/O error.
    Other,
    /// Not an I/O error at all.
    NotIo,
}

/// A read failure that may pass if tried again: access denied, would
/// block, timed out or busy, or the OS error codes 32 and 33 (Windows'
/// sharing and lock violations, a game holding the file).
pub open spec fn retryable_spec(kind: ReadFailure, raw_os_error: Option<i32>) -> bool {
    match kind {
        ReadFailure::NotIo => false,
        ReadFailure::PermissionDenied | ReadFailure::WouldBlock | ReadFailure::TimedOut
        | ReadFailure::ResourceBusy => true,
        ReadFailure::Other => raw_os_error == Some(32i32) || raw_os_error == Some(33i32),
    }
}

/// Whether a failed read is worth retrying (see [`retryable_spec`]).
pub fn is_retryable(kind: ReadFailure, raw_os_error: Option<i32>) -> (r: bool)
    ensures
        r == retryable_spec(kind, raw_os_error),
{
    match kind {
        ReadFailure::NotIo => false,
        ReadFailure::PermissionDenied | ReadFailure::WouldBlock | ReadFailure::TimedOut
        | ReadFailure::ResourceBusy => true,
        ReadFailure::Other => match raw_os_error {
            Some(c) => c == 32 || c == 33,
            None => false,
        },
    }
}

/// What to do after a read failed.
#[derive(Debug, Clone, Copy, PartialEq, Eq, Structural)]
pub enum RetryStep {
    /// Wait and read again.
    Retry,
    /// Stop and report the file as unreadable (no hash, no error).
    GiveUp,
    /// Stop with the error.
    Fail,
}

/// After attempt `attempt` (counted from 0, at most `max_retries + 1`
/// in all) failed: an error that is not an I/O error is passed on; an
/// I/O error is retried while it is retryable and attempts are left, and
/// otherwise the file is given up on.
pub fn retry_step(attempt: u32, max_retries: u32, kind: ReadFailure, raw_os_error: Option<i32>) -> (r: RetryStep)
    ensures
        r == (if kind == ReadFailure::NotIo {
            RetryStep::Fail
        } else if retryable_spec(kind, raw_os_error) && attempt < max_retries {
            RetryStep::Retry
        } else {
            RetryStep::GiveUp
        }),
{
    if kind == ReadFailure::NotIo {
        RetryStep::Fail
    } else if is_retryable(kind, raw_os_error) && attempt < max_retries {
        RetryStep::Retry
    } else {
        RetryStep::GiveUp
    }
}

/// Digests of both algorithms have the length `hex_len` names.
pub proof fn lemma_digest_hex_len(data: Seq<u8>, algo: HashAlgorithm)
    requires
        algo == HashAlgorithm::Blake3 ==> blake3_of(data).len() == 32,
    ensures
        digest_hex(data, algo).len() == (match algo {
            HashAlgorithm::Xxhash => 32int,
            HashAlgorithm::Blake3 => 64int,
        }),
{
    match algo {
        HashAlgorithm::Xxhash => lemma_hex_pad_len(xxh3_128_of(data) as nat, 32),
        HashAlgorithm::Blake3 => lemma_bytes_hex_len(blake3_of(data)),
    }
}

proof fn lemma_hex_pad_len(n: nat, w: nat)
    ensures
        hex_pad_seq(n, w).len() == w,
    decreases w,
{
    if w > 0 {
        lemma_hex_pad_len(n / 16, (w - 1) as nat);
    }
}

proof fn lemma_bytes_hex_len(b: Seq<u8>)
    ensures
        bytes_hex(b).len() == 2 * b.len(),
    decreases b.len(),
{
    if b.len() > 0 {
        lemma_bytes_hex_len(b.drop_last());
    }
}

} // verus!
