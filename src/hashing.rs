//! The hasher set: fixed-width digests for namespaces and item names, and
//! per-key hashers, some of which append the key so that it can be recovered.

use vstd::prelude::*;
use crate::bytes::{append_bytes, copy_bytes, le_bytes, lemma_le_bytes_len};

verus! {

/// The 64-bit xxHash of `data` under `seed`.
pub uninterp spec fn xxh64_of(seed: u64, data: Seq<u8>) -> u64;

/// The BLAKE2b digest of `data` with an output length of `len` bytes.
pub uninterp spec fn blake2b_of(len: nat, data: Seq<u8>) -> Seq<u8>;

/// Relies on twox_hash::XxHash64 (`with_seed`, `write`, `finish`): the 64-bit
/// xxHash of `data` under `seed`, a function of its arguments alone.
#[verifier::external_body]
fn xxh64(seed: u64, data: &[u8]) -> (r: u64)
    ensures
        r == xxh64_of(seed, data@),
{
    let mut h = twox_hash::XxHash64::with_seed(seed);
    std::hash::Hasher::write(&mut h, data);
    std::hash::Hasher::finish(&h)
}

/// Relies on blake2b_simd::Params (`hash_length`, `hash`): the BLAKE2b digest of
/// `data`, `len` bytes long; `hash_length` panics outside 1..=64.
#[verifier::external_body]
fn blake2b(len: usize, data: &[u8]) -> (r: Vec<u8>)
    requires
        1 <= len <= 64,
    ensures
        r@ == blake2b_of(len as nat, data@),
        r@.len() == len,
{
    blake2b_simd::Params::new().hash_length(len).hash(data).as_bytes().to_vec()
}

pub open spec fn xxh64_bytes(seed: u64, data: Seq<u8>) -> Seq<u8> {
    le_bytes(xxh64_of(seed, data) as nat, 8)
}

/// 64-bit xxHash, seed 0, little-endian.
pub open spec fn twox_64_spec(data: Seq<u8>) -> Seq<u8> {
    xxh64_bytes(0, data)
}

/// Two 64-bit xxHashes under seeds 0 and 1, each little-endian.
pub open spec fn twox_128_spec(data: Seq<u8>) -> Seq<u8> {
    xxh64_bytes(0, data) + xxh64_bytes(1, data)
}

/// Four 64-bit xxHashes under seeds 0 to 3, each little-endian.
pub open spec fn twox_256_spec(data: Seq<u8>) -> Seq<u8> {
    xxh64_bytes(0, data) + xxh64_bytes(1, data) + xxh64_bytes(2, data) + xxh64_bytes(3, data)
}

/// The BLAKE2b digest of `data` with `n` bytes of output.
pub open spec fn blake2_spec(n: nat, data: Seq<u8>) -> Seq<u8> {
    Seq::new(n, |i: int| blake2b_of(n, data)[i])
}

pub proof fn lemma_xxh64_bytes_len(seed: u64, data: Seq<u8>)
    ensures
        xxh64_bytes(seed, data).len() == 8,
{
    lemma_le_bytes_len(xxh64_of(seed, data) as nat, 8);
}

/// The little-endian bytes of `x`.
pub fn u64_le(x: u64) -> (r: Vec<u8>)
    ensures
        r@ == le_bytes(x as nat, 8),
{
    let mut r: Vec<u8> = Vec::with_capacity(8);
    let mut cur: u64 = x;
    let mut i: usize = 0;
    while i < 8
        invariant
            i <= 8,
            r@ + le_bytes(cur as nat, (8 - i) as nat) == le_bytes(x as nat, 8),
        decreases 8 - i,
    {
        let ghost before = r@;
        r.push((cur % 256) as u8);
        assert(le_bytes(cur as nat, (8 - i) as nat) == seq![(cur % 256) as u8] + le_bytes(
            (cur / 256) as nat,
            (8 - i - 1) as nat,
        ));
        assert(r@ + le_bytes((cur / 256) as nat, (8 - i - 1) as nat) =~= before + le_bytes(
            cur as nat,
            (8 - i) as nat,
        ));
        cur = cur / 256;
        i = i + 1;
    }
    assert(r@ + le_bytes(cur as nat, 0) =~= r@);
    r
}

fn xxh64_le(seed: u64, data: &[u8]) -> (r: Vec<u8>)
    ensures
        r@ == xxh64_bytes(seed, data@),
{
    u64_le(xxh64(seed, data))
}

/// The 8-byte xxHash digest of `data`.
pub fn twox_64(data: &[u8]) -> (r: Vec<u8>)
    ensures
        r@ == twox_64_spec(data@),
        r@.len() == 8,
{
    proof {
        lemma_xxh64_bytes_len(0, data@);
    }
    xxh64_le(0, data)
}

/// The 16-byte xxHash digest of `data`, used for namespaces and item names.
pub fn twox_128(data: &[u8]) -> (r: Vec<u8>)
    ensures
        r@ == twox_128_spec(data@),
        r@.len() == 16,
{
    proof {
        lemma_xxh64_bytes_len(0, data@);
        lemma_xxh64_bytes_len(1, data@);
    }
    let mut r = xxh64_le(0, data);
    let h1 = xxh64_le(1, data);
    append_bytes(&mut r, h1.as_slice());
    r
}

/// The 32-byte xxHash digest of `data`.
pub fn twox_256(data: &[u8]) -> (r: Vec<u8>)
    ensures
        r@ == twox_256_spec(data@),
        r@.len() == 32,
{
    proof {
        lemma_xxh64_bytes_len(0, data@);
        lemma_xxh64_bytes_len(1, data@);
        lemma_xxh64_bytes_len(2, data@);
        lemma_xxh64_bytes_len(3, data@);
    }
    let mut r = xxh64_le(0, data);
    let h1 = xxh64_le(1, data);
    append_bytes(&mut r, h1.as_slice());
    let h2 = xxh64_le(2, data);
    append_bytes(&mut r, h2.as_slice());
    let h3 = xxh64_le(3, data);
    append_bytes(&mut r, h3.as_slice());
    r
}

fn blake2_n(n: usize, data: &[u8]) -> (r: Vec<u8>)
    requires
        1 <= n <= 64,
    ensures
        r@ == blake2_spec(n as nat, data@),
{
    let r = blake2b(n, data);
    assert(r@ =~= blake2_spec(n as nat, data@));
    r
}

/// The 16-byte BLAKE2b digest of `data`.
pub fn blake2_128(data: &[u8]) -> (r: Vec<u8>)
    ensures
        r@ == blake2_spec(16, data@),
        r@.len() == 16,
{
    blake2_n(16, data)
}

/// The 32-byte BLAKE2b digest of `data`.
pub fn blake2_256(data: &[u8]) -> (r: Vec<u8>)
    ensures
        r@ == blake2_spec(32, data@),
        r@.len() == 32,
{
    blake2_n(32, data)
}

/// How one key component is turned into bytes of the store key.
#[allow(non_camel_case_types)]
#[derive(Clone, Copy, Debug, PartialEq, Eq)]
pub enum Hasher {
    /// 16-byte BLAKE2b digest; the key cannot be recovered.
    Blake2_128,
    /// 32-byte BLAKE2b digest; the key cannot be recovered.
    Blake2_256,
    /// 16-byte BLAKE2b digest followed by the key: collision resistant and reversible.
    Blake2_128Concat,
    /// 16-byte xxHash digest; the key cannot be recovered.
    Twox128,
    /// 32-byte xxHash digest; the key cannot be recovered.
    Twox256,
    /// 8-byte xxHash digest followed by the key: fast, reversible, only for trusted keys.
    Twox64Concat,
    /// The key itself.
    Identity,
}

impl Hasher {
    pub open spec fn hash_spec(self, key: Seq<u8>) -> Seq<u8> {
        match self {
            Hasher::Blake2_128 => blake2_spec(16, key),
            Hasher::Blake2_256 => blake2_spec(32, key),
            Hasher::Blake2_128Concat => blake2_spec(16, key) + key,
            Hasher::Twox128 => twox_128_spec(key),
            Hasher::Twox256 => twox_256_spec(key),
            Hasher::Twox64Concat => twox_64_spec(key) + key,
            Hasher::Identity => key,
        }
    }

    /// Whether the hashed bytes end with the key itself.
    pub open spec fn is_reversible(self) -> bool {
        match self {
            Hasher::Blake2_128Concat | Hasher::Twox64Concat | Hasher::Identity => true,
            _ => false,
        }
    }

    /// Bytes of digest before the key (reversible hashers), or the whole output.
    pub open spec fn digest_len(self) -> nat {
        match self {
            Hasher::Blake2_128 => 16,
            Hasher::Blake2_256 => 32,
            Hasher::Blake2_128Concat => 16,
            Hasher::Twox128 => 16,
            Hasher::Twox256 => 32,
            Hasher::Twox64Concat => 8,
            Hasher::Identity => 0,
        }
    }

    /// Length of the hashed bytes of a key of `key_len` bytes.
    pub open spec fn hashed_len_spec(self, key_len: nat) -> nat {
        if self.is_reversible() {
            self.digest_len() + key_len
        } else {
            self.digest_len()
        }
    }

    /// The hashed bytes of an encoded key.
    pub fn hash(&self, key: &[u8]) -> (r: Vec<u8>)
        ensures
            r@ == self.hash_spec(key@),
    {
        match self {
            Hasher::Blake2_128 => blake2_128(key),
            Hasher::Blake2_256 => blake2_256(key),
            Hasher::Blake2_128Concat => {
                let mut r = blake2_128(key);
                append_bytes(&mut r, key);
                r
            },
            Hasher::Twox128 => twox_128(key),
            Hasher::Twox256 => twox_256(key),
            Hasher::Twox64Concat => {
                let mut r = twox_64(key);
                append_bytes(&mut r, key);
                r
            },
            Hasher::Identity => copy_bytes(key),
        }
    }

    pub fn is_reversible_exec(&self) -> (r: bool)
        ensures
            r == self.is_reversible(),
    {
        match self {
            Hasher::Blake2_128Concat | Hasher::Twox64Concat | Hasher::Identity => true,
            _ => false,
        }
    }

    pub fn digest_len_exec(&self) -> (r: usize)
        ensures
            r == self.digest_len(),
    {
        match self {
            Hasher::Blake2_128 => 16,
            Hasher::Blake2_256 => 32,
            Hasher::Blake2_128Concat => 16,
            Hasher::Twox128 => 16,
            Hasher::Twox256 => 32,
            Hasher::Twox64Concat => 8,
            Hasher::Identity => 0,
        }
    }

    /// The largest hashed length for keys of at most `key_max_len` bytes,
    /// saturating at `u32::MAX`.
    pub fn max_len(&self, key_max_len: u32) -> (r: u32)
        ensures
            r == if self.hashed_len_spec(key_max_len as nat) > u32::MAX {
                u32::MAX as nat
            } else {
                self.hashed_len_spec(key_max_len as nat)
            },
    {
        let d = self.digest_len_exec() as u32;
        if self.is_reversible_exec() {
            key_max_len.saturating_add(d)
        } else {
            d
        }
    }
}

/// The hashed bytes have the stated length.
pub proof fn lemma_hash_len(h: Hasher, key: Seq<u8>)
    ensures
        h.hash_spec(key).len() == h.hashed_len_spec(key.len()),
{
    lemma_xxh64_bytes_len(0, key);
    lemma_xxh64_bytes_len(1, key);
    lemma_xxh64_bytes_len(2, key);
    lemma_xxh64_bytes_len(3, key);
}

/// A reversible hasher leaves the key in the bytes after its digest.
pub proof fn lemma_reversible_recovers_key(h: Hasher, key: Seq<u8>)
    requires
        h.is_reversible(),
    ensures
        h.hash_spec(key).subrange(h.digest_len() as int, h.hash_spec(key).len() as int) == key,
{
    lemma_hash_len(h, key);
    let out = h.hash_spec(key);
    assert(out.subrange(h.digest_len() as int, out.len() as int) =~= key);
}

} // verus!
