//! The 64-bit chunk identifiers: truncated SHA-2 digests and an iterated
//! HMAC-style construction over SHA-256.
use crate::error::Error;
use crate::fb::{u64_le, Ptr};
use sha2::Digest;
use vstd::prelude::*;

verus! {

/// The algorithm that turns a chunk's plaintext into its id.
#[allow(non_camel_case_types)]
#[derive(Clone, Copy, Debug, PartialEq, Eq, Structural)]
pub enum HashType {
    NONE,
    SHA512,
    SHA256,
    HKDF,
}

/// The SHA-256 digest of `b`.
pub uninterp spec fn sha256_of(b: Seq<u8>) -> Seq<u8>;

/// The SHA-512 digest of `b`.
pub uninterp spec fn sha512_of(b: Seq<u8>) -> Seq<u8>;

/// Relies on `sha2::Sha256::digest`: the 32-byte SHA-256 digest of the input.
#[verifier::external_body]
fn sha256(b: &[u8]) -> (r: Vec<u8>)
    ensures
        r@ == sha256_of(b@),
        r@.len() == 32,
{
    sha2::Sha256::digest(b).to_vec()
}

/// Relies on `sha2::Sha512::digest`: the 64-byte SHA-512 digest of the input.
#[verifier::external_body]
fn sha512(b: &[u8]) -> (r: Vec<u8>)
    ensures
        r@ == sha512_of(b@),
        r@.len() == 64,
{
    sha2::Sha512::digest(b).to_vec()
}

/// The first eight bytes of a digest read as a little-endian integer.
pub open spec fn trunc64(h: Seq<u8>) -> u64 {
    u64_le(h, 0) as u64
}

/// The inner pad: the key's 32 bytes xor `0x36`, then 32 bytes of `0x36`.
pub open spec fn inner_pad(key: Seq<u8>) -> Seq<u8> {
    Seq::new(64, |i: int| if i < 32 { key[i] ^ 0x36u8 } else { 0x36u8 })
}

/// The outer pad: the key's 32 bytes xor `0x5C`, then 32 bytes of `0x5C`.
pub open spec fn outer_pad(key: Seq<u8>) -> Seq<u8> {
    Seq::new(64, |i: int| if i < 32 { key[i] ^ 0x5cu8 } else { 0x5cu8 })
}

/// One round: `SHA-256(opad || SHA-256(ipad || buf))`.
pub open spec fn mac_round(key: Seq<u8>, buf: Seq<u8>) -> Seq<u8> {
    sha256_of(outer_pad(key) + sha256_of(inner_pad(key) + buf))
}

/// The buffer after round `n`; round 0 starts from the big-endian index 1.
pub open spec fn round_buf(key: Seq<u8>, n: nat) -> Seq<u8>
    decreases n,
{
    if n == 0 {
        mac_round(key, seq![0u8, 0u8, 0u8, 1u8])
    } else {
        mac_round(key, round_buf(key, (n - 1) as nat))
    }
}

/// The xor of the truncated buffers of rounds `0..=n`.
pub open spec fn round_acc(key: Seq<u8>, n: nat) -> u64
    decreases n,
{
    if n == 0 {
        trunc64(round_buf(key, 0))
    } else {
        round_acc(key, (n - 1) as nat) ^ trunc64(round_buf(key, n))
    }
}

/// The iterated construction: 32 rounds keyed by the input's SHA-256 digest.
pub open spec fn hkdf_of(b: Seq<u8>) -> u64 {
    round_acc(sha256_of(b), 31)
}

/// The id that `t` gives to the plaintext `b`.
pub open spec fn hash_of(t: HashType, b: Seq<u8>) -> u64 {
    match t {
        HashType::NONE => 0,
        HashType::SHA512 => trunc64(sha512_of(b)),
        HashType::SHA256 => trunc64(sha256_of(b)),
        HashType::HKDF => hkdf_of(b),
    }
}

/// The hash type that a parameter block's byte names.
pub open spec fn hash_type_of(v: u8) -> Option<HashType> {
    if v == 0 {
        Some(HashType::NONE)
    } else if v == 1 {
        Some(HashType::SHA512)
    } else if v == 2 {
        Some(HashType::SHA256)
    } else if v == 3 {
        Some(HashType::HKDF)
    } else {
        None
    }
}

/// The first eight bytes of `digest` as a little-endian integer.
pub fn truncate_digest(digest: &[u8]) -> (r: u64)
    requires
        digest@.len() >= 8,
    ensures
        r == trunc64(digest@),
{
    let p = Ptr { data: digest, index: 0 };
    match p.get::<u64>() {
        Ok(v) => v,
        Err(_) => 0,
    }
}

/// `a` followed by `b`.
fn concat(a: &[u8], b: &[u8]) -> (r: Vec<u8>)
    ensures
        r@ == a@ + b@,
{
    let mut r: Vec<u8> = Vec::new();
    r.extend_from_slice(a);
    r.extend_from_slice(b);
    assert(r@ =~= a@ + b@);
    r
}

/// `key`'s first 32 bytes xor `fill`, then 32 bytes of `fill`.
fn make_pad(key: &[u8], fill: u8) -> (r: Vec<u8>)
    requires
        key@.len() == 32,
    ensures
        r@ == Seq::new(64, |i: int| if i < 32 { key@[i] ^ fill } else { fill }),
{
    let mut r: Vec<u8> = Vec::new();
    let mut i: usize = 0;
    while i < 64
        invariant
            key@.len() == 32,
            i <= 64,
            r@ =~= Seq::new(i as nat, |k: int| if k < 32 { key@[k] ^ fill } else { fill }),
        decreases 64 - i,
    {
        if i < 32 {
            r.push(key[i] ^ fill);
        } else {
            r.push(fill);
        }
        i = i + 1;
    }
    r
}

impl HashType {
    fn compute_sha256(input: &[u8]) -> (r: u64)
        ensures
            r == trunc64(sha256_of(input@)),
    {
        let digest = sha256(input);
        truncate_digest(digest.as_slice())
    }

    fn compute_sha512(input: &[u8]) -> (r: u64)
        ensures
            r == trunc64(sha512_of(input@)),
    {
        let digest = sha512(input);
        truncate_digest(digest.as_slice())
    }

    fn compute_hkdf(input: &[u8]) -> (r: u64)
        ensures
            r == hkdf_of(input@),
    {
        let key = sha256(input);
        let ghost k = key@;
        let ipad = make_pad(key.as_slice(), 0x36);
        let opad = make_pad(key.as_slice(), 0x5c);
        assert(ipad@ =~= inner_pad(k));
        assert(opad@ =~= outer_pad(k));
        let index: [u8; 4] = [0, 0, 0, 1];
        let inner = sha256(concat(ipad.as_slice(), index.as_slice()).as_slice());
        assert(index@ =~= seq![0u8, 0u8, 0u8, 1u8]);
        let mut buffer = sha256(concat(opad.as_slice(), inner.as_slice()).as_slice());
        let mut result = truncate_digest(buffer.as_slice());
        let mut n: usize = 0;
        while n < 31
            invariant
                n <= 31,
                ipad@ == inner_pad(k),
                opad@ == outer_pad(k),
                buffer@ == round_buf(k, n as nat),
                buffer@.len() == 32,
                result == round_acc(k, n as nat),
            decreases 31 - n,
        {
            let inner = sha256(concat(ipad.as_slice(), buffer.as_slice()).as_slice());
            buffer = sha256(concat(opad.as_slice(), inner.as_slice()).as_slice());
            result = result ^ truncate_digest(buffer.as_slice());
            n = n + 1;
        }
        result
    }

    /// The id of the plaintext `input` under this hash type.
    pub fn compute(self, input: &[u8]) -> (r: u64)
        ensures
            r == hash_of(self, input@),
    {
        match self {
            HashType::NONE => 0,
            HashType::SHA256 => Self::compute_sha256(input),
            HashType::SHA512 => Self::compute_sha512(input),
            HashType::HKDF => Self::compute_hkdf(input),
        }
    }

    /// The hash type that the byte `value` names.
    pub fn try_from(value: u8) -> (r: Result<HashType, Error>)
        ensures
            match r {
                Ok(t) => hash_type_of(value) == Some(t),
                Err(e) => hash_type_of(value) is None && e == Error::BadHashType,
            },
    {
        match value {
            0 => Ok(HashType::NONE),
            1 => Ok(HashType::SHA512),
            2 => Ok(HashType::SHA256),
            3 => Ok(HashType::HKDF),
            _ => Err(Error::BadHashType),
        }
    }
}

impl Default for HashType {
    fn default() -> (r: HashType)
        ensures
            r == HashType::NONE,
    {
        HashType::NONE
    }
}

} // verus!
