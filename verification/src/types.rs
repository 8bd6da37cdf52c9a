//! Ground types of the protocol: identities, rounds, content digests and the
//! symbolic signature model.
//!
//! The signature backend is out of the core's scope, so signatures are modeled
//! symbolically: a signature records the key that produced it and the digest it
//! was produced over, and verification checks exactly those two facts. The
//! content digest is a deterministic (non-cryptographic) 256-bit mix of the
//! canonical encoding of a value; collision resistance is not modeled.

use vstd::prelude::*;

verus! {

/// Identity of a validator: its public key, modeled as a plain integer.
pub type PublicKey = u64;

/// A network address, modeled as a plain integer; the transport layer maps it
/// to a real socket address.
pub type Address = u64;

/// Monotonically increasing round counter; round 0 is the genesis round.
pub type RoundNumber = u64;

/// View counter, incremented on each fallback entry.
pub type ViewNumber = u64;

/// Height of a block in the chain.
pub type HeightNumber = u64;

/// The multiplier of the 64-bit FNV-1a mixing step.
pub const MIX_PRIME: u64 = 0x100000001b3;

/// Offset basis of the first digest lane (the FNV-1a 64-bit basis).
pub const MIX_BASIS_0: u64 = 0xcbf29ce484222325;

/// Offset basis of the second digest lane.
pub const MIX_BASIS_1: u64 = 0x84222325cbf29ce4;

/// Offset basis of the third digest lane.
pub const MIX_BASIS_2: u64 = 0x9ce484222325cbf2;

/// Offset basis of the fourth digest lane.
pub const MIX_BASIS_3: u64 = 0x25cbf29ce4842223;

/// One FNV-1a step: xor the next byte into the accumulator, then multiply by
/// the prime modulo 2^64.
pub open spec fn mix_step(h: u64, b: u8) -> u64 {
    ((((h ^ (b as u64)) as u128) * (MIX_PRIME as u128)) % 0x10000000000000000) as u64
}

/// The accumulator after mixing the first `i` bytes of `s` into `h0`.
pub open spec fn mix_prefix(h0: u64, s: Seq<u8>, i: int) -> u64
    decreases i,
{
    if i <= 0 {
        h0
    } else {
        mix_step(mix_prefix(h0, s, i - 1), s[i - 1])
    }
}

/// The accumulator after mixing all of `s` into `h0`.
pub open spec fn mix_seq(h0: u64, s: Seq<u8>) -> u64 {
    mix_prefix(h0, s, s.len() as int)
}

/// A 256-bit content digest: four independent 64-bit mixing lanes.
#[derive(Clone, Copy, PartialEq, Eq, Structural, Debug, Hash)]
pub struct Digest {
    pub w0: u64,
    pub w1: u64,
    pub w2: u64,
    pub w3: u64,
}

/// The digest of a byte sequence: each lane mixes the whole sequence from its
/// own offset basis.
pub open spec fn digest_of_bytes(s: Seq<u8>) -> Digest {
    Digest {
        w0: mix_seq(MIX_BASIS_0, s),
        w1: mix_seq(MIX_BASIS_1, s),
        w2: mix_seq(MIX_BASIS_2, s),
        w3: mix_seq(MIX_BASIS_3, s),
    }
}

/// Mixes all bytes of `bytes` into the accumulator `h0`.
fn mix_all(h0: u64, bytes: &Vec<u8>) -> (h: u64)
    ensures
        h == mix_seq(h0, bytes@),
{
    let mut h: u64 = h0;
    let mut i: usize = 0;
    while i < bytes.len()
        invariant
            i <= bytes@.len(),
            h == mix_prefix(h0, bytes@, i as int),
        decreases bytes@.len() - i,
    {
        let x: u64 = h ^ (bytes[i] as u64);
        let prod: u128 = (x as u128) * (MIX_PRIME as u128);
        let rem: u128 = prod % 0x10000000000000000u128;
        h = rem as u64;
        i = i + 1;
    }
    h
}

impl Digest {
    /// Computes the digest of a byte sequence.
    pub fn of_bytes(bytes: &Vec<u8>) -> (r: Digest)
        ensures
            r == digest_of_bytes(bytes@),
    {
        Digest {
            w0: mix_all(MIX_BASIS_0, bytes),
            w1: mix_all(MIX_BASIS_1, bytes),
            w2: mix_all(MIX_BASIS_2, bytes),
            w3: mix_all(MIX_BASIS_3, bytes),
        }
    }

    /// The all-zero digest, the identity of the genesis certificate.
    pub fn zero() -> (r: Digest)
        ensures
            r == Digest::spec_zero(),
    {
        Digest { w0: 0, w1: 0, w2: 0, w3: 0 }
    }

    /// The all-zero digest.
    pub open spec fn spec_zero() -> Digest {
        Digest { w0: 0, w1: 0, w2: 0, w3: 0 }
    }
}

/// A signature, modeled symbolically: it names its signer and the digest it
/// covers, and verifies for exactly that pair.
#[derive(Clone, Copy, PartialEq, Eq, Structural, Debug)]
pub struct Signature {
    pub signer: PublicKey,
    pub content: Digest,
}

impl Signature {
    /// Whether this signature is by `key` over `digest`.
    pub open spec fn spec_verify(self, key: PublicKey, digest: Digest) -> bool {
        self.signer == key && self.content == digest
    }

    /// Checks that this signature is by `key` over `digest`.
    pub fn verify(&self, key: PublicKey, digest: Digest) -> (r: bool)
        ensures
            r == self.spec_verify(key, digest),
    {
        self.signer == key && self.content == digest
    }
}

/// The private half of a key pair. In the symbolic model it carries the
/// public identity it signs for.
#[derive(Clone, Copy, PartialEq, Eq, Structural, Debug)]
pub struct SecretKey {
    pub name: PublicKey,
}

impl SecretKey {
    /// Signs a digest.
    pub fn sign(&self, digest: Digest) -> (r: Signature)
        ensures
            r.signer == self.name,
            r.content == digest,
            r.spec_verify(self.name, digest),
    {
        Signature { signer: self.name, content: digest }
    }
}

} // verus!
