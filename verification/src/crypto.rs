//! Hashing and signature primitives that the capability model is built on.
//!
//! Both primitives come from audited outside crates; their behaviour is
//! named here (`sha256`, `ed25519_accepts`) rather than restated.

use vstd::prelude::*;
use sha2::Digest;

verus! {

/// Cryptographic identity of an Axiom capability.
pub type CapabilityHash = [u8; 32];

/// Ed25519 signature, in its 64-byte wire encoding.
pub type Ed25519Signature = [u8; 64];

/// Ed25519 public key, in its 32-byte compressed encoding.
pub type Ed25519PublicKey = [u8; 32];

/// The SHA-256 digest of a byte string.
pub uninterp spec fn sha256(data: Seq<u8>) -> Seq<u8>;

/// Whether Ed25519 verification (RFC 8032, as `ed25519_dalek` performs it)
/// accepts `signature` over `message` for the encoded `public_key`.  It is
/// false when the key bytes do not decode to a curve point.
pub uninterp spec fn ed25519_accepts(public_key: Seq<u8>, message: Seq<u8>, signature: Seq<u8>) -> bool;

/// The all-zero hash that marks a capability as a lineage root.
pub open spec fn genesis_hash_spec() -> Seq<u8> {
    Seq::new(32, |i: int| 0u8)
}

/// The special parent hash used by the Genesis capability: all zeros.
pub fn genesis_hash() -> (h: CapabilityHash)
    ensures
        h@ == genesis_hash_spec(),
{
    let h = [0u8; 32];
    assert(h@ =~= genesis_hash_spec());
    h
}

/// Compute SHA-256 over arbitrary bytes.
///
/// Trusted: calls `sha2::Sha256::digest`; the contract claims only that the
/// result is the SHA-256 digest of `data`, a deterministic function of it.
#[verifier::external_body]
pub fn compute_hash(data: &[u8]) -> (hash: CapabilityHash)
    ensures
        hash@ == sha256(data@),
{
    sha2::Sha256::digest(data).into()
}

/// Verify an Ed25519 signature.
///
/// Trusted: decodes the key with `ed25519_dalek::VerifyingKey::from_bytes`
/// and the signature with `ed25519_dalek::Signature::from_bytes`, then calls
/// `Verifier::verify`.  The contract claims that the answer is a fixed
/// function of the three byte strings; it says nothing of which inputs verify.
#[verifier::external_body]
pub fn verify_signature(
    public_key: &Ed25519PublicKey,
    message: &[u8],
    signature: &Ed25519Signature,
) -> (ok: bool)
    ensures
        ok == ed25519_accepts(public_key@, message@, signature@),
{
    match ed25519_dalek::VerifyingKey::from_bytes(public_key) {
        Ok(key) => ed25519_dalek::Verifier::verify(
            &key,
            message,
            &ed25519_dalek::Signature::from_bytes(signature),
        ).is_ok(),
        Err(_) => false,
    }
}

/// Byte-wise equality of two hashes.
pub fn hash_eq(a: &CapabilityHash, b: &CapabilityHash) -> (eq: bool)
    ensures
        eq == (a@ == b@),
{
    let mut i: usize = 0;
    while i < 32
        invariant
            0 <= i <= 32,
            a@.len() == 32,
            b@.len() == 32,
            forall|j: int| 0 <= j < i ==> a@[j] == b@[j],
        decreases 32 - i,
    {
        if a[i] != b[i] {
            return false;
        }
        i = i + 1;
    }
    assert(a@ =~= b@);
    true
}

/// Appends `bytes` to the end of `out`.
pub fn append_bytes(out: &mut Vec<u8>, bytes: &[u8])
    ensures
        final(out)@ == old(out)@ + bytes@,
{
    let n = bytes.len();
    let mut i: usize = 0;
    while i < n
        invariant
            0 <= i <= n,
            n == bytes@.len(),
            out@ == old(out)@ + bytes@.subrange(0, i as int),
        decreases n - i,
    {
        out.push(bytes[i]);
        assert(bytes@.subrange(0, i + 1) =~= bytes@.subrange(0, i as int).push(bytes@[i as int]));
        i = i + 1;
    }
    assert(bytes@.subrange(0, n as int) =~= bytes@);
}

} // verus!
