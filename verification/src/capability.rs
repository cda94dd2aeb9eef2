//! Capabilities, invocations, and the byte encodings that are hashed and
//! signed: a capability's identity payload and the three signed messages
//! (issuance, genesis, invocation).

use vstd::prelude::*;
use vstd::bytes::{spec_u32_to_le_bytes, spec_u64_to_le_bytes, u32_to_le_bytes, u64_to_le_bytes};
use crate::crypto::{
    CapabilityHash, Ed25519PublicKey, Ed25519Signature, append_bytes, compute_hash, sha256,
};

pub use crate::validator::RejectReason;

verus! {

/// Authority bit: read the target object.
pub const AUTH_READ: u64 = 1;

/// Authority bit: write the target object.
pub const AUTH_WRITE: u64 = 2;

/// Authority bit: delegate (issue children of) this capability.
pub const AUTH_DELEGATE: u64 = 4;

/// Attenuating constraints evaluated at invocation.
#[derive(Debug, Clone, Copy)]
pub struct Membrane {
    pub expires_at_epoch: Option<u64>,
    pub max_invocations: Option<u32>,
}

/// A reference to a capability by its identity hash.
#[derive(Debug, Clone, Copy)]
pub struct CapabilityRef {
    pub hash: CapabilityHash,
}

/// A capability: authority over one target object, bound to an owner key
/// and signed by the owner of its parent.
#[derive(Debug, Clone, Copy)]
pub struct Capability {
    pub target_object: CapabilityHash,
    pub authority_mask: u64,
    pub parent_hash: CapabilityHash,
    pub membrane: Option<Membrane>,
    pub epoch_issued: u64,
    /// The identity allowed to invoke this capability.
    pub owner_key: Ed25519PublicKey,
    /// The signature of the parent capability's owner over the issuance message.
    pub issuer_signature: Ed25519Signature,
}

/// A request to perform `operation` through a capability, signed by its owner.
#[derive(Debug, Clone, Copy)]
pub struct Invocation {
    pub capability: CapabilityRef,
    pub operation: u64,
    pub nonce: u64,
    pub invocation_signature: Ed25519Signature,
}

/// Encoding of an optional `u64`: a presence byte, then the value little-endian.
pub open spec fn optional_u64_encoding(v: Option<u64>) -> Seq<u8> {
    match v {
        Some(x) => seq![1u8] + spec_u64_to_le_bytes(x),
        None => seq![0u8],
    }
}

/// Encoding of an optional `u32`: a presence byte, then the value little-endian.
pub open spec fn optional_u32_encoding(v: Option<u32>) -> Seq<u8> {
    match v {
        Some(x) => seq![1u8] + spec_u32_to_le_bytes(x),
        None => seq![0u8],
    }
}

/// Encoding of an optional membrane: a presence byte, then its two fields.
pub open spec fn membrane_encoding(m: Option<Membrane>) -> Seq<u8> {
    match m {
        Some(m) => seq![1u8] + optional_u64_encoding(m.expires_at_epoch) + optional_u32_encoding(
            m.max_invocations,
        ),
        None => seq![0u8],
    }
}

/// The bytes that a capability's identity hash is taken over: every field
/// but the issuer signature, in a fixed order and fixed-width encoding.
pub open spec fn identity_payload(cap: Capability) -> Seq<u8> {
    cap.target_object@ + spec_u64_to_le_bytes(cap.authority_mask) + cap.parent_hash@
        + cap.owner_key@ + spec_u64_to_le_bytes(cap.epoch_issued) + membrane_encoding(cap.membrane)
}

/// A capability's identity hash.
pub open spec fn identity_of(cap: Capability) -> Seq<u8> {
    sha256(identity_payload(cap))
}

/// Domain tag of issuance messages: `AXIOM/CAPABILITY-ISSUANCE/V1`.
pub open spec fn issuance_tag_spec() -> Seq<u8> {
    seq![
        65u8, 88, 73, 79, 77, 47, 67, 65, 80, 65, 66, 73, 76, 73, 84, 89, 45, 73, 83, 83, 85, 65,
        78, 67, 69, 47, 86, 49,
    ]
}

/// Domain tag of genesis messages: `AXIOM/GENESIS/V1`.
pub open spec fn genesis_tag_spec() -> Seq<u8> {
    seq![65u8, 88, 73, 79, 77, 47, 71, 69, 78, 69, 83, 73, 83, 47, 86, 49]
}

/// Domain tag of invocation messages: `AXIOM/INVOCATION/V1`.
pub open spec fn invocation_tag_spec() -> Seq<u8> {
    seq![65u8, 88, 73, 79, 77, 47, 73, 78, 86, 79, 67, 65, 84, 73, 79, 78, 47, 86, 49]
}

/// The message that a parent's owner signs to issue `child`.
pub open spec fn issuance_message(child: Capability) -> Seq<u8> {
    issuance_tag_spec() + identity_of(child)
}

/// The message that the hardware root key signs to anchor `genesis`.
pub open spec fn genesis_message(genesis: Capability) -> Seq<u8> {
    genesis_tag_spec() + identity_of(genesis)
}

/// The message that a capability's owner signs to invoke it:
/// tag, capability hash, operation and nonce (both little-endian).
pub open spec fn invocation_message(inv: Invocation) -> Seq<u8> {
    invocation_tag_spec() + inv.capability.hash@ + spec_u64_to_le_bytes(inv.operation)
        + spec_u64_to_le_bytes(inv.nonce)
}

fn append_u64(out: &mut Vec<u8>, x: u64)
    ensures
        final(out)@ == old(out)@ + spec_u64_to_le_bytes(x),
{
    let bytes = u64_to_le_bytes(x);
    append_bytes(out, bytes.as_slice());
}

fn append_u32(out: &mut Vec<u8>, x: u32)
    ensures
        final(out)@ == old(out)@ + spec_u32_to_le_bytes(x),
{
    let bytes = u32_to_le_bytes(x);
    append_bytes(out, bytes.as_slice());
}

impl Capability {
    /// The identity payload of this capability, as bytes.
    pub fn identity_payload(&self) -> (payload: Vec<u8>)
        ensures
            payload@ == identity_payload(*self),
    {
        let mut payload: Vec<u8> = Vec::new();
        append_bytes(&mut payload, &self.target_object);
        append_u64(&mut payload, self.authority_mask);
        append_bytes(&mut payload, &self.parent_hash);
        append_bytes(&mut payload, &self.owner_key);
        append_u64(&mut payload, self.epoch_issued);
        let ghost fixed = payload@;
        match &self.membrane {
            Some(membrane) => {
                payload.push(1);
                match membrane.expires_at_epoch {
                    Some(epoch) => {
                        payload.push(1);
                        append_u64(&mut payload, epoch);
                    },
                    None => payload.push(0),
                }
                match membrane.max_invocations {
                    Some(max) => {
                        payload.push(1);
                        append_u32(&mut payload, max);
                    },
                    None => payload.push(0),
                }
            },
            None => {
                payload.push(0);
            },
        }
        assert(payload@ =~= fixed + membrane_encoding(self.membrane));
        payload
    }

    /// The capability's identity hash: SHA-256 of its identity payload.
    pub fn identity_hash(&self) -> (hash: CapabilityHash)
        ensures
            hash@ == identity_of(*self),
    {
        let payload = self.identity_payload();
        compute_hash(payload.as_slice())
    }
}

/// The bytes of `AXIOM/CAPABILITY-ISSUANCE/V1`.
pub fn issuance_tag() -> (tag: Vec<u8>)
    ensures
        tag@ == issuance_tag_spec(),
{
    let tag = vec![
        65u8, 88, 73, 79, 77, 47, 67, 65, 80, 65, 66, 73, 76, 73, 84, 89, 45, 73, 83, 83, 85, 65,
        78, 67, 69, 47, 86, 49,
    ];
    assert(tag@ =~= issuance_tag_spec());
    tag
}

/// The bytes of `AXIOM/GENESIS/V1`.
pub fn genesis_tag() -> (tag: Vec<u8>)
    ensures
        tag@ == genesis_tag_spec(),
{
    let tag = vec![65u8, 88, 73, 79, 77, 47, 71, 69, 78, 69, 83, 73, 83, 47, 86, 49];
    assert(tag@ =~= genesis_tag_spec());
    tag
}

/// The bytes of `AXIOM/INVOCATION/V1`.
pub fn invocation_tag() -> (tag: Vec<u8>)
    ensures
        tag@ == invocation_tag_spec(),
{
    let tag = vec![65u8, 88, 73, 79, 77, 47, 73, 78, 86, 79, 67, 65, 84, 73, 79, 78, 47, 86, 49];
    assert(tag@ =~= invocation_tag_spec());
    tag
}

/// The message that the owner of `child`'s parent signs to issue it.
pub fn issuance_payload(child: &Capability) -> (m: Vec<u8>)
    ensures
        m@ == issuance_message(*child),
{
    let mut payload = issuance_tag();
    let hash = child.identity_hash();
    append_bytes(&mut payload, &hash);
    payload
}

/// The message that the hardware root key signs to anchor `genesis`.
pub fn genesis_payload(genesis: &Capability) -> (m: Vec<u8>)
    ensures
        m@ == genesis_message(*genesis),
{
    let mut payload = genesis_tag();
    let hash = genesis.identity_hash();
    append_bytes(&mut payload, &hash);
    payload
}

/// The message that a capability's owner signs to make `invocation`:
/// `[ tag | capability hash (32) | operation (8, LE) | nonce (8, LE) ]`.
pub fn invocation_payload(invocation: &Invocation) -> (m: Vec<u8>)
    ensures
        m@ == invocation_message(*invocation),
{
    let mut payload = invocation_tag();
    append_bytes(&mut payload, &invocation.capability.hash);
    append_u64(&mut payload, invocation.operation);
    append_u64(&mut payload, invocation.nonce);
    payload
}

} // verus!
