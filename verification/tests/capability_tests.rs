use ed25519_dalek::{Signer, SigningKey};
use sha2::Digest;

use axiom_os::capability::{
    genesis_payload, invocation_payload, issuance_payload, Capability, CapabilityRef, Invocation,
    Membrane, RejectReason, AUTH_DELEGATE, AUTH_READ, AUTH_WRITE,
};
use axiom_os::crypto::{compute_hash, genesis_hash, hash_eq, verify_signature};
use axiom_os::store::{CapabilityStore, GenesisRoot, Tombstone};
use axiom_os::table::{ByteKeyMap, NonceSet};
use axiom_os::validator::{verify_delegation, ValidationResult, Validator};

fn key(seed: u8) -> SigningKey {
    SigningKey::from_bytes(&[seed; 32])
}

fn capability(target: [u8; 32], mask: u64, parent: [u8; 32], epoch: u64, owner: &SigningKey, issuer: &SigningKey) -> Capability {
    let mut cap = Capability {
        target_object: target,
        authority_mask: mask,
        parent_hash: parent,
        membrane: None,
        epoch_issued: epoch,
        owner_key: owner.verifying_key().to_bytes(),
        issuer_signature: [0u8; 64],
    };
    cap.issuer_signature = issuer.sign(&issuance_payload(&cap)).to_bytes();
    cap
}

fn invoke(signer: &SigningKey, hash: [u8; 32], operation: u64, nonce: u64) -> Invocation {
    let mut inv = Invocation {
        capability: CapabilityRef { hash },
        operation,
        nonce,
        invocation_signature: [0u8; 64],
    };
    inv.invocation_signature = signer.sign(&invocation_payload(&inv)).to_bytes();
    inv
}

struct World {
    store: CapabilityStore,
    nonces: NonceSet,
    root: SigningKey,
    object: [u8; 32],
    genesis_hash: [u8; 32],
}

impl World {
    fn new(mask: u64) -> World {
        let root = key(1);
        let object = compute_hash(b"object");
        let genesis = Capability {
            target_object: object,
            authority_mask: mask,
            parent_hash: genesis_hash(),
            membrane: None,
            epoch_issued: 0,
            owner_key: root.verifying_key().to_bytes(),
            issuer_signature: [0u8; 64],
        };
        let root_signature = root.sign(&genesis_payload(&genesis)).to_bytes();
        let genesis_hash = genesis.identity_hash();
        World {
            store: CapabilityStore::new(GenesisRoot { capability: genesis, root_signature }),
            nonces: NonceSet::new(),
            root,
            object,
            genesis_hash,
        }
    }

    fn validate(&mut self, epoch: u64, inv: &Invocation) -> ValidationResult {
        let hw = self.root.verifying_key().to_bytes();
        let mut v = Validator::new(&self.store, epoch, &mut self.nonces, &hw);
        v.validate(inv)
    }
}

#[test]
fn compute_hash_is_sha256() {
    let h = compute_hash(b"abc");
    let expected: [u8; 32] = [
        0xba, 0x78, 0x16, 0xbf, 0x8f, 0x01, 0xcf, 0xea, 0x41, 0x41, 0x40, 0xde, 0x5d, 0xae, 0x22,
        0x23, 0xb0, 0x03, 0x61, 0xa3, 0x96, 0x17, 0x7a, 0x9c, 0xb4, 0x10, 0xff, 0x61, 0xf2, 0x00,
        0x15, 0xad,
    ];
    assert_eq!(h, expected);
}

#[test]
fn verify_signature_accepts_only_the_signed_message() {
    let k = key(7);
    let sig = k.sign(b"message").to_bytes();
    let pk = k.verifying_key().to_bytes();
    assert!(verify_signature(&pk, b"message", &sig));
    assert!(!verify_signature(&pk, b"messagf", &sig));
    assert!(!verify_signature(&key(8).verifying_key().to_bytes(), b"message", &sig));
}

#[test]
fn identity_hash_covers_payload_fields() {
    let owner = key(2);
    let cap = Capability {
        target_object: [3u8; 32],
        authority_mask: 0x0102,
        parent_hash: [4u8; 32],
        membrane: Some(Membrane { expires_at_epoch: Some(9), max_invocations: None }),
        epoch_issued: 5,
        owner_key: owner.verifying_key().to_bytes(),
        issuer_signature: [0u8; 64],
    };
    let mut payload = Vec::new();
    payload.extend_from_slice(&[3u8; 32]);
    payload.extend_from_slice(&0x0102u64.to_le_bytes());
    payload.extend_from_slice(&[4u8; 32]);
    payload.extend_from_slice(&owner.verifying_key().to_bytes());
    payload.extend_from_slice(&5u64.to_le_bytes());
    payload.extend_from_slice(&[1, 1]);
    payload.extend_from_slice(&9u64.to_le_bytes());
    payload.push(0);
    assert_eq!(cap.identity_payload(), payload);
    let expected: [u8; 32] = sha2::Sha256::digest(&payload).into();
    assert_eq!(cap.identity_hash(), expected);

    let mut resigned = cap;
    resigned.issuer_signature = [9u8; 64];
    assert_eq!(resigned.identity_hash(), cap.identity_hash());

    let mut other = cap;
    other.membrane = None;
    assert_ne!(other.identity_hash(), cap.identity_hash());
}

#[test]
fn identity_payload_encodes_max_invocations() {
    let cap = Capability {
        target_object: [0u8; 32],
        authority_mask: 0,
        parent_hash: [0u8; 32],
        membrane: Some(Membrane { expires_at_epoch: None, max_invocations: Some(0x01020304) }),
        epoch_issued: 0,
        owner_key: [0u8; 32],
        issuer_signature: [0u8; 64],
    };
    let p = cap.identity_payload();
    assert_eq!(p.len(), 112 + 1 + 1 + 1 + 4);
    assert_eq!(&p[112..], &[1, 0, 1, 4, 3, 2, 1]);
}

#[test]
fn payloads_have_domain_tags() {
    let cap = capability([0u8; 32], 0, [0u8; 32], 0, &key(1), &key(1));
    let h = cap.identity_hash();
    let mut expected = b"AXIOM/CAPABILITY-ISSUANCE/V1".to_vec();
    expected.extend_from_slice(&h);
    assert_eq!(issuance_payload(&cap), expected);
    let mut expected = b"AXIOM/GENESIS/V1".to_vec();
    expected.extend_from_slice(&h);
    assert_eq!(genesis_payload(&cap), expected);
    let inv = Invocation {
        capability: CapabilityRef { hash: [7u8; 32] },
        operation: 2,
        nonce: 0x0a0b,
        invocation_signature: [0u8; 64],
    };
    let mut expected = b"AXIOM/INVOCATION/V1".to_vec();
    expected.extend_from_slice(&[7u8; 32]);
    expected.extend_from_slice(&2u64.to_le_bytes());
    expected.extend_from_slice(&0x0a0bu64.to_le_bytes());
    assert_eq!(invocation_payload(&inv), expected);
}

#[test]
fn hash_eq_compares_bytes() {
    let mut a = [5u8; 32];
    let b = [5u8; 32];
    assert!(hash_eq(&a, &b));
    a[31] = 6;
    assert!(!hash_eq(&a, &b));
    assert_eq!(genesis_hash(), [0u8; 32]);
}

#[test]
fn valid_chain_is_accepted_and_replay_is_refused() {
    let mut w = World::new(AUTH_READ | AUTH_WRITE | AUTH_DELEGATE);
    let alice = key(2);
    let bob = key(3);
    let child = capability(w.object, AUTH_READ | AUTH_DELEGATE, w.genesis_hash, 1, &alice, &w.root);
    let child_hash = w.store.issue(child).unwrap();
    assert_eq!(child_hash, child.identity_hash());
    assert_eq!(w.store.get_capability(&child_hash).unwrap().authority_mask, AUTH_READ | AUTH_DELEGATE);
    let grandchild = capability(w.object, AUTH_READ, child_hash, 2, &bob, &alice);
    let gc_hash = w.store.issue(grandchild).unwrap();

    let inv = invoke(&bob, gc_hash, AUTH_READ, 42);
    assert_eq!(w.validate(3, &inv), ValidationResult::Valid);
    assert!(w.nonces.contains(&(gc_hash, 42)));
    // The same invocation again: its nonce is consumed.
    assert_eq!(w.validate(3, &inv), ValidationResult::Rejected(RejectReason::InvalidNonce));
    // A fresh nonce is accepted.
    let inv2 = invoke(&bob, gc_hash, AUTH_READ, 43);
    assert_eq!(w.validate(3, &inv2), ValidationResult::Valid);
}

#[test]
fn rejected_invocation_consumes_no_nonce() {
    let mut w = World::new(AUTH_READ | AUTH_DELEGATE);
    let alice = key(2);
    let child = capability(w.object, AUTH_READ, w.genesis_hash, 1, &alice, &w.root);
    let h = w.store.issue(child).unwrap();
    let forged = invoke(&key(9), h, AUTH_READ, 1);
    assert_eq!(w.validate(1, &forged), ValidationResult::Rejected(RejectReason::InvalidSignature));
    assert!(!w.nonces.contains(&(h, 1)));
    let good = invoke(&alice, h, AUTH_READ, 1);
    assert_eq!(w.validate(1, &good), ValidationResult::Valid);
}

#[test]
fn revoking_an_ancestor_revokes_the_lineage() {
    let mut w = World::new(AUTH_READ | AUTH_DELEGATE);
    let alice = key(2);
    let bob = key(3);
    let child = capability(w.object, AUTH_READ | AUTH_DELEGATE, w.genesis_hash, 1, &alice, &w.root);
    let child_hash = w.store.issue(child).unwrap();
    let grandchild = capability(w.object, AUTH_READ, child_hash, 1, &bob, &alice);
    let gc_hash = w.store.issue(grandchild).unwrap();
    assert!(!w.store.is_revoked(&child_hash));
    w.store.mark_tombstone(child_hash, Tombstone { revoked_at_epoch: 2, issuer_signature: [0u8; 64] });
    assert!(w.store.is_revoked(&child_hash));
    assert_eq!(w.validate(2, &invoke(&bob, gc_hash, AUTH_READ, 1)), ValidationResult::Rejected(RejectReason::Revoked));
    assert_eq!(w.validate(2, &invoke(&alice, child_hash, AUTH_READ, 1)), ValidationResult::Rejected(RejectReason::Revoked));
}

#[test]
fn revoking_genesis_revokes_everything() {
    let mut w = World::new(AUTH_READ | AUTH_DELEGATE);
    let alice = key(2);
    let child = capability(w.object, AUTH_READ, w.genesis_hash, 1, &alice, &w.root);
    let h = w.store.issue(child).unwrap();
    let g = w.genesis_hash;
    w.store.mark_tombstone(g, Tombstone { revoked_at_epoch: 1, issuer_signature: [0u8; 64] });
    assert_eq!(w.validate(1, &invoke(&alice, h, AUTH_READ, 1)), ValidationResult::Rejected(RejectReason::Revoked));
}

#[test]
fn unknown_capability_is_not_found() {
    let mut w = World::new(AUTH_READ);
    let inv = invoke(&key(2), [8u8; 32], AUTH_READ, 1);
    assert_eq!(w.validate(1, &inv), ValidationResult::Rejected(RejectReason::CapabilityNotFound));
}

#[test]
fn future_capability_is_epoch_invalid() {
    let mut w = World::new(AUTH_READ | AUTH_DELEGATE);
    let alice = key(2);
    let child = capability(w.object, AUTH_READ, w.genesis_hash, 5, &alice, &w.root);
    let h = w.store.issue(child).unwrap();
    assert_eq!(w.validate(4, &invoke(&alice, h, AUTH_READ, 1)), ValidationResult::Rejected(RejectReason::EpochInvalid));
    assert_eq!(w.validate(5, &invoke(&alice, h, AUTH_READ, 1)), ValidationResult::Valid);
}

#[test]
fn expired_membrane_is_a_violation() {
    let mut w = World::new(AUTH_READ | AUTH_DELEGATE);
    let alice = key(2);
    let mut child = Capability {
        target_object: w.object,
        authority_mask: AUTH_READ,
        parent_hash: w.genesis_hash,
        membrane: Some(Membrane { expires_at_epoch: Some(3), max_invocations: Some(10) }),
        epoch_issued: 1,
        owner_key: alice.verifying_key().to_bytes(),
        issuer_signature: [0u8; 64],
    };
    child.issuer_signature = w.root.sign(&issuance_payload(&child)).to_bytes();
    let h = w.store.issue(child).unwrap();
    assert_eq!(w.validate(3, &invoke(&alice, h, AUTH_READ, 1)), ValidationResult::Valid);
    assert_eq!(w.validate(4, &invoke(&alice, h, AUTH_READ, 2)), ValidationResult::Rejected(RejectReason::MembraneViolation));
}

#[test]
fn delegation_requires_delegate_bit() {
    let mut w = World::new(AUTH_READ);
    let alice = key(2);
    let child = capability(w.object, AUTH_READ, w.genesis_hash, 1, &alice, &w.root);
    assert_eq!(w.store.issue(child), Err(RejectReason::DelegationNotPermitted));
}

#[test]
fn delegation_requires_same_target() {
    let mut w = World::new(AUTH_READ | AUTH_DELEGATE);
    let child = capability([1u8; 32], AUTH_READ, w.genesis_hash, 1, &key(2), &w.root);
    assert_eq!(w.store.issue(child), Err(RejectReason::AuthorityViolation));
    let parent = w.store.get_genesis().capability;
    assert_eq!(verify_delegation(&child, &parent), Err(RejectReason::AuthorityViolation));
}

#[test]
fn injected_capability_without_genesis_root_is_unknown_parent() {
    let mut w = World::new(AUTH_READ | AUTH_DELEGATE);
    let alice = key(2);
    let orphan = capability(w.object, AUTH_READ, [6u8; 32], 1, &alice, &alice);
    let h = w.store.inject_for_test(orphan);
    assert_eq!(h, orphan.identity_hash());
    assert_eq!(w.validate(1, &invoke(&alice, h, AUTH_READ, 1)), ValidationResult::Rejected(RejectReason::UnknownParent));
}

#[test]
fn corrupted_graph_cycle_is_detected() {
    let mut w = World::new(AUTH_READ | AUTH_DELEGATE);
    let a_key = key(2);
    let b_key = key(3);
    let p = compute_hash(b"p");
    // A's parent is stored under P; the capability under P names A as its parent.
    let mut a = Capability {
        target_object: w.object,
        authority_mask: AUTH_READ | AUTH_DELEGATE,
        parent_hash: p,
        membrane: None,
        epoch_issued: 1,
        owner_key: a_key.verifying_key().to_bytes(),
        issuer_signature: [0u8; 64],
    };
    a.issuer_signature = b_key.sign(&issuance_payload(&a)).to_bytes();
    let a_hash = a.identity_hash();
    let b = capability(w.object, AUTH_READ | AUTH_DELEGATE, a_hash, 1, &b_key, &a_key);
    w.store.corrupt_capability_for_test(a_hash, a);
    w.store.corrupt_capability_for_test(p, b);
    assert_eq!(w.validate(1, &invoke(&a_key, a_hash, AUTH_READ, 1)), ValidationResult::Rejected(RejectReason::CycleDetected));
}

#[test]
fn byte_key_map_insert_and_get() {
    let mut m: ByteKeyMap<u64> = ByteKeyMap::new();
    assert!(m.get(&[1u8; 32]).is_none());
    m.insert([1u8; 32], 10);
    m.insert([2u8; 32], 20);
    m.insert([1u8; 32], 11);
    assert_eq!(m.get(&[1u8; 32]), Some(&11));
    assert_eq!(m.get(&[2u8; 32]), Some(&20));
    assert!(!m.contains_key(&[3u8; 32]));
}

#[test]
fn nonce_set_insert_reports_novelty() {
    let mut s = NonceSet::new();
    assert!(s.insert(([1u8; 32], 5)));
    assert!(!s.insert(([1u8; 32], 5)));
    assert!(s.insert(([1u8; 32], 6)));
    assert!(s.contains(&([1u8; 32], 6)));
    assert!(!s.contains(&([2u8; 32], 5)));
}
