//! The validator: resolves an invocation, checks it against the store,
//! walks the capability's lineage back to the genesis anchor, and checks the
//! caller's proof of ownership.

use vstd::prelude::*;
use vstd::set_lib::lemma_len_subset;
use crate::capability::{
    AUTH_DELEGATE, Capability, Invocation, genesis_message, genesis_payload, identity_of,
    invocation_message, invocation_payload, issuance_message, issuance_payload,
};
use crate::crypto::{
    CapabilityHash, Ed25519PublicKey, ed25519_accepts, genesis_hash, genesis_hash_spec, hash_eq,
    verify_signature,
};
use crate::store::CapabilityStore;
use crate::table::NonceSet;

verus! {

/// The outcome of validating an invocation.
#[derive(Debug, Clone, Copy, PartialEq, Eq, Structural)]
pub enum ValidationResult {
    Valid,
    Rejected(RejectReason),
}

/// Why an invocation or an issuance was refused.
#[derive(Debug, Clone, Copy, PartialEq, Eq, Structural)]
pub enum RejectReason {
    CapabilityNotFound,
    CapabilityHashMismatch,
    InvalidSignature,
    UnknownParent,
    CycleDetected,
    DelegationNotPermitted,
    AuthorityViolation,
    Revoked,
    EpochInvalid,
    MembraneViolation,
    InvalidNonce,
    InvalidIssuerSignature,
    GenesisMismatch,
}


/// The checks on one delegation edge, in order: same target object, the
/// child not older than the parent, the parent allowed to delegate, no
/// authority bit in the child that the parent lacks, and the parent owner's
/// signature over the child's issuance message.
pub open spec fn delegation_check(child: Capability, parent: Capability) -> Result<(), RejectReason> {
    if child.target_object@ != parent.target_object@ {
        Err(RejectReason::AuthorityViolation)
    } else if child.epoch_issued < parent.epoch_issued {
        Err(RejectReason::EpochInvalid)
    } else if parent.authority_mask & AUTH_DELEGATE == 0 {
        Err(RejectReason::DelegationNotPermitted)
    } else if child.authority_mask & !parent.authority_mask != 0 {
        Err(RejectReason::AuthorityViolation)
    } else if !ed25519_accepts(parent.owner_key@, issuance_message(child), child.issuer_signature@) {
        Err(RejectReason::InvalidIssuerSignature)
    } else {
        Ok(())
    }
}

/// The checks on the root of a lineage: it is the store's genesis capability
/// (by identity), it has the genesis parent hash, it is owned by the hardware
/// root key, and the hardware root signed it.
pub open spec fn genesis_check(store: CapabilityStore, root_key: Seq<u8>, genesis: Capability) -> Result<(), RejectReason> {
    if identity_of(genesis) != identity_of(store.genesis().capability) {
        Err(RejectReason::GenesisMismatch)
    } else if genesis.parent_hash@ != genesis_hash_spec() {
        Err(RejectReason::GenesisMismatch)
    } else if genesis.owner_key@ != root_key {
        Err(RejectReason::GenesisMismatch)
    } else if !ed25519_accepts(root_key, genesis_message(genesis), store.genesis().root_signature@) {
        Err(RejectReason::InvalidIssuerSignature)
    } else {
        Ok(())
    }
}

/// The number of steps after which a lineage walk must have met a hash twice:
/// one more than the number of stored capabilities.
pub open spec fn lineage_bound(store: CapabilityStore) -> nat {
    store.capabilities().dom().len() + 1
}

/// The lineage walk from `current`, having already met the hashes in
/// `visited`, with `fuel` steps left before a repeat is certain.
pub open spec fn lineage_walk(
    store: CapabilityStore,
    root_key: Seq<u8>,
    current: Capability,
    visited: Set<Seq<u8>>,
    fuel: nat,
) -> Result<(), RejectReason>
    decreases fuel,
{
    if fuel == 0 {
        Err(RejectReason::CycleDetected)
    } else {
        let hash = identity_of(current);
        if visited.contains(hash) {
            Err(RejectReason::CycleDetected)
        } else if store.tombstones().contains_key(hash) {
            Err(RejectReason::Revoked)
        } else if current.parent_hash@ == genesis_hash_spec() {
            genesis_check(store, root_key, current)
        } else if !store.capabilities().contains_key(current.parent_hash@) {
            Err(RejectReason::UnknownParent)
        } else {
            let parent = store.capabilities()[current.parent_hash@];
            match delegation_check(current, parent) {
                Err(reason) => Err(reason),
                Ok(_) => lineage_walk(store, root_key, parent, visited.insert(hash), (fuel - 1) as nat),
            }
        }
    }
}

/// The verdict on the lineage of `start`: follow parent links from `start`,
/// rejecting a repeated hash, a tombstoned capability, a missing parent or an
/// invalid delegation edge, until a capability with the genesis parent hash,
/// which must pass the genesis checks.
pub open spec fn lineage_check(store: CapabilityStore, root_key: Seq<u8>, start: Capability) -> Result<(), RejectReason> {
    lineage_walk(store, root_key, start, Set::empty(), lineage_bound(store))
}

/// The replay-protection key of an invocation.
pub open spec fn nonce_key(invocation: Invocation) -> (Seq<u8>, u64) {
    (invocation.capability.hash@, invocation.nonce)
}

/// Whether the capability's membrane has expired at `epoch`.
pub open spec fn membrane_expired(cap: Capability, epoch: u64) -> bool {
    match cap.membrane {
        Some(m) => match m.expires_at_epoch {
            Some(expiry) => epoch > expiry,
            None => false,
        },
        None => false,
    }
}

/// The verdict on `invocation`, checked in order: the capability is present,
/// the nonce is fresh, the stored capability hashes to the reference, it was
/// issued no later than `epoch`, its membrane has not expired, its lineage is
/// valid, and its owner signed the invocation.
pub open spec fn validation_outcome(
    store: CapabilityStore,
    epoch: u64,
    consumed: Set<(Seq<u8>, u64)>,
    root_key: Seq<u8>,
    invocation: Invocation,
) -> ValidationResult {
    let hash = invocation.capability.hash@;
    if !store.capabilities().contains_key(hash) {
        ValidationResult::Rejected(RejectReason::CapabilityNotFound)
    } else {
        let cap = store.capabilities()[hash];
        if consumed.contains(nonce_key(invocation)) {
            ValidationResult::Rejected(RejectReason::InvalidNonce)
        } else if identity_of(cap) != hash {
            ValidationResult::Rejected(RejectReason::CapabilityHashMismatch)
        } else if cap.epoch_issued > epoch {
            ValidationResult::Rejected(RejectReason::EpochInvalid)
        } else if membrane_expired(cap, epoch) {
            ValidationResult::Rejected(RejectReason::MembraneViolation)
        } else {
            match lineage_check(store, root_key, cap) {
                Err(reason) => ValidationResult::Rejected(reason),
                Ok(_) => if !ed25519_accepts(
                    cap.owner_key@,
                    invocation_message(invocation),
                    invocation.invocation_signature@,
                ) {
                    ValidationResult::Rejected(RejectReason::InvalidSignature)
                } else {
                    ValidationResult::Valid
                },
            }
        }
    }
}

/// The identities of the stored capabilities.
pub open spec fn stored_identities(store: CapabilityStore) -> Set<Seq<u8>> {
    store.stored_capabilities().map_values(|c: Capability| identity_of(c)).to_set()
}

/// The stored identities are finitely many, no more than the stored
/// capabilities, and include the identity of every stored capability.
pub proof fn lemma_stored_identities(store: CapabilityStore)
    requires
        store.wf(),
    ensures
        stored_identities(store).finite(),
        stored_identities(store).len() <= store.capabilities().dom().len(),
        forall|k: Seq<u8>|
            #[trigger] store.capabilities().contains_key(k) ==> stored_identities(store).contains(
                identity_of(store.capabilities()[k]),
            ),
{
    store.lemma_stored_capabilities();
    let ids = store.stored_capabilities().map_values(|c: Capability| identity_of(c));
    ids.lemma_cardinality_of_set();
    assert forall|k: Seq<u8>| #[trigger] store.capabilities().contains_key(k) implies stored_identities(store).contains(
        identity_of(store.capabilities()[k]),
    ) by {
        let i = choose|i: int|
            0 <= i < store.stored_capabilities().len() && store.stored_capabilities()[i]
                == store.capabilities()[k];
        assert(ids[i] == identity_of(store.capabilities()[k]));
    }
}

/// Checks one delegation edge from `parent` to `child`.
pub fn verify_delegation(child: &Capability, parent: &Capability) -> (r: Result<(), RejectReason>)
    ensures
        r == delegation_check(*child, *parent),
{
    if !hash_eq(&child.target_object, &parent.target_object) {
        return Err(RejectReason::AuthorityViolation);
    }
    if child.epoch_issued < parent.epoch_issued {
        return Err(RejectReason::EpochInvalid);
    }
    if (parent.authority_mask & AUTH_DELEGATE) == 0 {
        return Err(RejectReason::DelegationNotPermitted);
    }
    // Child cannot possess bits that the parent lacks.
    if (child.authority_mask & !parent.authority_mask) != 0 {
        return Err(RejectReason::AuthorityViolation);
    }
    let payload = issuance_payload(child);
    if !verify_signature(&parent.owner_key, payload.as_slice(), &child.issuer_signature) {
        return Err(RejectReason::InvalidIssuerSignature);
    }
    Ok(())
}

fn contains_hash(hashes: &Vec<CapabilityHash>, hash: &CapabilityHash) -> (found: bool)
    ensures
        found == hashes@.map_values(|a: CapabilityHash| a@).contains(hash@),
{
    let ghost seen = hashes@.map_values(|a: CapabilityHash| a@);
    let n = hashes.len();
    let mut i: usize = 0;
    while i < n
        invariant
            0 <= i <= n,
            n == hashes@.len(),
            seen == hashes@.map_values(|a: CapabilityHash| a@),
            forall|j: int| 0 <= j < i ==> seen[j] != hash@,
        decreases n - i,
    {
        if hash_eq(&hashes[i], hash) {
            assert(seen[i as int] == hash@);
            return true;
        }
        i = i + 1;
    }
    false
}

/// An invocation validator over a store, at a given epoch, recording the
/// nonces it has accepted.
pub struct Validator<'a> {
    store: &'a CapabilityStore,
    current_epoch: u64,
    consumed_nonces: &'a mut NonceSet,
    hardware_root_key: &'a Ed25519PublicKey,
}

impl<'a> Validator<'a> {
    /// The store that invocations are checked against.
    pub closed spec fn store_view(&self) -> CapabilityStore {
        *self.store
    }

    /// The current epoch.
    pub closed spec fn epoch_view(&self) -> u64 {
        self.current_epoch
    }

    /// The `(capability hash, nonce)` pairs already consumed.
    pub closed spec fn consumed_view(&self) -> Set<(Seq<u8>, u64)> {
        self.consumed_nonces@
    }

    /// The hardware root public key.
    pub closed spec fn root_key_view(&self) -> Seq<u8> {
        self.hardware_root_key@
    }

    /// A validator over `store` at `current_epoch`.
    pub fn new(
        store: &'a CapabilityStore,
        current_epoch: u64,
        consumed_nonces: &'a mut NonceSet,
        hardware_root_key: &'a Ed25519PublicKey,
    ) -> (v: Self)
        requires
            store.wf(),
        ensures
            v.store_view() == *store,
            v.epoch_view() == current_epoch,
            v.consumed_view() == old(consumed_nonces)@,
            v.root_key_view() == hardware_root_key@,
    {
        Self { store, current_epoch, consumed_nonces, hardware_root_key }
    }

    /// Validates `invocation`; on `Valid`, its nonce is consumed.
    pub fn validate(&mut self, invocation: &Invocation) -> (r: ValidationResult)
        requires
            old(self).store_view().wf(),
        ensures
            r == validation_outcome(
                old(self).store_view(),
                old(self).epoch_view(),
                old(self).consumed_view(),
                old(self).root_key_view(),
                *invocation,
            ),
            final(self).store_view() == old(self).store_view(),
            final(self).epoch_view() == old(self).epoch_view(),
            final(self).root_key_view() == old(self).root_key_view(),
            final(self).consumed_view() == if r == ValidationResult::Valid {
                old(self).consumed_view().insert(nonce_key(*invocation))
            } else {
                old(self).consumed_view()
            },
            // A valid invocation's capability has not passed its membrane's
            // expiry epoch, whatever its invocation limit.
            r == ValidationResult::Valid ==> {
                &&& old(self).store_view().capabilities().contains_key(invocation.capability.hash@)
                &&& (old(self).store_view().capabilities()[invocation.capability.hash@].membrane matches Some(m)
                    ==> (m.expires_at_epoch matches Some(expiry) ==> old(self).epoch_view() <= expiry))
            },
    {
        // 1. Resolve the capability reference.
        let capability_hash = invocation.capability.hash;
        let cap = match self.store.get_capability(&capability_hash) {
            Some(cap) => *cap,
            None => return ValidationResult::Rejected(RejectReason::CapabilityNotFound),
        };
        // 2. Anti-replay check.
        let nonce_tuple = (capability_hash, invocation.nonce);
        if self.consumed_nonces.contains(&nonce_tuple) {
            return ValidationResult::Rejected(RejectReason::InvalidNonce);
        }
        // 3. Cryptographic identity check.
        let identity = cap.identity_hash();
        if !hash_eq(&identity, &capability_hash) {
            return ValidationResult::Rejected(RejectReason::CapabilityHashMismatch);
        }
        // 4. Temporal constraints.
        if cap.epoch_issued > self.current_epoch {
            return ValidationResult::Rejected(RejectReason::EpochInvalid);
        }
        // 5. Membranes.
        if let Some(membrane) = &cap.membrane {
            if let Some(expiry) = membrane.expires_at_epoch {
                if self.current_epoch > expiry {
                    return ValidationResult::Rejected(RejectReason::MembraneViolation);
                }
            }
        }
        // 6. Lineage and revocation.
        if let Err(reason) = self.verify_lineage(&cap) {
            return ValidationResult::Rejected(reason);
        }
        // 7. The caller owns the capability.
        if !self.verify_invocation_signature(invocation, &cap) {
            return ValidationResult::Rejected(RejectReason::InvalidSignature);
        }
        let _ = self.consumed_nonces.insert(nonce_tuple);
        ValidationResult::Valid
    }

    fn verify_lineage(&self, starting: &Capability) -> (r: Result<(), RejectReason>)
        requires
            self.store.wf(),
        ensures
            r == lineage_check(*self.store, self.hardware_root_key@, *starting),
    {
        let ghost store = *self.store;
        let ghost root_key = self.hardware_root_key@;
        let ghost bound = lineage_bound(store);
        let ghost possible = stored_identities(store).insert(identity_of(*starting));
        proof {
            lemma_stored_identities(store);
        }
        let mut current: Capability = *starting;
        let mut visited: Vec<CapabilityHash> = Vec::new();
        proof {
            assert(visited@.map_values(|a: CapabilityHash| a@).to_set() =~= Set::<Seq<u8>>::empty());
        }
        loop
            invariant
                store == *self.store,
                store.wf(),
                root_key == self.hardware_root_key@,
                bound == lineage_bound(store),
                possible == stored_identities(store).insert(identity_of(*starting)),
                possible.finite(),
                possible.len() <= bound,
                forall|k: Seq<u8>|
                    #[trigger] store.capabilities().contains_key(k) ==> possible.contains(
                        identity_of(store.capabilities()[k]),
                    ),
                possible.contains(identity_of(current)),
                visited@.map_values(|a: CapabilityHash| a@).no_duplicates(),
                visited@.map_values(|a: CapabilityHash| a@).to_set().subset_of(possible),
                visited@.len() <= bound,
                lineage_check(store, root_key, *starting) == lineage_walk(
                    store,
                    root_key,
                    current,
                    visited@.map_values(|a: CapabilityHash| a@).to_set(),
                    (bound - visited@.len()) as nat,
                ),
            decreases bound - visited@.len(),
        {
            let ghost seen = visited@.map_values(|a: CapabilityHash| a@);
            let hash = current.identity_hash();
            if contains_hash(&visited, &hash) {
                return Err(RejectReason::CycleDetected);
            }
            proof {
                seen.unique_seq_to_set();
                lemma_len_subset(seen.to_set().insert(hash@), possible);
            }
            visited.push(hash);
            proof {
                let seen2 = visited@.map_values(|a: CapabilityHash| a@);
                assert(seen2 =~= seen.push(hash@));
                seen.lemma_push_to_set_commute(hash@);
            }
            // Current or any ancestor tombstoned.
            if self.store.is_revoked(&hash) {
                return Err(RejectReason::Revoked);
            }
            if hash_eq(&current.parent_hash, &genesis_hash()) {
                return self.verify_genesis(&current);
            }
            let parent = match self.store.get_capability(&current.parent_hash) {
                Some(parent) => *parent,
                None => return Err(RejectReason::UnknownParent),
            };
            match verify_delegation(&current, &parent) {
                Ok(()) => {},
                Err(reason) => return Err(reason),
            }
            current = parent;
        }
    }

    fn verify_genesis(&self, genesis: &Capability) -> (r: Result<(), RejectReason>)
        ensures
            r == genesis_check(*self.store, self.hardware_root_key@, *genesis),
    {
        let root = self.store.get_genesis();
        let expected = root.capability.identity_hash();
        let actual = genesis.identity_hash();
        if !hash_eq(&actual, &expected) {
            return Err(RejectReason::GenesisMismatch);
        }
        if !hash_eq(&genesis.parent_hash, &genesis_hash()) {
            return Err(RejectReason::GenesisMismatch);
        }
        if !hash_eq(&genesis.owner_key, self.hardware_root_key) {
            return Err(RejectReason::GenesisMismatch);
        }
        let payload = genesis_payload(genesis);
        if !verify_signature(self.hardware_root_key, payload.as_slice(), &root.root_signature) {
            return Err(RejectReason::InvalidIssuerSignature);
        }
        Ok(())
    }

    fn verify_invocation_signature(&self, invocation: &Invocation, cap: &Capability) -> (ok: bool)
        ensures
            ok == ed25519_accepts(
                cap.owner_key@,
                invocation_message(*invocation),
                invocation.invocation_signature@,
            ),
    {
        // [ tag | capability hash (32 bytes) | operation (8 bytes) | nonce (8 bytes) ]
        let payload = invocation_payload(invocation);
        verify_signature(&cap.owner_key, payload.as_slice(), &invocation.invocation_signature)
    }
}

} // verus!
