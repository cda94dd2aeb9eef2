//! The canonical capability store: the genesis anchor, every capability by
//! hash, and the tombstones of revoked capabilities.

use vstd::prelude::*;
use crate::capability::{Capability, RejectReason, identity_of};
use crate::crypto::{CapabilityHash, Ed25519Signature};
use crate::table::ByteKeyMap;
use crate::validator::{delegation_check, verify_delegation};

verus! {

/// The genesis capability together with the hardware root's signature over it.
#[derive(Debug, Clone, Copy)]
pub struct GenesisRoot {
    pub capability: Capability,
    pub root_signature: Ed25519Signature,
}

/// The record of a revocation.
#[derive(Debug, Clone, Copy)]
pub struct Tombstone {
    pub revoked_at_epoch: u64,
    pub issuer_signature: Ed25519Signature,
}

/// The store of capabilities, keyed by hash, with the tombstones of revoked ones.
pub struct CapabilityStore {
    genesis: GenesisRoot,
    capabilities: ByteKeyMap<Capability>,
    tombstones: ByteKeyMap<Tombstone>,
}

/// What `issue` answers for `child` against a store with these contents:
/// the parent must be present and unrevoked, and the delegation edge valid.
pub open spec fn issue_outcome(
    capabilities: Map<Seq<u8>, Capability>,
    tombstones: Map<Seq<u8>, Tombstone>,
    child: Capability,
) -> Result<Seq<u8>, RejectReason> {
    if !capabilities.contains_key(child.parent_hash@) {
        Err(RejectReason::UnknownParent)
    } else if tombstones.contains_key(child.parent_hash@) {
        Err(RejectReason::Revoked)
    } else {
        match delegation_check(child, capabilities[child.parent_hash@]) {
            Err(reason) => Err(reason),
            Ok(_) => Ok(identity_of(child)),
        }
    }
}

impl CapabilityStore {
    /// The genesis root.
    pub closed spec fn genesis(&self) -> GenesisRoot {
        self.genesis
    }

    /// The capabilities, by hash.
    pub closed spec fn capabilities(&self) -> Map<Seq<u8>, Capability> {
        self.capabilities@
    }

    /// The tombstones, by the hash of the revoked capability.
    pub closed spec fn tombstones(&self) -> Map<Seq<u8>, Tombstone> {
        self.tombstones@
    }

    /// The stored capabilities, one per hash.
    pub closed spec fn stored_capabilities(&self) -> Seq<Capability> {
        self.capabilities.values()
    }

    /// Well-formedness of the two tables.
    pub closed spec fn wf(&self) -> bool {
        self.capabilities.wf() && self.tombstones.wf()
    }

    /// Every capability in the store appears in `stored_capabilities()`,
    /// which has one entry per stored hash.
    pub proof fn lemma_stored_capabilities(&self)
        requires
            self.wf(),
        ensures
            self.capabilities().dom().finite(),
            self.stored_capabilities().len() == self.capabilities().dom().len(),
            forall|k: Seq<u8>|
                #[trigger] self.capabilities().contains_key(k) ==> exists|i: int|
                    0 <= i < self.stored_capabilities().len() && self.stored_capabilities()[i]
                        == self.capabilities()[k],
    {
        self.capabilities.lemma_values();
        assert forall|k: Seq<u8>| #[trigger] self.capabilities().contains_key(k) implies exists|i: int|
            0 <= i < self.stored_capabilities().len() && self.stored_capabilities()[i]
                == self.capabilities()[k] by {
            assert(self.capabilities@.contains_key(k));
            let i = choose|i: int|
                0 <= i < self.capabilities.values().len() && self.capabilities.values()[i]
                    == self.capabilities@[k];
            assert(self.stored_capabilities()[i] == self.capabilities()[k]);
        }
    }

    /// A store holding the genesis capability under its identity hash.
    pub fn new(genesis: GenesisRoot) -> (store: Self)
        ensures
            store.wf(),
            store.genesis() == genesis,
            store.capabilities() == Map::<Seq<u8>, Capability>::empty().insert(
                identity_of(genesis.capability),
                genesis.capability,
            ),
            store.tombstones() == Map::<Seq<u8>, Tombstone>::empty(),
    {
        let mut capabilities = ByteKeyMap::new();
        capabilities.insert(genesis.capability.identity_hash(), genesis.capability);
        CapabilityStore { genesis, capabilities, tombstones: ByteKeyMap::new() }
    }

    /// The capability stored under `hash`, if any.
    pub fn get_capability(&self, hash: &CapabilityHash) -> (r: Option<&Capability>)
        requires
            self.wf(),
        ensures
            match r {
                Some(cap) => self.capabilities().contains_key(hash@) && *cap
                    == self.capabilities()[hash@],
                None => !self.capabilities().contains_key(hash@),
            },
    {
        self.capabilities.get(hash)
    }

    /// The genesis root.
    pub fn get_genesis(&self) -> (g: &GenesisRoot)
        ensures
            *g == self.genesis(),
    {
        &self.genesis
    }

    /// Whether a tombstone has been recorded for `hash`.
    pub fn is_revoked(&self, hash: &CapabilityHash) -> (revoked: bool)
        requires
            self.wf(),
        ensures
            revoked == self.tombstones().contains_key(hash@),
    {
        self.tombstones.contains_key(hash)
    }

    /// Transactional issuance: admits `child` only if its parent is present
    /// and unrevoked and the delegation edge from that parent is valid.
    pub fn issue(&mut self, child: Capability) -> (r: Result<CapabilityHash, RejectReason>)
        requires
            old(self).wf(),
        ensures
            final(self).wf(),
            final(self).genesis() == old(self).genesis(),
            final(self).tombstones() == old(self).tombstones(),
            match r {
                Ok(hash) => {
                    &&& issue_outcome(old(self).capabilities(), old(self).tombstones(), child)
                        == Ok::<Seq<u8>, RejectReason>(hash@)
                    &&& final(self).capabilities() == old(self).capabilities().insert(hash@, child)
                },
                Err(reason) => {
                    &&& issue_outcome(old(self).capabilities(), old(self).tombstones(), child)
                        == Err::<Seq<u8>, RejectReason>(reason)
                    &&& final(self).capabilities() == old(self).capabilities()
                },
            },
            // Nothing but a missing or revoked parent or a failed delegation
            // edge refuses a child.
            old(self).capabilities().contains_key(child.parent_hash@) && !old(self).tombstones().contains_key(
                child.parent_hash@,
            ) && delegation_check(child, old(self).capabilities()[child.parent_hash@]) is Ok ==> {
                &&& r matches Ok(hash) && hash@ == identity_of(child)
                &&& final(self).capabilities() == old(self).capabilities().insert(identity_of(child), child)
            },
    {
        let parent = match self.capabilities.get(&child.parent_hash) {
            Some(parent) => parent,
            None => return Err(RejectReason::UnknownParent),
        };
        if self.is_revoked(&child.parent_hash) {
            return Err(RejectReason::Revoked);
        }
        match verify_delegation(&child, parent) {
            Ok(()) => {},
            Err(reason) => return Err(reason),
        }
        let hash = child.identity_hash();
        self.capabilities.insert(hash, child);
        Ok(hash)
    }

    /// Records a tombstone for `hash`.
    pub fn mark_tombstone(&mut self, hash: CapabilityHash, tombstone: Tombstone)
        requires
            old(self).wf(),
        ensures
            final(self).wf(),
            final(self).genesis() == old(self).genesis(),
            final(self).capabilities() == old(self).capabilities(),
            final(self).tombstones() == old(self).tombstones().insert(hash@, tombstone),
    {
        self.tombstones.insert(hash, tombstone);
    }

    /// Raw insertion under the capability's identity hash, with no checks.
    /// Deprecated: kept for harnesses that construct a store directly.
    pub fn inject_for_test(&mut self, cap: Capability) -> (hash: CapabilityHash)
        requires
            old(self).wf(),
        ensures
            final(self).wf(),
            hash@ == identity_of(cap),
            final(self).genesis() == old(self).genesis(),
            final(self).tombstones() == old(self).tombstones(),
            final(self).capabilities() == old(self).capabilities().insert(hash@, cap),
    {
        let hash = cap.identity_hash();
        self.capabilities.insert(hash, cap);
        hash
    }

    /// Overwrites the entry under `hash` with `capability`, whatever its identity:
    /// simulates corruption of the stored graph.
    pub fn corrupt_capability_for_test(&mut self, hash: CapabilityHash, capability: Capability)
        requires
            old(self).wf(),
        ensures
            final(self).wf(),
            final(self).genesis() == old(self).genesis(),
            final(self).tombstones() == old(self).tombstones(),
            final(self).capabilities() == old(self).capabilities().insert(hash@, capability),
    {
        self.capabilities.insert(hash, capability);
    }

    /// Replaces the genesis capability (not its stored entry, nor the root
    /// signature): simulates corruption of the genesis root.
    pub fn corrupt_genesis_for_test(&mut self, capability: Capability)
        requires
            old(self).wf(),
        ensures
            final(self).wf(),
            final(self).genesis() == (GenesisRoot {
                capability,
                root_signature: old(self).genesis().root_signature,
            }),
            final(self).tombstones() == old(self).tombstones(),
            final(self).capabilities() == old(self).capabilities(),
    {
        self.genesis.capability = capability;
    }
}

} // verus!
