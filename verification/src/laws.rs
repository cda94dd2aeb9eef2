//! The laws of capability physics that the store and validator keep:
//! attenuation along delegation edges, anchoring at the genesis root,
//! revocation of whole lineages, replay protection, and the uniqueness of
//! the identity encoding.

use vstd::prelude::*;
use vstd::bytes::{
    lemma_auto_spec_u32_to_from_le_bytes, lemma_auto_spec_u64_to_from_le_bytes,
    spec_u32_from_le_bytes, spec_u64_from_le_bytes,
};
use crate::capability::{
    Capability, Invocation, identity_of, identity_payload, invocation_message, issuance_message,
    membrane_encoding, optional_u32_encoding, optional_u64_encoding, AUTH_DELEGATE, Membrane,
};
use crate::crypto::{ed25519_accepts, genesis_hash_spec};
use crate::store::{CapabilityStore, Tombstone, issue_outcome};
use crate::validator::{
    RejectReason, ValidationResult, delegation_check, genesis_check, lemma_stored_identities,
    lineage_bound, lineage_check, lineage_walk, membrane_expired, nonce_key, stored_identities,
    validation_outcome,
};
use vstd::set_lib::lemma_len_subset;

verus! {

/// The capability reached from `cap` by following `k` parent links through
/// the store; `None` once a link leaves the store or a genesis-rooted
/// capability is passed.
pub open spec fn ancestor(store: CapabilityStore, cap: Capability, k: nat) -> Option<Capability>
    decreases k,
{
    if k == 0 {
        Some(cap)
    } else if cap.parent_hash@ == genesis_hash_spec() || !store.capabilities().contains_key(
        cap.parent_hash@,
    ) {
        None
    } else {
        ancestor(store, store.capabilities()[cap.parent_hash@], (k - 1) as nat)
    }
}

/// Every authority bit of `child` is also held by `parent`.
pub open spec fn attenuates(child: u64, parent: u64) -> bool {
    child & parent == child
}

proof fn lemma_attenuates_transitive(a: u64, b: u64, c: u64)
    requires
        attenuates(a, b),
        attenuates(b, c),
    ensures
        attenuates(a, c),
{
    assert(a & b == a && b & c == b ==> a & c == a) by (bit_vector);
}

/// Authority monotonically decreases along a delegation edge: an accepted
/// edge joins capabilities on one target, the child no older than its
/// parent, the parent holding the delegate bit, every authority bit of the
/// child held by the parent, and the edge signed by the parent's owner.
pub proof fn law_delegation_attenuates(child: Capability, parent: Capability)
    requires
        delegation_check(child, parent) == Ok::<(), RejectReason>(()),
    ensures
        child.target_object@ == parent.target_object@,
        child.epoch_issued >= parent.epoch_issued,
        parent.authority_mask & AUTH_DELEGATE != 0,
        attenuates(child.authority_mask, parent.authority_mask),
        forall|i: u64|
            i < 64 ==> (#[trigger] ((child.authority_mask >> i) & 1) == 1 ==> ((
            parent.authority_mask >> i) & 1) == 1),
        ed25519_accepts(parent.owner_key@, issuance_message(child), child.issuer_signature@),
{
    let c = child.authority_mask;
    let p = parent.authority_mask;
    assert(c & !p == 0 ==> c & p == c) by (bit_vector);
    assert(c & !p == 0 ==> forall|i: u64| i < 64 ==> (#[trigger] ((c >> i) & 1) == 1 ==> ((p >> i) & 1) == 1))
        by (bit_vector);
}

/// Issuance admits a capability only beneath a stored, unrevoked parent,
/// across a valid delegation edge, and files it under its identity hash.
pub proof fn law_issue_admits_only_attenuated_children(
    capabilities: Map<Seq<u8>, Capability>,
    tombstones: Map<Seq<u8>, Tombstone>,
    child: Capability,
)
    requires
        issue_outcome(capabilities, tombstones, child) is Ok,
    ensures
        capabilities.contains_key(child.parent_hash@),
        !tombstones.contains_key(child.parent_hash@),
        delegation_check(child, capabilities[child.parent_hash@]) == Ok::<(), RejectReason>(()),
        attenuates(child.authority_mask, capabilities[child.parent_hash@].authority_mask),
        issue_outcome(capabilities, tombstones, child) == Ok::<Seq<u8>, RejectReason>(
            identity_of(child),
        ),
{
    law_delegation_attenuates(child, capabilities[child.parent_hash@]);
}

/// Every stored capability is filed under its own identity, and each one
/// other than the root sits under a stored parent across a valid delegation
/// edge (so its authority is no greater than its parent's).
pub open spec fn store_attenuated(capabilities: Map<Seq<u8>, Capability>, root: Seq<u8>) -> bool {
    forall|k: Seq<u8>|
        #[trigger] capabilities.contains_key(k) ==> {
            &&& identity_of(capabilities[k]) == k
            &&& k != root ==> {
                &&& capabilities.contains_key(capabilities[k].parent_hash@)
                &&& delegation_check(capabilities[k], capabilities[capabilities[k].parent_hash@]) is Ok
            }
        }
}

/// A delegation edge depends on the parent only through fields of its
/// identity payload.
proof fn lemma_delegation_depends_on_parent_payload(child: Capability, p1: Capability, p2: Capability)
    requires
        identity_payload(p1) == identity_payload(p2),
    ensures
        delegation_check(child, p1) == delegation_check(child, p2),
{
    law_identity_payload_injective(p1, p2);
}

/// One successful issuance keeps the store attenuated, unless the child's
/// identity hash collides with that of a stored capability with another payload.
pub proof fn law_issue_keeps_store_attenuated(
    capabilities: Map<Seq<u8>, Capability>,
    tombstones: Map<Seq<u8>, Tombstone>,
    root: Seq<u8>,
    child: Capability,
)
    requires
        store_attenuated(capabilities, root),
        issue_outcome(capabilities, tombstones, child) is Ok,
        capabilities.contains_key(identity_of(child)) ==> identity_payload(
            capabilities[identity_of(child)],
        ) == identity_payload(child),
    ensures
        store_attenuated(capabilities.insert(identity_of(child), child), root),
{
    let h = identity_of(child);
    let new = capabilities.insert(h, child);
    assert forall|k: Seq<u8>| #[trigger] new.contains_key(k) implies {
        &&& identity_of(new[k]) == k
        &&& k != root ==> {
            &&& new.contains_key(new[k].parent_hash@)
            &&& delegation_check(new[k], new[new[k].parent_hash@]) is Ok
        }
    } by {
        let c = new[k];
        let q = c.parent_hash@;
        if k == h {
            assert(capabilities.contains_key(q));
            if q == h {
                lemma_delegation_depends_on_parent_payload(child, capabilities[q], child);
            }
        } else {
            assert(capabilities.contains_key(k));
            if k != root {
                assert(capabilities.contains_key(q));
                if q == h {
                    lemma_delegation_depends_on_parent_payload(c, capabilities[q], child);
                }
            }
        }
    }
}

/// Authority never grows along a delegation edge anywhere in the store:
/// from a new store over `genesis`, through any sequence of calls of
/// `issue` and `mark_tombstone` (no raw insertion), every stored capability
/// other than the genesis capability sits under a stored parent across a
/// valid delegation edge. Step `t` is either a successful issuance of
/// `issued[t]` or leaves the capabilities unchanged (a tombstone or a
/// refused issuance). The one assumption is that no issued capability's
/// identity hash collides with that of a stored capability with another payload.
pub proof fn law_store_stays_attenuated(
    genesis: Capability,
    stores: Seq<Map<Seq<u8>, Capability>>,
    tombstones: Seq<Map<Seq<u8>, Tombstone>>,
    issued: Seq<Option<Capability>>,
)
    requires
        stores.len() == issued.len() + 1,
        tombstones.len() == issued.len(),
        stores[0] == Map::<Seq<u8>, Capability>::empty().insert(identity_of(genesis), genesis),
        forall|t: int|
            0 <= t < issued.len() ==> match #[trigger] issued[t] {
                Some(child) => {
                    &&& issue_outcome(stores[t], tombstones[t], child) is Ok
                    &&& stores[t + 1] == stores[t].insert(identity_of(child), child)
                    &&& stores[t].contains_key(identity_of(child)) ==> identity_payload(
                        stores[t][identity_of(child)],
                    ) == identity_payload(child)
                },
                None => stores[t + 1] == stores[t],
            },
    ensures
        forall|t: int| 0 <= t < stores.len() ==> store_attenuated(#[trigger] stores[t], identity_of(genesis)),
{
    assert forall|t: int| 0 <= t < stores.len() implies store_attenuated(#[trigger] stores[t], identity_of(genesis)) by {
        lemma_store_trace(genesis, stores, tombstones, issued, t);
    }
}

proof fn lemma_store_trace(
    genesis: Capability,
    stores: Seq<Map<Seq<u8>, Capability>>,
    tombstones: Seq<Map<Seq<u8>, Tombstone>>,
    issued: Seq<Option<Capability>>,
    t: int,
)
    requires
        stores.len() == issued.len() + 1,
        tombstones.len() == issued.len(),
        stores[0] == Map::<Seq<u8>, Capability>::empty().insert(identity_of(genesis), genesis),
        forall|t: int|
            0 <= t < issued.len() ==> match #[trigger] issued[t] {
                Some(child) => {
                    &&& issue_outcome(stores[t], tombstones[t], child) is Ok
                    &&& stores[t + 1] == stores[t].insert(identity_of(child), child)
                    &&& stores[t].contains_key(identity_of(child)) ==> identity_payload(
                        stores[t][identity_of(child)],
                    ) == identity_payload(child)
                },
                None => stores[t + 1] == stores[t],
            },
        0 <= t < stores.len(),
    ensures
        store_attenuated(stores[t], identity_of(genesis)),
    decreases t,
{
    if t > 0 {
        lemma_store_trace(genesis, stores, tombstones, issued, t - 1);
        match issued[t - 1] {
            Some(child) => {
                law_issue_keeps_store_attenuated(
                    stores[t - 1],
                    tombstones[t - 1],
                    identity_of(genesis),
                    child,
                );
            },
            None => {},
        }
    }
}

/// What an accepted lineage walk guarantees about every ancestor it passes
/// and the root it ends at.
proof fn lemma_walk_accepted(
    store: CapabilityStore,
    root_key: Seq<u8>,
    cap: Capability,
    visited: Set<Seq<u8>>,
    fuel: nat,
)
    requires
        lineage_walk(store, root_key, cap, visited, fuel) is Ok,
    ensures
        forall|k: nat|
            #[trigger] ancestor(store, cap, k) is Some ==> {
                &&& !store.tombstones().contains_key(identity_of(ancestor(store, cap, k)->0))
                &&& attenuates(cap.authority_mask, ancestor(store, cap, k)->0.authority_mask)
            },
        forall|k: nat|
            #[trigger] ancestor(store, cap, k + 1) is Some ==> delegation_check(
                ancestor(store, cap, k)->0,
                ancestor(store, cap, k + 1)->0,
            ) is Ok,
        exists|k: nat|
            #[trigger] ancestor(store, cap, k) matches Some(root) && root.parent_hash@
                == genesis_hash_spec() && genesis_check(store, root_key, root) == Ok::<
                (),
                RejectReason,
            >(()) && attenuates(cap.authority_mask, root.authority_mask),
    decreases fuel,
{
    let c = cap.authority_mask;
    assert(c & c == c) by (bit_vector);
    if cap.parent_hash@ == genesis_hash_spec() {
        assert forall|k: nat| #[trigger] ancestor(store, cap, k) is Some implies {
            &&& !store.tombstones().contains_key(identity_of(ancestor(store, cap, k)->0))
            &&& attenuates(cap.authority_mask, ancestor(store, cap, k)->0.authority_mask)
        } by {
            if k > 0 {
            }
        }
        assert(ancestor(store, cap, 0) == Some(cap));
        assert forall|k: nat| #[trigger] ancestor(store, cap, k + 1) is Some implies delegation_check(
            ancestor(store, cap, k)->0,
            ancestor(store, cap, k + 1)->0,
        ) is Ok by {
        }
    } else {
        let parent = store.capabilities()[cap.parent_hash@];
        let hash = identity_of(cap);
        lemma_walk_accepted(store, root_key, parent, visited.insert(hash), (fuel - 1) as nat);
        law_delegation_attenuates(cap, parent);
        assert forall|k: nat| #[trigger] ancestor(store, cap, k) is Some implies {
            &&& !store.tombstones().contains_key(identity_of(ancestor(store, cap, k)->0))
            &&& attenuates(cap.authority_mask, ancestor(store, cap, k)->0.authority_mask)
        } by {
            if k > 0 {
                let j = (k - 1) as nat;
                assert(ancestor(store, cap, k) == ancestor(store, parent, j));
                assert(ancestor(store, parent, j) is Some);
                lemma_attenuates_transitive(
                    cap.authority_mask,
                    parent.authority_mask,
                    ancestor(store, parent, j)->0.authority_mask,
                );
            }
        }
        assert forall|k: nat| #[trigger] ancestor(store, cap, k + 1) is Some implies delegation_check(
            ancestor(store, cap, k)->0,
            ancestor(store, cap, k + 1)->0,
        ) is Ok by {
            assert(ancestor(store, cap, k + 1) == ancestor(store, parent, k));
            if k > 0 {
                let j = (k - 1) as nat;
                assert(ancestor(store, cap, k) == ancestor(store, parent, j));
                assert(ancestor(store, parent, j + 1) is Some);
            } else {
                assert(ancestor(store, cap, 0) == Some(cap));
                assert(ancestor(store, parent, 0) == Some(parent));
            }
        }
        let j = choose|j: nat|
            #[trigger] ancestor(store, parent, j) matches Some(root) && root.parent_hash@
                == genesis_hash_spec() && genesis_check(store, root_key, root) == Ok::<
                (),
                RejectReason,
            >(()) && attenuates(parent.authority_mask, root.authority_mask);
        let root = ancestor(store, parent, j)->0;
        assert(ancestor(store, cap, j + 1) == ancestor(store, parent, j));
        lemma_attenuates_transitive(cap.authority_mask, parent.authority_mask, root.authority_mask);
    }
}

proof fn lemma_walk_fuel_independent(
    store: CapabilityStore,
    root_key: Seq<u8>,
    current: Capability,
    visited: Set<Seq<u8>>,
    possible: Set<Seq<u8>>,
    fuel1: nat,
    fuel2: nat,
)
    requires
        possible.finite(),
        visited.subset_of(possible),
        possible.contains(identity_of(current)),
        forall|k: Seq<u8>|
            #[trigger] store.capabilities().contains_key(k) ==> possible.contains(
                identity_of(store.capabilities()[k]),
            ),
        fuel1 + visited.len() >= possible.len(),
        fuel2 + visited.len() >= possible.len(),
    ensures
        lineage_walk(store, root_key, current, visited, fuel1) == lineage_walk(
            store,
            root_key,
            current,
            visited,
            fuel2,
        ),
    decreases fuel1,
{
    let hash = identity_of(current);
    if !visited.contains(hash) {
        lemma_len_subset(visited.insert(hash), possible);
        lemma_len_subset(visited, possible);
        if !store.tombstones().contains_key(hash) && current.parent_hash@ != genesis_hash_spec()
            && store.capabilities().contains_key(current.parent_hash@) {
            let parent = store.capabilities()[current.parent_hash@];
            lemma_walk_fuel_independent(
                store,
                root_key,
                parent,
                visited.insert(hash),
                possible,
                (fuel1 - 1) as nat,
                (fuel2 - 1) as nat,
            );
        }
    }
}

/// The lineage verdict does not depend on the step bound: walking with any
/// larger bound gives the same answer. The bound only cuts off walks that
/// have met some capability's hash twice, which the walk reports as a cycle
/// in any case.
pub proof fn law_lineage_bound_suffices(
    store: CapabilityStore,
    root_key: Seq<u8>,
    start: Capability,
    extra: nat,
)
    requires
        store.wf(),
    ensures
        lineage_check(store, root_key, start) == lineage_walk(
            store,
            root_key,
            start,
            Set::empty(),
            lineage_bound(store) + extra,
        ),
{
    lemma_stored_identities(store);
    let possible = stored_identities(store).insert(identity_of(start));
    lemma_walk_fuel_independent(
        store,
        root_key,
        start,
        Set::empty(),
        possible,
        lineage_bound(store),
        lineage_bound(store) + extra,
    );
}

proof fn lemma_walk_complete(
    store: CapabilityStore,
    root_key: Seq<u8>,
    cap: Capability,
    visited: Set<Seq<u8>>,
    fuel: nat,
    k: nat,
)
    requires
        fuel > k,
        forall|j: nat| #![trigger ancestor(store, cap, j)] j <= k ==> ancestor(store, cap, j) is Some,
        forall|i: nat, j: nat|
            #![trigger ancestor(store, cap, i), ancestor(store, cap, j)]
            i <= k && j <= k && i != j ==> identity_of(ancestor(store, cap, i)->0)
                != identity_of(ancestor(store, cap, j)->0),
        forall|j: nat| #![trigger ancestor(store, cap, j)] j <= k ==> !visited.contains(identity_of(ancestor(store, cap, j)->0)),
        forall|j: nat|
            #![trigger ancestor(store, cap, j)]
            j <= k ==> !store.tombstones().contains_key(identity_of(ancestor(store, cap, j)->0)),
        forall|j: nat|
            #![trigger ancestor(store, cap, j)]
            j < k ==> delegation_check(
                ancestor(store, cap, j)->0,
                ancestor(store, cap, j + 1)->0,
            ) is Ok,
        ancestor(store, cap, k)->0.parent_hash@ == genesis_hash_spec(),
        genesis_check(store, root_key, ancestor(store, cap, k)->0) is Ok,
    ensures
        lineage_walk(store, root_key, cap, visited, fuel) is Ok,
    decreases k,
{
    assert(ancestor(store, cap, 0) == Some(cap));
    if k > 0 {
        assert(ancestor(store, cap, 1) is Some);
        let parent = store.capabilities()[cap.parent_hash@];
        assert(ancestor(store, cap, 1) == Some(parent)) by {
            assert(ancestor(store, parent, 0) == Some(parent));
        }
        let hash = identity_of(cap);
        let km = (k - 1) as nat;
        assert forall|j: nat| #[trigger] ancestor(store, cap, j + 1) == ancestor(store, parent, j) by {
        }
        assert forall|j: nat| #![trigger ancestor(store, parent, j)] j <= km implies ancestor(store, parent, j) is Some by {
            assert(ancestor(store, cap, j + 1) is Some);
        }
        assert forall|i: nat, j: nat|
            #![trigger ancestor(store, parent, i), ancestor(store, parent, j)]
            i <= km && j <= km && i != j implies identity_of(ancestor(store, parent, i)->0)
                != identity_of(ancestor(store, parent, j)->0) by {
            assert(ancestor(store, cap, i + 1) is Some);
            assert(ancestor(store, cap, j + 1) is Some);
        }
        assert forall|j: nat| #![trigger ancestor(store, parent, j)] j <= km implies !visited.insert(hash).contains(
            identity_of(ancestor(store, parent, j)->0),
        ) by {
            assert(ancestor(store, cap, j + 1) is Some);
            assert(ancestor(store, cap, 0) is Some);
        }
        assert forall|j: nat| #![trigger ancestor(store, parent, j)] j <= km implies !store.tombstones().contains_key(
            identity_of(ancestor(store, parent, j)->0),
        ) by {
            assert(ancestor(store, cap, j + 1) is Some);
        }
        assert forall|j: nat| #![trigger ancestor(store, parent, j)] j < km implies delegation_check(
            ancestor(store, parent, j)->0,
            ancestor(store, parent, j + 1)->0,
        ) is Ok by {
            assert(ancestor(store, cap, j + 1) is Some);
            assert(ancestor(store, cap, (j + 1) + 1) == ancestor(store, parent, j + 1));
        }
        assert(ancestor(store, cap, km + 1) == ancestor(store, parent, km));
        assert(delegation_check(ancestor(store, cap, 0)->0, ancestor(store, cap, 1)->0) is Ok);
        lemma_walk_complete(store, root_key, parent, visited.insert(hash), (fuel - 1) as nat, km);
    }
}

/// Completeness of the lineage check, at any depth: when the parent links
/// from `start` pass through capabilities with pairwise distinct hashes,
/// none tombstoned, every edge a valid delegation, and reach (after `k`
/// links) a capability with the genesis parent hash that passes the genesis
/// checks, the lineage is accepted.
pub proof fn law_lineage_complete(store: CapabilityStore, root_key: Seq<u8>, start: Capability, k: nat)
    requires
        store.wf(),
        forall|j: nat| #![trigger ancestor(store, start, j)] j <= k ==> ancestor(store, start, j) is Some,
        forall|i: nat, j: nat|
            #![trigger ancestor(store, start, i), ancestor(store, start, j)]
            i <= k && j <= k && i != j ==> identity_of(ancestor(store, start, i)->0)
                != identity_of(ancestor(store, start, j)->0),
        forall|j: nat|
            #![trigger ancestor(store, start, j)]
            j <= k ==> !store.tombstones().contains_key(identity_of(ancestor(store, start, j)->0)),
        forall|j: nat|
            #![trigger ancestor(store, start, j)]
            j < k ==> delegation_check(
                ancestor(store, start, j)->0,
                ancestor(store, start, j + 1)->0,
            ) is Ok,
        ancestor(store, start, k)->0.parent_hash@ == genesis_hash_spec(),
        genesis_check(store, root_key, ancestor(store, start, k)->0) is Ok,
    ensures
        lineage_check(store, root_key, start) is Ok,
{
    let fuel = lineage_bound(store) + k;
    let empty = Set::<Seq<u8>>::empty();
    assert forall|j: nat| #![trigger ancestor(store, start, j)] j <= k implies !empty.contains(
        identity_of(ancestor(store, start, j)->0),
    ) by {
    }
    lemma_walk_complete(store, root_key, start, empty, fuel, k);
    law_lineage_bound_suffices(store, root_key, start, k);
    assert(lineage_walk(store, root_key, start, empty, fuel) is Ok);
}

/// Completeness of issuance: a child whose parent is stored and unrevoked,
/// and whose delegation edge from that parent is valid, is admitted under
/// its identity hash; nothing else refuses it.
pub proof fn law_issue_complete(
    capabilities: Map<Seq<u8>, Capability>,
    tombstones: Map<Seq<u8>, Tombstone>,
    child: Capability,
)
    requires
        capabilities.contains_key(child.parent_hash@),
        !tombstones.contains_key(child.parent_hash@),
        delegation_check(child, capabilities[child.parent_hash@]) is Ok,
    ensures
        issue_outcome(capabilities, tombstones, child) == Ok::<Seq<u8>, RejectReason>(identity_of(child)),
{
}

/// Completeness of the delegation check: an edge on one target, with the
/// child no older than the parent, the parent holding the delegate bit, no
/// child authority bit missing from the parent, and the parent owner's
/// signature over the child's issuance message, is accepted.
pub proof fn law_delegation_complete(child: Capability, parent: Capability)
    requires
        child.target_object@ == parent.target_object@,
        child.epoch_issued >= parent.epoch_issued,
        parent.authority_mask & AUTH_DELEGATE != 0,
        child.authority_mask & parent.authority_mask == child.authority_mask,
        ed25519_accepts(parent.owner_key@, issuance_message(child), child.issuer_signature@),
    ensures
        delegation_check(child, parent) == Ok::<(), RejectReason>(()),
{
    let c = child.authority_mask;
    let p = parent.authority_mask;
    assert(c & p == c ==> c & !p == 0) by (bit_vector);
}

/// Membrane expiry is enforced whatever the invocation limit: a valid
/// invocation's capability, if its membrane sets an expiry epoch, has not
/// passed it.
pub proof fn law_valid_invocation_respects_expiry(
    store: CapabilityStore,
    epoch: u64,
    consumed: Set<(Seq<u8>, u64)>,
    root_key: Seq<u8>,
    invocation: Invocation,
)
    requires
        validation_outcome(store, epoch, consumed, root_key, invocation) == ValidationResult::Valid,
    ensures
        store.capabilities().contains_key(invocation.capability.hash@),
        store.capabilities()[invocation.capability.hash@].membrane matches Some(m) ==> (
        m.expires_at_epoch matches Some(expiry) ==> epoch <= expiry),
{
}

/// Cryptographic provenance: a valid invocation's capability traces, through
/// stored parent links each of which is a valid delegation edge (signed by
/// the parent's owner), back to a root that is the store's genesis capability
/// (by identity), carries the genesis parent hash, is owned by the hardware
/// root key and was signed by it; and no authority bit of the capability is
/// missing from that root.
pub proof fn law_valid_invocation_is_anchored(
    store: CapabilityStore,
    epoch: u64,
    consumed: Set<(Seq<u8>, u64)>,
    root_key: Seq<u8>,
    invocation: Invocation,
)
    requires
        validation_outcome(store, epoch, consumed, root_key, invocation) == ValidationResult::Valid,
    ensures
        store.capabilities().contains_key(invocation.capability.hash@),
        forall|k: nat|
            #[trigger] ancestor(store, store.capabilities()[invocation.capability.hash@], k + 1) is Some
                ==> delegation_check(
                ancestor(store, store.capabilities()[invocation.capability.hash@], k)->0,
                ancestor(store, store.capabilities()[invocation.capability.hash@], k + 1)->0,
            ) is Ok,
        exists|k: nat|
            #[trigger] ancestor(store, store.capabilities()[invocation.capability.hash@], k) matches Some(
                root,
            ) && root.parent_hash@ == genesis_hash_spec() && identity_of(root) == identity_of(
                store.genesis().capability,
            ) && root.owner_key@ == root_key && ed25519_accepts(
                root_key,
                crate::capability::genesis_message(root),
                store.genesis().root_signature@,
            ) && attenuates(
                store.capabilities()[invocation.capability.hash@].authority_mask,
                root.authority_mask,
            ),
{
    let cap = store.capabilities()[invocation.capability.hash@];
    assert(lineage_check(store, root_key, cap) is Ok);
    lemma_walk_accepted(store, root_key, cap, Set::empty(), crate::validator::lineage_bound(store));
}

/// A valid invocation was made through a stored capability whose hash is
/// its identity, that was issued no later than the current epoch, whose
/// membrane has not expired, whose nonce is fresh, and whose owner signed it.
pub proof fn law_valid_invocation_is_authorized(
    store: CapabilityStore,
    epoch: u64,
    consumed: Set<(Seq<u8>, u64)>,
    root_key: Seq<u8>,
    invocation: Invocation,
)
    requires
        validation_outcome(store, epoch, consumed, root_key, invocation) == ValidationResult::Valid,
    ensures
        store.capabilities().contains_key(invocation.capability.hash@),
        ({
            let cap = store.capabilities()[invocation.capability.hash@];
            &&& identity_of(cap) == invocation.capability.hash@
            &&& cap.epoch_issued <= epoch
            &&& !membrane_expired(cap, epoch)
            &&& !consumed.contains(nonce_key(invocation))
            &&& lineage_check(store, root_key, cap) is Ok
            &&& ed25519_accepts(
                cap.owner_key@,
                invocation_message(invocation),
                invocation.invocation_signature@,
            )
        }),
{
}

/// Revocation: once any capability on an invocation's lineage carries a
/// tombstone, the invocation is not valid.
pub proof fn law_revoked_lineage_rejected(
    store: CapabilityStore,
    epoch: u64,
    consumed: Set<(Seq<u8>, u64)>,
    root_key: Seq<u8>,
    invocation: Invocation,
    k: nat,
)
    requires
        store.capabilities().contains_key(invocation.capability.hash@),
        ancestor(store, store.capabilities()[invocation.capability.hash@], k) is Some,
        store.tombstones().contains_key(
            identity_of(ancestor(store, store.capabilities()[invocation.capability.hash@], k)->0),
        ),
    ensures
        validation_outcome(store, epoch, consumed, root_key, invocation) != ValidationResult::Valid,
{
    let cap = store.capabilities()[invocation.capability.hash@];
    if validation_outcome(store, epoch, consumed, root_key, invocation) == ValidationResult::Valid {
        assert(lineage_check(store, root_key, cap) is Ok);
        lemma_walk_accepted(
            store,
            root_key,
            cap,
            Set::empty(),
            crate::validator::lineage_bound(store),
        );
        assert(ancestor(store, cap, k) is Some);
    }
}

/// Anti-replay: an invocation that was valid is refused with `InvalidNonce`
/// once its nonce has been consumed.
pub proof fn law_replay_rejected(
    store: CapabilityStore,
    epoch: u64,
    consumed: Set<(Seq<u8>, u64)>,
    root_key: Seq<u8>,
    invocation: Invocation,
)
    requires
        validation_outcome(store, epoch, consumed, root_key, invocation) == ValidationResult::Valid,
    ensures
        validation_outcome(store, epoch, consumed.insert(nonce_key(invocation)), root_key, invocation)
            == ValidationResult::Rejected(RejectReason::InvalidNonce),
{
}

proof fn lemma_optional_u64_encoding(a: Option<u64>, b: Option<u64>, rest_a: Seq<u8>, rest_b: Seq<u8>)
    requires
        optional_u64_encoding(a) + rest_a == optional_u64_encoding(b) + rest_b,
    ensures
        a == b,
        rest_a == rest_b,
{
    lemma_auto_spec_u64_to_from_le_bytes();
    let ea = optional_u64_encoding(a);
    let eb = optional_u64_encoding(b);
    let s = ea + rest_a;
    assert(s[0] == ea[0]);
    assert(s[0] == eb[0]);
    match a {
        Some(x) => {
            match b {
                Some(y) => {
                    assert(s.subrange(1, 9) =~= vstd::bytes::spec_u64_to_le_bytes(x));
                    assert((eb + rest_b).subrange(1, 9) =~= vstd::bytes::spec_u64_to_le_bytes(y));
                    assert(spec_u64_from_le_bytes(vstd::bytes::spec_u64_to_le_bytes(x)) == x);
                    assert(spec_u64_from_le_bytes(vstd::bytes::spec_u64_to_le_bytes(y)) == y);
                    assert(rest_a =~= s.subrange(9, s.len() as int));
                    assert(rest_b =~= (eb + rest_b).subrange(9, s.len() as int));
                },
                None => {},
            }
        },
        None => {
            match b {
                Some(y) => {},
                None => {
                    assert(rest_a =~= s.subrange(1, s.len() as int));
                    assert(rest_b =~= (eb + rest_b).subrange(1, s.len() as int));
                },
            }
        },
    }
}

proof fn lemma_optional_u32_encoding(a: Option<u32>, b: Option<u32>)
    requires
        optional_u32_encoding(a) == optional_u32_encoding(b),
    ensures
        a == b,
{
    lemma_auto_spec_u32_to_from_le_bytes();
    let ea = optional_u32_encoding(a);
    assert(ea[0] == optional_u32_encoding(b)[0]);
    match a {
        Some(x) => {
            assert(ea[0] == 1);
            match b {
                None => {
                    assert(optional_u32_encoding(b)[0] == 0);
                },
                Some(y) => {
                    assert(ea.subrange(1, 5) =~= vstd::bytes::spec_u32_to_le_bytes(x));
                    assert(optional_u32_encoding(b).subrange(1, 5) =~= vstd::bytes::spec_u32_to_le_bytes(y));
                    assert(spec_u32_from_le_bytes(vstd::bytes::spec_u32_to_le_bytes(x)) == x);
                    assert(spec_u32_from_le_bytes(vstd::bytes::spec_u32_to_le_bytes(y)) == y);
                },
            }
        },
        None => {
            assert(ea[0] == 0);
            match b {
                None => {},
                Some(y) => {
                    assert(optional_u32_encoding(b)[0] == 1);
                },
            }
        },
    }
}

proof fn lemma_membrane_encoding(a: Option<Membrane>, b: Option<Membrane>)
    requires
        membrane_encoding(a) == membrane_encoding(b),
    ensures
        a == b,
{
    let ea = membrane_encoding(a);
    assert(ea[0] == membrane_encoding(b)[0]);
    match a {
        Some(ma) => {
            match b {
                Some(mb) => {
                    let ta = ea.subrange(1, ea.len() as int);
                    assert(ta =~= optional_u64_encoding(ma.expires_at_epoch) + optional_u32_encoding(
                        ma.max_invocations,
                    ));
                    assert(ta =~= optional_u64_encoding(mb.expires_at_epoch) + optional_u32_encoding(
                        mb.max_invocations,
                    ));
                    lemma_optional_u64_encoding(
                        ma.expires_at_epoch,
                        mb.expires_at_epoch,
                        optional_u32_encoding(ma.max_invocations),
                        optional_u32_encoding(mb.max_invocations),
                    );
                    lemma_optional_u32_encoding(ma.max_invocations, mb.max_invocations);
                },
                None => {},
            }
        },
        None => {},
    }
}

/// The identity payload is a unique encoding: two capabilities with the same
/// payload agree on every field but the issuer signature, so the identity
/// hash commits to all of them.
pub proof fn law_identity_payload_injective(a: Capability, b: Capability)
    requires
        identity_payload(a) == identity_payload(b),
    ensures
        a.target_object@ == b.target_object@,
        a.authority_mask == b.authority_mask,
        a.parent_hash@ == b.parent_hash@,
        a.owner_key@ == b.owner_key@,
        a.epoch_issued == b.epoch_issued,
        a.membrane == b.membrane,
{
    lemma_auto_spec_u64_to_from_le_bytes();
    let p = identity_payload(a);
    let q = identity_payload(b);
    let la = vstd::bytes::spec_u64_to_le_bytes(a.authority_mask);
    let lb = vstd::bytes::spec_u64_to_le_bytes(b.authority_mask);
    let ea = vstd::bytes::spec_u64_to_le_bytes(a.epoch_issued);
    let eb = vstd::bytes::spec_u64_to_le_bytes(b.epoch_issued);
    assert(a.target_object@.len() == 32);
    assert(b.target_object@.len() == 32);
    assert(a.parent_hash@.len() == 32 && b.parent_hash@.len() == 32);
    assert(a.owner_key@.len() == 32 && b.owner_key@.len() == 32);
    assert(p.subrange(0, 32) =~= a.target_object@);
    assert(q.subrange(0, 32) =~= b.target_object@);
    assert(p.subrange(32, 40) =~= la);
    assert(q.subrange(32, 40) =~= lb);
    assert(spec_u64_from_le_bytes(la) == a.authority_mask);
    assert(spec_u64_from_le_bytes(lb) == b.authority_mask);
    assert(p.subrange(40, 72) =~= a.parent_hash@);
    assert(q.subrange(40, 72) =~= b.parent_hash@);
    assert(p.subrange(72, 104) =~= a.owner_key@);
    assert(q.subrange(72, 104) =~= b.owner_key@);
    assert(p.subrange(104, 112) =~= ea);
    assert(q.subrange(104, 112) =~= eb);
    assert(spec_u64_from_le_bytes(ea) == a.epoch_issued);
    assert(spec_u64_from_le_bytes(eb) == b.epoch_issued);
    assert(p.subrange(112, p.len() as int) =~= membrane_encoding(a.membrane));
    assert(q.subrange(112, q.len() as int) =~= membrane_encoding(b.membrane));
    lemma_membrane_encoding(a.membrane, b.membrane);
}

} // verus!
