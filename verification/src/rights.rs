//! Owned rights: the assignments of a contract node, keyed by the type of
//! the right.

use crate::assignments::{Assignments, AssignmentsView};
use crate::bytes::append_array;
use crate::commitment::{
    commit_merkle_node, merkle_node_commitment, merkle_root, merklize_nodes, node_views,
};
use crate::ordered::{increasing, key_order, lemma_key_order_exists, ordered_keys, value_at};
use std::collections::BTreeMap;
use vstd::bytes::{spec_u64_to_le_bytes, u64_to_le_bytes};
use vstd::prelude::*;

verus! {

/// Assignments keyed by the type of the right they assign.
pub type OwnedRights = BTreeMap<usize, Assignments>;

/// The owned rights of a contract node.
#[derive(PartialEq, Eq, Debug)]
pub struct OwnedRightsInner(pub OwnedRights);

/// The mathematical content of owned rights.
pub type RightsView = Map<usize, AssignmentsView>;

/// One entry of owned rights: the type of a right and its assignments.
pub type Entry = (usize, AssignmentsView);

/// The tag of the Merkle tree that commits to owned rights.
pub const MERKLE_NODE_TAG: &'static str = "owned_right";

/// The entries of owned rights in the order of their keys.
pub open spec fn entries(rights: RightsView) -> Seq<Entry> {
    key_order(rights.dom()).map_values(|key: usize| (key, rights[key]))
}

/// The entries of owned rights list each key once, in increasing order,
/// with the assignments under it.
pub proof fn lemma_entries(rights: RightsView)
    ensures
        entries(rights).len() == key_order(rights.dom()).len(),
        increasing(key_order(rights.dom())),
        forall|i: int|
            0 <= i < entries(rights).len() ==> {
                &&& (#[trigger] entries(rights)[i]).0 == key_order(rights.dom())[i]
                &&& rights.contains_key(entries(rights)[i].0)
                &&& entries(rights)[i].1 == rights[entries(rights)[i].0]
            },
        forall|key: usize|
            rights.contains_key(key) ==> exists|i: int|
                0 <= i < entries(rights).len() && (#[trigger] entries(rights)[i]).0 == key,
{
    let keys = key_order(rights.dom());
    lemma_key_order_exists(rights.dom());
    assert forall|i: int| 0 <= i < entries(rights).len() implies rights.contains_key(
        (#[trigger] entries(rights)[i]).0,
    ) by {
        assert(keys.to_set().contains(keys[i]));
    }
    assert forall|key: usize| rights.contains_key(key) implies exists|i: int|
        0 <= i < entries(rights).len() && (#[trigger] entries(rights)[i]).0 == key by {
        let i = choose|i: int| 0 <= i < keys.len() && keys[i] == key;
        assert(entries(rights)[i].0 == key);
    }
}

/// The encoding of a key: eight bytes, the least significant first.
pub open spec fn key_bytes(key: usize) -> Seq<u8> {
    spec_u64_to_le_bytes(key as u64)
}

/// The leaf of the Merkle tree for one owned state: the Merkle node that
/// commits to the key followed by the commitment of the owned state.
pub open spec fn leaf(key: usize, node: Seq<u8>) -> Seq<u8> {
    merkle_node_commitment(key_bytes(key) + node)
}

/// The message that a leaf commits to: the key followed by the commitment
/// of an owned state.
pub fn leaf_message(key: usize, node: &[u8; 32]) -> (message: Vec<u8>)
    ensures
        message@ == key_bytes(key) + node@,
{
    let mut message = u64_to_le_bytes(key as u64);
    append_array(&mut message, node);
    message
}

/// The leaves of one entry: one for each of its owned states, in order.
pub open spec fn entry_leaves(entry: Entry) -> Seq<Seq<u8>> {
    entry.1.consensus_commitments().map_values(|node: Seq<u8>| leaf(entry.0, node))
}

/// The leaves of a list of entries: those of each entry, in order.
pub open spec fn leaves(entries: Seq<Entry>) -> Seq<Seq<u8>>
    decreases entries.len(),
{
    if entries.len() == 0 {
        Seq::empty()
    } else {
        leaves(entries.drop_last()) + entry_leaves(entries.last())
    }
}

/// The commitment to owned rights: the root of the Merkle tree over the
/// leaves of all entries. It does not depend on how much the owned states
/// disclose, nor on an entry without owned states.
pub open spec fn rights_commitment(rights: RightsView) -> Seq<u8> {
    merkle_root(MERKLE_NODE_TAG@, leaves(entries(rights)), 0)
}

/// The mathematical content of a map of assignments.
pub open spec fn rights_view(rights: Map<usize, Assignments>) -> RightsView {
    rights.map_values(|assignments: Assignments| assignments@)
}

impl View for OwnedRightsInner {
    type V = RightsView;

    open spec fn view(&self) -> RightsView {
        rights_view(self.0@)
    }
}

impl Clone for OwnedRightsInner {
    fn clone(&self) -> (copy: Self)
        ensures
            copy@ == self@,
    {
        OwnedRightsInner(self.0.clone())
    }
}

impl From<OwnedRights> for OwnedRightsInner {
    fn from(inner: OwnedRights) -> (rights: OwnedRightsInner) {
        OwnedRightsInner(inner)
    }
}

impl vstd::std_specs::convert::FromSpecImpl<OwnedRights> for OwnedRightsInner {
    open spec fn obeys_from_spec() -> bool {
        true
    }

    open spec fn from_spec(inner: OwnedRights) -> OwnedRightsInner {
        OwnedRightsInner(inner)
    }
}

impl OwnedRightsInner {
    /// The view holds the keys of the map, and under each key the view of
    /// the assignments that the map holds there.
    pub proof fn lemma_view(&self)
        ensures
            self@.dom() == self.0@.dom(),
            forall|key: usize|
                #[trigger] self.0@.contains_key(key) ==> self@[key] == self.0@[key]@,
    {
    }

    /// Wraps a map of owned rights.
    pub fn from_inner(inner: OwnedRights) -> (rights: OwnedRightsInner)
        ensures
            rights.0 == inner,
    {
        OwnedRightsInner(inner)
    }

    /// The map of owned rights.
    pub fn as_inner(&self) -> (inner: &OwnedRights)
        ensures
            *inner == self.0,
    {
        &self.0
    }

    /// Unwraps the map of owned rights.
    pub fn into_inner(self) -> (inner: OwnedRights)
        ensures
            inner == self.0,
    {
        self.0
    }

    /// The leaves of the Merkle tree that commits to the owned rights.
    pub fn to_merkle_source(&self) -> (source: Vec<[u8; 32]>)
        ensures
            node_views(source@) == leaves(entries(self@)),
    {
        let keys = ordered_keys(&self.0);
        let ghost all = entries(self@);
        proof {
            self.lemma_view();
        }
        let mut source: Vec<[u8; 32]> = Vec::new();
        let mut i: usize = 0;
        while i < keys.len()
            invariant
                i <= keys@.len(),
                all == entries(self@),
                keys@ == key_order(self@.dom()),
                keys@.to_set() == self.0@.dom(),
                all.len() == keys@.len(),
                node_views(source@) == leaves(all.take(i as int)),
            decreases keys@.len() - i,
        {
            let key = keys[i];
            proof {
                self.lemma_view();
            }
            let assignments = value_at(&self.0, key);
            let nodes = assignments.consensus_commitments();
            let ghost before = source@;
            let mut j: usize = 0;
            while j < nodes.len()
                invariant
                    j <= nodes@.len(),
                    node_views(nodes@) == assignments@.consensus_commitments(),
                    source@.len() == before.len() + j,
                    source@.take(before.len() as int) == before,
                    forall|k: int|
                        0 <= k < j ==> (#[trigger] source@[before.len() + k])@ == leaf(
                            key,
                            nodes@[k]@,
                        ),
                decreases nodes@.len() - j,
            {
                let message = leaf_message(key, &nodes[j]);
                source.push(commit_merkle_node(&message));
                j += 1;
            }
            proof {
                // the leaves so far are those of the entries before, followed by
                // those of this entry
                assert(all.take(i + 1).drop_last() =~= all.take(i as int));
                assert(node_views(source@) =~= node_views(before) + entry_leaves(all[i as int]))
                    by {
                    assert forall|k: int| 0 <= k < before.len() implies node_views(source@)[k]
                        == node_views(before)[k] by {
                        assert(source@.take(before.len() as int)[k] == source@[k]);
                    }
                    assert forall|k: int| 0 <= k < nodes@.len() implies node_views(
                        source@,
                    )[before.len() + k] == entry_leaves(all[i as int])[k] by {
                        assert(node_views(nodes@)[k] == nodes@[k]@);
                    }
                }
            }
            i += 1;
        }
        assert(all.take(all.len() as int) =~= all);
        source
    }

    /// The commitment to the owned rights.
    pub fn consensus_commit(&self) -> (root: [u8; 32])
        ensures
            root@ == rights_commitment(self@),
    {
        let source = self.to_merkle_source();
        merklize_nodes(MERKLE_NODE_TAG, &source, 0)
    }
}

} // verus!
