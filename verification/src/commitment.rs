//! Cryptographic commitments, computed by the LNP/BP libraries.
//!
//! Nothing in this module is proved: each function hands its arguments to the
//! outside library and names what comes back. Everything else in the crate is
//! verified against these names.
//!
//! Hashes cross this boundary as their 32 inner bytes, in the order in which
//! they are computed and stored (`from_inner` and `into_inner` of
//! `bitcoin::hashes::Hash`), which for a transaction id is the reverse of the
//! order in which it is displayed.

use amplify::Wrapper;
use lnpbp::client_side_validation::{merklize, CommitConceal, MerkleNode};
use lnpbp::commit_verify::CommitVerify;
use lnpbp::seals::OutpointReveal;
use vstd::prelude::*;

verus! {

/// The commitment to a blinded transaction outpoint: the 32 bytes of
/// `lnpbp::seals::OutpointHash` for the given blinding factor, transaction id
/// and output number.
pub uninterp spec fn outpoint_commitment(blinding: u64, txid: Seq<u8>, vout: u32) -> Seq<u8>;

/// The commitment to a message: the 32 bytes of
/// `client_side_validation::MerkleNode` committing to `msg`.
pub uninterp spec fn merkle_node_commitment(msg: Seq<u8>) -> Seq<u8>;

/// The root of the tagged Merkle tree that `client_side_validation::merklize`
/// builds over `leaves`, starting at the given depth.
pub uninterp spec fn merkle_root(tag: Seq<char>, leaves: Seq<Seq<u8>>, depth: u16) -> Seq<u8>;

/// The byte sequences held by a list of 32-byte nodes.
pub open spec fn node_views(nodes: Seq<[u8; 32]>) -> Seq<Seq<u8>> {
    nodes.map_values(|node: [u8; 32]| node@)
}

/// Calls `OutpointReveal::commit_conceal` of `lnpbp::seals` on an outpoint
/// built from the three arguments and returns the bytes of the resulting
/// `OutpointHash`. The contract claims only that the result is a function of
/// the arguments.
#[verifier::external_body]
pub(crate) fn conceal_outpoint(blinding: u64, txid: &[u8; 32], vout: u32) -> (hash: [u8; 32])
    ensures
        hash@ == outpoint_commitment(blinding, txid@, vout),
{
    let reveal = OutpointReveal { blinding, txid: bitcoin::hashes::Hash::from_inner(*txid), vout };
    bitcoin::hashes::Hash::into_inner(reveal.commit_conceal().into_inner())
}

/// Calls `MerkleNode::commit` (the `CommitVerify` implementation of
/// `client_side_validation`) on the message and returns the bytes of the
/// node. The contract claims only that the result is a function of the
/// message.
#[verifier::external_body]
pub(crate) fn commit_merkle_node(msg: &Vec<u8>) -> (node: [u8; 32])
    ensures
        node@ == merkle_node_commitment(msg@),
{
    bitcoin::hashes::Hash::into_inner(MerkleNode::commit(msg))
}

/// Calls `client_side_validation::merklize` on the leaves, taken as Merkle
/// nodes, and returns the bytes of the root. The contract claims only that
/// the result is a function of the tag, the leaves and the depth. The depth
/// is bounded because `merklize` adds one per level of the tree, and a slice
/// has fewer than 64 levels.
#[verifier::external_body]
pub(crate) fn merklize_nodes(tag: &str, leaves: &Vec<[u8; 32]>, depth: u16) -> (root: [u8; 32])
    requires
        depth as int + 64 <= u16::MAX,
    ensures
        root@ == merkle_root(tag@, node_views(leaves@), depth),
{
    let nodes: Vec<MerkleNode> =
        leaves.iter().map(|leaf| bitcoin::hashes::Hash::from_inner(*leaf)).collect();
    bitcoin::hashes::Hash::into_inner(merklize(tag, &nodes, depth))
}

} // verus!
