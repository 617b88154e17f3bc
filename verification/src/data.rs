//! State payloads: the data assigned to a seal, either disclosed or replaced
//! by its commitment.

use crate::commitment::{commit_merkle_node, merkle_node_commitment};
use vstd::prelude::*;

verus! {

/// A disclosed payload, in its canonical byte encoding.
#[derive(PartialEq, Eq, Debug)]
pub struct Revealed {
    /// The bytes of the payload.
    pub data: Vec<u8>,
}

/// A concealed payload: the Merkle node that commits to the bytes of a
/// disclosed one.
#[derive(Clone, Copy, PartialEq, Eq, Debug)]
pub struct Confidential {
    /// The 32 bytes of the commitment.
    pub commitment: [u8; 32],
}

impl View for Revealed {
    type V = Seq<u8>;

    open spec fn view(&self) -> Seq<u8> {
        self.data@
    }
}

impl View for Confidential {
    type V = Seq<u8>;

    open spec fn view(&self) -> Seq<u8> {
        self.commitment@
    }
}

impl Clone for Revealed {
    fn clone(&self) -> (copy: Self)
        ensures
            copy@ == self@,
    {
        Revealed { data: self.data.clone() }
    }
}

impl Revealed {
    /// Conceals the payload.
    pub fn commit_conceal(&self) -> (concealed: Confidential)
        ensures
            concealed@ == merkle_node_commitment(self@),
    {
        Confidential { commitment: commit_merkle_node(&self.data) }
    }
}

} // verus!
