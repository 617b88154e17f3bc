//! Seal definitions: the transaction output a piece of state is bound to,
//! either disclosed or replaced by its commitment.

use crate::commitment::{conceal_outpoint, outpoint_commitment};
use vstd::prelude::*;

verus! {

/// A disclosed seal: a transaction outpoint with its blinding factor.
#[derive(Clone, Copy, PartialEq, Eq, Debug)]
pub struct Revealed {
    /// Blinding factor that keeps the commitment from being guessed.
    pub blinding: u64,
    /// Identifier of the transaction.
    pub txid: [u8; 32],
    /// Number of the transaction output.
    pub vout: u32,
}

/// The mathematical content of a disclosed seal.
pub struct Outpoint {
    pub blinding: u64,
    pub txid: Seq<u8>,
    pub vout: u32,
}

/// A concealed seal: the commitment to a disclosed one.
#[derive(Clone, Copy, PartialEq, Eq, Debug)]
pub struct Confidential {
    /// The 32 bytes of the commitment.
    pub hash: [u8; 32],
}

impl Outpoint {
    /// The commitment that conceals this outpoint.
    pub open spec fn commitment(self) -> Seq<u8> {
        outpoint_commitment(self.blinding, self.txid, self.vout)
    }
}

impl View for Revealed {
    type V = Outpoint;

    open spec fn view(&self) -> Outpoint {
        Outpoint { blinding: self.blinding, txid: self.txid@, vout: self.vout }
    }
}

impl View for Confidential {
    type V = Seq<u8>;

    open spec fn view(&self) -> Seq<u8> {
        self.hash@
    }
}

impl Revealed {
    /// Conceals the seal.
    pub fn commit_conceal(&self) -> (concealed: Confidential)
        ensures
            concealed@ == self@.commitment(),
    {
        Confidential { hash: conceal_outpoint(self.blinding, &self.txid, self.vout) }
    }
}

} // verus!
