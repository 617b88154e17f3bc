//! The kinds of contract node that the error taxonomy names.

use vstd::prelude::*;

verus! {

/// The type of a contract node.
#[derive(Clone, Copy, PartialEq, Eq, Structural, PartialOrd, Ord, Hash, Debug)]
pub enum NodeType {
    /// The node that opens a contract.
    Genesis,
    /// A node that extends the contract's state without closing seals.
    StateExtension,
    /// A node that closes seals and assigns new state.
    StateTransition,
}

} // verus!
