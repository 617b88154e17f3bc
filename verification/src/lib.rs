//! Reveal-merging of confidential contract state.
//!
//! Parties to a client-side-validated contract hold partial views of the same
//! committed state: a seal definition and a state payload, each either
//! disclosed or replaced by its commitment. This crate joins two such views
//! into the most informative one, after checking that both commit to the
//! same data, on three levels: a single owned state, an ordered collection of
//! owned states of one kind, and a keyed map of such collections.

pub mod assignments;
pub mod bytes;
pub mod commitment;
pub mod data;
pub mod laws;
pub mod merge;
pub mod ordered;
pub mod rights;
pub mod schema;
pub mod seal;

pub use assignments::{Assignments, Disclosure, OwnedState, StateKind};
pub use merge::{Error, IntoRevealed};
pub use rights::{OwnedRights, OwnedRightsInner};
pub use schema::NodeType;
