//! Owned state: a seal definition together with the state assigned to it,
//! each of the two either disclosed or concealed.

use crate::bytes::append_array;
use crate::commitment::{commit_merkle_node, merkle_node_commitment, node_views};
use crate::data;
use crate::seal;
use crate::seal::Outpoint;
use vstd::prelude::*;

verus! {

/// How much of an owned state is disclosed.
///
/// The levels form a lattice: `Confidential` is below every level,
/// `Revealed` above every level, and the two levels in between are not
/// comparable.
#[derive(Clone, Copy, PartialEq, Eq, Structural, Debug)]
pub enum Disclosure {
    /// Seal and state are concealed.
    Confidential,
    /// The seal is concealed, the state disclosed.
    ConfidentialSeal,
    /// The seal is disclosed, the state concealed.
    ConfidentialAmount,
    /// Seal and state are disclosed.
    Revealed,
}

impl Disclosure {
    /// Whether this level discloses the seal.
    pub open spec fn discloses_seal(self) -> bool {
        self == Disclosure::Revealed || self == Disclosure::ConfidentialAmount
    }

    /// Whether this level discloses the state.
    pub open spec fn discloses_state(self) -> bool {
        self == Disclosure::Revealed || self == Disclosure::ConfidentialSeal
    }

    /// The order of the lattice: `self` discloses nothing that `other` hides.
    pub open spec fn le(self, other: Disclosure) -> bool {
        &&& self.discloses_seal() ==> other.discloses_seal()
        &&& self.discloses_state() ==> other.discloses_state()
    }

    /// The least level that is above both: it discloses what either one
    /// discloses.
    pub open spec fn join(self, other: Disclosure) -> Disclosure {
        let seal = self.discloses_seal() || other.discloses_seal();
        let state = self.discloses_state() || other.discloses_state();
        if seal && state {
            Disclosure::Revealed
        } else if seal {
            Disclosure::ConfidentialAmount
        } else if state {
            Disclosure::ConfidentialSeal
        } else {
            Disclosure::Confidential
        }
    }
}

/// A seal definition with the state assigned to it, at one of the four
/// levels of disclosure.
#[derive(PartialEq, Eq, Debug)]
#[allow(inconsistent_fields)]
pub enum OwnedState {
    /// Seal and state are concealed.
    Confidential { seal_definition: seal::Confidential, assigned_state: data::Confidential },
    /// Seal and state are disclosed.
    Revealed { seal_definition: seal::Revealed, assigned_state: data::Revealed },
    /// The seal is concealed, the state disclosed.
    ConfidentialSeal { seal_definition: seal::Confidential, assigned_state: data::Revealed },
    /// The seal is disclosed, the state concealed.
    ConfidentialAmount { seal_definition: seal::Revealed, assigned_state: data::Confidential },
}

/// The mathematical content of an owned state.
#[allow(inconsistent_fields)]
pub enum StateView {
    Confidential { seal_definition: Seq<u8>, assigned_state: Seq<u8> },
    Revealed { seal_definition: Outpoint, assigned_state: Seq<u8> },
    ConfidentialSeal { seal_definition: Seq<u8>, assigned_state: Seq<u8> },
    ConfidentialAmount { seal_definition: Outpoint, assigned_state: Seq<u8> },
}

impl StateView {
    /// The level of disclosure.
    pub open spec fn disclosure(self) -> Disclosure {
        match self {
            StateView::Confidential { .. } => Disclosure::Confidential,
            StateView::Revealed { .. } => Disclosure::Revealed,
            StateView::ConfidentialSeal { .. } => Disclosure::ConfidentialSeal,
            StateView::ConfidentialAmount { .. } => Disclosure::ConfidentialAmount,
        }
    }

    /// The seal, where it is disclosed.
    pub open spec fn disclosed_seal(self) -> Option<Outpoint> {
        match self {
            StateView::Revealed { seal_definition, .. } => Some(seal_definition),
            StateView::ConfidentialAmount { seal_definition, .. } => Some(seal_definition),
            _ => None,
        }
    }

    /// The state, where it is disclosed.
    pub open spec fn disclosed_state(self) -> Option<Seq<u8>> {
        match self {
            StateView::Revealed { assigned_state, .. } => Some(assigned_state),
            StateView::ConfidentialSeal { assigned_state, .. } => Some(assigned_state),
            _ => None,
        }
    }

    /// The commitment to the seal: the concealed seal itself, or the
    /// commitment that conceals the disclosed one.
    pub open spec fn seal_commitment(self) -> Seq<u8> {
        match self {
            StateView::Confidential { seal_definition, .. } => seal_definition,
            StateView::Revealed { seal_definition, .. } => seal_definition.commitment(),
            StateView::ConfidentialSeal { seal_definition, .. } => seal_definition,
            StateView::ConfidentialAmount { seal_definition, .. } => seal_definition.commitment(),
        }
    }

    /// The commitment to the state: the concealed state itself, or the
    /// commitment that conceals the disclosed one.
    pub open spec fn state_commitment(self) -> Seq<u8> {
        match self {
            StateView::Confidential { assigned_state, .. } => assigned_state,
            StateView::Revealed { assigned_state, .. } => merkle_node_commitment(assigned_state),
            StateView::ConfidentialSeal { assigned_state, .. } => merkle_node_commitment(
                assigned_state,
            ),
            StateView::ConfidentialAmount { assigned_state, .. } => assigned_state,
        }
    }

    /// The owned state with its state concealed and its seal as it is.
    pub open spec fn conceal_state(self) -> StateView {
        match self {
            StateView::Revealed { seal_definition, .. } => StateView::ConfidentialAmount {
                seal_definition,
                assigned_state: self.state_commitment(),
            },
            StateView::ConfidentialSeal { seal_definition, .. } => StateView::Confidential {
                seal_definition,
                assigned_state: self.state_commitment(),
            },
            _ => self,
        }
    }

    /// The fully concealed form, which every level of disclosure of one
    /// piece of state shares.
    pub open spec fn commit_conceal(self) -> StateView {
        StateView::Confidential {
            seal_definition: self.seal_commitment(),
            assigned_state: self.state_commitment(),
        }
    }

    /// The commitment: the encoding of the fully concealed form, which is
    /// the seal commitment followed by the state commitment.
    pub open spec fn commit_serialize(self) -> Seq<u8> {
        self.seal_commitment() + self.state_commitment()
    }

    /// The Merkle node that commits to the owned state.
    pub open spec fn consensus_commit(self) -> Seq<u8> {
        merkle_node_commitment(self.commit_serialize())
    }

    /// Whether the value is one that an `OwnedState` can hold: concealed
    /// parts and transaction ids are 32 bytes long.
    pub open spec fn well_formed(self) -> bool {
        match self {
            StateView::Confidential { seal_definition, assigned_state } => {
                seal_definition.len() == 32 && assigned_state.len() == 32
            },
            StateView::Revealed { seal_definition, .. } => seal_definition.txid.len() == 32,
            StateView::ConfidentialSeal { seal_definition, .. } => seal_definition.len() == 32,
            StateView::ConfidentialAmount { seal_definition, assigned_state } => {
                seal_definition.txid.len() == 32 && assigned_state.len() == 32
            },
        }
    }
}

impl View for OwnedState {
    type V = StateView;

    open spec fn view(&self) -> StateView {
        match *self {
            OwnedState::Confidential { seal_definition: seal, assigned_state: state } => {
                StateView::Confidential { seal_definition: seal@, assigned_state: state@ }
            },
            OwnedState::Revealed { seal_definition: seal, assigned_state: state } => {
                StateView::Revealed { seal_definition: seal@, assigned_state: state@ }
            },
            OwnedState::ConfidentialSeal { seal_definition: seal, assigned_state: state } => {
                StateView::ConfidentialSeal { seal_definition: seal@, assigned_state: state@ }
            },
            OwnedState::ConfidentialAmount { seal_definition: seal, assigned_state: state } => {
                StateView::ConfidentialAmount { seal_definition: seal@, assigned_state: state@ }
            },
        }
    }
}

impl Clone for OwnedState {
    fn clone(&self) -> (copy: Self)
        ensures
            copy@ == self@,
    {
        match self {
            OwnedState::Confidential { seal_definition: seal, assigned_state: state } => {
                OwnedState::Confidential { seal_definition: *seal, assigned_state: *state }
            },
            OwnedState::Revealed { seal_definition: seal, assigned_state: state } => {
                OwnedState::Revealed { seal_definition: *seal, assigned_state: state.clone() }
            },
            OwnedState::ConfidentialSeal { seal_definition: seal, assigned_state: state } => {
                OwnedState::ConfidentialSeal {
                    seal_definition: *seal,
                    assigned_state: state.clone(),
                }
            },
            OwnedState::ConfidentialAmount { seal_definition: seal, assigned_state: state } => {
                OwnedState::ConfidentialAmount { seal_definition: *seal, assigned_state: *state }
            },
        }
    }
}

impl OwnedState {
    /// Every owned state is well formed.
    pub proof fn lemma_well_formed(&self)
        ensures
            self@.well_formed(),
    {
    }

    /// The level of disclosure.
    pub fn disclosure(&self) -> (level: Disclosure)
        ensures
            level == self@.disclosure(),
    {
        match self {
            OwnedState::Confidential { .. } => Disclosure::Confidential,
            OwnedState::Revealed { .. } => Disclosure::Revealed,
            OwnedState::ConfidentialSeal { .. } => Disclosure::ConfidentialSeal,
            OwnedState::ConfidentialAmount { .. } => Disclosure::ConfidentialAmount,
        }
    }

    /// The seal in concealed form.
    pub fn seal_definition_confidential(&self) -> (seal: seal::Confidential)
        ensures
            seal@ == self@.seal_commitment(),
    {
        match self {
            OwnedState::Confidential { seal_definition, .. } => *seal_definition,
            OwnedState::Revealed { seal_definition, .. } => seal_definition.commit_conceal(),
            OwnedState::ConfidentialSeal { seal_definition, .. } => *seal_definition,
            OwnedState::ConfidentialAmount { seal_definition, .. } => {
                seal_definition.commit_conceal()
            },
        }
    }

    /// The state in concealed form.
    pub fn assigned_state_confidential(&self) -> (state: data::Confidential)
        ensures
            state@ == self@.state_commitment(),
    {
        match self {
            OwnedState::Confidential { assigned_state, .. } => *assigned_state,
            OwnedState::Revealed { assigned_state, .. } => assigned_state.commit_conceal(),
            OwnedState::ConfidentialSeal { assigned_state, .. } => assigned_state.commit_conceal(),
            OwnedState::ConfidentialAmount { assigned_state, .. } => *assigned_state,
        }
    }

    /// The state, where it is disclosed.
    pub fn assigned_state(&self) -> (state: Option<&data::Revealed>)
        ensures
            match state {
                Some(revealed) => self@.disclosed_state() == Some(revealed@),
                None => self@.disclosed_state() is None,
            },
    {
        match self {
            OwnedState::Revealed { assigned_state, .. } => Some(assigned_state),
            OwnedState::ConfidentialSeal { assigned_state, .. } => Some(assigned_state),
            _ => None,
        }
    }

    /// Conceals the state and leaves the seal as it is. Returns the number
    /// of states that were concealed: one, or none where the state was
    /// concealed already.
    pub fn conceal_state(&mut self) -> (count: usize)
        ensures
            final(self)@ == old(self)@.conceal_state(),
            count == if old(self)@.disclosure().discloses_state() {
                1usize
            } else {
                0usize
            },
    {
        match self {
            OwnedState::Revealed { seal_definition, assigned_state } => {
                let concealed = OwnedState::ConfidentialAmount {
                    seal_definition: *seal_definition,
                    assigned_state: assigned_state.commit_conceal(),
                };
                *self = concealed;
                1
            },
            OwnedState::ConfidentialSeal { seal_definition, assigned_state } => {
                let concealed = OwnedState::Confidential {
                    seal_definition: *seal_definition,
                    assigned_state: assigned_state.commit_conceal(),
                };
                *self = concealed;
                1
            },
            _ => 0,
        }
    }

    /// The fully concealed form of the owned state.
    pub fn commit_conceal(&self) -> (concealed: OwnedState)
        ensures
            concealed@ == self@.commit_conceal(),
    {
        OwnedState::Confidential {
            seal_definition: self.seal_definition_confidential(),
            assigned_state: self.assigned_state_confidential(),
        }
    }

    /// The commitment to the owned state, which does not depend on the level
    /// of disclosure.
    pub fn commit_serialize(&self) -> (commitment: Vec<u8>)
        ensures
            commitment@ == self@.commit_serialize(),
            commitment@.len() == 64,
    {
        let seal = self.seal_definition_confidential();
        let state = self.assigned_state_confidential();
        let mut commitment: Vec<u8> = Vec::new();
        append_array(&mut commitment, &seal.hash);
        append_array(&mut commitment, &state.commitment);
        commitment
    }

    /// The Merkle node that commits to the owned state.
    pub fn consensus_commit(&self) -> (node: [u8; 32])
        ensures
            node@ == self@.consensus_commit(),
    {
        let commitment = self.commit_serialize();
        commit_merkle_node(&commitment)
    }
}

/// The kind of state that a collection of assignments holds.
#[derive(Clone, Copy, PartialEq, Eq, Structural, Debug)]
pub enum StateKind {
    /// Rights without a payload.
    Declarative,
    /// Rights to an amount, which the payload holds with its blinding
    /// factor.
    DiscreteFiniteField,
    /// Rights to data, which the payload holds.
    CustomData,
}

/// An ordered collection of owned states of one kind.
///
/// The order matters: two collections over the same state hold it in the
/// same order, and are merged position by position.
#[derive(PartialEq, Eq, Debug)]
pub enum Assignments {
    /// Rights without a payload.
    Declarative(Vec<OwnedState>),
    /// Rights to an amount.
    DiscreteFiniteField(Vec<OwnedState>),
    /// Rights to data.
    CustomData(Vec<OwnedState>),
}

/// The mathematical content of a collection of assignments.
pub struct AssignmentsView {
    pub kind: StateKind,
    pub states: Seq<StateView>,
}

/// The mathematical content of a list of owned states.
pub open spec fn state_views(states: Seq<OwnedState>) -> Seq<StateView> {
    states.map_values(|state: OwnedState| state@)
}

impl AssignmentsView {
    /// The owned states, where the collection is of the given kind, and no
    /// owned states where it is of another.
    pub open spec fn states_of(self, kind: StateKind) -> Seq<StateView> {
        if self.kind == kind {
            self.states
        } else {
            Seq::empty()
        }
    }

    /// The Merkle nodes that commit to the owned states, in order. They do
    /// not depend on the kind of the collection, nor on how much each owned
    /// state discloses.
    pub open spec fn consensus_commitments(self) -> Seq<Seq<u8>> {
        self.states.map_values(|state: StateView| state.consensus_commit())
    }
}

impl View for Assignments {
    type V = AssignmentsView;

    open spec fn view(&self) -> AssignmentsView {
        match *self {
            Assignments::Declarative(states) => AssignmentsView {
                kind: StateKind::Declarative,
                states: state_views(states@),
            },
            Assignments::DiscreteFiniteField(states) => AssignmentsView {
                kind: StateKind::DiscreteFiniteField,
                states: state_views(states@),
            },
            Assignments::CustomData(states) => AssignmentsView {
                kind: StateKind::CustomData,
                states: state_views(states@),
            },
        }
    }
}

/// Copies a list of owned states.
pub fn clone_states(states: &Vec<OwnedState>) -> (copy: Vec<OwnedState>)
    ensures
        state_views(copy@) == state_views(states@),
{
    let mut copy: Vec<OwnedState> = Vec::new();
    let mut i: usize = 0;
    while i < states.len()
        invariant
            i <= states@.len(),
            copy@.len() == i,
            forall|j: int| 0 <= j < i ==> copy@[j]@ == states@[j]@,
        decreases states@.len() - i,
    {
        copy.push(states[i].clone());
        i += 1;
    }
    copy
}

impl Clone for Assignments {
    fn clone(&self) -> (copy: Self)
        ensures
            copy@ == self@,
    {
        Assignments::with_kind(self.kind(), clone_states(self.states()))
    }
}

impl Assignments {
    /// The collection of the given kind that holds the given owned states.
    pub fn with_kind(kind: StateKind, states: Vec<OwnedState>) -> (assignments: Assignments)
        ensures
            assignments@ == (AssignmentsView { kind, states: state_views(states@) }),
    {
        match kind {
            StateKind::Declarative => Assignments::Declarative(states),
            StateKind::DiscreteFiniteField => Assignments::DiscreteFiniteField(states),
            StateKind::CustomData => Assignments::CustomData(states),
        }
    }

    /// The kind of state that the collection holds.
    pub fn kind(&self) -> (kind: StateKind)
        ensures
            kind == self@.kind,
    {
        match self {
            Assignments::Declarative(_) => StateKind::Declarative,
            Assignments::DiscreteFiniteField(_) => StateKind::DiscreteFiniteField,
            Assignments::CustomData(_) => StateKind::CustomData,
        }
    }

    /// The owned states of the collection.
    pub fn states(&self) -> (states: &Vec<OwnedState>)
        ensures
            state_views(states@) == self@.states,
    {
        match self {
            Assignments::Declarative(states) => states,
            Assignments::DiscreteFiniteField(states) => states,
            Assignments::CustomData(states) => states,
        }
    }

    /// Takes the collection apart into its owned states.
    pub fn into_states(self) -> (states: Vec<OwnedState>)
        ensures
            state_views(states@) == self@.states,
    {
        match self {
            Assignments::Declarative(states) => states,
            Assignments::DiscreteFiniteField(states) => states,
            Assignments::CustomData(states) => states,
        }
    }

    /// The owned states, where the collection is of the given kind, and
    /// no owned states where it is of another.
    pub fn into_states_of(self, kind: StateKind) -> (states: Vec<OwnedState>)
        ensures
            state_views(states@) == self@.states_of(kind),
    {
        if self.kind() == kind {
            self.into_states()
        } else {
            Vec::new()
        }
    }

    /// A copy of the owned states, where the collection is of the given
    /// kind, and no owned states where it is of another.
    pub fn to_states_of(&self, kind: StateKind) -> (states: Vec<OwnedState>)
        ensures
            state_views(states@) == self@.states_of(kind),
    {
        if self.kind() == kind {
            clone_states(self.states())
        } else {
            Vec::new()
        }
    }

    /// A copy of the owned states of a declarative collection.
    pub fn to_declarative_state(&self) -> (states: Vec<OwnedState>)
        ensures
            state_views(states@) == self@.states_of(StateKind::Declarative),
    {
        self.to_states_of(StateKind::Declarative)
    }

    /// A copy of the owned states of a collection of amounts.
    pub fn to_discrete_state(&self) -> (states: Vec<OwnedState>)
        ensures
            state_views(states@) == self@.states_of(StateKind::DiscreteFiniteField),
    {
        self.to_states_of(StateKind::DiscreteFiniteField)
    }

    /// A copy of the owned states of a collection of data.
    pub fn to_custom_state(&self) -> (states: Vec<OwnedState>)
        ensures
            state_views(states@) == self@.states_of(StateKind::CustomData),
    {
        self.to_states_of(StateKind::CustomData)
    }

    /// The owned states of a declarative collection.
    pub fn into_declarative_state(self) -> (states: Vec<OwnedState>)
        ensures
            state_views(states@) == self@.states_of(StateKind::Declarative),
    {
        self.into_states_of(StateKind::Declarative)
    }

    /// The owned states of a collection of amounts.
    pub fn into_discrete_state(self) -> (states: Vec<OwnedState>)
        ensures
            state_views(states@) == self@.states_of(StateKind::DiscreteFiniteField),
    {
        self.into_states_of(StateKind::DiscreteFiniteField)
    }

    /// The owned states of a collection of data.
    pub fn into_custom_state(self) -> (states: Vec<OwnedState>)
        ensures
            state_views(states@) == self@.states_of(StateKind::CustomData),
    {
        self.into_states_of(StateKind::CustomData)
    }

    /// The Merkle nodes that commit to the owned states, in order.
    pub fn consensus_commitments(&self) -> (nodes: Vec<[u8; 32]>)
        ensures
            node_views(nodes@) == self@.consensus_commitments(),
    {
        let states = self.states();
        let mut nodes: Vec<[u8; 32]> = Vec::new();
        let mut i: usize = 0;
        while i < states.len()
            invariant
                i <= states@.len(),
                nodes@.len() == i,
                forall|j: int| 0 <= j < i ==> nodes@[j]@ == states@[j]@.consensus_commit(),
            decreases states@.len() - i,
        {
            nodes.push(states[i].consensus_commit());
            i += 1;
        }
        assert(node_views(nodes@) =~= state_views(states@).map_values(
            |state: StateView| state.consensus_commit(),
        ));
        nodes
    }
}

} // verus!
