//! Merging two views of the same state into the most revealing one.
//!
//! The merge consumes both operands. It never conceals what an operand
//! disclosed, and it refuses operands whose commitments differ.

use crate::assignments::{state_views, Assignments, AssignmentsView, OwnedState, StateView};
use crate::bytes::{bytes_equal, nodes_equal};
use crate::laws::lemma_merge_keeps_commitment;
use crate::ordered::{increasing, key_order, ordered_keys, put_at, take_at, value_at};
use crate::rights::{
    entries, rights_commitment, rights_view, Entry, OwnedRights, OwnedRightsInner, RightsView,
};
use crate::schema::NodeType;
use std::collections::BTreeMap;
use vstd::prelude::*;

verus! {

/// The reason a merge was refused.
///
/// The first three errors come from the merges of this crate. The other two
/// are kept for the merges of anchors and of whole contract nodes, which
/// share these errors and are not part of this crate.
#[derive(Clone, Copy, PartialEq, Eq, Structural, PartialOrd, Ord, Hash, Debug)]
pub enum Error {
    /// Owned states have different commitments and cannot be merged.
    OwnedStateMismatch,
    /// Assignments have different commitments and cannot be merged.
    AssignmentMismatch,
    /// Owned rights have different commitments and cannot be merged.
    OwnedRightsMismatch,
    /// Anchors have different commitments and cannot be merged.
    AnchorsMismatch,
    /// Nodes of the given type have different commitments and cannot be
    /// merged.
    NodeMismatch(NodeType),
}

/// The mathematical content of a merge result.
pub open spec fn result_view<T: View>(result: Result<T, Error>) -> Result<T::V, Error> {
    match result {
        Ok(value) => Ok(value@),
        Err(error) => Err(error),
    }
}

/// Merging of two structures that disclose different parts of the same
/// committed data.
///
/// The merge consumes both structures and returns one that discloses
/// whatever either of them did:
///
/// - merging anything with a revealed structure gives the revealed one;
/// - merging a concealed seal with a concealed state gives a revealed
///   structure, and so the other way round;
/// - merging anything with a fully concealed structure gives the other one.
pub trait IntoRevealed: Sized + View {
    /// Whether the merge of the two operands is defined. It is not where
    /// operands of different shape carry equal commitments: the commitment
    /// scheme is then broken, and no result would be right.
    spec fn can_reveal(first: Self::V, second: Self::V) -> bool;

    /// The outcome of the merge.
    spec fn revealed(first: Self::V, second: Self::V) -> Result<Self::V, Error>;

    /// Merges `self` with `other`.
    fn into_revealed(self, other: Self) -> (merged: Result<Self, Error>)
        requires
            Self::can_reveal(self@, other@),
        ensures
            result_view(merged) == Self::revealed(self@, other@),
    ;
}

impl StateView {
    /// Whether two owned states commit to the same data.
    pub open spec fn consistent_with(self, other: StateView) -> bool {
        self.commit_serialize() == other.commit_serialize()
    }

    /// The join of two owned states: the value that the merge of two
    /// consistent operands gives.
    ///
    /// A revealed operand is the result, the second one where both are
    /// revealed. Operands of the same level give the first. A fully
    /// concealed operand gives way to the other one. What is left are the
    /// two complementary levels, which give a revealed state made of the
    /// seal of the one and the state of the other.
    pub open spec fn join(self, other: StateView) -> StateView {
        if other is Revealed {
            other
        } else if self is Revealed {
            self
        } else if self.disclosure() == other.disclosure() {
            self
        } else if other is Confidential {
            self
        } else if self is Confidential {
            other
        } else if self is ConfidentialSeal {
            StateView::Revealed {
                seal_definition: other->ConfidentialAmount_seal_definition,
                assigned_state: self->ConfidentialSeal_assigned_state,
            }
        } else {
            StateView::Revealed {
                seal_definition: self->ConfidentialAmount_seal_definition,
                assigned_state: other->ConfidentialSeal_assigned_state,
            }
        }
    }

    /// The outcome of merging two owned states: their join where they are
    /// consistent, and a mismatch where they are not.
    pub open spec fn merge(self, other: StateView) -> Result<StateView, Error> {
        if self.consistent_with(other) {
            Ok(self.join(other))
        } else {
            Err(Error::OwnedStateMismatch)
        }
    }
}

impl OwnedState {
    /// Whether the two owned states commit to the same data.
    pub fn consistent_with(&self, other: &OwnedState) -> (consistent: bool)
        ensures
            consistent == self@.consistent_with(other@),
    {
        let first = self.commit_serialize();
        let second = other.commit_serialize();
        bytes_equal(first.as_slice(), second.as_slice())
    }
}

impl IntoRevealed for OwnedState {
    open spec fn can_reveal(first: StateView, second: StateView) -> bool {
        true
    }

    open spec fn revealed(first: StateView, second: StateView) -> Result<StateView, Error> {
        first.merge(second)
    }

    fn into_revealed(self, other: Self) -> (merged: Result<Self, Error>)
        ensures
            merged matches Ok(state) ==> state@.consistent_with(self@),
    {
        let first = self.commit_serialize();
        let second = other.commit_serialize();
        if !bytes_equal(first.as_slice(), second.as_slice()) {
            return Err(Error::OwnedStateMismatch);
        }
        proof {
            self.lemma_well_formed();
            other.lemma_well_formed();
            lemma_merge_keeps_commitment(self@, other@);
        }
        match other {
            OwnedState::Revealed { .. } => Ok(other),
            OwnedState::Confidential { .. } => Ok(self),
            OwnedState::ConfidentialSeal { seal_definition: concealed, assigned_state: state } => {
                match self {
                    OwnedState::Revealed { .. } => Ok(self),
                    OwnedState::ConfidentialSeal { .. } => Ok(self),
                    OwnedState::Confidential { .. } => Ok(
                        OwnedState::ConfidentialSeal {
                            seal_definition: concealed,
                            assigned_state: state,
                        },
                    ),
                    OwnedState::ConfidentialAmount { seal_definition: seal, .. } => Ok(
                        OwnedState::Revealed { seal_definition: seal, assigned_state: state },
                    ),
                }
            },
            OwnedState::ConfidentialAmount { seal_definition: seal, assigned_state: concealed } => {
                match self {
                    OwnedState::Revealed { .. } => Ok(self),
                    OwnedState::ConfidentialAmount { .. } => Ok(self),
                    OwnedState::Confidential { .. } => Ok(
                        OwnedState::ConfidentialAmount {
                            seal_definition: seal,
                            assigned_state: concealed,
                        },
                    ),
                    OwnedState::ConfidentialSeal { assigned_state: state, .. } => Ok(
                        OwnedState::Revealed { seal_definition: seal, assigned_state: state },
                    ),
                }
            },
        }
    }
}

impl AssignmentsView {
    /// Whether two collections commit to the same data: the Merkle nodes of
    /// their owned states are the same, in the same order.
    pub open spec fn consistent_with(self, other: AssignmentsView) -> bool {
        self.consensus_commitments() == other.consensus_commitments()
    }

    /// Whether the owned states of two collections are consistent position
    /// by position.
    pub open spec fn states_consistent_with(self, other: AssignmentsView) -> bool {
        forall|i: int|
            0 <= i < self.states.len() && i < other.states.len() ==> (
            #[trigger] self.states[i]).consistent_with(other.states[i])
    }

    /// The join of two collections of equal length: the collection of the
    /// kind of the first that holds, at each position, the join of the owned
    /// states at that position.
    pub open spec fn join(self, other: AssignmentsView) -> AssignmentsView {
        AssignmentsView {
            kind: self.kind,
            states: Seq::new(self.states.len(), |i: int| self.states[i].join(other.states[i])),
        }
    }

    /// Whether the merge of two collections is defined: they are of one
    /// kind, or else their commitments differ.
    pub open spec fn can_merge(self, other: AssignmentsView) -> bool {
        self.kind == other.kind || !self.consistent_with(other)
    }

    /// The outcome of merging two collections: a mismatch of assignments
    /// where they are not consistent, a mismatch of owned states where the
    /// owned states at some position are not, and else the join.
    pub open spec fn merge(self, other: AssignmentsView) -> Result<AssignmentsView, Error> {
        if !self.consistent_with(other) {
            Err(Error::AssignmentMismatch)
        } else if !self.states_consistent_with(other) {
            Err(Error::OwnedStateMismatch)
        } else {
            Ok(self.join(other))
        }
    }
}

/// Merges two lists of owned states of equal length position by position.
fn merge_states(first: Vec<OwnedState>, second: Vec<OwnedState>) -> (merged: Result<
    Vec<OwnedState>,
    Error,
>)
    requires
        first@.len() == second@.len(),
    ensures
        match merged {
            Ok(states) => {
                &&& states@.len() == first@.len()
                &&& forall|i: int|
                    0 <= i < first@.len() ==> {
                        &&& (#[trigger] first@[i]@).consistent_with(second@[i]@)
                        &&& states@[i]@ == first@[i]@.join(second@[i]@)
                        &&& states@[i]@.consistent_with(first@[i]@)
                    }
            },
            Err(error) => {
                &&& error == Error::OwnedStateMismatch
                &&& exists|i: int|
                    0 <= i < first@.len() && !(#[trigger] first@[i]@).consistent_with(second@[i]@)
            },
        },
{
    let ghost total = first@.len() as int;
    let mut lefts = first;
    let mut rights = second;
    // The pairs are taken from the back, so the joins come out last first.
    let mut backwards: Vec<OwnedState> = Vec::new();
    while lefts.len() > 0
        invariant
            first@.len() == total,
            second@.len() == total,
            lefts@ == first@.take(lefts@.len() as int),
            rights@ == second@.take(lefts@.len() as int),
            lefts@.len() <= total,
            backwards@.len() == total - lefts@.len(),
            forall|i: int|
                lefts@.len() <= i < total ==> {
                    &&& (#[trigger] first@[i]@).consistent_with(second@[i]@)
                    &&& backwards@[total - 1 - i]@ == first@[i]@.join(second@[i]@)
                    &&& backwards@[total - 1 - i]@.consistent_with(first@[i]@)
                },
        decreases lefts@.len(),
    {
        let one = lefts.pop().unwrap();
        let other = rights.pop().unwrap();
        match one.into_revealed(other) {
            Ok(joined) => {
                backwards.push(joined);
            },
            Err(error) => {
                return Err(error);
            },
        }
    }
    let mut states: Vec<OwnedState> = Vec::new();
    while backwards.len() > 0
        invariant
            first@.len() == total,
            second@.len() == total,
            states@.len() + backwards@.len() == total,
            forall|i: int|
                0 <= i < total ==> (#[trigger] first@[i]@).consistent_with(second@[i]@),
            forall|i: int|
                states@.len() <= i < total ==> {
                    &&& backwards@[total - 1 - i]@ == (#[trigger] first@[i]@).join(second@[i]@)
                    &&& backwards@[total - 1 - i]@.consistent_with(first@[i]@)
                },
            forall|i: int|
                0 <= i < states@.len() ==> {
                    &&& states@[i]@ == (#[trigger] first@[i]@).join(second@[i]@)
                    &&& states@[i]@.consistent_with(first@[i]@)
                },
        decreases backwards@.len(),
    {
        let joined = backwards.pop().unwrap();
        states.push(joined);
    }
    Ok(states)
}

impl Assignments {
    /// Whether the two collections commit to the same data.
    pub fn consistent_with(&self, other: &Assignments) -> (consistent: bool)
        ensures
            consistent == self@.consistent_with(other@),
    {
        let first = self.consensus_commitments();
        let second = other.consensus_commitments();
        nodes_equal(&first, &second)
    }

    /// Whether the merge of the two collections is defined.
    pub fn can_merge(&self, other: &Assignments) -> (defined: bool)
        ensures
            defined == self@.can_merge(other@),
    {
        self.kind() == other.kind() || !self.consistent_with(other)
    }

    /// Whether the merge of the two collections gives a collection.
    pub fn merges_with(&self, other: &Assignments) -> (merges: bool)
        ensures
            merges == self@.merge(other@) is Ok,
    {
        if !self.consistent_with(other) {
            return false;
        }
        let firsts = self.states();
        let seconds = other.states();
        let mut i: usize = 0;
        while i < firsts.len() && i < seconds.len()
            invariant
                state_views(firsts@) == self@.states,
                state_views(seconds@) == other@.states,
                forall|j: int|
                    0 <= j < i ==> (#[trigger] self@.states[j]).consistent_with(
                        other@.states[j],
                    ),
            decreases firsts@.len() - i,
        {
            assert(firsts@[i as int]@ == self@.states[i as int] && seconds@[i as int]@
                == other@.states[i as int]);
            if !firsts[i].consistent_with(&seconds[i]) {
                return false;
            }
            i += 1;
        }
        true
    }

    /// Merges `self` with `other` where the merge is defined, and gives
    /// `None` where it is not: where the collections are of different kinds
    /// and yet carry the same commitments.
    pub fn checked_into_revealed(self, other: Assignments) -> (merged: Option<
        Result<Assignments, Error>,
    >)
        ensures
            merged is Some <==> self@.can_merge(other@),
            merged matches Some(result) ==> result_view(result) == self@.merge(other@),
    {
        if self.can_merge(&other) {
            Some(self.into_revealed(other))
        } else {
            None
        }
    }
}

impl IntoRevealed for Assignments {
    open spec fn can_reveal(first: AssignmentsView, second: AssignmentsView) -> bool {
        first.can_merge(second)
    }

    open spec fn revealed(first: AssignmentsView, second: AssignmentsView) -> Result<
        AssignmentsView,
        Error,
    > {
        first.merge(second)
    }

    fn into_revealed(self, other: Self) -> (merged: Result<Self, Error>)
        ensures
            merged matches Ok(assignments) ==> assignments@.consistent_with(self@),
    {
        let first = self.consensus_commitments();
        let second = other.consensus_commitments();
        if !nodes_equal(&first, &second) {
            return Err(Error::AssignmentMismatch);
        }
        let ghost a = self@;
        let ghost b = other@;
        assert(a.states.len() == a.consensus_commitments().len());
        assert(b.states.len() == b.consensus_commitments().len());
        let kind = self.kind();
        let firsts = self.into_states();
        let seconds = other.into_states();
        assert(forall|i: int|
            0 <= i < firsts@.len() ==> (#[trigger] firsts@[i])@ == a.states[i] && seconds@[i]@
                == b.states[i]);
        match merge_states(firsts, seconds) {
            Ok(states) => {
                assert(state_views(states@) =~= a.join(b).states);
                assert(a.join(b).consensus_commitments() =~= a.consensus_commitments());
                Ok(Assignments::with_kind(kind, states))
            },
            Err(error) => Err(error),
        }
    }
}

/// Whether two maps of owned rights commit to the same data.
pub open spec fn rights_consistent(first: RightsView, second: RightsView) -> bool {
    rights_commitment(first) == rights_commitment(second)
}

/// The number of entries that a merge pairs: the entries of both maps are
/// taken in the order of their keys and paired by position, as far as both
/// maps reach.
pub open spec fn paired(first: RightsView, second: RightsView) -> int {
    if entries(first).len() <= entries(second).len() {
        entries(first).len() as int
    } else {
        entries(second).len() as int
    }
}

/// The error of the first pair of assignments, among the first `upto`
/// pairs, that does not merge.
pub open spec fn first_error(first: Seq<Entry>, second: Seq<Entry>, upto: int) -> Option<Error>
    decreases upto,
{
    if upto <= 0 {
        None
    } else {
        match first_error(first, second, upto - 1) {
            Some(error) => Some(error),
            None => match first[upto - 1].1.merge(second[upto - 1].1) {
                Ok(_) => None,
                Err(error) => Some(error),
            },
        }
    }
}

/// The joins of the first `upto` pairs of assignments, each under the key
/// of the first entry of its pair.
pub open spec fn joined_entries(first: Seq<Entry>, second: Seq<Entry>, upto: int) -> RightsView
    decreases upto,
{
    if upto <= 0 {
        Map::empty()
    } else {
        joined_entries(first, second, upto - 1).insert(
            first[upto - 1].0,
            first[upto - 1].1.join(second[upto - 1].1),
        )
    }
}

/// Whether the merge of two maps of owned rights is defined: the maps are
/// not consistent, or else the merge of every pair of assignments up to and
/// including the first that does not merge is defined.
pub open spec fn rights_can_merge(first: RightsView, second: RightsView) -> bool {
    rights_consistent(first, second) ==> forall|i: int|
        0 <= i < paired(first, second) && (#[trigger] first_error(
            entries(first),
            entries(second),
            i,
        )) is None ==> entries(first)[i].1.can_merge(entries(second)[i].1)
}

/// The outcome of merging two maps of owned rights: a mismatch of owned
/// rights where they are not consistent, the error of the first pair of
/// assignments that does not merge where there is one, and else the joins
/// of all pairs.
pub open spec fn rights_merge(first: RightsView, second: RightsView) -> Result<RightsView, Error> {
    if !rights_consistent(first, second) {
        Err(Error::OwnedRightsMismatch)
    } else {
        match first_error(entries(first), entries(second), paired(first, second)) {
            Some(error) => Err(error),
            None => Ok(joined_entries(entries(first), entries(second), paired(first, second))),
        }
    }
}

/// An error met among the first pairs is the error met among more pairs.
pub proof fn lemma_first_error_stays(first: Seq<Entry>, second: Seq<Entry>, upto: int, more: int)
    requires
        first_error(first, second, upto) is Some,
        upto <= more,
    ensures
        first_error(first, second, more) == first_error(first, second, upto),
    decreases more - upto,
{
    if upto < more {
        lemma_first_error_stays(first, second, upto, more - 1);
    }
}

impl OwnedRightsInner {
    /// Whether the two maps of owned rights commit to the same data.
    pub fn consistent_with(&self, other: &OwnedRightsInner) -> (consistent: bool)
        ensures
            consistent == rights_consistent(self@, other@),
    {
        let first = self.consensus_commit();
        let second = other.consensus_commit();
        bytes_equal(first.as_slice(), second.as_slice())
    }

    /// Whether the merge of the two maps of owned rights is defined.
    pub fn can_merge(&self, other: &OwnedRightsInner) -> (defined: bool)
        ensures
            defined == rights_can_merge(self@, other@),
    {
        if !self.consistent_with(other) {
            return true;
        }
        let ghost ea = entries(self@);
        let ghost eb = entries(other@);
        let ghost pairs = paired(self@, other@);
        proof {
            self.lemma_view();
            other.lemma_view();
        }
        let first_keys = ordered_keys(&self.0);
        let second_keys = ordered_keys(&other.0);
        let mut i: usize = 0;
        while i < first_keys.len() && i < second_keys.len()
            invariant
                rights_consistent(self@, other@),
                ea == entries(self@),
                eb == entries(other@),
                pairs == paired(self@, other@),
                first_keys@ == key_order(self@.dom()),
                second_keys@ == key_order(other@.dom()),
                first_keys@.to_set() == self.0@.dom(),
                second_keys@.to_set() == other.0@.dom(),
                i <= pairs,
                first_error(ea, eb, i as int) is None,
                forall|j: int| 0 <= j < i ==> (#[trigger] ea[j]).1.can_merge(eb[j].1),
            decreases first_keys@.len() - i,
        {
            proof {
                self.lemma_view();
                other.lemma_view();
            }
            let one = value_at(&self.0, first_keys[i]);
            let another = value_at(&other.0, second_keys[i]);
            if !one.can_merge(another) {
                return false;
            }
            if !one.merges_with(another) {
                proof {
                    assert forall|j: int|
                        0 <= j < pairs && (#[trigger] first_error(ea, eb, j)) is None implies (
                    ea[j]).1.can_merge(eb[j].1) by {
                        if j > i {
                            lemma_first_error_stays(ea, eb, i + 1, j);
                        }
                    }
                }
                return true;
            }
            i += 1;
        }
        true
    }

    /// Merges `self` with `other` where the merge is defined, and gives
    /// `None` where it is not: where the merge would come to collections of
    /// different kinds that carry the same commitments.
    pub fn checked_into_revealed(self, other: OwnedRightsInner) -> (merged: Option<
        Result<OwnedRightsInner, Error>,
    >)
        ensures
            merged is Some <==> rights_can_merge(self@, other@),
            merged matches Some(result) ==> result_view(result) == rights_merge(self@, other@),
    {
        if self.can_merge(&other) {
            Some(self.into_revealed(other))
        } else {
            None
        }
    }
}

impl IntoRevealed for OwnedRightsInner {
    open spec fn can_reveal(first: RightsView, second: RightsView) -> bool {
        rights_can_merge(first, second)
    }

    open spec fn revealed(first: RightsView, second: RightsView) -> Result<RightsView, Error> {
        rights_merge(first, second)
    }

    fn into_revealed(self, other: Self) -> (merged: Result<Self, Error>) {
        let first_root = self.consensus_commit();
        let second_root = other.consensus_commit();
        if !bytes_equal(first_root.as_slice(), second_root.as_slice()) {
            return Err(Error::OwnedRightsMismatch);
        }
        let ghost a = self@;
        let ghost b = other@;
        let ghost ea = entries(a);
        let ghost eb = entries(b);
        let ghost pairs = paired(a, b);
        proof {
            self.lemma_view();
            other.lemma_view();
        }
        let first_keys = ordered_keys(&self.0);
        let second_keys = ordered_keys(&other.0);
        let mut firsts = self.into_inner();
        let mut seconds = other.into_inner();
        let mut joined: OwnedRights = BTreeMap::new();
        let mut i: usize = 0;
        while i < first_keys.len() && i < second_keys.len()
            invariant
                a == self@,
                b == other@,
                rights_can_merge(a, b),
                rights_consistent(a, b),
                ea == entries(a),
                eb == entries(b),
                pairs == paired(a, b),
                first_keys@ == key_order(a.dom()),
                second_keys@ == key_order(b.dom()),
                increasing(first_keys@),
                increasing(second_keys@),
                i <= pairs,
                forall|j: int|
                    i <= j < first_keys@.len() ==> firsts@.contains_key(#[trigger] first_keys@[j])
                        && firsts@[first_keys@[j]]@ == ea[j].1,
                forall|j: int|
                    i <= j < second_keys@.len() ==> seconds@.contains_key(
                        #[trigger] second_keys@[j],
                    ) && seconds@[second_keys@[j]]@ == eb[j].1,
                first_error(ea, eb, i as int) is None,
                rights_view(joined@) == joined_entries(ea, eb, i as int),
            decreases first_keys@.len() - i,
        {
            let key = first_keys[i];
            let one = take_at(&mut firsts, key);
            let another = take_at(&mut seconds, second_keys[i]);
            match one.into_revealed(another) {
                Ok(assignments) => {
                    put_at(&mut joined, key, assignments);
                },
                Err(error) => {
                    proof {
                        lemma_first_error_stays(ea, eb, i + 1, pairs);
                    }
                    return Err(error);
                },
            }
            i += 1;
        }
        Ok(OwnedRightsInner::from_inner(joined))
    }
}

} // verus!
