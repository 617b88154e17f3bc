//! Laws of the merge, proved from its definition.

use crate::assignments::{AssignmentsView, Disclosure, StateView};
use crate::merge::{first_error, joined_entries, paired, rights_consistent, rights_merge, Error};
use crate::ordered::{lemma_key_order, lists_in_order};
use crate::rights::{entries, lemma_entries, rights_commitment, Entry, RightsView};
use vstd::prelude::*;

verus! {

/// Two concatenations that are equal and split at the same place have equal
/// parts.
pub proof fn lemma_concat_parts(a: Seq<u8>, b: Seq<u8>, c: Seq<u8>, d: Seq<u8>)
    requires
        a + b == c + d,
        a.len() == c.len(),
    ensures
        a == c,
        b == d,
{
    let n = a.len() as int;
    assert((a + b).len() == (c + d).len());
    assert(a =~= (a + b).take(n));
    assert(c =~= (c + d).take(n));
    assert(b =~= (a + b).skip(n));
    assert(d =~= (c + d).skip(n));
}

/// Consistent owned states have the same seal commitment and the same state
/// commitment, provided that on each side one of the two is a stored
/// commitment, whose length is known.
pub proof fn lemma_consistent_parts(a: StateView, b: StateView)
    requires
        a.well_formed(),
        b.well_formed(),
        a.consistent_with(b),
        a.disclosure() == b.disclosure(),
        a.disclosure() != Disclosure::Revealed,
    ensures
        a.seal_commitment() == b.seal_commitment(),
        a.state_commitment() == b.state_commitment(),
{
    let (sa, pa) = (a.seal_commitment(), a.state_commitment());
    let (sb, pb) = (b.seal_commitment(), b.state_commitment());
    if a.disclosure().discloses_seal() {
        // the state commitments are stored: split from the right
        assert((sa + pa).len() == (sb + pb).len());
        assert(sa.len() == sb.len());
    }
    lemma_concat_parts(sa, pa, sb, pb);
}

/// Merging is idempotent: an owned state merged with itself is unchanged.
pub proof fn lemma_merge_idempotent(x: StateView)
    ensures
        x.merge(x) == Ok::<StateView, Error>(x),
{
}

/// Merging is commutative: consistent operands give the same result in
/// either order.
///
/// Left out are operands that stand at one level and disclose different
/// seals or different states under one commitment. Only a collision of the
/// commitment scheme produces such a pair, and the merge then keeps its
/// first operand, or its second where both are revealed.
pub proof fn lemma_merge_commutative(a: StateView, b: StateView)
    requires
        a.well_formed(),
        b.well_formed(),
        a.consistent_with(b),
        a.disclosure() == b.disclosure() ==> a.disclosed_seal() == b.disclosed_seal()
            && a.disclosed_state() == b.disclosed_state(),
    ensures
        a.merge(b) == b.merge(a),
{
    if a.disclosure() == b.disclosure() && a.disclosure() != Disclosure::Revealed {
        lemma_consistent_parts(a, b);
    }
}

/// Merging is monotonic: the result of merging consistent operands stands
/// at the join of their levels, which is at or above the level of each.
pub proof fn lemma_merge_monotonic(a: StateView, b: StateView)
    requires
        a.consistent_with(b),
    ensures
        a.merge(b) is Ok,
        a.merge(b)->Ok_0.disclosure() == a.disclosure().join(b.disclosure()),
        a.disclosure().le(a.merge(b)->Ok_0.disclosure()),
        b.disclosure().le(a.merge(b)->Ok_0.disclosure()),
{
}

/// Merging never conceals: a seal or a state that an operand discloses is
/// disclosed by the result, and what the result discloses was disclosed by
/// an operand.
pub proof fn lemma_merge_keeps_disclosed(a: StateView, b: StateView)
    requires
        a.consistent_with(b),
    ensures
        ({
            let merged = a.merge(b)->Ok_0;
            &&& merged.disclosed_seal() is Some <==> a.disclosed_seal() is Some
                || b.disclosed_seal() is Some
            &&& merged.disclosed_state() is Some <==> a.disclosed_state() is Some
                || b.disclosed_state() is Some
            &&& merged.disclosed_seal() is Some ==> merged.disclosed_seal() == a.disclosed_seal()
                || merged.disclosed_seal() == b.disclosed_seal()
            &&& merged.disclosed_state() is Some ==> merged.disclosed_state()
                == a.disclosed_state() || merged.disclosed_state() == b.disclosed_state()
        }),
{
}

/// A merge does not change the commitment: the result of merging consistent
/// operands is consistent with both. This holds of operands whose
/// commitments have the 64 bytes that every computed commitment has.
pub proof fn lemma_merge_keeps_commitment(a: StateView, b: StateView)
    requires
        a.well_formed(),
        b.well_formed(),
        a.commit_serialize().len() == 64,
        b.commit_serialize().len() == 64,
        a.consistent_with(b),
    ensures
        a.merge(b)->Ok_0.consistent_with(a),
        a.merge(b)->Ok_0.well_formed(),
{
    let merged = a.merge(b)->Ok_0;
    if a is ConfidentialSeal && b is ConfidentialAmount || a is ConfidentialAmount
        && b is ConfidentialSeal {
        let (sa, pa) = (a.seal_commitment(), a.state_commitment());
        let (sb, pb) = (b.seal_commitment(), b.state_commitment());
        // on each side one part is stored and 32 bytes long
        assert((sa + pa).len() == 64 && (sb + pb).len() == 64);
        assert(sa.len() == sb.len());
        lemma_concat_parts(sa, pa, sb, pb);
    }
}

/// The top of the lattice absorbs: an owned state merged with a consistent
/// revealed one gives the revealed state.
pub proof fn lemma_merge_with_revealed(other: StateView, revealed: StateView)
    requires
        revealed is Revealed,
        other.consistent_with(revealed),
    ensures
        other.merge(revealed) == Ok::<StateView, Error>(revealed),
{
}

/// The top of the lattice absorbs: a revealed owned state merged with a
/// consistent one gives the revealed state.
///
/// Left out is a second operand that is revealed too and differs from the
/// first under one commitment. Only a collision of the commitment scheme
/// produces such a pair, and the merge then gives the second operand.
pub proof fn lemma_merge_of_revealed(revealed: StateView, other: StateView)
    requires
        revealed is Revealed,
        revealed.consistent_with(other),
        other is Revealed ==> other == revealed,
    ensures
        revealed.merge(other) == Ok::<StateView, Error>(revealed),
{
}

/// The bottom of the lattice is an identity: a fully concealed owned state
/// merged with a consistent one gives the other one, in either order.
pub proof fn lemma_merge_confidential_identity(concealed: StateView, other: StateView)
    requires
        concealed is Confidential,
        concealed.well_formed(),
        other.well_formed(),
        concealed.consistent_with(other),
    ensures
        concealed.merge(other) == Ok::<StateView, Error>(other),
        other.merge(concealed) == Ok::<StateView, Error>(other),
{
    if other is Confidential {
        lemma_consistent_parts(concealed, other);
    }
}

/// Complementary levels complete each other: a state with a concealed seal
/// merged with a consistent state with a concealed amount gives the revealed
/// state made of the seal of the second and the state of the first, in
/// either order.
pub proof fn lemma_merge_completes(concealed_seal: StateView, concealed_amount: StateView)
    requires
        concealed_seal is ConfidentialSeal,
        concealed_amount is ConfidentialAmount,
        concealed_seal.consistent_with(concealed_amount),
    ensures
        concealed_seal.merge(concealed_amount) == Ok::<StateView, Error>(
            StateView::Revealed {
                seal_definition: concealed_amount->ConfidentialAmount_seal_definition,
                assigned_state: concealed_seal->ConfidentialSeal_assigned_state,
            },
        ),
        concealed_amount.merge(concealed_seal) == concealed_seal.merge(concealed_amount),
{
}

/// Owned states with different commitments are not merged.
pub proof fn lemma_state_mismatch_rejected(a: StateView, b: StateView)
    requires
        a.commit_serialize() != b.commit_serialize(),
    ensures
        a.merge(b) == Err::<StateView, Error>(Error::OwnedStateMismatch),
{
}

/// Collections with different commitments are not merged.
pub proof fn lemma_assignment_mismatch_rejected(a: AssignmentsView, b: AssignmentsView)
    requires
        a.consensus_commitments() != b.consensus_commitments(),
    ensures
        a.merge(b) == Err::<AssignmentsView, Error>(Error::AssignmentMismatch),
{
}

/// Maps of owned rights with different commitments are not merged.
pub proof fn lemma_rights_mismatch_rejected(a: RightsView, b: RightsView)
    requires
        rights_commitment(a) != rights_commitment(b),
    ensures
        rights_merge(a, b) == Err::<RightsView, Error>(Error::OwnedRightsMismatch),
{
}

/// A merge of collections keeps the order: two collections of one length
/// whose owned states are consistent position by position merge into a
/// collection of that length and of the kind of the first, which holds at
/// each position the merge of the owned states at that position.
pub proof fn lemma_merge_keeps_order(a: AssignmentsView, b: AssignmentsView)
    requires
        a.states.len() == b.states.len(),
        forall|i: int|
            0 <= i < a.states.len() ==> (#[trigger] a.states[i]).consistent_with(b.states[i]),
    ensures
        a.merge(b) is Ok,
        a.merge(b)->Ok_0.kind == a.kind,
        a.merge(b)->Ok_0.states.len() == a.states.len(),
        forall|i: int|
            0 <= i < a.states.len() ==> Ok::<StateView, Error>(
                #[trigger] a.merge(b)->Ok_0.states[i],
            ) == a.states[i].merge(b.states[i]),
{
    assert(a.consensus_commitments() =~= b.consensus_commitments()) by {
        assert forall|i: int| 0 <= i < a.states.len() implies a.states[i].consensus_commit()
            == b.states[i].consensus_commit() by {
            assert(a.states[i].consistent_with(b.states[i]));
        }
    }
}

/// Merging collections is commutative where merging their owned states
/// is: collections of one kind, whose owned states at each position merge
/// to the same in either order, merge to the same in either order.
pub proof fn lemma_merge_of_assignments_commutative(a: AssignmentsView, b: AssignmentsView)
    requires
        a.kind == b.kind,
        forall|i: int|
            0 <= i < a.states.len() && i < b.states.len() ==> (#[trigger] a.states[i]).merge(
                b.states[i],
            ) == b.states[i].merge(a.states[i]),
    ensures
        a.merge(b) == b.merge(a),
{
    if a.consistent_with(b) {
        assert(a.states.len() == a.consensus_commitments().len());
        assert(b.states.len() == b.consensus_commitments().len());
        if a.states_consistent_with(b) {
            assert(b.states_consistent_with(a)) by {
                assert forall|i: int|
                    0 <= i < b.states.len() && i < a.states.len() implies (
                #[trigger] b.states[i]).consistent_with(a.states[i]) by {
                    assert(a.states[i].consistent_with(b.states[i]));
                }
            }
            assert(a.join(b).states =~= b.join(a).states) by {
                assert forall|i: int| 0 <= i < a.states.len() implies a.states[i].join(
                    b.states[i],
                ) == b.states[i].join(a.states[i]) by {
                    assert(a.states[i].consistent_with(b.states[i]));
                    assert(a.states[i].merge(b.states[i]) == b.states[i].merge(a.states[i]));
                }
            }
        } else {
            let i = choose|i: int|
                0 <= i < a.states.len() && i < b.states.len() && !(
                #[trigger] a.states[i]).consistent_with(b.states[i]);
            assert(!b.states[i].consistent_with(a.states[i]));
        }
    }
}

/// The joins of the first pairs of entries hold, under the key of the first
/// entry of each pair, the join of the assignments of the pair, and hold
/// nothing else, provided that no key occurs twice among the first entries.
pub proof fn lemma_joined_entries(first: Seq<Entry>, second: Seq<Entry>, upto: int)
    requires
        0 <= upto <= first.len(),
        forall|i: int, j: int| 0 <= i < j < upto ==> first[i].0 != first[j].0,
    ensures
        forall|i: int|
            0 <= i < upto ==> {
                &&& joined_entries(first, second, upto).contains_key((#[trigger] first[i]).0)
                &&& joined_entries(first, second, upto)[first[i].0] == first[i].1.join(second[i].1)
            },
        forall|key: usize|
            joined_entries(first, second, upto).contains_key(key) ==> exists|i: int|
                0 <= i < upto && (#[trigger] first[i]).0 == key,
    decreases upto,
{
    if upto > 0 {
        lemma_joined_entries(first, second, upto - 1);
        let before = joined_entries(first, second, upto - 1);
        let all = joined_entries(first, second, upto);
        let last = first[upto - 1];
        assert(all == before.insert(last.0, last.1.join(second[upto - 1].1)));
        assert forall|i: int| 0 <= i < upto implies all.contains_key((#[trigger] first[i]).0)
            && all[first[i].0] == first[i].1.join(second[i].1) by {
            if i < upto - 1 {
                assert(first[i].0 != first[upto - 1].0);
            }
        }
        assert forall|key: usize| all.contains_key(key) implies exists|i: int|
            0 <= i < upto && (#[trigger] first[i]).0 == key by {
            if key == last.0 {
                assert(first[upto - 1].0 == key);
            } else {
                assert(before.contains_key(key));
                let i = choose|i: int| 0 <= i < upto - 1 && (#[trigger] first[i]).0 == key;
                assert(first[i].0 == key);
            }
        }
    }
}

/// A merge of consistent maps of owned rights of which every pair of
/// assignments merges gives a map that holds, under the key of each paired
/// entry of the first map, the merge of the pair, and holds nothing else.
pub proof fn lemma_merge_of_rights(a: RightsView, b: RightsView)
    requires
        rights_consistent(a, b),
        first_error(entries(a), entries(b), paired(a, b)) is None,
    ensures
        rights_merge(a, b) is Ok,
        forall|i: int|
            0 <= i < paired(a, b) ==> {
                &&& rights_merge(a, b)->Ok_0.contains_key((#[trigger] entries(a)[i]).0)
                &&& Ok::<AssignmentsView, Error>(rights_merge(a, b)->Ok_0[entries(a)[i].0])
                    == entries(a)[i].1.merge(entries(b)[i].1)
            },
        forall|key: usize|
            rights_merge(a, b)->Ok_0.contains_key(key) ==> exists|i: int|
                0 <= i < paired(a, b) && (#[trigger] entries(a)[i]).0 == key,
{
    let ea = entries(a);
    let eb = entries(b);
    let pairs = paired(a, b);
    lemma_entries(a);
    lemma_joined_entries(ea, eb, pairs);
    assert forall|i: int| 0 <= i < pairs implies (#[trigger] ea[i]).1.merge(eb[i].1) is Ok by {
        lemma_no_error_before(ea, eb, pairs, i);
    }
}

/// Where the first pairs of assignments meet no error, each of them merges.
pub proof fn lemma_no_error_before(first: Seq<Entry>, second: Seq<Entry>, upto: int, at: int)
    requires
        first_error(first, second, upto) is None,
        0 <= at < upto,
    ensures
        first[at].1.merge(second[at].1) is Ok,
    decreases upto,
{
    if at < upto - 1 {
        lemma_no_error_before(first, second, upto - 1, at);
    }
}

/// The entries of a map with one key are that key with its assignments.
pub proof fn lemma_entries_of_one(key: usize, assignments: AssignmentsView)
    ensures
        entries(Map::<usize, AssignmentsView>::empty().insert(key, assignments)) == seq![
            (key, assignments),
        ],
{
    let rights = Map::<usize, AssignmentsView>::empty().insert(key, assignments);
    let keys = seq![key];
    assert(keys.to_set() =~= rights.dom()) by {
        assert(keys[0] == key);
    }
    assert(lists_in_order(keys, rights.dom()));
    lemma_key_order(keys, rights.dom());
    assert(entries(rights) =~= seq![(key, assignments)]);
}

/// Maps of owned rights that hold one collection each, under one key, are
/// merged by merging the two collections: consistent maps give the map
/// that holds the merged collection under that key, or the error of that
/// merge.
pub proof fn lemma_merge_of_one_entry(key: usize, a: AssignmentsView, b: AssignmentsView)
    requires
        rights_consistent(
            Map::<usize, AssignmentsView>::empty().insert(key, a),
            Map::<usize, AssignmentsView>::empty().insert(key, b),
        ),
    ensures
        rights_merge(
            Map::<usize, AssignmentsView>::empty().insert(key, a),
            Map::<usize, AssignmentsView>::empty().insert(key, b),
        ) == match a.merge(b) {
            Ok(merged) => Ok::<RightsView, Error>(
                Map::<usize, AssignmentsView>::empty().insert(key, merged),
            ),
            Err(error) => Err::<RightsView, Error>(error),
        },
{
    let first = Map::<usize, AssignmentsView>::empty().insert(key, a);
    let second = Map::<usize, AssignmentsView>::empty().insert(key, b);
    lemma_entries_of_one(key, a);
    lemma_entries_of_one(key, b);
    let ea = entries(first);
    let eb = entries(second);
    assert(paired(first, second) == 1);
    assert(first_error(ea, eb, 0) is None);
    assert(joined_entries(ea, eb, 0) == Map::<usize, AssignmentsView>::empty());
    reveal_with_fuel(first_error, 2);
    reveal_with_fuel(joined_entries, 2);
}

} // verus!
