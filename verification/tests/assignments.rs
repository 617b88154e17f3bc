use reveal_merge::assignments::{Assignments, Disclosure, OwnedState, StateKind};
use reveal_merge::merge::{Error, IntoRevealed};
use reveal_merge::rights::{OwnedRights, OwnedRightsInner};
use reveal_merge::{data, seal};

fn outpoint(vout: u32) -> seal::Revealed {
    seal::Revealed { blinding: 0x1234_5678_9abc_def0, txid: [0xab; 32], vout }
}

fn revealed(vout: u32, data: &[u8]) -> OwnedState {
    OwnedState::Revealed {
        seal_definition: outpoint(vout),
        assigned_state: data::Revealed { data: data.to_vec() },
    }
}

fn concealed_seal(vout: u32, data: &[u8]) -> OwnedState {
    OwnedState::ConfidentialSeal {
        seal_definition: outpoint(vout).commit_conceal(),
        assigned_state: data::Revealed { data: data.to_vec() },
    }
}

fn concealed_state(vout: u32, data: &[u8]) -> OwnedState {
    let mut state = revealed(vout, data);
    state.conceal_state();
    state
}

/// A collection of data at the four levels of disclosure, the revealed
/// state last.
fn custom_data() -> Assignments {
    Assignments::CustomData(vec![
        revealed(0, b"state").commit_conceal(),
        concealed_seal(0, b"state"),
        concealed_state(0, b"state"),
        revealed(0, b"state"),
    ])
}

#[test]
fn test_into_revealed_assignements_ownedstates() {
    let assignment = custom_data().to_custom_state();

    // Get a revealed state
    let rev = assignment[3].clone();

    // Compute different exposure of the same state
    let conf = rev.clone().commit_conceal();

    let seal = rev.seal_definition_confidential();

    let conf_seal = OwnedState::ConfidentialSeal {
        seal_definition: seal,
        assigned_state: rev.assigned_state().unwrap().clone(),
    };

    let mut conf_state = rev.clone();
    conf_state.conceal_state();

    // Create assignment for testing
    let test_variant_1 = vec![rev.clone(), conf_seal, conf_state, conf.clone()];
    let assignment_1 = Assignments::CustomData(test_variant_1.clone());

    // Create assignment 2 for testing
    // which is reverse of assignment 1
    let mut test_variant_2 = test_variant_1.clone();
    test_variant_2.reverse();
    let assignmnet_2 = Assignments::CustomData(test_variant_2);

    // Performing merge revelaing
    let merged = assignment_1.clone().into_revealed(assignmnet_2.clone()).unwrap();

    // After merging all the states expeected be revealed
    for state in merged.to_custom_state() {
        assert_eq!(state, rev);
    }

    // Test against confidential merging
    // Confidential + Anything = Anything
    let test_variant_3 = vec![conf.clone(), conf.clone(), conf.clone(), conf.clone()];
    let assignment_3 = Assignments::CustomData(test_variant_3);

    // merge with assignment 1
    let merged = assignment_3.clone().into_revealed(assignment_1.clone()).unwrap();

    assert_eq!(assignment_1, merged);

    // test for OwnedRights structure
    let mut rights_1 = OwnedRights::new();
    rights_1.insert(1usize, assignment_1.clone());
    let test_owned_rights_1: OwnedRightsInner = rights_1.into();
    let mut rights_2 = OwnedRights::new();
    rights_2.insert(1usize, assignmnet_2.clone());
    let test_owned_rights_2: OwnedRightsInner = rights_2.into();

    // Perform merge
    let merged = test_owned_rights_1.clone().into_revealed(test_owned_rights_2.clone()).unwrap();

    // after merge operation all the states will be revealed
    let states = vec![rev.clone(), rev.clone(), rev.clone(), rev.clone()];
    let assgn = Assignments::CustomData(states);
    let mut expected = OwnedRights::new();
    expected.insert(1usize, assgn);
    let expected_rights: OwnedRightsInner = expected.into();

    assert_eq!(merged, expected_rights);
}

#[test]
fn a_collection_merged_with_its_reverse_is_revealed() {
    let states = vec![
        revealed(0, b"state"),
        concealed_seal(0, b"state"),
        concealed_state(0, b"state"),
        revealed(0, b"state").commit_conceal(),
    ];
    let mut reversed = states.clone();
    reversed.reverse();
    let merged = Assignments::CustomData(states)
        .into_revealed(Assignments::CustomData(reversed))
        .unwrap();
    assert_eq!(
        merged,
        Assignments::CustomData(vec![
            revealed(0, b"state"),
            revealed(0, b"state"),
            revealed(0, b"state"),
            revealed(0, b"state"),
        ])
    );
    assert_eq!(merged.states().len(), 4);
}

#[test]
fn a_merge_pairs_the_states_by_position() {
    let first = vec![
        concealed_seal(0, b"zero"),
        revealed(1, b"one").commit_conceal(),
        concealed_state(2, b"two"),
    ];
    let second = vec![
        concealed_state(0, b"zero"),
        concealed_seal(1, b"one"),
        concealed_state(2, b"two"),
    ];
    let merged = Assignments::Declarative(first.clone())
        .into_revealed(Assignments::Declarative(second.clone()))
        .unwrap();
    assert_eq!(merged.kind(), StateKind::Declarative);
    let states = merged.into_declarative_state();
    assert_eq!(states.len(), 3);
    for i in 0..3 {
        assert_eq!(Ok(states[i].clone()), first[i].clone().into_revealed(second[i].clone()));
    }
    assert_eq!(
        states,
        vec![revealed(0, b"zero"), concealed_seal(1, b"one"), concealed_state(2, b"two")]
    );
}

#[test]
fn a_merge_keeps_the_commitments_of_a_collection() {
    let first = Assignments::CustomData(vec![concealed_seal(0, b"zero"), revealed(1, b"one")]);
    let second = Assignments::CustomData(vec![
        concealed_state(0, b"zero"),
        revealed(1, b"one").commit_conceal(),
    ]);
    let merged = first.clone().into_revealed(second.clone()).unwrap();
    assert_eq!(merged.consensus_commitments(), first.consensus_commitments());
    assert!(merged.consistent_with(&second));
}

#[test]
fn collections_of_different_states_do_not_merge() {
    let first = Assignments::CustomData(vec![revealed(0, b"zero"), revealed(1, b"one")]);
    let second = Assignments::CustomData(vec![revealed(0, b"zero"), revealed(1, b"two")]);
    assert!(!first.consistent_with(&second));
    assert!(!first.merges_with(&second));
    assert_eq!(first.into_revealed(second), Err(Error::AssignmentMismatch));
}

#[test]
fn collections_in_different_order_do_not_merge() {
    let first = Assignments::CustomData(vec![revealed(0, b"zero"), revealed(1, b"one")]);
    let second = Assignments::CustomData(vec![revealed(1, b"one"), revealed(0, b"zero")]);
    assert_eq!(first.into_revealed(second), Err(Error::AssignmentMismatch));
}

#[test]
fn collections_of_different_length_do_not_merge() {
    let first = Assignments::DiscreteFiniteField(vec![revealed(0, b"zero"), revealed(1, b"one")]);
    let second = Assignments::DiscreteFiniteField(vec![revealed(0, b"zero")]);
    assert_eq!(first.clone().into_revealed(second.clone()), Err(Error::AssignmentMismatch));
    assert_eq!(second.into_revealed(first), Err(Error::AssignmentMismatch));
}

#[test]
fn collections_of_different_kind_and_commitment_do_not_merge() {
    let first = Assignments::Declarative(vec![revealed(0, b"zero")]);
    let second = Assignments::CustomData(vec![revealed(1, b"one")]);
    assert!(first.can_merge(&second));
    assert_eq!(first.clone().into_revealed(second.clone()), Err(Error::AssignmentMismatch));
    assert_eq!(first.checked_into_revealed(second), Some(Err(Error::AssignmentMismatch)));
}

#[test]
fn collections_of_different_kind_and_equal_commitment_break_the_scheme() {
    // the same states under two kinds: the commitments cannot tell them apart
    let first = Assignments::Declarative(vec![revealed(0, b"zero")]);
    let second = Assignments::CustomData(vec![revealed(0, b"zero").commit_conceal()]);
    assert!(first.consistent_with(&second));
    assert!(!first.can_merge(&second));
    assert_eq!(first.checked_into_revealed(second), None);

    // collections without states carry the same commitments, whatever their kind
    let first = Assignments::DiscreteFiniteField(vec![]);
    let second = Assignments::CustomData(vec![]);
    assert_eq!(first.checked_into_revealed(second), None);
}

#[test]
fn a_checked_merge_merges_what_can_be_merged() {
    let first = Assignments::CustomData(vec![concealed_seal(0, b"zero")]);
    let second = Assignments::CustomData(vec![concealed_state(0, b"zero")]);
    assert_eq!(
        first.checked_into_revealed(second),
        Some(Ok(Assignments::CustomData(vec![revealed(0, b"zero")])))
    );
    assert_eq!(
        Assignments::Declarative(vec![]).checked_into_revealed(Assignments::Declarative(vec![])),
        Some(Ok(Assignments::Declarative(vec![])))
    );
}

#[test]
fn a_collection_gives_its_states_under_its_own_kind_only() {
    let collection = custom_data();
    assert_eq!(collection.kind(), StateKind::CustomData);
    assert_eq!(collection.to_custom_state().len(), 4);
    assert_eq!(collection.to_discrete_state(), vec![]);
    assert_eq!(collection.to_declarative_state(), vec![]);
    assert_eq!(collection.to_states_of(StateKind::CustomData), collection.states().clone());
    assert_eq!(collection.clone().into_declarative_state(), vec![]);
    assert_eq!(collection.clone().into_discrete_state(), vec![]);
    let states = collection.clone().into_custom_state();
    assert_eq!(states[3].disclosure(), Disclosure::Revealed);
    assert_eq!(Assignments::with_kind(StateKind::CustomData, states), collection);
}
