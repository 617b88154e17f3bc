use reveal_merge::assignments::{Assignments, Disclosure, OwnedState};
use reveal_merge::merge::{Error, IntoRevealed};
use reveal_merge::{data, seal};

fn txid() -> [u8; 32] {
    let mut txid = [0u8; 32];
    for (i, byte) in txid.iter_mut().enumerate() {
        *byte = i as u8;
    }
    txid
}

fn amount(value: u64, blinding: u8) -> data::Revealed {
    let mut data = value.to_le_bytes().to_vec();
    data.extend_from_slice(&[blinding; 32]);
    data::Revealed { data }
}

/// A collection of amounts at the four levels of disclosure, the revealed
/// state second.
fn amounts() -> Assignments {
    let revealed = OwnedState::Revealed {
        seal_definition: seal::Revealed { blinding: 54683213134637, txid: txid(), vout: 2 },
        assigned_state: amount(42, 7),
    };
    let concealed = revealed.commit_conceal();
    let mut concealed_state = revealed.clone();
    concealed_state.conceal_state();
    let concealed_seal = OwnedState::ConfidentialSeal {
        seal_definition: revealed.seal_definition_confidential(),
        assigned_state: amount(42, 7),
    };
    Assignments::DiscreteFiniteField(vec![concealed, revealed, concealed_seal, concealed_state])
}

#[test]
fn test_into_revealed_state() {
    let ass = amounts().into_discrete_state();

    let rev = ass[1].clone();

    // Check Revealed + Anything = Revealed

    // Revealed + Revealed = Revealed
    let mut merged = rev.clone().into_revealed(rev.clone()).unwrap();
    assert_eq!(merged, rev);

    // Revealed + Confidential = Revealed
    let conf = rev.commit_conceal();
    merged = rev.clone().into_revealed(conf.clone()).unwrap();
    assert_eq!(merged, rev);

    // Revealed + Confidential State = Revealed
    let mut conf_state = rev.clone();
    conf_state.conceal_state();
    merged = rev.clone().into_revealed(conf_state.clone()).unwrap();
    assert_eq!(merged, rev);

    // Revealed + Confidential Seal = Revealed
    let seal = rev.seal_definition_confidential();
    let conf_seal = OwnedState::ConfidentialSeal {
        seal_definition: seal,
        assigned_state: rev.assigned_state().unwrap().clone(),
    };
    merged = rev.clone().into_revealed(conf_seal.clone()).unwrap();
    assert_eq!(merged, rev);

    // Check Confidential Seal + Condfidential State = Revealed
    merged = conf_seal.clone().into_revealed(conf_state.clone()).unwrap();
    assert_eq!(merged, rev);

    // Check Condifential State + Confidential Seal = Revealed
    merged = conf_state.clone().into_revealed(conf_seal.clone()).unwrap();
    assert_eq!(merged, rev);

    // Check Confidential + Anything = Anything
    // Confidential + Reveal = Reveal
    merged = conf.clone().into_revealed(rev.clone()).unwrap();
    assert_eq!(merged, rev);

    // Confidential + Confidential Seal = Confidential Seal
    merged = conf.clone().into_revealed(conf_seal.clone()).unwrap();
    assert_eq!(merged, conf_seal);

    // Confidential + Confidential State = Confidential State
    merged = conf.clone().into_revealed(conf_state.clone()).unwrap();
    assert_eq!(merged, conf_state);

    // Confidential + Confidential = Confidential
    merged = conf.clone().into_revealed(conf.clone()).unwrap();
    assert_eq!(merged, conf);
}

fn levels() -> Vec<OwnedState> {
    amounts().into_discrete_state()
}

fn rank(level: Disclosure) -> (bool, bool) {
    match level {
        Disclosure::Confidential => (false, false),
        Disclosure::ConfidentialSeal => (false, true),
        Disclosure::ConfidentialAmount => (true, false),
        Disclosure::Revealed => (true, true),
    }
}

#[test]
fn the_fixture_holds_the_four_levels() {
    let levels: Vec<Disclosure> = levels().iter().map(|state| state.disclosure()).collect();
    assert_eq!(
        levels,
        vec![
            Disclosure::Confidential,
            Disclosure::Revealed,
            Disclosure::ConfidentialSeal,
            Disclosure::ConfidentialAmount,
        ]
    );
}

#[test]
fn merge_is_idempotent() {
    for state in levels() {
        assert_eq!(state.clone().into_revealed(state.clone()), Ok(state));
    }
}

#[test]
fn merge_is_commutative() {
    for first in levels() {
        for second in levels() {
            assert_eq!(
                first.clone().into_revealed(second.clone()),
                second.clone().into_revealed(first.clone())
            );
        }
    }
}

#[test]
fn merge_stands_at_the_join_of_the_levels() {
    for first in levels() {
        for second in levels() {
            let merged = first.clone().into_revealed(second.clone()).unwrap();
            let (seal, state) = rank(merged.disclosure());
            let (first_seal, first_state) = rank(first.disclosure());
            let (second_seal, second_state) = rank(second.disclosure());
            assert_eq!(seal, first_seal || second_seal);
            assert_eq!(state, first_state || second_state);
        }
    }
}

#[test]
fn merge_keeps_the_commitment() {
    for first in levels() {
        for second in levels() {
            let merged = first.clone().into_revealed(second.clone()).unwrap();
            assert_eq!(merged.commit_serialize(), first.commit_serialize());
            assert!(merged.consistent_with(&second));
        }
    }
}

#[test]
fn revealed_absorbs() {
    let revealed = levels()[1].clone();
    for other in levels() {
        assert_eq!(revealed.clone().into_revealed(other.clone()), Ok(revealed.clone()));
        assert_eq!(other.into_revealed(revealed.clone()), Ok(revealed.clone()));
    }
}

#[test]
fn confidential_is_an_identity() {
    let concealed = levels()[0].clone();
    for other in levels() {
        assert_eq!(concealed.clone().into_revealed(other.clone()), Ok(other.clone()));
        assert_eq!(other.clone().into_revealed(concealed.clone()), Ok(other));
    }
}

#[test]
fn complementary_levels_complete_each_other() {
    let concealed_seal = OwnedState::ConfidentialSeal {
        seal_definition: seal::Revealed { blinding: 9, txid: txid(), vout: 1 }.commit_conceal(),
        assigned_state: amount(1000, 3),
    };
    let concealed_amount = OwnedState::ConfidentialAmount {
        seal_definition: seal::Revealed { blinding: 9, txid: txid(), vout: 1 },
        assigned_state: amount(1000, 3).commit_conceal(),
    };
    let revealed = OwnedState::Revealed {
        seal_definition: seal::Revealed { blinding: 9, txid: txid(), vout: 1 },
        assigned_state: amount(1000, 3),
    };
    assert_eq!(
        concealed_seal.clone().into_revealed(concealed_amount.clone()),
        Ok(revealed.clone())
    );
    assert_eq!(concealed_amount.into_revealed(concealed_seal), Ok(revealed));
}

#[test]
fn states_of_different_seals_do_not_merge() {
    let first = OwnedState::Revealed {
        seal_definition: seal::Revealed { blinding: 9, txid: txid(), vout: 1 },
        assigned_state: amount(1000, 3),
    };
    let second = OwnedState::Revealed {
        seal_definition: seal::Revealed { blinding: 9, txid: txid(), vout: 2 },
        assigned_state: amount(1000, 3),
    };
    assert_eq!(first.clone().into_revealed(second.clone()), Err(Error::OwnedStateMismatch));
    assert_eq!(
        first.clone().into_revealed(second.commit_conceal()),
        Err(Error::OwnedStateMismatch)
    );
    assert!(!first.consistent_with(&second));
}

#[test]
fn states_of_different_amounts_do_not_merge() {
    let first = OwnedState::Revealed {
        seal_definition: seal::Revealed { blinding: 9, txid: txid(), vout: 1 },
        assigned_state: amount(1000, 3),
    };
    let mut second = OwnedState::Revealed {
        seal_definition: seal::Revealed { blinding: 9, txid: txid(), vout: 1 },
        assigned_state: amount(1001, 3),
    };
    assert_eq!(first.clone().into_revealed(second.clone()), Err(Error::OwnedStateMismatch));
    assert_eq!(second.conceal_state(), 1);
    assert_eq!(second.conceal_state(), 0);
    assert_eq!(second.disclosure(), Disclosure::ConfidentialAmount);
    assert_eq!(first.into_revealed(second), Err(Error::OwnedStateMismatch));
}

#[test]
fn concealing_the_state_keeps_the_seal() {
    let seal_definition = seal::Revealed { blinding: 9, txid: txid(), vout: 1 };
    let mut state =
        OwnedState::Revealed { seal_definition, assigned_state: amount(5, 1) };
    assert_eq!(state.assigned_state(), Some(&amount(5, 1)));
    state.conceal_state();
    assert_eq!(
        state,
        OwnedState::ConfidentialAmount {
            seal_definition,
            assigned_state: amount(5, 1).commit_conceal(),
        }
    );
    assert_eq!(state.assigned_state(), None);

    let mut state = OwnedState::ConfidentialSeal {
        seal_definition: seal_definition.commit_conceal(),
        assigned_state: amount(5, 1),
    };
    let concealed = state.commit_conceal();
    state.conceal_state();
    assert_eq!(state, concealed);
    assert_eq!(state.disclosure(), Disclosure::Confidential);
}
