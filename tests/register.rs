use locutus::interface::{ContractInterface, Parameters, State, StateDelta, StateSummary, UpdateModification};
use locutus::register::MaxRegister;

fn counter(v: u64) -> Vec<u8> {
    v.to_le_bytes().to_vec()
}

fn params() -> Parameters {
    Parameters::from(vec![])
}

#[test]
fn repeated_delta_changes_nothing() {
    let first = MaxRegister::update_state(params(), State::from(counter(3)), StateDelta::from(counter(9))).unwrap();
    let new_state = match first {
        UpdateModification::ValidUpdate(s) => s,
        UpdateModification::NoChange => panic!("a larger counter must update"),
    };
    assert_eq!(new_state.as_ref(), counter(9).as_slice());
    let again = MaxRegister::update_state(params(), new_state, StateDelta::from(counter(9))).unwrap();
    assert!(matches!(again, UpdateModification::NoChange));
}

#[test]
fn smaller_delta_and_malformed_input() {
    let r = MaxRegister::update_state(params(), State::from(counter(10)), StateDelta::from(counter(2))).unwrap();
    assert!(matches!(r, UpdateModification::NoChange));
    assert!(MaxRegister::update_state(params(), State::from(vec![1, 2]), StateDelta::from(counter(2))).is_err());
    assert!(MaxRegister::update_state(params(), State::from(counter(1)), StateDelta::from(vec![])).is_err());
    assert!(MaxRegister::validate_state(params(), State::from(counter(1))));
    assert!(!MaxRegister::validate_delta(params(), StateDelta::from(vec![0; 7])));
}

#[test]
fn summary_reconciliation() {
    let ours = State::from(counter(40));
    let summary = MaxRegister::summarize_state(params(), ours.clone());
    assert_eq!(summary.as_ref(), counter(40).as_slice());
    let delta = MaxRegister::get_state_delta(params(), ours, StateSummary::from(counter(5)));
    let theirs = MaxRegister::update_state(params(), State::from(counter(5)), delta).unwrap();
    assert!(matches!(theirs, UpdateModification::ValidUpdate(s) if s.as_ref() == counter(40).as_slice()));
    let r = MaxRegister::update_state_from_summary(params(), State::from(counter(5)), StateSummary::from(counter(40))).unwrap();
    assert!(matches!(r, UpdateModification::ValidUpdate(_)));
}
