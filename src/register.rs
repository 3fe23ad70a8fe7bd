//! A contract whose state is one 64-bit counter that only grows: the update
//! algebra at its smallest, with the idempotence law proved.
use vstd::prelude::*;
use crate::bytes::{le_value, read_le};
use crate::interface::{
    update_outcome, ContractError, ContractInterface, Parameters, State, StateDelta,
    StateSummary, UpdateModification,
};

verus! {

/// The counter a state or delta holds, if it is eight bytes.
pub open spec fn counter_of(b: Seq<u8>) -> Option<nat> {
    if b.len() == 8 {
        Some(le_value(b))
    } else {
        None
    }
}

fn read_counter(b: &[u8]) -> (r: Option<u64>)
    ensures
        match counter_of(b@) {
            Some(v) => r matches Some(x) && x as nat == v,
            None => r is None,
        },
{
    if b.len() != 8 {
        return None;
    }
    let v = read_le(b, 0, 8);
    assert(b@.subrange(0, 8) =~= b@);
    Some(v)
}

/// A register holding the largest counter it was given.
pub struct MaxRegister;

/// Keep the larger counter: a larger delta replaces the state, any other
/// changes nothing, and bytes that are no counter are refused.
pub open spec fn max_update(state: Seq<u8>, delta: Seq<u8>) -> Option<Option<Seq<u8>>> {
    match (counter_of(state), counter_of(delta)) {
        (Some(s), Some(d)) => if d > s {
            Some(Some(delta))
        } else {
            Some(None)
        },
        _ => None,
    }
}

fn max_update_exec(state: State, delta: Vec<u8>) -> (r: Result<UpdateModification, ContractError>)
    ensures
        update_outcome(r) == max_update(state@, delta@),
{
    let s = match read_counter(state.as_ref()) {
        Some(s) => s,
        None => return Err(ContractError::InvalidUpdate),
    };
    let d = match read_counter(delta.as_slice()) {
        Some(d) => d,
        None => return Err(ContractError::InvalidUpdate),
    };
    if d > s {
        Ok(UpdateModification::ValidUpdate(State(delta)))
    } else {
        Ok(UpdateModification::NoChange)
    }
}

impl ContractInterface for MaxRegister {
    open spec fn update_spec(parameters: Seq<u8>, state: Seq<u8>, delta: Seq<u8>) -> Option<
        Option<Seq<u8>>,
    > {
        max_update(state, delta)
    }

    fn validate_state(parameters: Parameters, state: State) -> bool {
        state.size() == 8
    }

    fn validate_delta(parameters: Parameters, delta: StateDelta) -> bool {
        delta.size() == 8
    }

    fn update_state(parameters: Parameters, state: State, delta: StateDelta) -> (r: Result<
        UpdateModification,
        ContractError,
    >) {
        max_update_exec(state, delta.into_owned())
    }

    /// The counter is its own summary.
    fn summarize_state(parameters: Parameters, state: State) -> StateSummary {
        StateSummary(state.into_owned())
    }

    /// Our counter is the delta any peer needs.
    fn get_state_delta(parameters: Parameters, state: State, summary: StateSummary) -> StateDelta {
        StateDelta(state.into_owned())
    }

    fn update_state_from_summary(
        parameters: Parameters,
        state: State,
        summary: StateSummary,
    ) -> Result<UpdateModification, ContractError> {
        max_update_exec(state, summary.into_owned())
    }

    proof fn lemma_update_idempotent(parameters: Seq<u8>, state: Seq<u8>, delta: Seq<u8>) {
    }
}

} // verus!
