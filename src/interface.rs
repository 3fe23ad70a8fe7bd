//! Contract identity and the values a contract's update algebra works on:
//! parameters, states, deltas and summaries are opaque byte strings whose
//! meaning only the contract's code knows.
use vstd::prelude::*;

verus! {

/// Why a contract refused an update.
#[derive(Debug, Clone, Copy, PartialEq, Eq, Structural)]
pub enum ContractError {
    InvalidUpdate,
}

/// What an accepted update did to the state.
pub enum UpdateModification {
    ValidUpdate(State),
    NoChange,
}

/// What an update call returned, as a value: `None` for a refusal,
/// `Some(None)` for an accepted update that changed nothing, and
/// `Some(Some(s))` for one that produced the state `s`.
pub open spec fn update_outcome(r: Result<UpdateModification, ContractError>) -> Option<
    Option<Seq<u8>>,
> {
    match r {
        Ok(UpdateModification::ValidUpdate(s)) => Some(Some(s@)),
        Ok(UpdateModification::NoChange) => Some(None),
        Err(_) => None,
    }
}

/// The update algebra a contract's code implements over its opaque states.
pub trait ContractInterface {
    /// What `update_state` returns, as a function of the bytes it is given.
    spec fn update_spec(parameters: Seq<u8>, state: Seq<u8>, delta: Seq<u8>) -> Option<
        Option<Seq<u8>>,
    >;

    /// Verify that the state is valid, given the parameters.
    fn validate_state(parameters: Parameters, state: State) -> bool;

    /// Verify that a delta is valid - at least as much as possible.
    fn validate_delta(parameters: Parameters, delta: StateDelta) -> bool;

    /// Update the state to account for the delta. The same bytes give the
    /// same outcome on every peer.
    fn update_state(parameters: Parameters, state: State, delta: StateDelta) -> (r: Result<
        UpdateModification,
        ContractError,
    >)
        ensures
            update_outcome(r) == Self::update_spec(parameters@, state@, delta@),
    ;

    /// A concise summary of a state from which deltas relative to it can be
    /// built.
    fn summarize_state(parameters: Parameters, state: State) -> StateSummary;

    /// The delta that brings the peer described by `summary` up to `state`.
    fn get_state_delta(parameters: Parameters, state: State, summary: StateSummary) -> StateDelta;

    /// Updates the current state from the provided summary.
    fn update_state_from_summary(
        parameters: Parameters,
        state: State,
        summary: StateSummary,
    ) -> Result<UpdateModification, ContractError>;

    /// Applying a delta again to the state it produced changes nothing.
    proof fn lemma_update_idempotent(parameters: Seq<u8>, state: Seq<u8>, delta: Seq<u8>)
        requires
            Self::update_spec(parameters, state, delta) matches Some(Some(_)),
        ensures
            Self::update_spec(
                parameters,
                Self::update_spec(parameters, state, delta)->0->0,
                delta,
            ) == Some(None::<Seq<u8>>),
    ;
}

/// Outcome code that crosses the boundary to a compiled contract.
#[derive(Debug, Clone, Copy, PartialEq, Eq, Structural)]
pub enum UpdateResult {
    ValidUpdate,
    ValidNoChange,
    Invalid,
}

/// The integer that stands for each outcome code.
pub open spec fn update_result_code(r: UpdateResult) -> i32 {
    match r {
        UpdateResult::ValidUpdate => 0,
        UpdateResult::ValidNoChange => 1,
        UpdateResult::Invalid => 2,
    }
}

impl UpdateResult {
    /// Reads an outcome code; any integer but 0, 1 and 2 is refused.
    pub fn try_from(value: i32) -> (r: Result<UpdateResult, ()>)
        ensures
            r is Ok <==> 0 <= value <= 2,
            r matches Ok(u) ==> update_result_code(u) == value,
    {
        match value {
            0 => Ok(UpdateResult::ValidUpdate),
            1 => Ok(UpdateResult::ValidNoChange),
            2 => Ok(UpdateResult::Invalid),
            _ => Err(()),
        }
    }

    /// The integer that stands for this outcome.
    pub fn code(&self) -> (r: i32)
        ensures
            r == update_result_code(*self),
    {
        match self {
            UpdateResult::ValidUpdate => 0,
            UpdateResult::ValidNoChange => 1,
            UpdateResult::Invalid => 2,
        }
    }
}

impl From<ContractError> for UpdateResult {
    fn from(err: ContractError) -> (r: UpdateResult) {
        match err {
            ContractError::InvalidUpdate => UpdateResult::Invalid,
        }
    }
}

impl vstd::std_specs::convert::FromSpecImpl<ContractError> for UpdateResult {
    open spec fn obeys_from_spec() -> bool {
        true
    }

    open spec fn from_spec(err: ContractError) -> UpdateResult {
        UpdateResult::Invalid
    }
}

/// Instantiation data of a contract.
#[derive(Debug, Clone)]
pub struct Parameters(pub Vec<u8>);

impl View for Parameters {
    type V = Seq<u8>;

    open spec fn view(&self) -> Seq<u8> {
        self.0@
    }
}

impl Parameters {
    pub fn size(&self) -> (r: usize)
        ensures
            r == self@.len(),
    {
        self.0.len()
    }

    pub fn as_ref(&self) -> (r: &[u8])
        ensures
            r@ == self@,
    {
        self.0.as_slice()
    }
}

impl From<Vec<u8>> for Parameters {
    fn from(data: Vec<u8>) -> (r: Parameters) {
        Parameters(data)
    }
}

impl vstd::std_specs::convert::FromSpecImpl<Vec<u8>> for Parameters {
    open spec fn obeys_from_spec() -> bool {
        true
    }

    open spec fn from_spec(data: Vec<u8>) -> Parameters {
        Parameters(data)
    }
}

/// The value a contract holds, opaque to the network.
#[derive(Debug, Clone)]
pub struct State(pub Vec<u8>);

impl View for State {
    type V = Seq<u8>;

    open spec fn view(&self) -> Seq<u8> {
        self.0@
    }
}

impl State {
    pub fn size(&self) -> (r: usize)
        ensures
            r == self@.len(),
    {
        self.0.len()
    }

    pub fn into_owned(self) -> (r: Vec<u8>)
        ensures
            r@ == self@,
    {
        self.0
    }

    /// The bytes of the state, for editing in place.
    pub fn to_mut(&mut self) -> (r: &mut Vec<u8>)
        ensures
            *r == old(self).0,
            *final(self) == State(*final(r)),
    {
        &mut self.0
    }

    pub fn as_ref(&self) -> (r: &[u8])
        ensures
            r@ == self@,
    {
        self.0.as_slice()
    }
}

impl From<Vec<u8>> for State {
    fn from(state: Vec<u8>) -> (r: State) {
        State(state)
    }
}

impl vstd::std_specs::convert::FromSpecImpl<Vec<u8>> for State {
    open spec fn obeys_from_spec() -> bool {
        true
    }

    open spec fn from_spec(state: Vec<u8>) -> State {
        State(state)
    }
}

/// A change to a state, in the contract's own terms.
#[derive(Debug, Clone)]
pub struct StateDelta(pub Vec<u8>);

impl View for StateDelta {
    type V = Seq<u8>;

    open spec fn view(&self) -> Seq<u8> {
        self.0@
    }
}

impl StateDelta {
    pub fn size(&self) -> (r: usize)
        ensures
            r == self@.len(),
    {
        self.0.len()
    }

    pub fn into_owned(self) -> (r: Vec<u8>)
        ensures
            r@ == self@,
    {
        self.0
    }

    pub fn as_ref(&self) -> (r: &[u8])
        ensures
            r@ == self@,
    {
        self.0.as_slice()
    }
}

impl From<Vec<u8>> for StateDelta {
    fn from(delta: Vec<u8>) -> (r: StateDelta) {
        StateDelta(delta)
    }
}

impl vstd::std_specs::convert::FromSpecImpl<Vec<u8>> for StateDelta {
    open spec fn obeys_from_spec() -> bool {
        true
    }

    open spec fn from_spec(delta: Vec<u8>) -> StateDelta {
        StateDelta(delta)
    }
}

/// A digest of a state from which a peer can work out the delta it lacks.
#[derive(Debug, Clone)]
pub struct StateSummary(pub Vec<u8>);

impl View for StateSummary {
    type V = Seq<u8>;

    open spec fn view(&self) -> Seq<u8> {
        self.0@
    }
}

impl StateSummary {
    pub fn into_owned(self) -> (r: Vec<u8>)
        ensures
            r@ == self@,
    {
        self.0
    }

    pub fn size(&self) -> (r: usize)
        ensures
            r == self@.len(),
    {
        self.0.len()
    }

    pub fn as_ref(&self) -> (r: &[u8])
        ensures
            r@ == self@,
    {
        self.0.as_slice()
    }
}

impl From<Vec<u8>> for StateSummary {
    fn from(summary: Vec<u8>) -> (r: StateSummary) {
        StateSummary(summary)
    }
}

impl vstd::std_specs::convert::FromSpecImpl<Vec<u8>> for StateSummary {
    open spec fn obeys_from_spec() -> bool {
        true
    }

    open spec fn from_spec(summary: Vec<u8>) -> StateSummary {
        StateSummary(summary)
    }
}

} // verus!
