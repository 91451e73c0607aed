//! The states of a connection and the order of its phases.
//!
//! Both sides pass through the same states, one phase at a time:
//! `Init`, `Versioned`, `Keyed`, `HostAuthOk`, `UserAuthOk`, `Session`,
//! `Closed`. A phase that fails closes the connection.

use vstd::prelude::*;
use crate::error::SshError;

verus! {

/// Where a connection stands.
#[derive(Clone, Copy, Debug, PartialEq, Eq, Structural)]
pub enum HandshakeState {
    /// The transport is open; nothing was exchanged.
    Init,
    /// The banners were exchanged and agree.
    Versioned,
    /// The session keys were agreed on.
    Keyed,
    /// The client accepted the host key.
    HostAuthOk,
    /// The server accepted the user.
    UserAuthOk,
    /// The encrypted session runs.
    Session,
    /// The connection is over.
    Closed,
}

/// The failure of a phase: the state in which the connection stood when
/// the phase began, and the error that ended it.
#[derive(Clone, Copy, Debug, PartialEq, Eq, Structural)]
pub struct PhaseError {
    pub state: HandshakeState,
    pub error: SshError,
}

/// The failure of the phase that begins in `state`, for contracts.
pub open spec fn phase_failure(state: HandshakeState, error: SshError) -> PhaseError {
    PhaseError { state, error }
}

/// What a phase gave, without the state of its failure.
pub open spec fn without_state<T>(result: Result<T, PhaseError>) -> Result<T, SshError> {
    match result {
        Ok(value) => Ok(value),
        Err(failure) => Err(failure.error),
    }
}

/// Whether a result is a success or a failure of the phase that begins in
/// `state`.
pub open spec fn fails_only_in<T>(result: Result<T, PhaseError>, state: HandshakeState) -> bool {
    result matches Err(failure) ==> failure.state == state
}

impl HandshakeState {
    /// The position of a state in the order of the phases.
    pub open spec fn rank(self) -> nat {
        match self {
            HandshakeState::Init => 0,
            HandshakeState::Versioned => 1,
            HandshakeState::Keyed => 2,
            HandshakeState::HostAuthOk => 3,
            HandshakeState::UserAuthOk => 4,
            HandshakeState::Session => 5,
            HandshakeState::Closed => 6,
        }
    }

    /// The state after the phase that begins in `self`: the next one in
    /// order when the phase succeeded, `Closed` when it failed. The phase
    /// of `Session` is the session itself, which ends in `Closed` either
    /// way; `Closed` stays.
    pub open spec fn spec_next(self, phase_succeeded: bool) -> HandshakeState {
        if !phase_succeeded {
            HandshakeState::Closed
        } else {
            match self {
                HandshakeState::Init => HandshakeState::Versioned,
                HandshakeState::Versioned => HandshakeState::Keyed,
                HandshakeState::Keyed => HandshakeState::HostAuthOk,
                HandshakeState::HostAuthOk => HandshakeState::UserAuthOk,
                HandshakeState::UserAuthOk => HandshakeState::Session,
                HandshakeState::Session => HandshakeState::Closed,
                HandshakeState::Closed => HandshakeState::Closed,
            }
        }
    }

    /// The state after the phase that begins in `self`.
    pub fn next(self, phase_succeeded: bool) -> (state: HandshakeState)
        ensures
            state == self.spec_next(phase_succeeded),
    {
        if !phase_succeeded {
            return HandshakeState::Closed;
        }
        match self {
            HandshakeState::Init => HandshakeState::Versioned,
            HandshakeState::Versioned => HandshakeState::Keyed,
            HandshakeState::Keyed => HandshakeState::HostAuthOk,
            HandshakeState::HostAuthOk => HandshakeState::UserAuthOk,
            HandshakeState::UserAuthOk => HandshakeState::Session,
            HandshakeState::Session => HandshakeState::Closed,
            HandshakeState::Closed => HandshakeState::Closed,
        }
    }

    /// No transition goes backward: every phase moves an open connection
    /// strictly forward, by one state when it succeeds and to `Closed`
    /// when it fails, and a closed connection stays closed.
    pub proof fn lemma_transitions_go_forward(self, phase_succeeded: bool)
        ensures
            self.spec_next(phase_succeeded).rank() >= self.rank(),
            self != HandshakeState::Closed ==> self.spec_next(phase_succeeded).rank()
                > self.rank(),
            self != HandshakeState::Closed && phase_succeeded ==> self.spec_next(
                phase_succeeded,
            ).rank() == self.rank() + 1,
            !phase_succeeded ==> self.spec_next(phase_succeeded) == HandshakeState::Closed,
            HandshakeState::Closed.spec_next(phase_succeeded) == HandshakeState::Closed,
    {
    }

    /// The failure of the phase that begins in `self`.
    pub fn failed(self, error: SshError) -> (failure: PhaseError)
        ensures
            failure.state == self,
            failure.error == error,
    {
        PhaseError { state: self, error }
    }
}

} // verus!
