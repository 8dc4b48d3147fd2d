//! The submission state of one payload and its transitions.
//!
//! ```text
//! Pending --dispatch--> InFlight --confirm--> Confirmed
//!    ^                     |  \
//!    |                     |   --reject--> Failed
//!  resign <-- Expired <--lapse
//! ```
//!
//! `Pending` and `Expired` payloads are failed when the round budget runs out.
//! Every transition leaves a state that it does not apply to unchanged.

use vstd::prelude::*;

verus! {

/// Why a payload ended without being confirmed.
#[derive(Clone, Debug, PartialEq, Eq)]
pub enum FailureReason {
    /// The cluster refused the payload for good; the text is the cluster's own.
    ProtocolRejected(String),
    /// The payload was still unconfirmed when the round budget ran out.
    RetriesExhausted,
}

/// What the transport answered to one submission.
#[derive(Clone, Debug, PartialEq, Eq)]
pub enum SubmitResult {
    Accepted,
    Rejected(String),
    Unreachable,
}

/// The state of one payload of a batch.
#[derive(Clone, Debug, PartialEq, Eq)]
pub enum SubmissionState {
    Pending,
    InFlight,
    Confirmed,
    Failed(FailureReason),
    Expired,
}

/// A state without its payload: which of the five states it is.
#[derive(Clone, Copy, Debug, PartialEq, Eq, Structural)]
pub enum Stage {
    Pending,
    InFlight,
    Confirmed,
    Failed,
    Expired,
}

impl FailureReason {
    pub fn duplicate(&self) -> (copy: FailureReason)
        ensures
            copy == *self,
    {
        match self {
            FailureReason::ProtocolRejected(detail) => FailureReason::ProtocolRejected(detail.clone()),
            FailureReason::RetriesExhausted => FailureReason::RetriesExhausted,
        }
    }

    /// The text shown for the reason.
    pub open spec fn text(self) -> Seq<char> {
        match self {
            FailureReason::ProtocolRejected(detail) => detail@,
            FailureReason::RetriesExhausted => "exhausted retries"@,
        }
    }

    pub fn describe(&self) -> (line: String)
        ensures
            line@ == self.text(),
    {
        match self {
            FailureReason::ProtocolRejected(detail) => detail.clone(),
            FailureReason::RetriesExhausted => "exhausted retries".to_owned(),
        }
    }
}

impl SubmitResult {
    pub fn duplicate(&self) -> (copy: SubmitResult)
        ensures
            copy == *self,
    {
        match self {
            SubmitResult::Accepted => SubmitResult::Accepted,
            SubmitResult::Rejected(detail) => SubmitResult::Rejected(detail.clone()),
            SubmitResult::Unreachable => SubmitResult::Unreachable,
        }
    }

    pub fn is_unreachable(&self) -> (unreachable: bool)
        ensures
            unreachable == (*self is Unreachable),
    {
        match self {
            SubmitResult::Unreachable => true,
            _ => false,
        }
    }
}

impl SubmissionState {
    pub open spec fn stage(self) -> Stage {
        match self {
            SubmissionState::Pending => Stage::Pending,
            SubmissionState::InFlight => Stage::InFlight,
            SubmissionState::Confirmed => Stage::Confirmed,
            SubmissionState::Failed(_) => Stage::Failed,
            SubmissionState::Expired => Stage::Expired,
        }
    }

    /// Confirmed or failed: no transition changes such a state.
    pub open spec fn is_terminal(self) -> bool {
        self is Confirmed || self is Failed
    }

    pub open spec fn dispatched(self) -> SubmissionState {
        if self is Pending {
            SubmissionState::InFlight
        } else {
            self
        }
    }

    pub open spec fn confirmed(self) -> SubmissionState {
        if self is InFlight {
            SubmissionState::Confirmed
        } else {
            self
        }
    }

    pub open spec fn rejected(self, detail: String) -> SubmissionState {
        if self is InFlight {
            SubmissionState::Failed(FailureReason::ProtocolRejected(detail))
        } else {
            self
        }
    }

    pub open spec fn lapsed(self) -> SubmissionState {
        if self is InFlight {
            SubmissionState::Expired
        } else {
            self
        }
    }

    pub open spec fn resigned(self) -> SubmissionState {
        if self is Expired {
            SubmissionState::Pending
        } else {
            self
        }
    }

    pub open spec fn exhausted(self) -> SubmissionState {
        if self is Pending || self is Expired {
            SubmissionState::Failed(FailureReason::RetriesExhausted)
        } else {
            self
        }
    }

    /// What one submission makes of a pending payload: it goes in flight,
    /// and fails at once if the transport rejects it for good.
    pub open spec fn submitted(self, result: SubmitResult) -> SubmissionState {
        if self is Pending {
            match result {
                SubmitResult::Rejected(detail) => self.dispatched().rejected(detail),
                _ => self.dispatched(),
            }
        } else {
            self
        }
    }

    pub fn get_stage(&self) -> (stage: Stage)
        ensures
            stage == self.stage(),
    {
        match self {
            SubmissionState::Pending => Stage::Pending,
            SubmissionState::InFlight => Stage::InFlight,
            SubmissionState::Confirmed => Stage::Confirmed,
            SubmissionState::Failed(_) => Stage::Failed,
            SubmissionState::Expired => Stage::Expired,
        }
    }

    pub fn duplicate(&self) -> (copy: SubmissionState)
        ensures
            copy == *self,
    {
        match self {
            SubmissionState::Pending => SubmissionState::Pending,
            SubmissionState::InFlight => SubmissionState::InFlight,
            SubmissionState::Confirmed => SubmissionState::Confirmed,
            SubmissionState::Failed(reason) => SubmissionState::Failed(reason.duplicate()),
            SubmissionState::Expired => SubmissionState::Expired,
        }
    }

    pub fn dispatch(self) -> (next: SubmissionState)
        ensures
            next == self.dispatched(),
    {
        match self {
            SubmissionState::Pending => SubmissionState::InFlight,
            other => other,
        }
    }

    pub fn confirm(self) -> (next: SubmissionState)
        ensures
            next == self.confirmed(),
    {
        match self {
            SubmissionState::InFlight => SubmissionState::Confirmed,
            other => other,
        }
    }

    pub fn reject(self, detail: String) -> (next: SubmissionState)
        ensures
            next == self.rejected(detail),
    {
        match self {
            SubmissionState::InFlight => SubmissionState::Failed(FailureReason::ProtocolRejected(detail)),
            other => other,
        }
    }

    pub fn lapse(self) -> (next: SubmissionState)
        ensures
            next == self.lapsed(),
    {
        match self {
            SubmissionState::InFlight => SubmissionState::Expired,
            other => other,
        }
    }

    pub fn resign(self) -> (next: SubmissionState)
        ensures
            next == self.resigned(),
    {
        match self {
            SubmissionState::Expired => SubmissionState::Pending,
            other => other,
        }
    }

    pub fn exhaust(self) -> (next: SubmissionState)
        ensures
            next == self.exhausted(),
    {
        match self {
            SubmissionState::Pending => SubmissionState::Failed(FailureReason::RetriesExhausted),
            SubmissionState::Expired => SubmissionState::Failed(FailureReason::RetriesExhausted),
            other => other,
        }
    }

    pub fn submit(self, result: SubmitResult) -> (next: SubmissionState)
        ensures
            next == self.submitted(result),
    {
        match self {
            SubmissionState::Pending => match result {
                SubmitResult::Rejected(detail) => self.dispatch().reject(detail),
                _ => self.dispatch(),
            },
            other => other,
        }
    }
}

/// A confirmed payload stays confirmed, whatever happens next, and
/// confirming it again changes nothing.
pub proof fn lemma_confirmed_is_terminal(state: SubmissionState, result: SubmitResult, detail: String)
    requires
        state is Confirmed,
    ensures
        state.dispatched() == state,
        state.submitted(result) == state,
        state.confirmed() == state,
        state.rejected(detail) == state,
        state.lapsed() == state,
        state.resigned() == state,
        state.exhausted() == state,
{
}

/// A payload becomes confirmed only from being in flight.
pub proof fn lemma_confirmed_only_from_in_flight(state: SubmissionState, result: SubmitResult, detail: String)
    requires
        !(state is Confirmed),
    ensures
        !(state.dispatched() is Confirmed),
        !(state.submitted(result) is Confirmed),
        !(state.rejected(detail) is Confirmed),
        !(state.lapsed() is Confirmed),
        !(state.resigned() is Confirmed),
        !(state.exhausted() is Confirmed),
        state.confirmed() is Confirmed <==> state is InFlight,
{
}

/// Confirming is idempotent.
pub proof fn lemma_confirm_is_idempotent(state: SubmissionState)
    ensures
        state.confirmed().confirmed() == state.confirmed(),
{
}

} // verus!
