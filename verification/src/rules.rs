//! The rules of the dispatch and resign loop, as mathematics.
//!
//! A round goes: submit every pending payload, observe confirmations until
//! all payloads are resolved or the freshness token expires, then have the
//! expired payloads signed again under a fresh token. The number of rounds is
//! bounded by the budget; payloads still unconfirmed when it runs out fail.
//!
//! [`step`] is the whole decision, from a state and an event to the next
//! state. The lemmas below it state what holds of every step.

use crate::identity::{FreshnessToken, Signature};
use crate::state::{FailureReason, Stage, SubmissionState, SubmitResult};
use vstd::prelude::*;

verus! {

/// Rounds that a batch is granted unless the caller chooses otherwise.
pub const DEFAULT_ROUND_BUDGET: u64 = 5;

/// One position of the batch: the state of its payload and the signature
/// that the payload currently carries.
#[derive(Clone, Debug, PartialEq, Eq)]
pub struct Slot {
    pub state: SubmissionState,
    pub signature: Signature,
}

/// The signer failed at the payload at `index`: it refused to sign, or it
/// handed out a signature that the batch has already seen.
#[derive(Clone, Copy, Debug, PartialEq, Eq)]
pub enum SigningError {
    Refused { index: usize },
    Reused { index: usize },
}

/// An error that ends the whole operation.
#[derive(Clone, Copy, Debug, PartialEq, Eq)]
pub enum FatalError {
    /// Every submission of a round found the transport unreachable.
    TransportUnreachable,
    Signing(SigningError),
}

/// Where the engine stands in its round.
#[derive(Clone, Copy, Debug, PartialEq, Eq)]
pub enum Phase {
    /// Pending payloads wait to be submitted.
    Ready,
    /// Payloads are in flight.
    Observing,
    /// The token expired with payloads unconfirmed; they wait to be resigned.
    Lapsed,
    /// Every payload is confirmed or failed.
    Done,
    Aborted(FatalError),
}

/// What the engine asks its driver to do next.
#[derive(Clone, Copy, Debug, PartialEq, Eq)]
pub enum Action {
    /// Submit every pending payload, then report `Event::Submitted`.
    Submit,
    /// Watch the payloads in flight; report `Event::Confirmed` or
    /// `Event::Rejected` for each one that the cluster resolves, and
    /// `Event::Height` as the cluster advances.
    Observe,
    /// Fetch a fresh token, rebuild and sign the expired payloads, then
    /// report `Event::Resigned`.
    Resign,
    /// Collect the report.
    Finish,
    /// Give up with the error.
    Abort(FatalError),
}

/// What the driver observed.
#[derive(Clone, Debug, PartialEq, Eq)]
pub enum Event {
    /// The transport's answers, one per batch position. Only the answers at
    /// the positions of pending payloads are read.
    Submitted(Vec<SubmitResult>),
    /// The cluster reported the payload with this signature as final.
    Confirmed(Signature),
    /// The cluster refused the payload with this signature for good.
    Rejected { signature: Signature, detail: String },
    /// The cluster is at this block height.
    Height(u64),
    /// The signer's answers under the fresh token, one per batch position;
    /// `None` where it refused. Only the answers at the positions of expired
    /// payloads are read.
    Resigned { token: FreshnessToken, outcomes: Vec<Option<Signature>> },
}

/// The engine as mathematical values.
pub ghost struct EngineView {
    pub slots: Seq<Slot>,
    /// Every signature that a resign has replaced.
    pub spent: Set<Signature>,
    pub token: FreshnessToken,
    pub budget: u64,
    pub rounds_used: u64,
    pub phase: Phase,
}

/// Whether some payload is at `stage`.
pub open spec fn any_in(slots: Seq<Slot>, stage: Stage) -> bool {
    exists|i: int| 0 <= i < slots.len() && (#[trigger] slots[i]).state.stage() == stage
}

/// Whether the round's submissions all found the transport unreachable.
pub open spec fn all_unreachable(slots: Seq<Slot>, results: Seq<SubmitResult>) -> bool {
    forall|i: int|
        0 <= i < slots.len() && (#[trigger] slots[i]).state is Pending ==> results[i] is Unreachable
}

/// The batch after a round of submissions: every pending payload goes in
/// flight, or fails where the transport rejected it.
pub open spec fn after_submit(slots: Seq<Slot>, results: Seq<SubmitResult>) -> Seq<Slot> {
    Seq::new(
        slots.len(),
        |i: int| Slot { state: slots[i].state.submitted(results[i]), signature: slots[i].signature },
    )
}

/// The batch after the payload in flight under `signature` is confirmed.
pub open spec fn after_confirm(slots: Seq<Slot>, signature: Signature) -> Seq<Slot> {
    Seq::new(
        slots.len(),
        |i: int|
            if slots[i].signature == signature {
                Slot { state: slots[i].state.confirmed(), signature: slots[i].signature }
            } else {
                slots[i]
            },
    )
}

/// The batch after the payload in flight under `signature` is refused.
pub open spec fn after_reject(slots: Seq<Slot>, signature: Signature, detail: String) -> Seq<Slot> {
    Seq::new(
        slots.len(),
        |i: int|
            if slots[i].signature == signature {
                Slot { state: slots[i].state.rejected(detail), signature: slots[i].signature }
            } else {
                slots[i]
            },
    )
}

/// The batch after the token expired: every payload in flight is expired.
pub open spec fn after_lapse(slots: Seq<Slot>) -> Seq<Slot> {
    Seq::new(
        slots.len(),
        |i: int| Slot { state: slots[i].state.lapsed(), signature: slots[i].signature },
    )
}

/// The batch after the budget ran out: every payload not yet settled fails.
pub open spec fn after_exhaust(slots: Seq<Slot>) -> Seq<Slot> {
    Seq::new(
        slots.len(),
        |i: int| Slot { state: slots[i].state.exhausted(), signature: slots[i].signature },
    )
}

/// The batch after a resign: every expired payload is pending again, under
/// the signature that the signer gave for its position.
pub open spec fn after_resign(slots: Seq<Slot>, outcomes: Seq<Option<Signature>>) -> Seq<Slot> {
    Seq::new(
        slots.len(),
        |i: int|
            if slots[i].state is Expired {
                Slot { state: slots[i].state.resigned(), signature: outcomes[i]->0 }
            } else {
                slots[i]
            },
    )
}

/// The signatures that a resign replaces: those of the expired payloads.
pub open spec fn retired(slots: Seq<Slot>) -> Set<Signature> {
    Set::new(
        |signature: Signature|
            exists|i: int|
                0 <= i < slots.len() && (#[trigger] slots[i]).state is Expired && slots[i].signature
                    == signature,
    )
}

/// Observing while anything is in flight, done otherwise.
pub open spec fn observing_or_done(slots: Seq<Slot>) -> Phase {
    if any_in(slots, Stage::InFlight) {
        Phase::Observing
    } else {
        Phase::Done
    }
}

/// What the engine asks of its driver in each phase.
pub open spec fn action_for(phase: Phase) -> Action {
    match phase {
        Phase::Ready => Action::Submit,
        Phase::Observing => Action::Observe,
        Phase::Lapsed => Action::Resign,
        Phase::Done => Action::Finish,
        Phase::Aborted(error) => Action::Abort(error),
    }
}

impl EngineView {
    /// Whether the batch has seen `signature`, on a payload now or before.
    pub open spec fn knows(self, signature: Signature) -> bool {
        self.spent.contains(signature) || exists|i: int|
            0 <= i < self.slots.len() && (#[trigger] self.slots[i]).signature == signature
    }

    /// Whether the signer's answer for position `i` cannot be admitted: the
    /// payload there is expired and the signer refused, or the signature is
    /// known to the batch, or an expired payload before it got the same one.
    pub open spec fn resign_fault_at(self, outcomes: Seq<Option<Signature>>, i: int) -> bool {
        &&& self.slots[i].state is Expired
        &&& (outcomes[i] is None || self.knows(outcomes[i]->0) || exists|j: int|
            0 <= j < i && (#[trigger] self.slots[j]).state is Expired && outcomes[j] == outcomes[i])
    }

    pub open spec fn resign_faulty(self, outcomes: Seq<Option<Signature>>) -> bool {
        exists|i: int| 0 <= i < self.slots.len() && self.resign_fault_at(outcomes, i)
    }

    pub open spec fn is_first_resign_fault(self, outcomes: Seq<Option<Signature>>, i: int) -> bool {
        &&& 0 <= i < self.slots.len()
        &&& self.resign_fault_at(outcomes, i)
        &&& forall|j: int| 0 <= j < i ==> !self.resign_fault_at(outcomes, j)
    }

    /// The error for the first position whose answer cannot be admitted.
    pub open spec fn resign_error(self, outcomes: Seq<Option<Signature>>) -> SigningError {
        let i = choose|i: int| self.is_first_resign_fault(outcomes, i);
        if outcomes[i] is None {
            SigningError::Refused { index: i as usize }
        } else {
            SigningError::Reused { index: i as usize }
        }
    }

    pub open spec fn wf(self) -> bool {
        &&& self.rounds_used <= self.budget
        &&& forall|i: int, j: int|
            0 <= i < j < self.slots.len() ==> (#[trigger] self.slots[i]).signature != (
            #[trigger] self.slots[j]).signature
        &&& forall|i: int|
            0 <= i < self.slots.len() ==> !self.spent.contains((#[trigger] self.slots[i]).signature)
        &&& match self.phase {
            Phase::Ready => {
                &&& self.rounds_used < self.budget
                &&& any_in(self.slots, Stage::Pending)
                &&& !any_in(self.slots, Stage::InFlight)
                &&& !any_in(self.slots, Stage::Expired)
            },
            Phase::Observing => {
                &&& any_in(self.slots, Stage::InFlight)
                &&& !any_in(self.slots, Stage::Pending)
                &&& !any_in(self.slots, Stage::Expired)
            },
            Phase::Lapsed => {
                &&& self.rounds_used < self.budget
                &&& any_in(self.slots, Stage::Expired)
                &&& !any_in(self.slots, Stage::Pending)
                &&& !any_in(self.slots, Stage::InFlight)
            },
            Phase::Done => forall|i: int|
                0 <= i < self.slots.len() ==> (#[trigger] self.slots[i]).state.is_terminal(),
            Phase::Aborted(_) => self.rounds_used < self.budget,
        }
    }

    pub open spec fn on_submitted(self, results: Seq<SubmitResult>) -> EngineView {
        if results.len() != self.slots.len() {
            self
        } else if all_unreachable(self.slots, results) {
            EngineView { phase: Phase::Aborted(FatalError::TransportUnreachable), ..self }
        } else {
            let slots = after_submit(self.slots, results);
            EngineView {
                slots,
                rounds_used: (self.rounds_used + 1) as u64,
                phase: observing_or_done(slots),
                ..self
            }
        }
    }

    pub open spec fn on_confirmed(self, signature: Signature) -> EngineView {
        let slots = after_confirm(self.slots, signature);
        EngineView { slots, phase: observing_or_done(slots), ..self }
    }

    pub open spec fn on_rejected(self, signature: Signature, detail: String) -> EngineView {
        let slots = after_reject(self.slots, signature, detail);
        EngineView { slots, phase: observing_or_done(slots), ..self }
    }

    pub open spec fn on_height(self, height: u64) -> EngineView {
        if !self.token.expired_at(height) {
            self
        } else if self.rounds_used < self.budget {
            EngineView { slots: after_lapse(self.slots), phase: Phase::Lapsed, ..self }
        } else {
            EngineView { slots: after_exhaust(after_lapse(self.slots)), phase: Phase::Done, ..self }
        }
    }

    pub open spec fn on_resigned(
        self,
        token: FreshnessToken,
        outcomes: Seq<Option<Signature>>,
    ) -> EngineView {
        if outcomes.len() != self.slots.len() {
            self
        } else if self.resign_faulty(outcomes) {
            EngineView {
                phase: Phase::Aborted(FatalError::Signing(self.resign_error(outcomes))),
                ..self
            }
        } else {
            EngineView {
                slots: after_resign(self.slots, outcomes),
                spent: self.spent.union(retired(self.slots)),
                token,
                phase: Phase::Ready,
                ..self
            }
        }
    }
}

/// The engine's decision: the state that follows `view` on `event`. An event
/// that the phase does not wait for, or whose list is not as long as the
/// batch, changes nothing.
pub open spec fn step(view: EngineView, event: Event) -> EngineView {
    match event {
        Event::Submitted(results) => if view.phase is Ready {
            view.on_submitted(results@)
        } else {
            view
        },
        Event::Confirmed(signature) => if view.phase is Observing {
            view.on_confirmed(signature)
        } else {
            view
        },
        Event::Rejected { signature, detail } => if view.phase is Observing {
            view.on_rejected(signature, detail)
        } else {
            view
        },
        Event::Height(height) => if view.phase is Observing {
            view.on_height(height)
        } else {
            view
        },
        Event::Resigned { token, outcomes } => if view.phase is Lapsed {
            view.on_resigned(token, outcomes@)
        } else {
            view
        },
    }
}

/// The batch never changes size.
pub proof fn lemma_step_keeps_positions(view: EngineView, event: Event)
    ensures
        step(view, event).slots.len() == view.slots.len(),
        step(view, event).budget == view.budget,
{
}

/// Every step leaves the engine well formed: no two payloads share a
/// signature, no payload carries a spent signature, the rounds used stay
/// within the budget, and the phase matches the states of the payloads.
pub proof fn lemma_step_preserves_wf(view: EngineView, event: Event)
    requires
        view.wf(),
    ensures
        step(view, event).wf(),
{
    let next = step(view, event);
    match event {
        Event::Submitted(results) => {
            if view.phase is Ready && results@.len() == view.slots.len() && !all_unreachable(
                view.slots,
                results@,
            ) {
                assert forall|i: int| 0 <= i < next.slots.len() implies {
                    &&& (#[trigger] next.slots[i]).state.stage() != Stage::Pending
                    &&& next.slots[i].state.stage() != Stage::Expired
                    &&& next.slots[i].signature == view.slots[i].signature
                } by {
                    assert(view.slots[i].state.stage() != Stage::InFlight);
                    assert(view.slots[i].state.stage() != Stage::Expired);
                }
            }
        },
        Event::Confirmed(signature) => {
            if view.phase is Observing {
                assert forall|i: int| 0 <= i < next.slots.len() implies {
                    &&& (#[trigger] next.slots[i]).state.stage() != Stage::Pending
                    &&& next.slots[i].state.stage() != Stage::Expired
                    &&& next.slots[i].signature == view.slots[i].signature
                } by {
                    assert(view.slots[i].state.stage() != Stage::Pending);
                    assert(view.slots[i].state.stage() != Stage::Expired);
                }
            }
        },
        Event::Rejected { signature, detail } => {
            if view.phase is Observing {
                assert forall|i: int| 0 <= i < next.slots.len() implies {
                    &&& (#[trigger] next.slots[i]).state.stage() != Stage::Pending
                    &&& next.slots[i].state.stage() != Stage::Expired
                    &&& next.slots[i].signature == view.slots[i].signature
                } by {
                    assert(view.slots[i].state.stage() != Stage::Pending);
                    assert(view.slots[i].state.stage() != Stage::Expired);
                }
            }
        },
        Event::Height(height) => {
            if view.phase is Observing && view.token.expired_at(height) {
                let witness = choose|i: int|
                    0 <= i < view.slots.len() && (#[trigger] view.slots[i]).state.stage()
                        == Stage::InFlight;
                assert(after_lapse(view.slots)[witness].state.stage() == Stage::Expired);
                assert forall|i: int| 0 <= i < next.slots.len() implies {
                    &&& (#[trigger] next.slots[i]).state.stage() != Stage::Pending
                    &&& next.slots[i].state.stage() != Stage::InFlight
                    &&& next.slots[i].signature == view.slots[i].signature
                    &&& (next.phase is Done ==> next.slots[i].state.is_terminal())
                } by {
                    assert(view.slots[i].state.stage() != Stage::Pending);
                    assert(view.slots[i].state.stage() != Stage::Expired);
                }
            }
        },
        Event::Resigned { token, outcomes } => {
            if view.phase is Lapsed && outcomes@.len() == view.slots.len() && !view.resign_faulty(
                outcomes@,
            ) {
                lemma_resign_admits_new_signatures(view, outcomes@);
                let witness = choose|i: int|
                    0 <= i < view.slots.len() && (#[trigger] view.slots[i]).state.stage()
                        == Stage::Expired;
                assert(next.slots[witness].state.stage() == Stage::Pending);
                assert forall|i: int| 0 <= i < next.slots.len() implies {
                    &&& (#[trigger] next.slots[i]).state.stage() != Stage::InFlight
                    &&& next.slots[i].state.stage() != Stage::Expired
                } by {
                    assert(view.slots[i].state.stage() != Stage::Pending);
                    assert(view.slots[i].state.stage() != Stage::InFlight);
                }
            }
        },
    }
}

/// A resign that is admitted keeps the signatures of the batch apart: the
/// new signatures differ from each other, from every signature kept, and
/// from every signature spent, the replaced ones included.
pub proof fn lemma_resign_admits_new_signatures(view: EngineView, outcomes: Seq<Option<Signature>>)
    requires
        view.wf(),
        outcomes.len() == view.slots.len(),
        !view.resign_faulty(outcomes),
    ensures
        forall|i: int, j: int|
            0 <= i < j < view.slots.len() ==> (#[trigger] after_resign(view.slots, outcomes)[i]).signature
                != (#[trigger] after_resign(view.slots, outcomes)[j]).signature,
        forall|i: int|
            0 <= i < view.slots.len() ==> !view.spent.union(retired(view.slots)).contains(
                (#[trigger] after_resign(view.slots, outcomes)[i]).signature,
            ),
        forall|i: int|
            0 <= i < view.slots.len() && (#[trigger] view.slots[i]).state is Expired ==> {
                &&& outcomes[i] is Some
                &&& after_resign(view.slots, outcomes)[i].signature == outcomes[i]->0
                &&& !view.knows(outcomes[i]->0)
                &&& view.spent.union(retired(view.slots)).contains(view.slots[i].signature)
            },
{
    let next = after_resign(view.slots, outcomes);
    assert forall|i: int| 0 <= i < view.slots.len() && (#[trigger] view.slots[i]).state is Expired implies {
        &&& outcomes[i] is Some
        &&& !view.knows(outcomes[i]->0)
        &&& forall|j: int|
            0 <= j < i && (#[trigger] view.slots[j]).state is Expired ==> outcomes[j] != outcomes[i]
    } by {
        assert(!view.resign_fault_at(outcomes, i));
    }
    assert forall|i: int, j: int| 0 <= i < j < view.slots.len() implies (#[trigger] next[i]).signature != (
    #[trigger] next[j]).signature by {
        let a = view.slots[i];
        let b = view.slots[j];
        if a.state is Expired && b.state is Expired {
            assert(outcomes[i] != outcomes[j]);
        } else if a.state is Expired {
            assert(!view.knows(outcomes[i]->0));
            assert(b.signature != outcomes[i]->0);
        } else if b.state is Expired {
            assert(!view.knows(outcomes[j]->0));
            assert(a.signature != outcomes[j]->0);
        }
    }
    assert forall|i: int| 0 <= i < view.slots.len() implies !view.spent.union(
        retired(view.slots),
    ).contains((#[trigger] next[i]).signature) by {
        let a = view.slots[i];
        let signature = next[i].signature;
        if a.state is Expired {
            assert(!view.knows(signature));
        }
        if retired(view.slots).contains(signature) {
            let k = choose|k: int|
                0 <= k < view.slots.len() && (#[trigger] view.slots[k]).state is Expired
                    && view.slots[k].signature == signature;
            if a.state is Expired {
                assert(view.slots[k].signature == signature);
            } else {
                assert(k != i);
            }
        }
    }
}

/// Whether the signer's answer for position `i` of a new batch cannot be
/// admitted: it refused, or an earlier position got the same signature.
pub open spec fn launch_fault_at(outcomes: Seq<Option<Signature>>, i: int) -> bool {
    outcomes[i] is None || exists|j: int| 0 <= j < i && #[trigger] outcomes[j] == outcomes[i]
}

pub open spec fn launch_faulty(outcomes: Seq<Option<Signature>>) -> bool {
    exists|i: int| 0 <= i < outcomes.len() && launch_fault_at(outcomes, i)
}

pub open spec fn is_first_launch_fault(outcomes: Seq<Option<Signature>>, i: int) -> bool {
    &&& 0 <= i < outcomes.len()
    &&& launch_fault_at(outcomes, i)
    &&& forall|j: int| 0 <= j < i ==> !launch_fault_at(outcomes, j)
}

/// The error for the first position whose answer cannot be admitted.
pub open spec fn launch_error(outcomes: Seq<Option<Signature>>) -> SigningError {
    let i = choose|i: int| is_first_launch_fault(outcomes, i);
    if outcomes[i] is None {
        SigningError::Refused { index: i as usize }
    } else {
        SigningError::Reused { index: i as usize }
    }
}

/// The engine for a new batch: every payload pending and no round used. An
/// empty batch is done at once; with no round granted every payload fails
/// at once.
pub open spec fn launched(
    token: FreshnessToken,
    outcomes: Seq<Option<Signature>>,
    budget: u64,
) -> EngineView {
    EngineView {
        slots: Seq::new(
            outcomes.len(),
            |i: int|
                Slot {
                    state: if budget == 0 {
                        SubmissionState::Pending.exhausted()
                    } else {
                        SubmissionState::Pending
                    },
                    signature: outcomes[i]->0,
                },
        ),
        spent: Set::empty(),
        token,
        budget,
        rounds_used: 0,
        phase: if outcomes.len() == 0 || budget == 0 {
            Phase::Done
        } else {
            Phase::Ready
        },
    }
}

/// A new batch is well formed: its payloads carry pairwise different
/// signatures.
pub proof fn lemma_launch_is_well_formed(
    token: FreshnessToken,
    outcomes: Seq<Option<Signature>>,
    budget: u64,
)
    requires
        !launch_faulty(outcomes),
    ensures
        launched(token, outcomes, budget).wf(),
        launched(token, outcomes, budget).slots.len() == outcomes.len(),
        forall|i: int, j: int|
            0 <= i < j < outcomes.len() ==> (#[trigger] launched(token, outcomes, budget).slots[i]).signature
                != (#[trigger] launched(token, outcomes, budget).slots[j]).signature,
{
    let view = launched(token, outcomes, budget);
    assert forall|i: int, j: int| 0 <= i < j < outcomes.len() implies (#[trigger] view.slots[i]).signature
        != (#[trigger] view.slots[j]).signature by {
        assert(!launch_fault_at(outcomes, i));
        assert(!launch_fault_at(outcomes, j));
        assert(outcomes[i] != outcomes[j]);
    }
    if outcomes.len() > 0 && budget > 0 {
        assert(view.slots[0].state.stage() == Stage::Pending);
    }
}

pub proof fn lemma_first_launch_fault_is_unique(outcomes: Seq<Option<Signature>>, i: int)
    requires
        is_first_launch_fault(outcomes, i),
    ensures
        launch_faulty(outcomes),
        (choose|k: int| is_first_launch_fault(outcomes, k)) == i,
{
    let k = choose|k: int| is_first_launch_fault(outcomes, k);
    assert(is_first_launch_fault(outcomes, k));
    if k < i {
        assert(!launch_fault_at(outcomes, k));
    } else if i < k {
        assert(!launch_fault_at(outcomes, i));
    }
}

pub proof fn lemma_first_resign_fault_is_unique(
    view: EngineView,
    outcomes: Seq<Option<Signature>>,
    i: int,
)
    requires
        view.is_first_resign_fault(outcomes, i),
    ensures
        view.resign_faulty(outcomes),
        (choose|k: int| view.is_first_resign_fault(outcomes, k)) == i,
{
    let k = choose|k: int| view.is_first_resign_fault(outcomes, k);
    assert(view.is_first_resign_fault(outcomes, k));
    if k < i {
        assert(!view.resign_fault_at(outcomes, k));
    } else if i < k {
        assert(!view.resign_fault_at(outcomes, i));
    }
}

/// A confirmed payload is never touched again: no event changes its state
/// or its signature, so it is neither resubmitted nor resigned, and a second
/// confirmation of it changes nothing.
pub proof fn lemma_confirmed_stays_confirmed(view: EngineView, event: Event, i: int)
    requires
        view.wf(),
        0 <= i < view.slots.len(),
        view.slots[i].state is Confirmed,
    ensures
        step(view, event).slots[i] == view.slots[i],
{
}

/// A payload becomes confirmed only while in flight, and only on the
/// confirmation of the signature it carries.
pub proof fn lemma_confirmation_comes_from_flight(view: EngineView, event: Event, i: int)
    requires
        view.wf(),
        0 <= i < view.slots.len(),
        !(view.slots[i].state is Confirmed),
        step(view, event).slots[i].state is Confirmed,
    ensures
        view.slots[i].state is InFlight,
        view.phase is Observing,
        event == Event::Confirmed(view.slots[i].signature),
{
}

/// A resign that is admitted gives every expired payload a signature that
/// the batch has never seen, on a payload or among the spent ones, and
/// retires the old signature.
pub proof fn lemma_resign_uses_new_signatures(view: EngineView, event: Event, i: int)
    requires
        view.wf(),
        view.phase is Lapsed,
        event is Resigned,
        step(view, event).phase is Ready,
        0 <= i < view.slots.len(),
        view.slots[i].state is Expired,
    ensures
        step(view, event).slots[i].state is Pending,
        step(view, event).slots[i].signature != view.slots[i].signature,
        !view.knows(step(view, event).slots[i].signature),
        step(view, event).spent.contains(view.slots[i].signature),
{
    if let Event::Resigned { token, outcomes } = event {
        lemma_resign_admits_new_signatures(view, outcomes@);
    }
}

/// A spent signature stays spent, and no payload carries it again.
pub proof fn lemma_spent_is_never_reused(
    view: EngineView,
    event: Event,
    signature: Signature,
    i: int,
)
    requires
        view.wf(),
        view.spent.contains(signature),
        0 <= i < view.slots.len(),
    ensures
        step(view, event).spent.contains(signature),
        step(view, event).slots[i].signature != signature,
{
    lemma_step_preserves_wf(view, event);
}

/// The rounds used never pass the budget. Once the last round of the budget
/// has started, no payload is pending or expired; once the engine is done,
/// every payload is confirmed or failed.
pub proof fn lemma_budget_is_respected(view: EngineView, i: int)
    requires
        view.wf(),
        0 <= i < view.slots.len(),
    ensures
        view.rounds_used <= view.budget,
        view.rounds_used == view.budget ==> !(view.slots[i].state is Pending) && !(
        view.slots[i].state is Expired),
        view.phase is Done ==> view.slots[i].state.is_terminal(),
{
}

/// Only a round of submissions uses up a round, and it uses exactly one.
pub proof fn lemma_rounds_count_submissions(view: EngineView, event: Event)
    requires
        view.wf(),
    ensures
        step(view, event).rounds_used == if view.phase is Ready && step(view, event).phase
            !is Ready && step(view, event).phase !is Aborted {
            view.rounds_used + 1
        } else {
            view.rounds_used as int
        },
{
}

/// When the token of the last round of the budget expires, every payload
/// still in flight fails for exhausted retries, the others stay as they
/// are, and the engine is done.
pub proof fn lemma_last_round_fails_the_rest(view: EngineView, height: u64, i: int)
    requires
        view.wf(),
        view.phase is Observing,
        view.rounds_used == view.budget,
        view.token.expired_at(height),
        0 <= i < view.slots.len(),
    ensures
        step(view, Event::Height(height)).phase is Done,
        step(view, Event::Height(height)).slots[i].state == if view.slots[i].state is InFlight {
            SubmissionState::Failed(FailureReason::RetriesExhausted)
        } else {
            view.slots[i].state
        },
{
    assert(view.slots[i].state.stage() != Stage::Pending);
    assert(view.slots[i].state.stage() != Stage::Expired);
}

/// When every submission of a round finds the transport unreachable, the
/// engine aborts in that round, before the budget is used up, and leaves
/// the batch as it was: no payload is marked failed.
pub proof fn lemma_total_unreachability_aborts(view: EngineView, event: Event)
    requires
        view.wf(),
        view.phase is Ready,
        event matches Event::Submitted(results) && results@.len() == view.slots.len()
            && all_unreachable(view.slots, results@),
    ensures
        step(view, event) == (EngineView {
            phase: Phase::Aborted(FatalError::TransportUnreachable),
            ..view
        }),
        action_for(step(view, event).phase) == Action::Abort(FatalError::TransportUnreachable),
        view.rounds_used < view.budget,
{
}

/// A finished or aborted engine takes no further step.
pub proof fn lemma_done_and_aborted_are_final(view: EngineView, event: Event)
    requires
        view.phase is Done || view.phase is Aborted,
    ensures
        step(view, event) == view,
{
}

/// The state after a whole sequence of events, taken in order.
pub open spec fn run(view: EngineView, events: Seq<Event>) -> EngineView
    decreases events.len(),
{
    if events.len() == 0 {
        view
    } else {
        run(step(view, events.first()), events.drop_first())
    }
}

/// Whatever the driver reports, and in whatever order, the engine stays
/// well formed, the batch keeps its size and its budget, and the rounds
/// used only grow and stay within the budget.
pub proof fn lemma_run_preserves_wf(view: EngineView, events: Seq<Event>)
    requires
        view.wf(),
    ensures
        run(view, events).wf(),
        run(view, events).slots.len() == view.slots.len(),
        run(view, events).budget == view.budget,
        view.rounds_used <= run(view, events).rounds_used <= view.budget,
    decreases events.len(),
{
    if events.len() > 0 {
        lemma_step_preserves_wf(view, events.first());
        lemma_rounds_count_submissions(view, events.first());
        lemma_run_preserves_wf(step(view, events.first()), events.drop_first());
    }
}

/// Once confirmed, a payload keeps its state and its signature through
/// every later event.
pub proof fn lemma_confirmed_is_final(view: EngineView, events: Seq<Event>, i: int)
    requires
        view.wf(),
        0 <= i < view.slots.len(),
        view.slots[i].state is Confirmed,
    ensures
        run(view, events).slots[i] == view.slots[i],
    decreases events.len(),
{
    if events.len() > 0 {
        lemma_step_preserves_wf(view, events.first());
        lemma_confirmed_stays_confirmed(view, events.first(), i);
        lemma_confirmed_is_final(step(view, events.first()), events.drop_first(), i);
    }
}

/// Once spent, a signature is never carried by a payload again, through
/// every later event.
pub proof fn lemma_spent_is_final(
    view: EngineView,
    events: Seq<Event>,
    signature: Signature,
    i: int,
)
    requires
        view.wf(),
        view.spent.contains(signature),
        0 <= i < view.slots.len(),
    ensures
        run(view, events).spent.contains(signature),
        run(view, events).slots[i].signature != signature,
    decreases events.len(),
{
    if events.len() > 0 {
        lemma_step_preserves_wf(view, events.first());
        lemma_spent_is_never_reused(view, events.first(), signature, i);
        lemma_spent_is_final(step(view, events.first()), events.drop_first(), signature, i);
    }
}

/// The signature that a resign takes from a payload never comes back: after
/// the resign and every later event, no payload carries it.
pub proof fn lemma_resigned_signature_never_returns(
    view: EngineView,
    event: Event,
    later: Seq<Event>,
    i: int,
    j: int,
)
    requires
        view.wf(),
        view.phase is Lapsed,
        event is Resigned,
        step(view, event).phase is Ready,
        0 <= i < view.slots.len(),
        0 <= j < view.slots.len(),
        view.slots[i].state is Expired,
    ensures
        run(step(view, event), later).slots[j].signature != view.slots[i].signature,
{
    lemma_step_preserves_wf(view, event);
    lemma_resign_uses_new_signatures(view, event, i);
    lemma_spent_is_final(step(view, event), later, view.slots[i].signature, j);
}

/// A finished or aborted engine stays as it is through every later event.
pub proof fn lemma_done_is_final(view: EngineView, events: Seq<Event>)
    requires
        view.phase is Done || view.phase is Aborted,
    ensures
        run(view, events) == view,
    decreases events.len(),
{
    if events.len() > 0 {
        lemma_done_and_aborted_are_final(view, events.first());
        lemma_done_is_final(view, events.drop_first());
    }
}

/// The number of payloads that are neither confirmed nor failed.
pub open spec fn unsettled(slots: Seq<Slot>) -> nat
    decreases slots.len(),
{
    if slots.len() == 0 {
        0
    } else if slots.last().state.is_terminal() {
        unsettled(slots.drop_last())
    } else {
        unsettled(slots.drop_last()) + 1
    }
}

/// How far a phase is from the end of its round.
pub open spec fn phase_rank(phase: Phase) -> nat {
    match phase {
        Phase::Observing => 3,
        Phase::Lapsed => 2,
        Phase::Ready => 1,
        Phase::Done => 0,
        Phase::Aborted(_) => 0,
    }
}

/// A bound on the steps that can still change the engine: the rounds left
/// come first, then the phase within the round, then the payloads that are
/// not settled.
pub open spec fn work_left(view: EngineView) -> nat {
    ((((view.budget - view.rounds_used) * 4 + phase_rank(view.phase)) * (view.slots.len() + 1))
        + unsettled(view.slots)) as nat
}

pub proof fn lemma_unsettled_is_bounded(slots: Seq<Slot>)
    ensures
        unsettled(slots) <= slots.len(),
    decreases slots.len(),
{
    if slots.len() > 0 {
        lemma_unsettled_is_bounded(slots.drop_last());
    }
}

/// Where settled payloads stay settled, the number of unsettled ones does
/// not grow, and it shrinks if a payload settles.
pub proof fn lemma_unsettled_shrinks(before: Seq<Slot>, after: Seq<Slot>)
    requires
        before.len() == after.len(),
        forall|i: int|
            0 <= i < before.len() && (#[trigger] before[i]).state.is_terminal()
                ==> after[i].state.is_terminal(),
    ensures
        unsettled(after) <= unsettled(before),
        (exists|k: int|
            0 <= k < before.len() && !(#[trigger] before[k]).state.is_terminal()
                && after[k].state.is_terminal()) ==> unsettled(after) < unsettled(before),
    decreases before.len(),
{
    if before.len() > 0 {
        let shorter_before = before.drop_last();
        let shorter_after = after.drop_last();
        assert forall|i: int|
            0 <= i < shorter_before.len() && (#[trigger] shorter_before[i]).state.is_terminal() implies shorter_after[i].state.is_terminal() by {
            assert(before[i].state.is_terminal());
        }
        lemma_unsettled_shrinks(shorter_before, shorter_after);
        let last = before.len() - 1;
        assert(before[last].state.is_terminal() ==> after[last].state.is_terminal());
        if exists|k: int|
            0 <= k < before.len() && !(#[trigger] before[k]).state.is_terminal()
                && after[k].state.is_terminal() {
            let k = choose|k: int|
                0 <= k < before.len() && !(#[trigger] before[k]).state.is_terminal()
                    && after[k].state.is_terminal();
            if k < last {
                assert(!shorter_before[k].state.is_terminal() && shorter_after[k].state.is_terminal());
            }
        }
    }
}

/// Every step that changes the engine brings it closer to its end: the work
/// left strictly shrinks. So the engine comes to rest after at most
/// `work_left` effective steps, whatever the driver reports.
pub proof fn lemma_every_step_makes_progress(view: EngineView, event: Event)
    requires
        view.wf(),
    ensures
        step(view, event) != view ==> work_left(step(view, event)) < work_left(view),
        work_left(step(view, event)) <= work_left(view),
{
    let next = step(view, event);
    let n = view.slots.len() as int;
    let rounds = view.budget - view.rounds_used;
    lemma_unsettled_is_bounded(view.slots);
    lemma_unsettled_is_bounded(next.slots);
    lemma_step_preserves_wf(view, event);
    if next != view {
        assert(next.slots.len() == n);
        assert forall|i: int|
            0 <= i < n && (#[trigger] view.slots[i]).state.is_terminal() implies next.slots[i].state.is_terminal() by {}
        lemma_unsettled_shrinks(view.slots, next.slots);
        let before = rounds * 4 + phase_rank(view.phase);
        let after = (next.budget - next.rounds_used) * 4 + phase_rank(next.phase);
        if after < before {
            assert(after + 1 <= before);
            assert((after + 1) * (n + 1) <= before * (n + 1)) by (nonlinear_arith)
                requires
                    after + 1 <= before,
                    n + 1 > 0,
            ;
            assert((after + 1) * (n + 1) == after * (n + 1) + (n + 1)) by (nonlinear_arith);
        } else {
            // Only a confirmation or a rejection leaves the phase and the
            // rounds as they were; it then settles a payload in flight.
            assert(view.phase is Observing && next.phase is Observing);
            assert(after == before);
            let signature = match event {
                Event::Confirmed(signature) => signature,
                Event::Rejected { signature, detail } => signature,
                _ => arbitrary(),
            };
            assert(event is Confirmed || event is Rejected);
            if forall|i: int| 0 <= i < n ==> !((#[trigger] view.slots[i]).signature == signature
                && view.slots[i].state is InFlight) {
                assert(next.slots =~= view.slots);
                assert(false);
            }
            let k = choose|k: int| 0 <= k < n && (#[trigger] view.slots[k]).signature == signature
                && view.slots[k].state is InFlight;
            assert(!view.slots[k].state.is_terminal() && next.slots[k].state.is_terminal());
        }
    }
}

/// Over a whole sequence of events the work left never grows.
pub proof fn lemma_run_makes_progress(view: EngineView, events: Seq<Event>)
    requires
        view.wf(),
    ensures
        work_left(run(view, events)) <= work_left(view),
    decreases events.len(),
{
    if events.len() > 0 {
        lemma_step_preserves_wf(view, events.first());
        lemma_every_step_makes_progress(view, events.first());
        lemma_run_makes_progress(step(view, events.first()), events.drop_first());
    }
}

} // verus!
