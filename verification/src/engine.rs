//! The executable engine.
//!
//! The engine owns the batch and decides; it performs no I/O. A driver reads
//! the [`Action`] that the engine asks for, carries it out against the
//! cluster, and reports what happened as an [`Event`]. Each call of
//! [`Engine::step`] computes exactly [`step`](crate::rules::step).

use crate::identity::{FreshnessToken, Signature};
use crate::report::{collect_failures, failures_of, Report};
use crate::rules::{
    action_for, after_confirm, after_exhaust, after_lapse, after_reject, after_resign,
    after_submit, all_unreachable, any_in, launch_error, launch_fault_at, launch_faulty, launched,
    lemma_first_launch_fault_is_unique, lemma_first_resign_fault_is_unique,
    lemma_launch_is_well_formed, lemma_resign_admits_new_signatures, lemma_step_preserves_wf,
    observing_or_done, retired, step, Action, EngineView, Event, FatalError, Phase, SigningError,
    Slot,
};
use crate::state::{Stage, SubmissionState, SubmitResult};
use vstd::prelude::*;

verus! {

/// A batch on its way through the rounds.
pub struct Engine {
    slots: Vec<Slot>,
    spent: Vec<Signature>,
    token: FreshnessToken,
    budget: u64,
    rounds_used: u64,
    phase: Phase,
}

impl View for Engine {
    type V = EngineView;

    closed spec fn view(&self) -> EngineView {
        EngineView {
            slots: self.slots@,
            spent: self.spent@.to_set(),
            token: self.token,
            budget: self.budget,
            rounds_used: self.rounds_used,
            phase: self.phase,
        }
    }
}

fn same_outcome(first: &Option<Signature>, second: &Option<Signature>) -> (equal: bool)
    ensures
        equal == (*first == *second),
{
    match (first, second) {
        (Some(a), Some(b)) => a.same(b),
        (None, None) => true,
        _ => false,
    }
}

fn has_stage(slots: &Vec<Slot>, stage: Stage) -> (found: bool)
    ensures
        found == any_in(slots@, stage),
{
    let mut i: usize = 0;
    while i < slots.len()
        invariant
            i <= slots.len(),
            forall|k: int| 0 <= k < i ==> (#[trigger] slots@[k]).state.stage() != stage,
        decreases slots.len() - i,
    {
        if slots[i].state.get_stage() == stage {
            return true;
        }
        i += 1;
    }
    false
}

fn is_all_unreachable(slots: &Vec<Slot>, results: &Vec<SubmitResult>) -> (total: bool)
    requires
        results.len() == slots.len(),
    ensures
        total == all_unreachable(slots@, results@),
{
    let mut i: usize = 0;
    while i < slots.len()
        invariant
            i <= slots.len(),
            results.len() == slots.len(),
            forall|k: int|
                0 <= k < i && (#[trigger] slots@[k]).state is Pending ==> results@[k] is Unreachable,
        decreases slots.len() - i,
    {
        if slots[i].state.get_stage() == Stage::Pending && !results[i].is_unreachable() {
            return false;
        }
        i += 1;
    }
    true
}

fn submit_all(slots: &Vec<Slot>, results: &Vec<SubmitResult>) -> (next: Vec<Slot>)
    requires
        results.len() == slots.len(),
    ensures
        next@ == after_submit(slots@, results@),
{
    let mut next: Vec<Slot> = Vec::new();
    let mut i: usize = 0;
    while i < slots.len()
        invariant
            i <= slots.len(),
            results.len() == slots.len(),
            next.len() == i,
            forall|k: int| 0 <= k < i ==> next@[k] == after_submit(slots@, results@)[k],
        decreases slots.len() - i,
    {
        let state = slots[i].state.duplicate().submit(results[i].duplicate());
        next.push(Slot { state, signature: slots[i].signature });
        i += 1;
    }
    assert(next@ =~= after_submit(slots@, results@));
    next
}

fn confirm_one(slots: &Vec<Slot>, signature: &Signature) -> (next: Vec<Slot>)
    ensures
        next@ == after_confirm(slots@, *signature),
{
    let mut next: Vec<Slot> = Vec::new();
    let mut i: usize = 0;
    while i < slots.len()
        invariant
            i <= slots.len(),
            next.len() == i,
            forall|k: int| 0 <= k < i ==> next@[k] == after_confirm(slots@, *signature)[k],
        decreases slots.len() - i,
    {
        let state = slots[i].state.duplicate();
        if slots[i].signature.same(signature) {
            next.push(Slot { state: state.confirm(), signature: slots[i].signature });
        } else {
            next.push(Slot { state, signature: slots[i].signature });
        }
        i += 1;
    }
    assert(next@ =~= after_confirm(slots@, *signature));
    next
}

fn reject_one(slots: &Vec<Slot>, signature: &Signature, detail: &String) -> (next: Vec<Slot>)
    ensures
        next@ == after_reject(slots@, *signature, *detail),
{
    let mut next: Vec<Slot> = Vec::new();
    let mut i: usize = 0;
    while i < slots.len()
        invariant
            i <= slots.len(),
            next.len() == i,
            forall|k: int| 0 <= k < i ==> next@[k] == after_reject(slots@, *signature, *detail)[k],
        decreases slots.len() - i,
    {
        let state = slots[i].state.duplicate();
        if slots[i].signature.same(signature) {
            next.push(Slot { state: state.reject(detail.clone()), signature: slots[i].signature });
        } else {
            next.push(Slot { state, signature: slots[i].signature });
        }
        i += 1;
    }
    assert(next@ =~= after_reject(slots@, *signature, *detail));
    next
}

fn lapse_all(slots: &Vec<Slot>, exhaust: bool) -> (next: Vec<Slot>)
    ensures
        next@ == if exhaust {
            after_exhaust(after_lapse(slots@))
        } else {
            after_lapse(slots@)
        },
{
    let mut next: Vec<Slot> = Vec::new();
    let mut i: usize = 0;
    while i < slots.len()
        invariant
            i <= slots.len(),
            next.len() == i,
            forall|k: int|
                0 <= k < i ==> next@[k] == if exhaust {
                    after_exhaust(after_lapse(slots@))[k]
                } else {
                    after_lapse(slots@)[k]
                },
        decreases slots.len() - i,
    {
        let state = slots[i].state.duplicate().lapse();
        if exhaust {
            next.push(Slot { state: state.exhaust(), signature: slots[i].signature });
        } else {
            next.push(Slot { state, signature: slots[i].signature });
        }
        i += 1;
    }
    assert(exhaust ==> next@ =~= after_exhaust(after_lapse(slots@)));
    assert(!exhaust ==> next@ =~= after_lapse(slots@));
    next
}

fn resign_all(slots: &Vec<Slot>, outcomes: &Vec<Option<Signature>>) -> (next: Vec<Slot>)
    requires
        outcomes.len() == slots.len(),
        forall|k: int|
            0 <= k < slots.len() && (#[trigger] slots@[k]).state is Expired ==> outcomes@[k] is Some,
    ensures
        next@ == after_resign(slots@, outcomes@),
{
    let mut next: Vec<Slot> = Vec::new();
    let mut i: usize = 0;
    while i < slots.len()
        invariant
            i <= slots.len(),
            outcomes.len() == slots.len(),
            forall|k: int|
                0 <= k < slots.len() && (#[trigger] slots@[k]).state is Expired ==> outcomes@[k] is Some,
            next.len() == i,
            forall|k: int| 0 <= k < i ==> next@[k] == after_resign(slots@, outcomes@)[k],
        decreases slots.len() - i,
    {
        let state = slots[i].state.duplicate();
        let fresh = match (slots[i].state.get_stage(), &outcomes[i]) {
            (Stage::Expired, Some(signature)) => Some(*signature),
            _ => None,
        };
        match fresh {
            Some(signature) => next.push(Slot { state: state.resign(), signature }),
            None => next.push(Slot { state, signature: slots[i].signature }),
        }
        i += 1;
    }
    assert(next@ =~= after_resign(slots@, outcomes@));
    next
}

fn occurs_in_slots(slots: &Vec<Slot>, signature: &Signature) -> (found: bool)
    ensures
        found == exists|i: int| 0 <= i < slots.len() && (#[trigger] slots@[i]).signature == *signature,
{
    let mut i: usize = 0;
    while i < slots.len()
        invariant
            i <= slots.len(),
            forall|k: int| 0 <= k < i ==> (#[trigger] slots@[k]).signature != *signature,
        decreases slots.len() - i,
    {
        if slots[i].signature.same(signature) {
            return true;
        }
        i += 1;
    }
    false
}

fn occurs_in_spent(spent: &Vec<Signature>, signature: &Signature) -> (found: bool)
    ensures
        found == spent@.to_set().contains(*signature),
{
    let mut i: usize = 0;
    while i < spent.len()
        invariant
            i <= spent.len(),
            forall|k: int| 0 <= k < i ==> spent@[k] != *signature,
        decreases spent.len() - i,
    {
        if spent[i].same(signature) {
            return true;
        }
        i += 1;
    }
    false
}

/// Whether an expired payload before position `i` got the answer of `i`.
fn repeats_expired(slots: &Vec<Slot>, outcomes: &Vec<Option<Signature>>, i: usize) -> (found: bool)
    requires
        outcomes.len() == slots.len(),
        i < slots.len(),
    ensures
        found == exists|j: int|
            0 <= j < i && (#[trigger] slots@[j]).state is Expired && outcomes@[j] == outcomes@[i as int],
{
    let mut j: usize = 0;
    while j < i
        invariant
            j <= i,
            i < slots.len(),
            outcomes.len() == slots.len(),
            forall|k: int|
                0 <= k < j ==> !((#[trigger] slots@[k]).state is Expired && outcomes@[k]
                    == outcomes@[i as int]),
        decreases i - j,
    {
        if slots[j].state.get_stage() == Stage::Expired && same_outcome(&outcomes[j], &outcomes[i]) {
            return true;
        }
        j += 1;
    }
    false
}

/// Whether a position before `i` got the answer of `i`.
fn repeats_earlier(outcomes: &Vec<Option<Signature>>, i: usize) -> (found: bool)
    requires
        i < outcomes.len(),
    ensures
        found == exists|j: int| 0 <= j < i && #[trigger] outcomes@[j] == outcomes@[i as int],
{
    let mut j: usize = 0;
    while j < i
        invariant
            j <= i,
            i < outcomes.len(),
            forall|k: int| 0 <= k < j ==> #[trigger] outcomes@[k] != outcomes@[i as int],
        decreases i - j,
    {
        if same_outcome(&outcomes[j], &outcomes[i]) {
            return true;
        }
        j += 1;
    }
    false
}

impl Engine {
    /// The engine's invariant: see [`EngineView::wf`].
    pub open spec fn wf(&self) -> bool {
        self@.wf()
    }

    /// Starts a batch from the signer's answers for its payloads, one per
    /// position, all signed against `token`. Fails at the first position
    /// where the signer refused or repeated an earlier signature.
    pub fn new(token: FreshnessToken, outcomes: Vec<Option<Signature>>, budget: u64) -> (result: Result<
        Engine,
        SigningError,
    >)
        ensures
            match result {
                Ok(engine) => {
                    &&& !launch_faulty(outcomes@)
                    &&& engine.wf()
                    &&& engine@ == launched(token, outcomes@, budget)
                },
                Err(error) => launch_faulty(outcomes@) && error == launch_error(outcomes@),
            },
    {
        let mut slots: Vec<Slot> = Vec::new();
        let mut i: usize = 0;
        while i < outcomes.len()
            invariant
                i <= outcomes.len(),
                slots.len() == i,
                forall|k: int| 0 <= k < i ==> !launch_fault_at(outcomes@, k),
                forall|k: int| 0 <= k < i ==> slots@[k] == launched(token, outcomes@, budget).slots[k],
            decreases outcomes.len() - i,
        {
            let state = if budget == 0 {
                SubmissionState::Pending.exhaust()
            } else {
                SubmissionState::Pending
            };
            match &outcomes[i] {
                None => {
                    proof {
                        lemma_first_launch_fault_is_unique(outcomes@, i as int);
                    }
                    return Err(SigningError::Refused { index: i });
                },
                Some(signature) => {
                    if repeats_earlier(&outcomes, i) {
                        proof {
                            lemma_first_launch_fault_is_unique(outcomes@, i as int);
                        }
                        return Err(SigningError::Reused { index: i });
                    }
                    slots.push(Slot { state, signature: *signature });
                },
            }
            i += 1;
        }
        let phase = if outcomes.len() == 0 || budget == 0 {
            Phase::Done
        } else {
            Phase::Ready
        };
        let engine = Engine { slots, spent: Vec::new(), token, budget, rounds_used: 0, phase };
        proof {
            lemma_launch_is_well_formed(token, outcomes@, budget);
            assert(engine.slots@ =~= launched(token, outcomes@, budget).slots);
            assert(engine.spent@.to_set() =~= Set::<Signature>::empty());
        }
        Ok(engine)
    }

    /// The error for the first answer of a resign that cannot be admitted.
    fn resign_fault(&self, outcomes: &Vec<Option<Signature>>) -> (fault: Option<SigningError>)
        requires
            outcomes.len() == self.slots.len(),
        ensures
            match fault {
                Some(error) => self@.resign_faulty(outcomes@) && error == self@.resign_error(outcomes@),
                None => !self@.resign_faulty(outcomes@),
            },
    {
        let mut i: usize = 0;
        while i < self.slots.len()
            invariant
                i <= self.slots.len(),
                outcomes.len() == self.slots.len(),
                forall|k: int| 0 <= k < i ==> !self@.resign_fault_at(outcomes@, k),
            decreases self.slots.len() - i,
        {
            if self.slots[i].state.get_stage() == Stage::Expired {
                match &outcomes[i] {
                    None => {
                        proof {
                            lemma_first_resign_fault_is_unique(self@, outcomes@, i as int);
                        }
                        return Some(SigningError::Refused { index: i });
                    },
                    Some(signature) => {
                        if occurs_in_spent(&self.spent, signature) || occurs_in_slots(
                            &self.slots,
                            signature,
                        ) || repeats_expired(&self.slots, outcomes, i) {
                            proof {
                                lemma_first_resign_fault_is_unique(self@, outcomes@, i as int);
                            }
                            return Some(SigningError::Reused { index: i });
                        }
                    },
                }
            }
            i += 1;
        }
        None
    }

    /// Moves the signatures of the expired payloads to the spent ones.
    fn retire_expired(&mut self)
        ensures
            final(self).slots == old(self).slots,
            final(self).token == old(self).token,
            final(self).budget == old(self).budget,
            final(self).rounds_used == old(self).rounds_used,
            final(self).phase == old(self).phase,
            final(self).spent@.to_set() == old(self).spent@.to_set().union(retired(old(self).slots@)),
    {
        let mut i: usize = 0;
        while i < self.slots.len()
            invariant
                i <= self.slots.len(),
                self.slots == old(self).slots,
                self.token == old(self).token,
                self.budget == old(self).budget,
                self.rounds_used == old(self).rounds_used,
                self.phase == old(self).phase,
                forall|signature: Signature|
                    self.spent@.to_set().contains(signature) <==> old(self).spent@.to_set().contains(
                        signature,
                    ) || exists|k: int|
                        0 <= k < i && (#[trigger] self.slots@[k]).state is Expired
                            && self.slots@[k].signature == signature,
            decreases self.slots.len() - i,
        {
            if self.slots[i].state.get_stage() == Stage::Expired {
                let signature = self.slots[i].signature;
                proof {
                    self.spent@.lemma_push_to_set_commute(signature);
                }
                self.spent.push(signature);
            }
            i += 1;
        }
        assert(self.spent@.to_set() =~= old(self).spent@.to_set().union(retired(old(self).slots@)));
    }

    fn settle(&mut self)
        ensures
            final(self).slots == old(self).slots,
            final(self).spent == old(self).spent,
            final(self).token == old(self).token,
            final(self).budget == old(self).budget,
            final(self).rounds_used == old(self).rounds_used,
            final(self).phase == observing_or_done(old(self).slots@),
    {
        self.phase = if has_stage(&self.slots, Stage::InFlight) {
            Phase::Observing
        } else {
            Phase::Done
        };
    }

    /// Takes one event and returns what the driver is to do next.
    pub fn step(&mut self, event: Event) -> (action: Action)
        requires
            old(self).wf(),
        ensures
            final(self).wf(),
            final(self)@ == step(old(self)@, event),
            action == action_for(final(self)@.phase),
    {
        proof {
            lemma_step_preserves_wf(self@, event);
        }
        match event {
            Event::Submitted(results) => {
                if let Phase::Ready = self.phase {
                    if results.len() == self.slots.len() {
                        if is_all_unreachable(&self.slots, &results) {
                            self.phase = Phase::Aborted(FatalError::TransportUnreachable);
                        } else {
                            self.slots = submit_all(&self.slots, &results);
                            self.rounds_used = self.rounds_used + 1;
                            self.settle();
                        }
                    }
                }
            },
            Event::Confirmed(signature) => {
                if let Phase::Observing = self.phase {
                    self.slots = confirm_one(&self.slots, &signature);
                    self.settle();
                }
            },
            Event::Rejected { signature, detail } => {
                if let Phase::Observing = self.phase {
                    self.slots = reject_one(&self.slots, &signature, &detail);
                    self.settle();
                }
            },
            Event::Height(height) => {
                if let Phase::Observing = self.phase {
                    if self.token.is_expired_at(height) {
                        if self.rounds_used < self.budget {
                            self.slots = lapse_all(&self.slots, false);
                            self.phase = Phase::Lapsed;
                        } else {
                            self.slots = lapse_all(&self.slots, true);
                            self.phase = Phase::Done;
                        }
                    }
                }
            },
            Event::Resigned { token, outcomes } => {
                if let Phase::Lapsed = self.phase {
                    if outcomes.len() == self.slots.len() {
                        match self.resign_fault(&outcomes) {
                            Some(error) => {
                                self.phase = Phase::Aborted(FatalError::Signing(error));
                            },
                            None => {
                                proof {
                                    lemma_resign_admits_new_signatures(self@, outcomes@);
                                }
                                let next = resign_all(&self.slots, &outcomes);
                                self.retire_expired();
                                self.slots = next;
                                self.token = token;
                                self.phase = Phase::Ready;
                            },
                        }
                    }
                }
            },
        }
        self.action()
    }

    /// The report of a finished batch: success with the elapsed time if
    /// every payload was confirmed, the failed payloads otherwise. There is
    /// no report before the engine is done, nor after an abort.
    pub fn report(&self, elapsed_ms: u128) -> (report: Option<Report>)
        ensures
            match report {
                None => !(self@.phase is Done),
                Some(Report::Success { elapsed_ms: elapsed }) => {
                    &&& self@.phase is Done
                    &&& elapsed == elapsed_ms
                    &&& failures_of(self@.slots).len() == 0
                },
                Some(Report::Failure { failures }) => {
                    &&& self@.phase is Done
                    &&& failures@ == failures_of(self@.slots)
                    &&& failures.len() > 0
                },
            },
    {
        match self.phase {
            Phase::Done => {
                let failures = collect_failures(&self.slots);
                if failures.len() == 0 {
                    Some(Report::Success { elapsed_ms })
                } else {
                    Some(Report::Failure { failures })
                }
            },
            _ => None,
        }
    }

    /// The number of payloads, which no step changes.
    pub fn len(&self) -> (len: usize)
        ensures
            len == self@.slots.len(),
    {
        self.slots.len()
    }

    pub fn phase(&self) -> (phase: Phase)
        ensures
            phase == self@.phase,
    {
        self.phase
    }

    pub fn rounds_used(&self) -> (rounds: u64)
        ensures
            rounds == self@.rounds_used,
    {
        self.rounds_used
    }

    pub fn budget(&self) -> (budget: u64)
        ensures
            budget == self@.budget,
    {
        self.budget
    }

    /// The token that the payloads now pending or in flight are signed
    /// against.
    pub fn token(&self) -> (token: FreshnessToken)
        ensures
            token == self@.token,
    {
        self.token
    }

    /// The payload at `index`, if the batch has one there.
    pub fn slot(&self, index: usize) -> (slot: Option<Slot>)
        ensures
            match slot {
                Some(found) => index < self@.slots.len() && found == self@.slots[index as int],
                None => index >= self@.slots.len(),
            },
    {
        if index < self.slots.len() {
            Some(
                Slot {
                    state: self.slots[index].state.duplicate(),
                    signature: self.slots[index].signature,
                },
            )
        } else {
            None
        }
    }

    /// The positions of the payloads at `stage`, in batch order.
    pub fn positions(&self, stage: Stage) -> (list: Vec<usize>)
        ensures
            forall|k: int|
                0 <= k < list.len() ==> (#[trigger] list@[k]) < self@.slots.len()
                    && self@.slots[list@[k] as int].state.stage() == stage,
            forall|k: int, l: int| 0 <= k < l < list.len() ==> list@[k] < list@[l],
            forall|i: int|
                0 <= i < self@.slots.len() && (#[trigger] self@.slots[i]).state.stage() == stage
                    ==> list@.contains(i as usize),
    {
        let mut list: Vec<usize> = Vec::new();
        let mut i: usize = 0;
        while i < self.slots.len()
            invariant
                i <= self.slots.len(),
                forall|k: int|
                    0 <= k < list.len() ==> (#[trigger] list@[k]) < i
                        && self.slots@[list@[k] as int].state.stage() == stage,
                forall|k: int, l: int| 0 <= k < l < list.len() ==> list@[k] < list@[l],
                forall|j: int|
                    0 <= j < i && (#[trigger] self.slots@[j]).state.stage() == stage
                        ==> list@.contains(j as usize),
            decreases self.slots.len() - i,
        {
            if self.slots[i].state.get_stage() == stage {
                let ghost before = list@;
                list.push(i);
                proof {
                    assert(list@[before.len() as int] == i);
                    assert forall|j: int|
                        0 <= j < i + 1 && (#[trigger] self.slots@[j]).state.stage()
                            == stage implies list@.contains(j as usize) by {
                        if j < i {
                            let k = choose|k: int| 0 <= k < before.len() && before[k] == j as usize;
                            assert(list@[k] == j as usize);
                        }
                    }
                }
            }
            i += 1;
        }
        list
    }

    /// What the engine waits for.
    pub fn action(&self) -> (action: Action)
        ensures
            action == action_for(self@.phase),
    {
        match self.phase {
            Phase::Ready => Action::Submit,
            Phase::Observing => Action::Observe,
            Phase::Lapsed => Action::Resign,
            Phase::Done => Action::Finish,
            Phase::Aborted(error) => Action::Abort(error),
        }
    }
}

} // verus!
