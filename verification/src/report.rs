//! The terminal report: which payloads failed and why, or how long the
//! whole operation took, and the lines shown to the user.

use crate::rules::{FatalError, SigningError, Slot};
use crate::state::{FailureReason, SubmissionState};
use vstd::prelude::*;

verus! {

/// One failed payload: its position in the batch and the reason.
#[derive(Clone, Debug, PartialEq, Eq)]
pub struct PayloadFailure {
    pub index: usize,
    pub reason: FailureReason,
}

/// The outcome of a batch that ran to its end.
#[derive(Clone, Debug, PartialEq, Eq)]
pub enum Report {
    /// Every payload was confirmed.
    Success { elapsed_ms: u128 },
    /// Some payloads failed; they are listed in batch order.
    Failure { failures: Vec<PayloadFailure> },
}

/// The failed payloads of a batch, in batch order, each with its reason.
pub open spec fn failures_of(slots: Seq<Slot>) -> Seq<PayloadFailure>
    decreases slots.len(),
{
    if slots.len() == 0 {
        Seq::empty()
    } else {
        let before = failures_of(slots.drop_last());
        match slots.last().state {
            SubmissionState::Failed(reason) => before.push(
                PayloadFailure { index: (slots.len() - 1) as usize, reason },
            ),
            _ => before,
        }
    }
}

/// Every listed failure is a failed payload of the batch with its own
/// reason, and the list is in strictly increasing batch order.
pub proof fn lemma_failures_are_sound(slots: Seq<Slot>, k: int)
    requires
        0 <= k < failures_of(slots).len(),
        slots.len() <= usize::MAX,
    ensures
        failures_of(slots)[k].index < slots.len(),
        slots[failures_of(slots)[k].index as int].state == SubmissionState::Failed(
            failures_of(slots)[k].reason,
        ),
        forall|l: int| 0 <= l < k ==> failures_of(slots)[l].index < failures_of(slots)[k].index,
        failures_of(slots).len() <= slots.len(),
    decreases slots.len(),
{
    if slots.len() > 0 {
        let before = failures_of(slots.drop_last());
        if k < before.len() {
            lemma_failures_are_sound(slots.drop_last(), k);
        } else {
            assert(slots.last().state is Failed);
            assert forall|l: int| 0 <= l < k implies failures_of(slots)[l].index < failures_of(
                slots,
            )[k].index by {
                lemma_failures_are_sound(slots.drop_last(), l);
            }
            if before.len() > 0 {
                lemma_failures_are_sound(slots.drop_last(), 0);
            }
        }
    }
}

/// Every failed payload of the batch is listed, with its position and its
/// reason.
pub proof fn lemma_failures_are_complete(slots: Seq<Slot>, i: int)
    requires
        0 <= i < slots.len(),
        slots.len() <= usize::MAX,
        slots[i].state is Failed,
    ensures
        failures_of(slots).contains(
            PayloadFailure { index: i as usize, reason: slots[i].state->Failed_0 },
        ),
    decreases slots.len(),
{
    let wanted = PayloadFailure { index: i as usize, reason: slots[i].state->Failed_0 };
    let before = failures_of(slots.drop_last());
    if i == slots.len() - 1 {
        assert(failures_of(slots)[before.len() as int] == wanted);
    } else {
        lemma_failures_are_complete(slots.drop_last(), i);
        let k = choose|k: int| 0 <= k < before.len() && before[k] == wanted;
        assert(failures_of(slots)[k] == wanted);
    }
}

/// Collects the failed payloads of a batch.
pub fn collect_failures(slots: &Vec<Slot>) -> (failures: Vec<PayloadFailure>)
    ensures
        failures@ == failures_of(slots@),
{
    let mut failures: Vec<PayloadFailure> = Vec::new();
    let mut i: usize = 0;
    while i < slots.len()
        invariant
            i <= slots.len(),
            failures@ == failures_of(slots@.take(i as int)),
        decreases slots.len() - i,
    {
        proof {
            assert(slots@.take(i + 1).drop_last() =~= slots@.take(i as int));
        }
        match &slots[i].state {
            SubmissionState::Failed(reason) => {
                failures.push(PayloadFailure { index: i, reason: reason.duplicate() });
            },
            _ => {},
        }
        i += 1;
    }
    assert(slots@.take(slots.len() as int) =~= slots@);
    failures
}

/// The character of one decimal digit.
pub open spec fn digit_char(digit: nat) -> char {
    if digit == 0 {
        '0'
    } else if digit == 1 {
        '1'
    } else if digit == 2 {
        '2'
    } else if digit == 3 {
        '3'
    } else if digit == 4 {
        '4'
    } else if digit == 5 {
        '5'
    } else if digit == 6 {
        '6'
    } else if digit == 7 {
        '7'
    } else if digit == 8 {
        '8'
    } else {
        '9'
    }
}

/// A number in decimal, without leading zeros.
pub open spec fn decimal_text(n: nat) -> Seq<char>
    decreases n,
{
    if n < 10 {
        seq![digit_char(n)]
    } else {
        decimal_text(n / 10).push(digit_char(n % 10))
    }
}

fn digit_str(digit: u128) -> (text: &'static str)
    requires
        digit < 10,
    ensures
        text@ == seq![digit_char(digit as nat)],
{
    proof {
        reveal_strlit("0");
        reveal_strlit("1");
        reveal_strlit("2");
        reveal_strlit("3");
        reveal_strlit("4");
        reveal_strlit("5");
        reveal_strlit("6");
        reveal_strlit("7");
        reveal_strlit("8");
        reveal_strlit("9");
    }
    let text = if digit == 0 {
        "0"
    } else if digit == 1 {
        "1"
    } else if digit == 2 {
        "2"
    } else if digit == 3 {
        "3"
    } else if digit == 4 {
        "4"
    } else if digit == 5 {
        "5"
    } else if digit == 6 {
        "6"
    } else if digit == 7 {
        "7"
    } else if digit == 8 {
        "8"
    } else {
        "9"
    };
    assert(text@ =~= seq![digit_char(digit as nat)]);
    text
}

/// Writes a number in decimal.
pub fn decimal(n: u128) -> (text: String)
    ensures
        text@ == decimal_text(n as nat),
    decreases n,
{
    if n < 10 {
        String::from_str(digit_str(n))
    } else {
        let mut text = decimal(n / 10);
        text.append(digit_str(n % 10));
        assert(text@ =~= decimal_text(n as nat));
        text
    }
}

impl Report {
    /// The summary line: the elapsed time on success, the number of failed
    /// payloads otherwise.
    pub open spec fn summary_text(self) -> Seq<char> {
        match self {
            Report::Success { elapsed_ms } => "Took "@ + decimal_text(elapsed_ms as nat) + "ms"@,
            Report::Failure { failures } => decimal_text(failures@.len()) + " write transactions failed"@,
        }
    }

    pub fn summary(&self) -> (line: String)
        ensures
            line@ == self.summary_text(),
    {
        match self {
            Report::Success { elapsed_ms } => {
                let mut line = String::from_str("Took ");
                let number = decimal(*elapsed_ms);
                line.append(number.as_str());
                line.append("ms");
                line
            },
            Report::Failure { failures } => {
                let mut line = decimal(failures.len() as u128);
                line.append(" write transactions failed");
                line
            },
        }
    }

    /// One line per failed payload, in batch order: the text of its reason.
    pub fn failure_lines(&self) -> (lines: Vec<String>)
        ensures
            match *self {
                Report::Success { .. } => lines.len() == 0,
                Report::Failure { failures } => {
                    &&& lines.len() == failures.len()
                    &&& forall|k: int|
                        0 <= k < failures.len() ==> (#[trigger] lines@[k])@ == failures@[k].reason.text()
                },
            },
    {
        let mut lines: Vec<String> = Vec::new();
        match self {
            Report::Success { .. } => {},
            Report::Failure { failures } => {
                let mut k: usize = 0;
                while k < failures.len()
                    invariant
                        k <= failures.len(),
                        lines.len() == k,
                        forall|l: int|
                            0 <= l < k ==> (#[trigger] lines@[l])@ == failures@[l].reason.text(),
                    decreases failures.len() - k,
                {
                    lines.push(failures[k].reason.describe());
                    k += 1;
                }
            },
        }
        lines
    }

    /// The process exit code: zero on full success.
    pub fn exit_code(&self) -> (code: i32)
        ensures
            code == if *self is Success {
                0i32
            } else {
                1i32
            },
    {
        match self {
            Report::Success { .. } => 0,
            Report::Failure { .. } => 1,
        }
    }
}

impl FatalError {
    /// The line shown for a fatal error.
    pub open spec fn text(self) -> Seq<char> {
        match self {
            FatalError::TransportUnreachable => "transport unreachable"@,
            FatalError::Signing(SigningError::Refused { index }) => "signer refused payload "@
                + decimal_text(index as nat),
            FatalError::Signing(SigningError::Reused { index }) => "signer reused a signature for payload "@
                + decimal_text(index as nat),
        }
    }

    pub fn describe(&self) -> (line: String)
        ensures
            line@ == self.text(),
    {
        match self {
            FatalError::TransportUnreachable => String::from_str("transport unreachable"),
            FatalError::Signing(SigningError::Refused { index }) => {
                let mut line = String::from_str("signer refused payload ");
                let number = decimal(*index as u128);
                line.append(number.as_str());
                line
            },
            FatalError::Signing(SigningError::Reused { index }) => {
                let mut line = String::from_str("signer reused a signature for payload ");
                let number = decimal(*index as u128);
                line.append(number.as_str());
                line
            },
        }
    }
}

} // verus!
