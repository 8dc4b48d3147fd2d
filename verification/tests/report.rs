use ping_dispatch::identity::Signature;
use ping_dispatch::report::{collect_failures, decimal, PayloadFailure, Report};
use ping_dispatch::rules::{FatalError, SigningError, Slot};
use ping_dispatch::state::{FailureReason, SubmissionState};

fn slot(state: SubmissionState, n: u8) -> Slot {
    Slot { state, signature: Signature { bytes: [n; 64] } }
}

#[test]
fn decimal_writes_numbers() {
    assert_eq!(decimal(0), "0");
    assert_eq!(decimal(7), "7");
    assert_eq!(decimal(9), "9");
    assert_eq!(decimal(10), "10");
    assert_eq!(decimal(1234567890), "1234567890");
    assert_eq!(decimal(u64::MAX as u128), u64::MAX.to_string());
    assert_eq!(decimal(u128::MAX), u128::MAX.to_string());
}

#[test]
fn decimal_agrees_with_std() {
    for n in 0..2_000u128 {
        assert_eq!(decimal(n), n.to_string());
    }
}

#[test]
fn success_summary_gives_the_elapsed_time() {
    let report = Report::Success { elapsed_ms: 1503 };
    assert_eq!(report.summary(), "Took 1503ms");
    assert_eq!(report.exit_code(), 0);
    assert!(report.failure_lines().is_empty());
    assert_eq!(Report::Success { elapsed_ms: 0 }.summary(), "Took 0ms");
}

#[test]
fn failure_summary_gives_the_count() {
    let failures: Vec<PayloadFailure> = (0..12)
        .map(|index| PayloadFailure { index, reason: FailureReason::RetriesExhausted })
        .collect();
    let report = Report::Failure { failures };
    assert_eq!(report.summary(), "12 write transactions failed");
    assert_eq!(report.exit_code(), 1);
    assert_eq!(report.failure_lines().len(), 12);
}

#[test]
fn failure_lines_follow_the_list() {
    let report = Report::Failure {
        failures: vec![
            PayloadFailure {
                index: 4,
                reason: FailureReason::ProtocolRejected("InsufficientFundsForFee".to_string()),
            },
            PayloadFailure { index: 9, reason: FailureReason::RetriesExhausted },
        ],
    };
    assert_eq!(
        report.failure_lines(),
        vec!["InsufficientFundsForFee".to_string(), "exhausted retries".to_string()]
    );
}

#[test]
fn failures_are_collected_in_batch_order() {
    let slots = vec![
        slot(SubmissionState::Confirmed, 1),
        slot(SubmissionState::Failed(FailureReason::RetriesExhausted), 2),
        slot(SubmissionState::Pending, 3),
        slot(SubmissionState::Failed(FailureReason::ProtocolRejected("bad".to_string())), 4),
        slot(SubmissionState::InFlight, 5),
        slot(SubmissionState::Expired, 6),
    ];
    assert_eq!(
        collect_failures(&slots),
        vec![
            PayloadFailure { index: 1, reason: FailureReason::RetriesExhausted },
            PayloadFailure { index: 3, reason: FailureReason::ProtocolRejected("bad".to_string()) },
        ]
    );
    assert!(collect_failures(&vec![]).is_empty());
    assert!(collect_failures(&vec![slot(SubmissionState::Confirmed, 1)]).is_empty());
}

#[test]
fn fatal_errors_have_their_text() {
    assert_eq!(FatalError::TransportUnreachable.describe(), "transport unreachable");
    assert_eq!(
        FatalError::Signing(SigningError::Refused { index: 12 }).describe(),
        "signer refused payload 12"
    );
    assert_eq!(
        FatalError::Signing(SigningError::Reused { index: 0 }).describe(),
        "signer reused a signature for payload 0"
    );
}
