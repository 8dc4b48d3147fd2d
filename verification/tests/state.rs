use ping_dispatch::identity::{FreshnessToken, Signature};
use ping_dispatch::state::{FailureReason, Stage, SubmissionState, SubmitResult};
use ping_dispatch::transport::TransportMode;

fn all_states() -> Vec<SubmissionState> {
    vec![
        SubmissionState::Pending,
        SubmissionState::InFlight,
        SubmissionState::Confirmed,
        SubmissionState::Failed(FailureReason::ProtocolRejected("malformed".to_string())),
        SubmissionState::Failed(FailureReason::RetriesExhausted),
        SubmissionState::Expired,
    ]
}

#[test]
fn stage_names_the_state() {
    let stages: Vec<Stage> = all_states().iter().map(|s| s.get_stage()).collect();
    assert_eq!(
        stages,
        vec![
            Stage::Pending,
            Stage::InFlight,
            Stage::Confirmed,
            Stage::Failed,
            Stage::Failed,
            Stage::Expired
        ]
    );
}

#[test]
fn dispatch_moves_only_pending() {
    for state in all_states() {
        let expected = if state == SubmissionState::Pending {
            SubmissionState::InFlight
        } else {
            state.clone()
        };
        assert_eq!(state.dispatch(), expected);
    }
}

#[test]
fn confirm_moves_only_in_flight() {
    for state in all_states() {
        let expected = if state == SubmissionState::InFlight {
            SubmissionState::Confirmed
        } else {
            state.clone()
        };
        assert_eq!(state.confirm(), expected);
    }
}

#[test]
fn confirm_twice_is_confirm_once() {
    for state in all_states() {
        assert_eq!(state.clone().confirm().confirm(), state.confirm());
    }
}

#[test]
fn reject_fails_only_in_flight() {
    for state in all_states() {
        let expected = if state == SubmissionState::InFlight {
            SubmissionState::Failed(FailureReason::ProtocolRejected("bad".to_string()))
        } else {
            state.clone()
        };
        assert_eq!(state.reject("bad".to_string()), expected);
    }
}

#[test]
fn lapse_expires_only_in_flight() {
    for state in all_states() {
        let expected = if state == SubmissionState::InFlight {
            SubmissionState::Expired
        } else {
            state.clone()
        };
        assert_eq!(state.lapse(), expected);
    }
}

#[test]
fn resign_revives_only_expired() {
    for state in all_states() {
        let expected = if state == SubmissionState::Expired {
            SubmissionState::Pending
        } else {
            state.clone()
        };
        assert_eq!(state.resign(), expected);
    }
}

#[test]
fn exhaust_fails_pending_and_expired() {
    for state in all_states() {
        let expected = if state == SubmissionState::Pending || state == SubmissionState::Expired {
            SubmissionState::Failed(FailureReason::RetriesExhausted)
        } else {
            state.clone()
        };
        assert_eq!(state.exhaust(), expected);
    }
}

#[test]
fn submit_sends_pending_in_flight_or_fails_it() {
    assert_eq!(
        SubmissionState::Pending.submit(SubmitResult::Accepted),
        SubmissionState::InFlight
    );
    assert_eq!(
        SubmissionState::Pending.submit(SubmitResult::Unreachable),
        SubmissionState::InFlight
    );
    assert_eq!(
        SubmissionState::Pending.submit(SubmitResult::Rejected("malformed".to_string())),
        SubmissionState::Failed(FailureReason::ProtocolRejected("malformed".to_string()))
    );
    for state in all_states() {
        if state != SubmissionState::Pending {
            assert_eq!(state.clone().submit(SubmitResult::Rejected("x".to_string())), state);
            assert_eq!(state.clone().submit(SubmitResult::Accepted), state);
        }
    }
}

#[test]
fn confirmed_survives_every_transition() {
    let confirmed = SubmissionState::Confirmed;
    assert_eq!(confirmed.clone().dispatch(), confirmed);
    assert_eq!(confirmed.clone().confirm(), confirmed);
    assert_eq!(confirmed.clone().reject("x".to_string()), confirmed);
    assert_eq!(confirmed.clone().lapse(), confirmed);
    assert_eq!(confirmed.clone().resign(), confirmed);
    assert_eq!(confirmed.clone().exhaust(), confirmed);
    assert_eq!(confirmed.clone().submit(SubmitResult::Unreachable), confirmed);
}

#[test]
fn duplicate_copies_the_value() {
    for state in all_states() {
        assert_eq!(state.duplicate(), state);
    }
    let reason = FailureReason::ProtocolRejected("why".to_string());
    assert_eq!(reason.duplicate(), reason);
    let result = SubmitResult::Rejected("why".to_string());
    assert_eq!(result.duplicate(), result);
    assert_eq!(SubmitResult::Accepted.duplicate(), SubmitResult::Accepted);
    assert_eq!(SubmitResult::Unreachable.duplicate(), SubmitResult::Unreachable);
}

#[test]
fn reasons_have_their_text() {
    assert_eq!(FailureReason::RetriesExhausted.describe(), "exhausted retries");
    assert_eq!(
        FailureReason::ProtocolRejected("AccountNotFound".to_string()).describe(),
        "AccountNotFound"
    );
}

#[test]
fn only_unreachable_is_unreachable() {
    assert!(SubmitResult::Unreachable.is_unreachable());
    assert!(!SubmitResult::Accepted.is_unreachable());
    assert!(!SubmitResult::Rejected("x".to_string()).is_unreachable());
}

#[test]
fn signatures_compare_by_bytes() {
    let a = Signature { bytes: [1; 64] };
    let mut bytes = [1u8; 64];
    assert!(a.same(&Signature { bytes }));
    bytes[63] = 2;
    assert!(!a.same(&Signature { bytes }));
    bytes[63] = 1;
    bytes[0] = 0;
    assert!(!a.same(&Signature { bytes }));
}

#[test]
fn token_expires_after_its_last_valid_height() {
    let token = FreshnessToken { anchor: [0; 32], last_valid_height: 150 };
    assert!(!token.is_expired_at(0));
    assert!(!token.is_expired_at(149));
    assert!(!token.is_expired_at(150));
    assert!(token.is_expired_at(151));
    assert!(token.is_expired_at(u64::MAX));
    let last = FreshnessToken { anchor: [0; 32], last_valid_height: u64::MAX };
    assert!(!last.is_expired_at(u64::MAX));
}

#[test]
fn transport_mode_follows_the_flag() {
    assert_eq!(TransportMode::select(true), TransportMode::Generic);
    assert_eq!(TransportMode::select(false), TransportMode::Direct);
    assert!(TransportMode::Direct.is_direct());
    assert!(!TransportMode::Generic.is_direct());
}
