use zerolock::types::{ApiResponse, ChallengeStatus, PlatformConfig, Principal, TokenType,
    ZeroLockError, can_transition_to, is_final_status, is_valid_difficulty_level,
    is_valid_token_type, time_from_now};
use zerolock::types::ChallengeStatus::{Active, Cancelled, Completed, Created, Expired};

#[test]
fn difficulty_scale_is_one_to_five() {
    assert!(!is_valid_difficulty_level(0));
    assert!(is_valid_difficulty_level(1));
    assert!(is_valid_difficulty_level(5));
    assert!(!is_valid_difficulty_level(6));
}

#[test]
fn every_token_type_is_accepted() {
    assert!(is_valid_token_type(&TokenType::ICP));
    assert!(is_valid_token_type(&TokenType::ICRC1(Principal { id: 7 })));
}

#[test]
fn final_statuses_are_terminal() {
    assert!(!is_final_status(&Created));
    assert!(!is_final_status(&Active));
    assert!(is_final_status(&Completed));
    assert!(is_final_status(&Expired));
    assert!(is_final_status(&Cancelled));
}

#[test]
fn the_transition_table_is_exact() {
    let all = [Created, Active, Completed, Expired, Cancelled];
    // The legal strict transitions.
    assert!(can_transition_to(&Created, &Active));
    assert!(can_transition_to(&Created, &Cancelled));
    assert!(can_transition_to(&Active, &Completed));
    assert!(can_transition_to(&Active, &Expired));
    assert!(can_transition_to(&Active, &Cancelled));
    // Re-asserting any status is always legal.
    for s in all {
        assert!(can_transition_to(&s, &s));
    }
    // Everything else is rejected.
    assert!(!can_transition_to(&Created, &Completed));
    assert!(!can_transition_to(&Created, &Expired));
    assert!(!can_transition_to(&Active, &Created));
    assert!(!can_transition_to(&Completed, &Active));
    assert!(!can_transition_to(&Expired, &Active));
    assert!(!can_transition_to(&Cancelled, &Created));
}

#[test]
fn deadlines_add_to_the_given_clock() {
    assert_eq!(time_from_now(1_000, 500), 1_500);
    assert_eq!(time_from_now(0, 0), 0);
}

#[test]
fn anonymity_is_the_reserved_identity() {
    assert!(Principal::anonymous().is_anonymous());
    assert!(!Principal { id: 3 }.is_anonymous());
    assert_eq!(Principal::anonymous(), Principal { id: 0 });
}

#[test]
fn the_default_config_matches_the_reference_values() {
    let config = PlatformConfig::default();
    assert_eq!(config.min_bounty_amount, 1_000_000);
    assert_eq!(config.max_challenge_duration, 30 * 24 * 60 * 60 * 1_000_000_000);
    assert_eq!(config.platform_fee_percentage, 250);
    assert_eq!(config.max_challenges_per_user, 10);
    assert_eq!(config.reputation_threshold_for_high_value, 1000);
}

#[test]
fn responses_wrap_results_faithfully() {
    let ok: Result<u64, ZeroLockError> = Ok(7);
    assert!(matches!(ApiResponse::from_result(ok), ApiResponse::Success(7)));
    let err: Result<u64, ZeroLockError> = Err(ZeroLockError::NotFound("gone".to_string()));
    assert!(matches!(
        ApiResponse::from_result(err),
        ApiResponse::Failure(ZeroLockError::NotFound(_))
    ));
}
