use zerolock::judge::{DisputeStatus, Judge};
use zerolock::types::{AttackAttempt, JudgeDecision, Principal, ZeroLockError};

fn p(id: u64) -> Principal {
    Principal { id }
}

fn attempt(id: u64, hacker: Principal) -> AttackAttempt {
    AttackAttempt {
        id,
        challenge_id: 1,
        hacker,
        timestamp: 0,
        success: true,
        proof_data: None,
        gas_used: 0,
    }
}

fn monitored_judge() -> Judge {
    // A judge wired to registry 2 and vault 3, monitoring challenge 1 whose
    // target 200 started with a balance of 1,000,000.
    let mut judge = Judge::new(p(9), p(9));
    judge.set_bounty_factory(p(9), p(2)).unwrap();
    judge.set_vault_canister(p(9), p(3)).unwrap();
    judge.start_monitoring(p(2), 1, p(200), 1_000_000, 100).unwrap();
    judge
}

#[test]
fn monitoring_requires_the_registry() {
    let mut judge = Judge::new(p(9), p(9));
    assert!(matches!(
        judge.start_monitoring(p(2), 1, p(200), 1_000_000, 100),
        Err(ZeroLockError::InternalError(_))
    ));
    judge.set_bounty_factory(p(9), p(2)).unwrap();
    assert!(matches!(
        judge.start_monitoring(p(99), 1, p(200), 1_000_000, 100),
        Err(ZeroLockError::Unauthorized(_))
    ));
    judge.start_monitoring(p(2), 1, p(200), 1_000_000, 100).unwrap();
    assert!(matches!(
        judge.start_monitoring(p(2), 1, p(200), 1_000_000, 200),
        Err(ZeroLockError::InvalidState(_))
    ));
    let state = judge.get_monitoring_state(1).unwrap();
    assert_eq!(state.initial_balance, 1_000_000);
    assert_eq!(state.current_balance, 1_000_000);
    assert!(state.monitoring_active);
    assert!(!state.attack_detected);
}

#[test]
fn stopping_keeps_history_and_allows_restart() {
    let mut judge = monitored_judge();
    assert!(matches!(
        judge.stop_monitoring(p(99), 1),
        Err(ZeroLockError::Unauthorized(_))
    ));
    assert!(matches!(
        judge.stop_monitoring(p(2), 42),
        Err(ZeroLockError::NotFound(_))
    ));
    judge.stop_monitoring(p(2), 1).unwrap();
    assert!(!judge.get_monitoring_state(1).unwrap().monitoring_active);
    assert_eq!(judge.get_balance_history(p(200), 100).len(), 1);
    // Re-activation resets the baseline.
    judge.start_monitoring(p(2), 1, p(200), 500_000, 200).unwrap();
    let state = judge.get_monitoring_state(1).unwrap();
    assert!(state.monitoring_active);
    assert_eq!(state.initial_balance, 500_000);
}

#[test]
fn a_fifteen_percent_drop_is_a_valid_attack() {
    // Scenario: baseline 1,000,000, observed 850,000 -> 15% >= 10%.
    let mut judge = monitored_judge();
    let ev = judge.evaluate_attack(1, attempt(7, p(20)), 850_000, 200).unwrap();
    assert_eq!(ev.decision, JudgeDecision::Valid);
    assert_eq!(ev.challenge_id, 1);
    assert_eq!(ev.attack_attempt_id, 7);
    assert_eq!(ev.evaluator, p(9));
    assert_eq!(ev.timestamp, 200);
    let state = judge.get_monitoring_state(1).unwrap();
    assert!(state.attack_detected);
    assert_eq!(state.current_balance, 850_000);
    assert_eq!(state.last_check, 200);
    // The evaluation is durably recorded.
    let evals = judge.get_evaluations(1);
    assert_eq!(evals.len(), 1);
    assert_eq!(evals[0].decision, JudgeDecision::Valid);
    // Settlement clearance names the configured vault.
    assert_eq!(judge.trigger_settlement(1, p(20)).unwrap(), p(3));
}

#[test]
fn a_small_drop_is_invalid() {
    let mut judge = monitored_judge();
    let ev = judge.evaluate_attack(1, attempt(7, p(20)), 950_000, 200).unwrap();
    assert_eq!(ev.decision, JudgeDecision::Invalid);
    assert!(!judge.get_monitoring_state(1).unwrap().attack_detected);
    // Exactly at the threshold the attack counts.
    let ev2 = judge.evaluate_attack(1, attempt(8, p(20)), 900_000, 300).unwrap();
    assert_eq!(ev2.decision, JudgeDecision::Valid);
}

#[test]
fn evaluation_needs_active_monitoring() {
    let mut judge = monitored_judge();
    assert!(matches!(
        judge.evaluate_attack(42, attempt(1, p(20)), 0, 200),
        Err(ZeroLockError::NotFound(_))
    ));
    judge.stop_monitoring(p(2), 1).unwrap();
    assert!(matches!(
        judge.evaluate_attack(1, attempt(1, p(20)), 0, 200),
        Err(ZeroLockError::InvalidState(_))
    ));
}

#[test]
fn evaluations_list_newest_first() {
    let mut judge = monitored_judge();
    judge.evaluate_attack(1, attempt(1, p(20)), 990_000, 200).unwrap();
    judge.evaluate_attack(1, attempt(2, p(20)), 980_000, 300).unwrap();
    judge.evaluate_attack(1, attempt(3, p(20)), 970_000, 400).unwrap();
    let evals = judge.get_evaluations(1);
    assert_eq!(evals.len(), 3);
    assert_eq!(evals[0].attack_attempt_id, 3);
    assert_eq!(evals[2].attack_attempt_id, 1);
    assert!(judge.get_evaluations(2).is_empty());
}

#[test]
fn history_is_bounded_and_evicts_the_oldest() {
    // Snapshot history caps at 1000 entries; the oldest leaves first.
    let mut judge = monitored_judge();
    for k in 0..1_001u64 {
        judge.record_periodic_check(1, 2_000_000 + k, 200 + k as i64).unwrap();
    }
    // One baseline snapshot plus 1001 checks exceed the cap by two.
    let history = judge.get_balance_history(p(200), 10_000);
    assert_eq!(history.len(), 1_000);
    // The baseline and the first check were evicted.
    assert_eq!(history[0].balance, 2_000_001);
    assert_eq!(history[999].balance, 2_001_000);
    // A limited read returns the newest suffix, oldest first.
    let tail = judge.get_balance_history(p(200), 3);
    assert_eq!(tail.len(), 3);
    assert_eq!(tail[0].balance, 2_000_998);
    assert_eq!(tail[2].balance, 2_001_000);
    assert!(judge.get_balance_history(p(42), 10).is_empty());
}

#[test]
fn periodic_checks_flag_but_do_not_settle() {
    let mut judge = monitored_judge();
    // A big drop is flagged by the sweep, but the recorded state keeps its
    // attack_detected flag; only evaluate_attack sets it.
    let detected = judge.record_periodic_check(1, 100_000, 200).unwrap();
    assert!(detected);
    let state = judge.get_monitoring_state(1).unwrap();
    assert!(!state.attack_detected);
    assert_eq!(state.current_balance, 100_000);
    assert!(!judge.record_periodic_check(1, 950_000, 300).unwrap());
}

#[test]
fn due_checks_respect_interval_and_cap() {
    let mut judge = Judge::new(p(9), p(9));
    judge.set_bounty_factory(p(9), p(2)).unwrap();
    judge.start_monitoring(p(2), 1, p(200), 1_000, 0).unwrap();
    judge.start_monitoring(p(2), 2, p(201), 1_000, 0).unwrap();
    judge.start_monitoring(p(2), 3, p(202), 1_000, 0).unwrap();
    judge.stop_monitoring(p(2), 3).unwrap();
    // Before the interval elapsed nothing is due.
    assert!(judge.due_monitoring_checks(30_000_000_000, 10).is_empty());
    let due = judge.due_monitoring_checks(60_000_000_000, 10);
    assert_eq!(due, vec![(1, p(200)), (2, p(201))]);
    // The per-tick cap bounds the worklist.
    assert_eq!(judge.due_monitoring_checks(60_000_000_000, 1), vec![(1, p(200))]);
}

#[test]
fn governance_alone_rewires_the_judge() {
    let mut judge = Judge::new(p(9), p(5));
    assert!(matches!(
        judge.set_bounty_factory(p(9), p(2)),
        Err(ZeroLockError::Unauthorized(_))
    ));
    assert!(matches!(
        judge.set_vault_canister(p(9), p(3)),
        Err(ZeroLockError::Unauthorized(_))
    ));
    assert_eq!(judge.get_config().bounty_factory, None);
    judge.set_bounty_factory(p(5), p(2)).unwrap();
    judge.set_vault_canister(p(5), p(3)).unwrap();
    assert_eq!(judge.get_config().bounty_factory, Some(p(2)));
    assert_eq!(judge.get_config().vault, Some(p(3)));
}

#[test]
fn settlement_needs_a_configured_vault() {
    let judge = Judge::new(p(9), p(9));
    assert!(matches!(
        judge.trigger_settlement(1, p(20)),
        Err(ZeroLockError::InternalError(_))
    ));
}

#[test]
fn disputes_open_and_resolve_once() {
    let mut judge = Judge::new(p(9), p(9));
    assert!(matches!(
        judge.create_dispute(Principal::anonymous(), 1, 7, "bad call".to_string(), vec![], 100),
        Err(ZeroLockError::Unauthorized(_))
    ));
    assert!(matches!(
        judge.create_dispute(p(20), 1, 7, String::new(), vec![], 100),
        Err(ZeroLockError::InvalidInput(_))
    ));
    let id = judge
        .create_dispute(p(20), 1, 7, "verdict ignored my proof".to_string(), vec![vec![1, 2]], 100)
        .unwrap();
    assert_eq!(id, 1);
    let open = judge.get_open_disputes();
    assert_eq!(open.len(), 1);
    assert_eq!(open[0].status, DisputeStatus::Open);
    assert_eq!(open[0].disputer, p(20));
    assert!(matches!(
        judge.resolve_dispute(42, DisputeStatus::Resolved, "done".to_string(), 200),
        Err(ZeroLockError::NotFound(_))
    ));
    judge.resolve_dispute(1, DisputeStatus::Resolved, "payout corrected".to_string(), 200).unwrap();
    assert!(judge.get_open_disputes().is_empty());
    assert!(matches!(
        judge.resolve_dispute(1, DisputeStatus::Rejected, "again".to_string(), 300),
        Err(ZeroLockError::InvalidState(_))
    ));
}

#[test]
fn open_disputes_list_newest_first() {
    let mut judge = Judge::new(p(9), p(9));
    judge.create_dispute(p(20), 1, 1, "first".to_string(), vec![], 100).unwrap();
    judge.create_dispute(p(21), 1, 2, "second".to_string(), vec![], 200).unwrap();
    judge.create_dispute(p(22), 2, 3, "third".to_string(), vec![], 300).unwrap();
    judge.resolve_dispute(2, DisputeStatus::Rejected, "no".to_string(), 400).unwrap();
    let open = judge.get_open_disputes();
    assert_eq!(open.len(), 2);
    assert_eq!(open[0].id, 3);
    assert_eq!(open[1].id, 1);
}

#[test]
fn config_reports_the_wiring() {
    let mut judge = Judge::new(p(9), p(9));
    judge.set_bounty_factory(p(9), p(2)).unwrap();
    let config = judge.get_config();
    assert_eq!(config.bounty_factory, Some(p(2)));
    assert_eq!(config.vault, None);
    assert_eq!(config.attack_threshold, 10);
    assert_eq!(config.balance_check_interval, 60_000_000_000);
}
