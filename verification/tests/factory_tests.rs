use zerolock::bounty_factory::{BountyFactory, CreateChallengeRequest};
use zerolock::types::{ChallengeStatus, Principal, TokenType, ZeroLockError};

fn p(id: u64) -> Principal {
    Principal { id }
}

fn request() -> CreateChallengeRequest {
    CreateChallengeRequest {
        wasm_code: vec![0, 1, 2, 3],
        candid_interface: "service : {}".to_string(),
        bounty_amount: 2_000_000,
        duration_hours: 48,
        token_type: TokenType::ICP,
        description: "find the bug".to_string(),
        difficulty_level: 3,
    }
}

#[test]
fn submit_assigns_id_and_end_time() {
    // Scenario: bounty 2,000,000, duration 48 h, difficulty 3.
    let mut factory = BountyFactory::new();
    let t0: i64 = 1_000;
    let id = factory.create_challenge(p(10), request(), t0).unwrap();
    assert_eq!(id, 1);
    let c = factory.get_challenge(1).unwrap();
    assert_eq!(c.status, ChallengeStatus::Created);
    assert_eq!(c.start_time, t0);
    assert_eq!(c.end_time, t0 + 48 * 3_600_000_000_000);
    assert_eq!(c.company, p(10));
    assert_eq!(c.bounty_amount, 2_000_000);
    assert_eq!(c.difficulty_level, 3);
    assert!(c.target_canister.is_none());
    // Ids stay monotonic.
    assert_eq!(factory.create_challenge(p(10), request(), 2_000).unwrap(), 2);
}

#[test]
fn submit_validates_every_bound() {
    let mut factory = BountyFactory::new();
    assert!(matches!(
        factory.create_challenge(Principal::anonymous(), request(), 0),
        Err(ZeroLockError::Unauthorized(_))
    ));
    let empty_wasm = CreateChallengeRequest { wasm_code: vec![], ..request() };
    assert!(matches!(
        factory.create_challenge(p(10), empty_wasm, 0),
        Err(ZeroLockError::InvalidInput(_))
    ));
    let big_wasm = CreateChallengeRequest { wasm_code: vec![0; 2_000_001], ..request() };
    assert!(matches!(
        factory.create_challenge(p(10), big_wasm, 0),
        Err(ZeroLockError::InvalidInput(_))
    ));
    let small_bounty = CreateChallengeRequest { bounty_amount: 999_999, ..request() };
    assert!(matches!(
        factory.create_challenge(p(10), small_bounty, 0),
        Err(ZeroLockError::InvalidInput(_))
    ));
    let short = CreateChallengeRequest { duration_hours: 23, ..request() };
    assert!(matches!(
        factory.create_challenge(p(10), short, 0),
        Err(ZeroLockError::InvalidInput(_))
    ));
    let long = CreateChallengeRequest { duration_hours: 721, ..request() };
    assert!(matches!(
        factory.create_challenge(p(10), long, 0),
        Err(ZeroLockError::InvalidInput(_))
    ));
    let wordy = CreateChallengeRequest { description: "x".repeat(1001), ..request() };
    assert!(matches!(
        factory.create_challenge(p(10), wordy, 0),
        Err(ZeroLockError::InvalidInput(_))
    ));
    let too_easy = CreateChallengeRequest { difficulty_level: 0, ..request() };
    assert!(matches!(
        factory.create_challenge(p(10), too_easy, 0),
        Err(ZeroLockError::InvalidInput(_))
    ));
    let too_hard = CreateChallengeRequest { difficulty_level: 6, ..request() };
    assert!(matches!(
        factory.create_challenge(p(10), too_hard, 0),
        Err(ZeroLockError::InvalidInput(_))
    ));
    let no_interface = CreateChallengeRequest { candid_interface: String::new(), ..request() };
    assert!(matches!(
        factory.create_challenge(p(10), no_interface, 0),
        Err(ZeroLockError::InvalidInput(_))
    ));
    assert!(factory.create_challenge(p(10), request(), 0).is_ok());
}

#[test]
fn per_owner_cap_is_ten() {
    let mut factory = BountyFactory::new();
    for k in 0..10 {
        factory.create_challenge(p(10), request(), k as i64).unwrap();
    }
    assert!(matches!(
        factory.create_challenge(p(10), request(), 100),
        Err(ZeroLockError::ResourceLimit(_))
    ));
    // Another owner still has room.
    assert!(factory.create_challenge(p(11), request(), 100).is_ok());
}

#[test]
fn terminal_challenges_free_their_slot() {
    // The cap counts open challenges only: a cancelled one frees its slot.
    let mut factory = BountyFactory::new();
    for k in 0..10 {
        factory.create_challenge(p(10), request(), k as i64).unwrap();
    }
    assert!(matches!(
        factory.create_challenge(p(10), request(), 100),
        Err(ZeroLockError::ResourceLimit(_))
    ));
    factory.update_challenge_status(p(10), 3, ChallengeStatus::Cancelled, 100).unwrap();
    assert!(factory.create_challenge(p(10), request(), 200).is_ok());
    // Back at the cap.
    assert!(matches!(
        factory.create_challenge(p(10), request(), 300),
        Err(ZeroLockError::ResourceLimit(_))
    ));
}

#[test]
fn status_transitions_follow_the_table() {
    let mut factory = BountyFactory::new();
    factory.create_challenge(p(10), request(), 0).unwrap();
    // Created -> Completed is illegal.
    assert!(matches!(
        factory.update_challenge_status(p(10), 1, ChallengeStatus::Completed, 10),
        Err(ZeroLockError::InvalidState(_))
    ));
    // Only the owner or an admin may manage.
    assert!(matches!(
        factory.update_challenge_status(p(99), 1, ChallengeStatus::Cancelled, 10),
        Err(ZeroLockError::Unauthorized(_))
    ));
    assert!(matches!(
        factory.update_challenge_status(p(10), 42, ChallengeStatus::Cancelled, 10),
        Err(ZeroLockError::NotFound(_))
    ));
    factory.update_challenge_status(p(10), 1, ChallengeStatus::Active, 10).unwrap();
    factory.update_challenge_status(p(10), 1, ChallengeStatus::Completed, 20).unwrap();
    // Terminal: no way out.
    assert!(matches!(
        factory.update_challenge_status(p(10), 1, ChallengeStatus::Active, 30),
        Err(ZeroLockError::InvalidState(_))
    ));
}

#[test]
fn reasserting_the_same_status_never_errors() {
    // Idempotence: re-invoking with the same status is a no-op but for
    // `updated_at`.
    let mut factory = BountyFactory::new();
    factory.create_challenge(p(10), request(), 0).unwrap();
    factory.update_challenge_status(p(10), 1, ChallengeStatus::Created, 10).unwrap();
    let once = factory.get_challenge(1).unwrap();
    assert_eq!(once.status, ChallengeStatus::Created);
    assert_eq!(once.updated_at, 10);
    factory.update_challenge_status(p(10), 1, ChallengeStatus::Created, 20).unwrap();
    let twice = factory.get_challenge(1).unwrap();
    assert_eq!(twice.status, ChallengeStatus::Created);
    assert_eq!(twice.updated_at, 20);
    assert_eq!(once.end_time, twice.end_time);
    // The same holds for a terminal status.
    factory.update_challenge_status(p(10), 1, ChallengeStatus::Cancelled, 30).unwrap();
    factory.update_challenge_status(p(10), 1, ChallengeStatus::Cancelled, 40).unwrap();
    assert_eq!(factory.get_challenge(1).unwrap().status, ChallengeStatus::Cancelled);
}

#[test]
fn deployment_commits_only_from_created() {
    let mut factory = BountyFactory::new();
    factory.create_challenge(p(10), request(), 0).unwrap();
    let wasm = factory.deploy_target_begin(p(10), 1).unwrap();
    assert_eq!(wasm, vec![0, 1, 2, 3]);
    assert!(matches!(
        factory.deploy_target_begin(p(99), 1),
        Err(ZeroLockError::Unauthorized(_))
    ));
    factory.deploy_target_commit(1, p(200), 10).unwrap();
    let c = factory.get_challenge(1).unwrap();
    assert_eq!(c.status, ChallengeStatus::Active);
    assert_eq!(c.target_canister, Some(p(200)));
    // Once Active, neither half of the deployment runs again.
    assert!(matches!(
        factory.deploy_target_begin(p(10), 1),
        Err(ZeroLockError::InvalidState(_))
    ));
    assert!(matches!(
        factory.deploy_target_commit(1, p(201), 20),
        Err(ZeroLockError::InvalidState(_))
    ));
}

#[test]
fn interleaved_cancellation_blocks_the_commit() {
    // The reserve-then-confirm window: the challenge is cancelled between
    // the two halves of the deployment, so the commit must refuse.
    let mut factory = BountyFactory::new();
    factory.create_challenge(p(10), request(), 0).unwrap();
    factory.deploy_target_begin(p(10), 1).unwrap();
    factory.update_challenge_status(p(10), 1, ChallengeStatus::Cancelled, 5).unwrap();
    assert!(matches!(
        factory.deploy_target_commit(1, p(200), 10),
        Err(ZeroLockError::InvalidState(_))
    ));
    assert_eq!(factory.get_challenge(1).unwrap().status, ChallengeStatus::Cancelled);
}

#[test]
fn manual_expiry_rejects_terminal_states() {
    let mut factory = BountyFactory::new();
    factory.create_challenge(p(10), request(), 0).unwrap();
    factory.expire_challenge(p(10), 1, 10).unwrap();
    assert_eq!(factory.get_challenge(1).unwrap().status, ChallengeStatus::Expired);
    assert!(matches!(
        factory.expire_challenge(p(10), 1, 20),
        Err(ZeroLockError::InvalidState(_))
    ));
}

#[test]
fn sweep_expires_overdue_challenges_exactly_once() {
    // Scenario: an Active challenge whose end_time has passed flips to
    // Expired on the first sweep; later sweeps are no-ops.
    let mut factory = BountyFactory::new();
    factory.create_challenge(p(10), request(), 0).unwrap();
    factory.deploy_target_commit(1, p(200), 1).unwrap();
    let past_the_end = 49 * 3_600_000_000_000;
    assert_eq!(factory.check_expired_challenges(past_the_end, 100), 1);
    assert_eq!(factory.get_challenge(1).unwrap().status, ChallengeStatus::Expired);
    assert_eq!(factory.check_expired_challenges(past_the_end, 100), 0);
    assert_eq!(factory.check_expired_challenges(past_the_end + 1, 100), 0);
    assert_eq!(factory.get_challenge(1).unwrap().status, ChallengeStatus::Expired);
}

#[test]
fn sweep_respects_its_budget() {
    let mut factory = BountyFactory::new();
    for k in 0..3 {
        factory.create_challenge(p(10), request(), k as i64).unwrap();
        factory.deploy_target_commit(k + 1, p(200), 10).unwrap();
    }
    let past_the_end = 49 * 3_600_000_000_000;
    assert_eq!(factory.check_expired_challenges(past_the_end, 2), 2);
    assert_eq!(factory.get_challenge(1).unwrap().status, ChallengeStatus::Expired);
    assert_eq!(factory.get_challenge(2).unwrap().status, ChallengeStatus::Expired);
    assert_eq!(factory.get_challenge(3).unwrap().status, ChallengeStatus::Active);
    // The next tick picks up the rest.
    assert_eq!(factory.check_expired_challenges(past_the_end, 2), 1);
    assert_eq!(factory.get_challenge(3).unwrap().status, ChallengeStatus::Expired);
}

#[test]
fn listings_page_newest_first_with_a_cap() {
    let mut factory = BountyFactory::new();
    for k in 0..5 {
        factory.create_challenge(p(10 + (k % 2)), request(), k as i64).unwrap();
    }
    let all = factory.list_challenges(None, 0, 1_000_000);
    assert_eq!(all.len(), 5);
    for w in all.windows(2) {
        assert!(w[0].created_at >= w[1].created_at);
    }
    assert_eq!(all[0].id, 5);
    assert_eq!(all[4].id, 1);
    let page = factory.list_challenges(None, 1, 2);
    assert_eq!(page.len(), 2);
    assert_eq!(page[0].id, 4);
    assert_eq!(page[1].id, 3);
    assert!(factory.list_challenges(None, 5, 10).is_empty());
    let created = factory.list_challenges(Some(ChallengeStatus::Created), 0, 100);
    assert_eq!(created.len(), 5);
    assert!(factory.list_challenges(Some(ChallengeStatus::Active), 0, 100).is_empty());
    let company = factory.get_company_challenges(p(11));
    assert_eq!(company.len(), 2);
    assert_eq!(company[0].id, 4);
    assert_eq!(company[1].id, 2);
}

#[test]
fn listings_never_exceed_the_cap() {
    let mut factory = BountyFactory::new();
    // Twelve owners at the per-owner cap of ten: 120 challenges.
    for owner in 0..12u64 {
        for _ in 0..10 {
            factory.create_challenge(p(100 + owner), request(), owner as i64).unwrap();
        }
    }
    assert_eq!(factory.list_challenges(None, 0, 10_000).len(), 100);
    assert_eq!(factory.list_challenges(None, 110, 10_000).len(), 10);
}

#[test]
fn stats_count_by_status() {
    let mut factory = BountyFactory::new();
    for k in 0..4 {
        factory.create_challenge(p(10), request(), k as i64).unwrap();
    }
    factory.deploy_target_commit(1, p(200), 10).unwrap();
    factory.update_challenge_status(p(10), 2, ChallengeStatus::Cancelled, 10).unwrap();
    factory.expire_challenge(p(10), 3, 10).unwrap();
    let stats = factory.get_challenge_stats();
    assert_eq!(stats.total, 4);
    assert_eq!(stats.active, 1);
    assert_eq!(stats.cancelled, 1);
    assert_eq!(stats.expired, 1);
    assert_eq!(stats.completed, 0);
}

#[test]
fn admins_manage_admins() {
    let mut factory = BountyFactory::new();
    // Anyone may seed the first admin.
    factory.add_admin(p(1), p(2)).unwrap();
    // After that, only admins may add more.
    assert!(matches!(factory.add_admin(p(1), p(3)), Err(ZeroLockError::Unauthorized(_))));
    factory.add_admin(p(2), p(3)).unwrap();
    assert!(matches!(factory.add_admin(p(2), p(3)), Err(ZeroLockError::InvalidInput(_))));
    assert_eq!(factory.get_admins(), vec![p(2), p(3)]);
    // An admin may manage someone else's challenge.
    factory.create_challenge(p(10), request(), 100).unwrap();
    factory.update_challenge_status(p(3), 1, ChallengeStatus::Cancelled, 110).unwrap();
}
