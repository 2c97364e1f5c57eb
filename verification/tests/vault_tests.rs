use zerolock::types::{Principal, TokenType, TransactionType, ZeroLockError};
use zerolock::vault::{LockRequest, LockStatus, UnlockReason, UnlockRequest, Vault};

fn p(id: u64) -> Principal {
    Principal { id }
}

fn funded_vault() -> Vault {
    // A vault with an allow-listed caller (30), a fee recipient (40) and a
    // company (10) holding 20,000,000 available.
    let mut vault = Vault::new(p(1), p(1));
    vault.add_authorized_canister(p(1), p(30)).unwrap();
    vault.set_platform_fee_recipient(p(1), p(40)).unwrap();
    vault.deposit(p(10), TokenType::ICP, 20_000_000, 100).unwrap();
    vault
}

#[test]
fn deposit_credits_available_and_total() {
    let mut vault = Vault::new(p(1), p(1));
    let tx = vault.deposit(p(10), TokenType::ICP, 5_000_000, 100).unwrap();
    assert_eq!(tx, 1);
    let b = vault.get_balance(p(10), TokenType::ICP);
    assert_eq!(b.available, 5_000_000);
    assert_eq!(b.locked, 0);
    assert_eq!(b.total, 5_000_000);
    assert_eq!(b.total, b.available + b.locked);
}

#[test]
fn deposit_rejects_anonymous_zero_and_paused() {
    let mut vault = Vault::new(p(1), p(1));
    assert!(matches!(
        vault.deposit(Principal::anonymous(), TokenType::ICP, 10, 100),
        Err(ZeroLockError::Unauthorized(_))
    ));
    assert!(matches!(
        vault.deposit(p(10), TokenType::ICP, 0, 100),
        Err(ZeroLockError::InvalidInput(_))
    ));
    vault.set_pause_status(p(1), true).unwrap();
    assert!(matches!(
        vault.deposit(p(10), TokenType::ICP, 10, 100),
        Err(ZeroLockError::InvalidState(_))
    ));
    vault.set_pause_status(p(1), false).unwrap();
    assert!(vault.deposit(p(10), TokenType::ICP, 10, 100).is_ok());
}

#[test]
fn lock_moves_available_to_locked() {
    let mut vault = funded_vault();
    let request = LockRequest {
        challenge_id: 1,
        company: p(10),
        amount: 10_000_000,
        token_type: TokenType::ICP,
        duration: 1_000_000_000,
    };
    vault.lock_funds(p(30), request, 200).unwrap();
    let b = vault.get_balance(p(10), TokenType::ICP);
    assert_eq!(b.available, 10_000_000);
    assert_eq!(b.locked, 10_000_000);
    assert_eq!(b.total, 20_000_000);
    let lock = vault.get_lock_info(1).unwrap();
    assert_eq!(lock.amount, 10_000_000);
    assert_eq!(lock.status, LockStatus::Active);
    assert_eq!(lock.locked_at, 200);
    assert_eq!(lock.expires_at, 200 + 1_000_000_000);
}

#[test]
fn lock_rejects_unauthorized_small_long_and_poor() {
    let mut vault = funded_vault();
    let request = LockRequest {
        challenge_id: 1,
        company: p(10),
        amount: 10_000_000,
        token_type: TokenType::ICP,
        duration: 0,
    };
    assert!(matches!(
        vault.lock_funds(p(99), request, 200),
        Err(ZeroLockError::Unauthorized(_))
    ));
    let small = LockRequest { amount: 999_999, ..request };
    assert!(matches!(
        vault.lock_funds(p(30), small, 200),
        Err(ZeroLockError::InvalidInput(_))
    ));
    let long = LockRequest { duration: 31 * 24 * 3600 * 1_000_000_000, ..request };
    assert!(matches!(
        vault.lock_funds(p(30), long, 200),
        Err(ZeroLockError::InvalidInput(_))
    ));
    // More than the company's available funds: the lock never succeeds.
    let poor = LockRequest { amount: 20_000_001, ..request };
    assert!(matches!(
        vault.lock_funds(p(30), poor, 200),
        Err(ZeroLockError::InsufficientFunds(_))
    ));
    // A stranger with no balance record at all.
    let nobody = LockRequest { company: p(77), ..request };
    assert!(matches!(
        vault.lock_funds(p(30), nobody, 200),
        Err(ZeroLockError::InsufficientFunds(_))
    ));
}

#[test]
fn second_lock_while_active_fails() {
    // Scenario: two lock attempts for the same challenge id; the second
    // fails with InvalidState while the first lock is Active.
    let mut vault = funded_vault();
    let request = LockRequest {
        challenge_id: 7,
        company: p(10),
        amount: 1_000_000,
        token_type: TokenType::ICP,
        duration: 0,
    };
    vault.lock_funds(p(30), request, 200).unwrap();
    let again = LockRequest { amount: 2_000_000, ..request };
    assert!(matches!(
        vault.lock_funds(p(30), again, 300),
        Err(ZeroLockError::InvalidState(_))
    ));
}

#[test]
fn bounty_payout_splits_fee_exactly() {
    // Scenario: lock 10,000,000, then unlock the full amount as a bounty
    // payout. Fee = 250 bps = 250,000; net = 9,750,000.
    let mut vault = funded_vault();
    let request = LockRequest {
        challenge_id: 1,
        company: p(10),
        amount: 10_000_000,
        token_type: TokenType::ICP,
        duration: 0,
    };
    vault.lock_funds(p(30), request, 200).unwrap();
    let unlock = UnlockRequest {
        challenge_id: 1,
        recipient: p(20),
        amount: 10_000_000,
        reason: UnlockReason::BountyPayout(p(20)),
    };
    vault.unlock_funds(p(30), unlock, 300).unwrap();

    let company = vault.get_balance(p(10), TokenType::ICP);
    assert_eq!(company.locked, 0);
    assert_eq!(company.available, 10_000_000);
    assert_eq!(company.total, 10_000_000);
    let hacker = vault.get_balance(p(20), TokenType::ICP);
    assert_eq!(hacker.available, 9_750_000);
    assert_eq!(hacker.total, 9_750_000);
    let fee_recipient = vault.get_balance(p(40), TokenType::ICP);
    assert_eq!(fee_recipient.available, 250_000);
    // fee + net add back up to the amount exactly.
    assert_eq!(250_000 + 9_750_000, 10_000_000u64);
    assert_eq!(vault.get_lock_info(1).unwrap().status, LockStatus::Released);

    // Every touched balance still satisfies total == available + locked.
    for owner in [p(10), p(20), p(40)] {
        let b = vault.get_balance(owner, TokenType::ICP);
        assert_eq!(b.total, b.available + b.locked);
    }
}

#[test]
fn expiry_unlock_carries_no_fee() {
    let mut vault = funded_vault();
    let request = LockRequest {
        challenge_id: 1,
        company: p(10),
        amount: 2_000_000,
        token_type: TokenType::ICP,
        duration: 0,
    };
    vault.lock_funds(p(30), request, 200).unwrap();
    let unlock = UnlockRequest {
        challenge_id: 1,
        recipient: p(10),
        amount: 2_000_000,
        reason: UnlockReason::ChallengeExpired,
    };
    vault.unlock_funds(p(30), unlock, 300).unwrap();
    let company = vault.get_balance(p(10), TokenType::ICP);
    assert_eq!(company.available, 20_000_000);
    assert_eq!(company.locked, 0);
    assert_eq!(company.total, 20_000_000);
    let fee_recipient = vault.get_balance(p(40), TokenType::ICP);
    assert_eq!(fee_recipient.total, 0);
    // The net movement of a non-bounty release is recorded as a Refund.
    let history = vault.get_transaction_history(p(10), 0, 100);
    assert_eq!(history[0].transaction_type, TransactionType::Refund);
    assert_eq!(history[0].amount, 2_000_000);
    assert_eq!(history[0].to, p(10));
}

#[test]
fn release_kinds_follow_the_reason() {
    // A bounty payout logs a Payout and a Fee; a cancellation logs a Refund
    // and no Fee.
    let mut vault = funded_vault();
    let request = LockRequest {
        challenge_id: 1,
        company: p(10),
        amount: 4_000_000,
        token_type: TokenType::ICP,
        duration: 0,
    };
    vault.lock_funds(p(30), request, 200).unwrap();
    let payout = UnlockRequest {
        challenge_id: 1,
        recipient: p(20),
        amount: 4_000_000,
        reason: UnlockReason::BountyPayout(p(20)),
    };
    vault.unlock_funds(p(30), payout, 300).unwrap();
    let history = vault.get_transaction_history(p(10), 0, 100);
    // Newest first: Fee, then Payout, then the Lock, then the deposit.
    assert_eq!(history[0].transaction_type, TransactionType::Fee);
    assert_eq!(history[1].transaction_type, TransactionType::Payout);
    assert_eq!(history[1].amount, 3_900_000);

    let cancel_lock = LockRequest { challenge_id: 2, ..request };
    vault.lock_funds(p(30), cancel_lock, 400).unwrap();
    let cancel = UnlockRequest {
        challenge_id: 2,
        recipient: p(10),
        amount: 4_000_000,
        reason: UnlockReason::ChallengeCancelled,
    };
    vault.unlock_funds(p(30), cancel, 500).unwrap();
    let history = vault.get_transaction_history(p(10), 0, 100);
    assert_eq!(history[0].transaction_type, TransactionType::Refund);
    assert_eq!(history[0].amount, 4_000_000);

    let override_lock = LockRequest { challenge_id: 3, ..request };
    vault.lock_funds(p(30), override_lock, 600).unwrap();
    let admin = UnlockRequest {
        challenge_id: 3,
        recipient: p(10),
        amount: 4_000_000,
        reason: UnlockReason::AdminOverride("manual correction".to_string()),
    };
    vault.unlock_funds(p(30), admin, 700).unwrap();
    let history = vault.get_transaction_history(p(10), 0, 100);
    assert_eq!(history[0].transaction_type, TransactionType::Refund);
}

#[test]
fn governance_alone_manages_the_vault() {
    let mut vault = Vault::new(p(1), p(2));
    assert!(matches!(
        vault.add_authorized_canister(p(99), p(30)),
        Err(ZeroLockError::Unauthorized(_))
    ));
    assert!(matches!(
        vault.set_pause_status(p(99), true),
        Err(ZeroLockError::Unauthorized(_))
    ));
    assert!(matches!(
        vault.set_platform_fee_recipient(p(99), p(40)),
        Err(ZeroLockError::Unauthorized(_))
    ));
    assert!(!vault.is_paused());
    assert!(vault.get_authorized_canisters().is_empty());
    vault.add_authorized_canister(p(2), p(30)).unwrap();
    vault.set_pause_status(p(2), true).unwrap();
    vault.set_platform_fee_recipient(p(2), p(40)).unwrap();
    assert!(vault.is_paused());
}

#[test]
fn unlock_never_exceeds_the_lock() {
    let mut vault = funded_vault();
    let request = LockRequest {
        challenge_id: 1,
        company: p(10),
        amount: 2_000_000,
        token_type: TokenType::ICP,
        duration: 0,
    };
    vault.lock_funds(p(30), request, 200).unwrap();
    let unlock = UnlockRequest {
        challenge_id: 1,
        recipient: p(20),
        amount: 2_000_001,
        reason: UnlockReason::BountyPayout(p(20)),
    };
    assert!(matches!(
        vault.unlock_funds(p(30), unlock, 300),
        Err(ZeroLockError::InvalidInput(_))
    ));
    let missing = UnlockRequest {
        challenge_id: 9,
        recipient: p(20),
        amount: 1,
        reason: UnlockReason::ChallengeCancelled,
    };
    assert!(matches!(
        vault.unlock_funds(p(30), missing, 300),
        Err(ZeroLockError::NotFound(_))
    ));
}

#[test]
fn released_lock_cannot_be_unlocked_twice() {
    let mut vault = funded_vault();
    let request = LockRequest {
        challenge_id: 1,
        company: p(10),
        amount: 2_000_000,
        token_type: TokenType::ICP,
        duration: 0,
    };
    vault.lock_funds(p(30), request, 200).unwrap();
    let unlock = UnlockRequest {
        challenge_id: 1,
        recipient: p(20),
        amount: 2_000_000,
        reason: UnlockReason::BountyPayout(p(20)),
    };
    vault.unlock_funds(p(30), unlock, 300).unwrap();
    let again = UnlockRequest {
        challenge_id: 1,
        recipient: p(20),
        amount: 1_000_000,
        reason: UnlockReason::BountyPayout(p(20)),
    };
    assert!(matches!(
        vault.unlock_funds(p(30), again, 400),
        Err(ZeroLockError::InvalidState(_))
    ));
}

#[test]
fn transaction_history_pages_newest_first() {
    let mut vault = Vault::new(p(1), p(1));
    for k in 0..5u64 {
        vault.deposit(p(10), TokenType::ICP, 1_000 + k, 100 + k as i64).unwrap();
    }
    let all = vault.get_transaction_history(p(10), 0, 1_000_000);
    assert_eq!(all.len(), 5);
    for w in all.windows(2) {
        assert!(w[0].timestamp >= w[1].timestamp);
    }
    assert_eq!(all[0].amount, 1_004);
    assert_eq!(all[4].amount, 1_000);
    let page = vault.get_transaction_history(p(10), 1, 2);
    assert_eq!(page.len(), 2);
    assert_eq!(page[0].amount, 1_003);
    assert_eq!(page[1].amount, 1_002);
    // An offset at or past the end yields an empty page.
    assert!(vault.get_transaction_history(p(10), 5, 10).is_empty());
    // Strangers see nothing.
    assert!(vault.get_transaction_history(p(99), 0, 10).is_empty());
}

#[test]
fn transaction_history_never_exceeds_the_cap() {
    let mut vault = Vault::new(p(1), p(1));
    for k in 0..120u64 {
        vault.deposit(p(10), TokenType::ICP, 1 + k, 100 + k as i64).unwrap();
    }
    let page = vault.get_transaction_history(p(10), 0, 5_000);
    assert_eq!(page.len(), 100);
}

#[test]
fn vault_stats_count_active_locks_and_volume() {
    let mut vault = funded_vault();
    let request = LockRequest {
        challenge_id: 1,
        company: p(10),
        amount: 3_000_000,
        token_type: TokenType::ICP,
        duration: 0,
    };
    vault.lock_funds(p(30), request, 200).unwrap();
    let stats = vault.get_vault_stats();
    assert_eq!(stats.active_locks, 1);
    assert_eq!(stats.total_locked, 3_000_000);
    // One deposit and one lock transaction, both completed.
    assert_eq!(stats.total_transactions, 2);
    assert_eq!(stats.total_volume, 20_000_000 + 3_000_000);
    let first = vault.get_transaction_history(p(10), 0, 100);
    assert_eq!(first[1].transaction_type, TransactionType::Lock);
}

#[test]
fn allow_list_is_explicit() {
    let mut vault = Vault::new(p(1), p(1));
    assert!(vault.get_authorized_canisters().is_empty());
    vault.add_authorized_canister(p(1), p(30)).unwrap();
    assert!(matches!(
        vault.add_authorized_canister(p(1), p(30)),
        Err(ZeroLockError::InvalidInput(_))
    ));
    assert_eq!(vault.get_authorized_canisters(), vec![p(30)]);
    assert!(!vault.is_paused());
}
