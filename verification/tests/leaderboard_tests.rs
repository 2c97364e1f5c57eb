use zerolock::leaderboard::{AchievementType, Leaderboard};
use zerolock::types::{Principal, UserRole, ZeroLockError};

fn p(id: u64) -> Principal {
    Principal { id }
}

fn board() -> Leaderboard {
    // A leaderboard whose reporting registry is principal 2.
    let mut board = Leaderboard::new(p(1));
    board.set_bounty_factory_canister(p(1), p(2)).unwrap();
    board
}

#[test]
fn registration_is_once_per_user() {
    let mut board = board();
    assert!(matches!(
        board.register_user(Principal::anonymous(), UserRole::Hacker, 100),
        Err(ZeroLockError::Unauthorized(_))
    ));
    board.register_user(p(20), UserRole::Hacker, 100).unwrap();
    assert!(matches!(
        board.register_user(p(20), UserRole::Company, 200),
        Err(ZeroLockError::AlreadyExists(_))
    ));
    let (profile, name, achievements, history) = board.get_user_profile(p(20)).unwrap();
    assert_eq!(profile.reputation, 0);
    assert_eq!(profile.role, UserRole::Hacker);
    assert_eq!(profile.created_at, 100);
    assert!(name.is_none());
    assert!(achievements.is_empty());
    assert!(history.is_empty());
    assert!(matches!(
        board.get_user_profile(p(99)),
        Err(ZeroLockError::NotFound(_))
    ));
}

#[test]
fn display_names_need_a_profile_and_a_real_name() {
    let mut board = board();
    assert!(matches!(
        board.set_display_name(p(20), "ghost".to_string()),
        Err(ZeroLockError::NotFound(_))
    ));
    board.register_user(p(20), UserRole::Hacker, 100).unwrap();
    assert!(matches!(
        board.set_display_name(p(20), String::new()),
        Err(ZeroLockError::InvalidInput(_))
    ));
    assert!(matches!(
        board.set_display_name(p(20), "x".repeat(65)),
        Err(ZeroLockError::InvalidInput(_))
    ));
    board.set_display_name(p(20), "neo".to_string()).unwrap();
    let (_, name, _, _) = board.get_user_profile(p(20)).unwrap();
    assert_eq!(name.as_deref(), Some("neo"));
    board.set_display_name(p(20), "trinity".to_string()).unwrap();
    let (_, name, _, _) = board.get_user_profile(p(20)).unwrap();
    assert_eq!(name.as_deref(), Some("trinity"));
}

#[test]
fn reputation_gain_formula_is_exact() {
    assert_eq!(zerolock::leaderboard::calculate_reputation_gain(0), 50);
    assert_eq!(zerolock::leaderboard::calculate_reputation_gain(99), 50);
    assert_eq!(zerolock::leaderboard::calculate_reputation_gain(100), 51);
    assert_eq!(zerolock::leaderboard::calculate_reputation_gain(1234), 62);
}

#[test]
fn recorded_attacks_update_profile_history_and_stats() {
    let mut board = board();
    board.register_user(p(20), UserRole::Hacker, 100).unwrap();
    assert!(matches!(
        board.record_successful_attack(p(99), p(20), 1, 1234, 200),
        Err(ZeroLockError::Unauthorized(_))
    ));
    board.record_successful_attack(p(2), p(20), 1, 1234, 200).unwrap();
    let (profile, _, achievements, history) = board.get_user_profile(p(20)).unwrap();
    assert_eq!(profile.challenges_completed, 1);
    assert_eq!(profile.total_earned, 1234);
    assert_eq!(profile.reputation, 62);
    assert_eq!(history, vec![1]);
    // First completion and a high-value bounty: two badges.
    assert_eq!(achievements.len(), 2);
    assert_eq!(achievements[0].achievement_type, AchievementType::FirstBlood);
    assert_eq!(achievements[1].achievement_type, AchievementType::TopEarner);
    let stats = board.get_platform_stats();
    assert_eq!(stats.successful_attacks, 1);
    assert_eq!(stats.total_bounties_paid, 1234);
}

#[test]
fn fifth_attack_earns_the_serial_badge() {
    let mut board = board();
    board.register_user(p(20), UserRole::Hacker, 100).unwrap();
    for k in 0..5u64 {
        board.record_successful_attack(p(2), p(20), k + 1, 10, 200 + k as i64).unwrap();
    }
    let (profile, _, achievements, history) = board.get_user_profile(p(20)).unwrap();
    assert_eq!(profile.challenges_completed, 5);
    assert_eq!(history, vec![1, 2, 3, 4, 5]);
    let kinds: Vec<_> = achievements.iter().map(|a| a.achievement_type).collect();
    assert_eq!(kinds, vec![AchievementType::FirstBlood, AchievementType::SerialHacker]);
}

#[test]
fn recorded_creations_update_company_reputation() {
    let mut board = board();
    board.register_user(p(10), UserRole::Company, 100).unwrap();
    board.record_challenge_creation(p(2), p(10), 1, 5_000, 200).unwrap();
    let (profile, _, achievements, _) = board.get_user_profile(p(10)).unwrap();
    assert_eq!(profile.reputation, 10);
    assert_eq!(profile.total_earned, 5_000);
    assert_eq!(achievements.len(), 1);
    assert_eq!(achievements[0].achievement_type, AchievementType::GenerousCompany);
    let stats = board.get_platform_stats();
    assert_eq!(stats.total_challenges, 1);
    assert_eq!(stats.active_challenges, 1);
}

#[test]
fn leaderboards_rank_by_reputation() {
    let mut board = board();
    board.register_user(p(20), UserRole::Hacker, 100).unwrap();
    board.register_user(p(21), UserRole::Hacker, 100).unwrap();
    board.register_user(p(22), UserRole::Hacker, 100).unwrap();
    board.register_user(p(10), UserRole::Company, 100).unwrap();
    board.set_display_name(p(21), "neo".to_string()).unwrap();
    // Reputations: 20 -> 62, 21 -> 150 (two attacks), 22 -> 0.
    board.record_successful_attack(p(2), p(20), 1, 1234, 200).unwrap();
    board.record_successful_attack(p(2), p(21), 2, 0, 300).unwrap();
    board.record_successful_attack(p(2), p(21), 3, 5_000, 400).unwrap();
    let top = board.get_hacker_leaderboard(10);
    assert_eq!(top.len(), 3);
    assert_eq!(top[0].principal, p(21));
    assert_eq!(top[0].rank, 1);
    assert_eq!(top[0].display_name.as_deref(), Some("neo"));
    assert_eq!(top[1].principal, p(20));
    assert_eq!(top[1].rank, 2);
    assert_eq!(top[2].principal, p(22));
    assert!(top[0].reputation >= top[1].reputation);
    assert!(top[1].reputation >= top[2].reputation);
    // The limit caps the page; companies rank separately.
    assert_eq!(board.get_hacker_leaderboard(2).len(), 2);
    let companies = board.get_company_leaderboard(10);
    assert_eq!(companies.len(), 1);
    assert_eq!(companies[0].principal, p(10));
}

#[test]
fn governance_alone_rewires_the_leaderboard() {
    let mut board = Leaderboard::new(p(1));
    assert!(matches!(
        board.set_bounty_factory_canister(p(99), p(2)),
        Err(ZeroLockError::Unauthorized(_))
    ));
    assert!(matches!(
        board.set_bounty_factory_for_leaderboard(p(99), p(2)),
        Err(ZeroLockError::Unauthorized(_))
    ));
    board.set_bounty_factory_for_leaderboard(p(1), p(2)).unwrap();
    board.register_user(p(20), UserRole::Hacker, 100).unwrap();
    board.record_successful_attack(p(2), p(20), 1, 10, 200).unwrap();
}

#[test]
fn user_stats_count_recent_registrations() {
    let mut board = board();
    let week = 7 * 24 * 3600 * 1_000_000_000i64;
    let month = 30 * 24 * 3600 * 1_000_000_000i64;
    let now = 2 * month;
    board.register_user(p(20), UserRole::Hacker, (now - month) as u64 + 1).unwrap();
    board.register_user(p(21), UserRole::Hacker, 1).unwrap();
    board.register_user(p(10), UserRole::Company, (now - week) as u64 + 1).unwrap();
    let stats = board.get_user_stats(now);
    assert_eq!(stats.total_users, 3);
    assert_eq!(stats.active_hackers, 1);
    assert_eq!(stats.active_companies, 1);
    assert_eq!(stats.new_users_last_week, 1);
}
