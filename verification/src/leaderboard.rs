//! The reporting subsystem: user registration, display names, reputation
//! from recorded attacks and challenge creations, achievements, per-user
//! challenge history and aggregate statistics. Pure reporting — no money
//! moves here.

use vstd::prelude::*;
use vstd::string::StringExecFns;

use crate::store::{find_first, lemma_find_first_properties, lemma_find_first_push,
    lemma_find_first_update, sum_by};
use crate::types::{MAX_PAGE_LIMIT, PlatformStats, Principal, UserProfile, UserProfileView,
    UserRole, ZeroLockError};

verus! {

/// Reputation floor granted for any recorded attack.
pub const BASE_REPUTATION_GAIN: u64 = 50;

/// Bounty size from which an attack counts as high-value.
pub const HIGH_VALUE_BOUNTY: u64 = 1000;

/// Bounty size from which a created challenge counts as generous.
pub const GENEROUS_BOUNTY: u64 = 5000;

/// One ranked row of the hacker leaderboard.
pub struct LeaderboardEntry {
    pub rank: u64,
    pub principal: Principal,
    pub display_name: Option<String>,
    pub reputation: u64,
    pub challenges_completed: u64,
    pub total_earned: u64,
    pub created_at: i64,
}

/// One ranked row of the company leaderboard.
pub struct CompanyLeaderboardEntry {
    pub rank: u64,
    pub principal: Principal,
    pub display_name: Option<String>,
    pub reputation: u64,
    pub challenges_completed: u64,
    pub total_earned: u64,
    pub created_at: i64,
}

#[derive(Clone, Copy, Debug, PartialEq, Eq, Structural, Hash)]
pub enum AchievementType {
    FirstBlood,
    TopEarner,
    SerialHacker,
    QuickSolver,
    GenerousCompany,
    ActiveContributor,
}

/// A badge granted for a recorded accomplishment.
pub struct Achievement {
    pub id: u64,
    pub achievement_type: AchievementType,
    pub recipient: Principal,
    pub timestamp: i64,
    pub description: String,
    pub challenge_id: Option<u64>,
}

pub struct AchievementView {
    pub id: u64,
    pub achievement_type: AchievementType,
    pub recipient: Principal,
    pub timestamp: i64,
    pub description: Seq<char>,
    pub challenge_id: Option<u64>,
}

impl View for Achievement {
    type V = AchievementView;

    open spec fn view(&self) -> AchievementView {
        AchievementView {
            id: self.id,
            achievement_type: self.achievement_type,
            recipient: self.recipient,
            timestamp: self.timestamp,
            description: self.description@,
            challenge_id: self.challenge_id,
        }
    }
}

impl Clone for Achievement {
    fn clone(&self) -> (r: Self)
        ensures
            r@ == self@,
    {
        Achievement {
            id: self.id,
            achievement_type: self.achievement_type,
            recipient: self.recipient,
            timestamp: self.timestamp,
            description: self.description.clone(),
            challenge_id: self.challenge_id,
        }
    }
}

#[derive(Clone, Copy, Debug, PartialEq, Eq, Structural)]
pub struct UserStats {
    pub total_users: u64,
    pub active_hackers: u64,
    pub active_companies: u64,
    pub new_users_last_week: u64,
}

/// A user's chosen display name.
pub struct DisplayNameEntry {
    pub principal: Principal,
    pub name: String,
}

/// The challenges a user completed, in completion order.
pub struct ChallengeHistoryEntry {
    pub principal: Principal,
    pub challenges: Vec<u64>,
}

/// The views of a sequence of profiles.
pub open spec fn user_views(s: Seq<UserProfile>) -> Seq<UserProfileView> {
    s.map_values(|p: UserProfile| p@)
}

/// The views of a sequence of achievements.
pub open spec fn achievement_views(s: Seq<Achievement>) -> Seq<AchievementView> {
    s.map_values(|a: Achievement| a@)
}

/// The view of an optional display name.
pub open spec fn opt_name_view(o: Option<String>) -> Option<Seq<char>> {
    match o {
        Some(s) => Some(s@),
        None => None,
    }
}

pub open spec fn profile_pred(user: Principal) -> spec_fn(UserProfile) -> bool {
    |p: UserProfile| p.principal == user
}

pub open spec fn profile_index_in(s: Seq<UserProfile>, user: Principal) -> int {
    find_first(s, profile_pred(user))
}

/// The stored profile of a user, if registered.
pub open spec fn profile_of_in(s: Seq<UserProfile>, user: Principal) -> Option<UserProfile> {
    let i = profile_index_in(s, user);
    if i >= 0 {
        Some(s[i])
    } else {
        None
    }
}

pub open spec fn name_pred(user: Principal) -> spec_fn(DisplayNameEntry) -> bool {
    |n: DisplayNameEntry| n.principal == user
}

pub open spec fn name_index_in(s: Seq<DisplayNameEntry>, user: Principal) -> int {
    find_first(s, name_pred(user))
}

/// The display name recorded for a user, as a sequence of characters.
pub open spec fn name_of_in(s: Seq<DisplayNameEntry>, user: Principal) -> Option<Seq<char>> {
    let i = name_index_in(s, user);
    if i >= 0 {
        Some(s[i].name@)
    } else {
        None
    }
}

pub open spec fn chist_pred(user: Principal) -> spec_fn(ChallengeHistoryEntry) -> bool {
    |h: ChallengeHistoryEntry| h.principal == user
}

pub open spec fn chist_index_in(s: Seq<ChallengeHistoryEntry>, user: Principal) -> int {
    find_first(s, chist_pred(user))
}

/// The challenge ids recorded for a user; empty if none yet.
pub open spec fn chist_of_in(s: Seq<ChallengeHistoryEntry>, user: Principal) -> Seq<u64> {
    let i = chist_index_in(s, user);
    if i >= 0 {
        s[i].challenges@
    } else {
        Seq::empty()
    }
}

/// Picks the profiles holding one role.
pub open spec fn role_pred(role: UserRole) -> spec_fn(UserProfile) -> bool {
    |p: UserProfile| p.role == role
}

/// Picks the achievements of one recipient.
pub open spec fn recipient_pred(user: Principal) -> spec_fn(Achievement) -> bool {
    |a: Achievement| a.recipient == user
}

/// The position of the highest reputation, ties resolved towards the front;
/// meaningful for non-empty sequences.
pub open spec fn first_max_index(s: Seq<UserProfileView>) -> int
    decreases s.len(),
{
    if s.len() <= 1 {
        0
    } else {
        let r = first_max_index(s.drop_last());
        if s.last().reputation > s[r].reputation {
            s.len() - 1
        } else {
            r
        }
    }
}

/// `first_max_index` lands in range, on a maximal element, and earlier
/// elements are strictly smaller.
pub proof fn lemma_first_max_index(s: Seq<UserProfileView>)
    requires
        s.len() > 0,
    ensures
        0 <= first_max_index(s) < s.len(),
        forall|j: int|
            0 <= j < s.len() ==> (#[trigger] s[j]).reputation <= s[first_max_index(s)].reputation,
    decreases s.len(),
{
    if s.len() > 1 {
        lemma_first_max_index(s.drop_last());
        assert(forall|j: int| 0 <= j < s.len() - 1 ==> s.drop_last()[j] == s[j]);
    }
}

/// The `k` highest-reputation profiles, best first; ties keep store order.
pub open spec fn top_k_by_reputation(s: Seq<UserProfileView>, k: int) -> Seq<UserProfileView>
    decreases k,
{
    if k <= 0 || s.len() == 0 {
        Seq::empty()
    } else {
        let i = first_max_index(s);
        seq![s[i]] + top_k_by_reputation(s.remove(i), k - 1)
    }
}

/// The selection has length `min(k, len)`, is sorted by reputation
/// descending, and never exceeds the maximum of the source.
pub proof fn lemma_top_k_sorted(s: Seq<UserProfileView>, k: int)
    ensures
        top_k_by_reputation(s, k).len() == if k <= 0 {
            0
        } else if k <= s.len() {
            k
        } else {
            s.len() as int
        },
        forall|i: int, j: int|
            0 <= i <= j < top_k_by_reputation(s, k).len() ==> (#[trigger] top_k_by_reputation(
                s,
                k,
            )[i]).reputation >= (#[trigger] top_k_by_reputation(s, k)[j]).reputation,
        s.len() > 0 && k > 0 ==> forall|j: int|
            0 <= j < top_k_by_reputation(s, k).len() ==> (#[trigger] top_k_by_reputation(
                s,
                k,
            )[j]).reputation <= s[first_max_index(s)].reputation,
    decreases k,
{
    if k > 0 && s.len() > 0 {
        let i = first_max_index(s);
        lemma_first_max_index(s);
        let t = s.remove(i);
        lemma_top_k_sorted(t, k - 1);
        let out = top_k_by_reputation(s, k);
        let rest = top_k_by_reputation(t, k - 1);
        assert(out == seq![s[i]] + rest);
        assert(out[0] == s[i]);
        assert(forall|m: int| 1 <= m < out.len() ==> out[m] == rest[m - 1]);
        assert(forall|m: int| 0 <= m < t.len() ==> t[m] == if m < i {
            s[m]
        } else {
            s[m + 1]
        });
        if t.len() > 0 && k - 1 > 0 {
            lemma_first_max_index(t);
            assert(t[first_max_index(t)].reputation <= s[i].reputation);
        }
    }
}

/// Reputation gained from a bounty: a base grant plus one point per hundred
/// units.
pub fn calculate_reputation_gain(bounty_amount: u64) -> (r: u64)
    ensures
        r == BASE_REPUTATION_GAIN + bounty_amount / 100,
{
    BASE_REPUTATION_GAIN + bounty_amount / 100
}

/// The fixed description text of each achievement type.
pub open spec fn spec_description(t: AchievementType) -> Seq<char> {
    match t {
        AchievementType::FirstBlood => "Completed first successful attack"@,
        AchievementType::TopEarner => "Earned significant bounties"@,
        AchievementType::SerialHacker => "Completed 5 successful attacks"@,
        AchievementType::QuickSolver => "Solved a challenge in record time"@,
        AchievementType::GenerousCompany => "Offered a high-value bounty"@,
        AchievementType::ActiveContributor => "Created 5 challenges"@,
    }
}

/// The view of one granted achievement.
pub open spec fn granted_view(
    id: int,
    t: AchievementType,
    recipient: Principal,
    challenge_id: Option<u64>,
    now: i64,
) -> AchievementView {
    AchievementView {
        id: id as u64,
        achievement_type: t,
        recipient,
        timestamp: now,
        description: spec_description(t),
        challenge_id,
    }
}

/// The achievements a recorded attack grants, given the attacker's new
/// completion count.
pub open spec fn attack_achievement_views(
    next_id: int,
    attacker: Principal,
    challenge_id: u64,
    bounty_amount: u64,
    completed_after: int,
    now: i64,
) -> Seq<AchievementView> {
    let milestone: Seq<AchievementView> = if completed_after == 1 {
        seq![granted_view(next_id, AchievementType::FirstBlood, attacker, Some(challenge_id), now)]
    } else if completed_after == 5 {
        seq![
            granted_view(next_id, AchievementType::SerialHacker, attacker, Some(challenge_id), now),
        ]
    } else {
        Seq::empty()
    };
    if bounty_amount >= HIGH_VALUE_BOUNTY {
        milestone + seq![
            granted_view(
                next_id + milestone.len(),
                AchievementType::TopEarner,
                attacker,
                Some(challenge_id),
                now,
            ),
        ]
    } else {
        milestone
    }
}

/// The achievements a recorded challenge creation grants, given the
/// company's new creation count.
pub open spec fn creation_achievement_views(
    next_id: int,
    company: Principal,
    challenge_id: u64,
    bounty_amount: u64,
    created_after: int,
    now: i64,
) -> Seq<AchievementView> {
    let milestone: Seq<AchievementView> = if created_after == 5 {
        seq![
            granted_view(
                next_id,
                AchievementType::ActiveContributor,
                company,
                Some(challenge_id),
                now,
            ),
        ]
    } else {
        Seq::empty()
    };
    if bounty_amount >= GENEROUS_BOUNTY {
        milestone + seq![
            granted_view(
                next_id + milestone.len(),
                AchievementType::GenerousCompany,
                company,
                Some(challenge_id),
                now,
            ),
        ]
    } else {
        milestone
    }
}

/// A saturating counter bump.
pub open spec fn clamp_add(x: u64, y: int) -> u64 {
    if x + y > u64::MAX {
        u64::MAX
    } else {
        (x + y) as u64
    }
}

/// A profile after a recorded attack: one more completion, the bounty
/// earned, and the reputation gain, each saturating.
pub open spec fn attack_updated_profile(p: UserProfile, bounty_amount: u64) -> UserProfile {
    UserProfile {
        challenges_completed: clamp_add(p.challenges_completed, 1),
        total_earned: clamp_add(p.total_earned, bounty_amount as int),
        reputation: clamp_add(
            p.reputation,
            BASE_REPUTATION_GAIN + bounty_amount as int / 100,
        ),
        ..p
    }
}

/// A profile after a recorded challenge creation.
pub open spec fn creation_updated_profile(p: UserProfile, bounty_amount: u64) -> UserProfile {
    UserProfile {
        challenges_completed: clamp_add(p.challenges_completed, 1),
        total_earned: clamp_add(p.total_earned, bounty_amount as int),
        reputation: clamp_add(p.reputation, 10),
        ..p
    }
}

/// Longest accepted display name, in characters.
pub const MAX_DISPLAY_NAME_LENGTH: usize = 64;

/// Thirty days in nanoseconds.
pub const THIRTY_DAYS_NS: i64 = 30 * 24 * 3600 * 1_000_000_000;

/// One week in nanoseconds.
pub const WEEK_NS: i64 = 7 * 24 * 3600 * 1_000_000_000;

/// Counts profiles of one role created after `threshold`.
pub open spec fn recent_role_weight(role: UserRole, threshold: int) -> spec_fn(UserProfile) -> int {
    |p: UserProfile| if p.role == role && p.created_at > threshold {
        1int
    } else {
        0int
    }
}

/// Counts profiles created after `threshold`.
pub open spec fn recent_weight(threshold: int) -> spec_fn(UserProfile) -> int {
    |p: UserProfile| if p.created_at > threshold {
        1int
    } else {
        0int
    }
}

/// A display name must be non-empty and fit the length bound.
pub open spec fn display_name_valid(name: Seq<char>) -> bool {
    0 < name.len() <= MAX_DISPLAY_NAME_LENGTH
}

fn validate_display_name(name: &String) -> (r: Result<(), ZeroLockError>)
    ensures
        r is Ok <==> display_name_valid(name@),
        r matches Err(e) ==> e matches ZeroLockError::InvalidInput(_),
{
    let len = name.as_str().unicode_len();
    if len == 0 || len > MAX_DISPLAY_NAME_LENGTH {
        Err(ZeroLockError::InvalidInput("display name must be non-empty and fit the length bound".to_owned()))
    } else {
        Ok(())
    }
}

fn find_profile_slot(profiles: &Vec<UserProfile>, user: Principal) -> (r: Option<usize>)
    ensures
        match r {
            Some(j) => j == profile_index_in(profiles@, user) && j < profiles@.len(),
            None => profile_index_in(profiles@, user) == -1,
        },
{
    let mut i: usize = 0;
    while i < profiles.len()
        invariant
            i <= profiles@.len(),
            forall|k: int| 0 <= k < i ==> !(profile_pred(user))(#[trigger] profiles@[k]),
        decreases profiles@.len() - i,
    {
        if profiles[i].principal == user {
            proof {
                lemma_find_first_properties(profiles@, profile_pred(user));
                assert((profile_pred(user))(profiles@[i as int]));
            }
            return Some(i);
        }
        i += 1;
    }
    proof {
        lemma_find_first_properties(profiles@, profile_pred(user));
    }
    None
}

fn find_name_slot(names: &Vec<DisplayNameEntry>, user: Principal) -> (r: Option<usize>)
    ensures
        match r {
            Some(j) => j == name_index_in(names@, user) && j < names@.len(),
            None => name_index_in(names@, user) == -1,
        },
{
    let mut i: usize = 0;
    while i < names.len()
        invariant
            i <= names@.len(),
            forall|k: int| 0 <= k < i ==> !(name_pred(user))(#[trigger] names@[k]),
        decreases names@.len() - i,
    {
        if names[i].principal == user {
            proof {
                lemma_find_first_properties(names@, name_pred(user));
                assert((name_pred(user))(names@[i as int]));
            }
            return Some(i);
        }
        i += 1;
    }
    proof {
        lemma_find_first_properties(names@, name_pred(user));
    }
    None
}

fn find_chist_slot(hists: &Vec<ChallengeHistoryEntry>, user: Principal) -> (r: Option<usize>)
    ensures
        match r {
            Some(j) => j == chist_index_in(hists@, user) && j < hists@.len(),
            None => chist_index_in(hists@, user) == -1,
        },
{
    let mut i: usize = 0;
    while i < hists.len()
        invariant
            i <= hists@.len(),
            forall|k: int| 0 <= k < i ==> !(chist_pred(user))(#[trigger] hists@[k]),
        decreases hists@.len() - i,
    {
        if hists[i].principal == user {
            proof {
                lemma_find_first_properties(hists@, chist_pred(user));
                assert((chist_pred(user))(hists@[i as int]));
            }
            return Some(i);
        }
        i += 1;
    }
    proof {
        lemma_find_first_properties(hists@, chist_pred(user));
    }
    None
}

/// The leaderboard component.
pub struct Leaderboard {
    pub profiles: Vec<UserProfile>,
    pub display_names: Vec<DisplayNameEntry>,
    pub achievements: Vec<Achievement>,
    pub challenge_history: Vec<ChallengeHistoryEntry>,
    pub platform_stats: PlatformStats,
    pub bounty_factory: Option<Principal>,
    /// The identity allowed to rewire the reporting registry; fixed when the
    /// leaderboard is stood up.
    pub governance: Principal,
}

impl Leaderboard {
    pub open spec fn wf(self) -> bool {
        &&& forall|i: int, j: int|
            0 <= i < j < self.profiles@.len() ==> (#[trigger] self.profiles@[i]).principal != (
            #[trigger] self.profiles@[j]).principal
        &&& forall|i: int, j: int|
            0 <= i < j < self.display_names@.len() ==> (
            #[trigger] self.display_names@[i]).principal != (
            #[trigger] self.display_names@[j]).principal
        &&& forall|i: int, j: int|
            0 <= i < j < self.challenge_history@.len() ==> (
            #[trigger] self.challenge_history@[i]).principal != (
            #[trigger] self.challenge_history@[j]).principal
        &&& forall|i: int|
            0 <= i < self.achievements@.len() ==> (#[trigger] self.achievements@[i]).id == i + 1
    }

    pub open spec fn spec_profile_of(self, user: Principal) -> Option<UserProfile> {
        profile_of_in(self.profiles@, user)
    }

    pub open spec fn spec_name_of(self, user: Principal) -> Option<Seq<char>> {
        name_of_in(self.display_names@, user)
    }

    pub open spec fn spec_challenges_of(self, user: Principal) -> Seq<u64> {
        chist_of_in(self.challenge_history@, user)
    }

    /// A fresh leaderboard with no users recorded, governed by `governance`.
    pub fn new(governance: Principal) -> (l: Leaderboard)
        ensures
            l.wf(),
            l.governance == governance,
            l.profiles@.len() == 0,
            l.display_names@.len() == 0,
            l.achievements@.len() == 0,
            l.challenge_history@.len() == 0,
            l.platform_stats == (PlatformStats {
                total_challenges: 0,
                active_challenges: 0,
                completed_challenges: 0,
                total_bounty_paid: 0,
                total_bounties_paid: 0,
                successful_attacks: 0,
                total_hackers: 0,
                total_companies: 0,
            }),
            l.bounty_factory is None,
    {
        Leaderboard {
            profiles: Vec::new(),
            display_names: Vec::new(),
            achievements: Vec::new(),
            challenge_history: Vec::new(),
            platform_stats: PlatformStats::default(),
            bounty_factory: None,
            governance,
        }
    }

    /// Registers the caller under a role; anonymous callers and second
    /// registrations are rejected.
    pub fn register_user(&mut self, caller: Principal, role: UserRole, now: u64) -> (r: Result<
        (),
        ZeroLockError,
    >)
        requires
            old(self).wf(),
        ensures
            final(self).wf(),
            r is Ok <==> (!caller.spec_is_anonymous() && old(self).spec_profile_of(caller) is None),
            r is Err ==> *final(self) == *old(self),
            caller.spec_is_anonymous() ==> r matches Err(ZeroLockError::Unauthorized(_)),
            !caller.spec_is_anonymous() && old(self).spec_profile_of(caller) is Some ==> r matches Err(
                ZeroLockError::AlreadyExists(_),
            ),
            r is Ok ==> ({
                &&& final(self).profiles@.len() == old(self).profiles@.len() + 1
                &&& final(self).profiles@.subrange(0, old(self).profiles@.len() as int) == old(
                    self,
                ).profiles@
                &&& ({
                    let p = final(self).profiles@.last();
                    &&& p.principal == caller
                    &&& p.username@ == Seq::<char>::empty()
                    &&& p.reputation == 0
                    &&& p.total_earned == 0
                    &&& p.challenges_completed == 0
                    &&& p.role == role
                    &&& p.created_at == now
                })
                &&& forall|u: Principal|
                    #![trigger final(self).spec_profile_of(u)]
                    u != caller ==> final(self).spec_profile_of(u) == old(self).spec_profile_of(u)
                &&& final(self).spec_profile_of(caller) == Some(final(self).profiles@.last())
                &&& final(self).display_names@ == old(self).display_names@
                &&& final(self).achievements@ == old(self).achievements@
                &&& final(self).challenge_history@ == old(self).challenge_history@
                &&& final(self).platform_stats == old(self).platform_stats
                &&& final(self).bounty_factory == old(self).bounty_factory
            }),
    {
        if caller.is_anonymous() {
            return Err(ZeroLockError::Unauthorized("anonymous principals cannot register".to_owned()));
        }
        let ghost s0 = self.profiles@;
        if let Some(_) = find_profile_slot(&self.profiles, caller) {
            return Err(ZeroLockError::AlreadyExists("user already registered".to_owned()));
        }
        let profile = UserProfile {
            principal: caller,
            username: String::new(),
            reputation: 0,
            total_earned: 0,
            challenges_completed: 0,
            role,
            created_at: now,
        };
        self.profiles.push(profile);
        proof {
            let s1 = self.profiles@;
            lemma_find_first_properties(s0, profile_pred(caller));
            assert(s1.subrange(0, s0.len() as int) =~= s0);
            assert forall|u: Principal|
                #![trigger profile_of_in(s1, u)]
                u != caller implies profile_of_in(s1, u) == profile_of_in(s0, u) by {
                lemma_find_first_push(s0, s1.last(), profile_pred(u));
                lemma_find_first_properties(s0, profile_pred(u));
            }
            lemma_find_first_push(s0, s1.last(), profile_pred(caller));
            assert forall|i: int, j: int|
                0 <= i < j < s1.len() implies (#[trigger] s1[i]).principal != (
                #[trigger] s1[j]).principal by {
                if j == s0.len() as int {
                    assert(!(profile_pred(caller))(s0[i]));
                }
            }
        }
        Ok(())
    }

    /// Sets the caller's display name; the caller must be registered and the
    /// name non-empty and within the length bound.
    pub fn set_display_name(&mut self, caller: Principal, name: String) -> (r: Result<
        (),
        ZeroLockError,
    >)
        requires
            old(self).wf(),
        ensures
            final(self).wf(),
            r is Ok <==> (!caller.spec_is_anonymous() && display_name_valid(name@) && old(
                self,
            ).spec_profile_of(caller) is Some),
            r is Err ==> *final(self) == *old(self),
            caller.spec_is_anonymous() ==> r matches Err(ZeroLockError::Unauthorized(_)),
            !caller.spec_is_anonymous() && !display_name_valid(name@) ==> r matches Err(
                ZeroLockError::InvalidInput(_),
            ),
            !caller.spec_is_anonymous() && display_name_valid(name@) && old(self).spec_profile_of(
                caller,
            ) is None ==> r matches Err(ZeroLockError::NotFound(_)),
            r is Ok ==> ({
                &&& forall|u: Principal|
                    #![trigger final(self).spec_name_of(u)]
                    final(self).spec_name_of(u) == if u == caller {
                        Some(name@)
                    } else {
                        old(self).spec_name_of(u)
                    }
                &&& final(self).profiles@ == old(self).profiles@
                &&& final(self).achievements@ == old(self).achievements@
                &&& final(self).challenge_history@ == old(self).challenge_history@
                &&& final(self).platform_stats == old(self).platform_stats
                &&& final(self).bounty_factory == old(self).bounty_factory
            }),
    {
        if caller.is_anonymous() {
            return Err(ZeroLockError::Unauthorized("anonymous principals cannot set a display name".to_owned()));
        }
        if let Err(e) = validate_display_name(&name) {
            return Err(e);
        }
        if let None = find_profile_slot(&self.profiles, caller) {
            return Err(ZeroLockError::NotFound("user not registered".to_owned()));
        }
        let ghost s0 = self.display_names@;
        match find_name_slot(&self.display_names, caller) {
            Some(j) => {
                let entry = DisplayNameEntry { principal: caller, name };
                self.display_names.set(j, entry);
                proof {
                    let s1 = self.display_names@;
                    lemma_find_first_properties(s0, name_pred(caller));
                    assert((name_pred(caller))(s0[j as int]));
                    assert forall|u: Principal|
                        #![trigger name_of_in(s1, u)]
                        name_of_in(s1, u) == if u == caller {
                            Some(name@)
                        } else {
                            name_of_in(s0, u)
                        } by {
                        lemma_find_first_update(s0, j as int, s1[j as int], name_pred(u));
                        lemma_find_first_properties(s0, name_pred(u));
                        let i = name_index_in(s0, u);
                        if u == caller {
                            assert(i == j);
                        } else {
                            if i >= 0 {
                                assert(i != j);
                            }
                        }
                    }
                }
            },
            None => {
                let entry = DisplayNameEntry { principal: caller, name };
                self.display_names.push(entry);
                proof {
                    let s1 = self.display_names@;
                    lemma_find_first_properties(s0, name_pred(caller));
                    assert forall|u: Principal|
                        #![trigger name_of_in(s1, u)]
                        name_of_in(s1, u) == if u == caller {
                            Some(name@)
                        } else {
                            name_of_in(s0, u)
                        } by {
                        lemma_find_first_push(s0, s1.last(), name_pred(u));
                        lemma_find_first_properties(s0, name_pred(u));
                    }
                    assert forall|i: int, j: int|
                        0 <= i < j < s1.len() implies (#[trigger] s1[i]).principal != (
                        #[trigger] s1[j]).principal by {
                        if j == s0.len() as int {
                            assert(!(name_pred(caller))(s0[i]));
                        }
                    }
                }
            },
        }
        Ok(())
    }

    /// Grants one achievement with the next monotonic id.
    fn grant_achievement(
        &mut self,
        recipient: Principal,
        achievement_type: AchievementType,
        challenge_id: Option<u64>,
        now: i64,
    )
        requires
            old(self).wf(),
            old(self).achievements@.len() + 2 <= u64::MAX,
        ensures
            final(self).wf(),
            achievement_views(final(self).achievements@) == achievement_views(
                old(self).achievements@,
            ).push(
                granted_view(
                    old(self).achievements@.len() as int + 1,
                    achievement_type,
                    recipient,
                    challenge_id,
                    now,
                ),
            ),
            final(self).achievements@.len() == old(self).achievements@.len() as int + 1,
            final(self).profiles@ == old(self).profiles@,
            final(self).display_names@ == old(self).display_names@,
            final(self).challenge_history@ == old(self).challenge_history@,
            final(self).platform_stats == old(self).platform_stats,
            final(self).bounty_factory == old(self).bounty_factory,
    {
        let description = match achievement_type {
            AchievementType::FirstBlood => String::from_str("Completed first successful attack"),
            AchievementType::TopEarner => String::from_str("Earned significant bounties"),
            AchievementType::SerialHacker => String::from_str("Completed 5 successful attacks"),
            AchievementType::QuickSolver => String::from_str("Solved a challenge in record time"),
            AchievementType::GenerousCompany => String::from_str("Offered a high-value bounty"),
            AchievementType::ActiveContributor => String::from_str("Created 5 challenges"),
        };
        let achievement = Achievement {
            id: self.achievements.len() as u64 + 1,
            achievement_type,
            recipient,
            timestamp: now,
            description,
            challenge_id,
        };
        let ghost a0 = self.achievements@;
        self.achievements.push(achievement);
        proof {
            assert(achievement_views(self.achievements@) =~= achievement_views(a0).push(
                granted_view(a0.len() as int + 1, achievement_type, recipient, challenge_id, now),
            ));
        }
    }

    /// Records the registry that may report attacks and creations. Only
    /// governance may rewire it.
    pub fn set_bounty_factory_canister(&mut self, caller: Principal, canister_id: Principal) -> (r:
        Result<(), ZeroLockError>)
        requires
            old(self).wf(),
        ensures
            final(self).wf(),
            r is Ok <==> caller == old(self).governance,
            r is Err ==> *final(self) == *old(self) && r matches Err(ZeroLockError::Unauthorized(_)),
            r is Ok ==> {
                &&& final(self).bounty_factory == Some(canister_id)
                &&& final(self).governance == old(self).governance
                &&& final(self).profiles@ == old(self).profiles@
                &&& final(self).display_names@ == old(self).display_names@
                &&& final(self).achievements@ == old(self).achievements@
                &&& final(self).challenge_history@ == old(self).challenge_history@
                &&& final(self).platform_stats == old(self).platform_stats
            },
    {
        if caller != self.governance {
            return Err(ZeroLockError::Unauthorized("only governance can rewire the leaderboard".to_owned()));
        }
        self.bounty_factory = Some(canister_id);
        Ok(())
    }

    /// The endpoint form of the registry setter.
    pub fn set_bounty_factory_for_leaderboard(&mut self, caller: Principal, canister: Principal) -> (r:
        Result<(), ZeroLockError>)
        requires
            old(self).wf(),
        ensures
            final(self).wf(),
            r is Ok <==> caller == old(self).governance,
            r is Err ==> *final(self) == *old(self) && r matches Err(ZeroLockError::Unauthorized(_)),
            r is Ok ==> {
                &&& final(self).bounty_factory == Some(canister)
                &&& final(self).governance == old(self).governance
                &&& final(self).profiles@ == old(self).profiles@
                &&& final(self).display_names@ == old(self).display_names@
                &&& final(self).achievements@ == old(self).achievements@
                &&& final(self).challenge_history@ == old(self).challenge_history@
                &&& final(self).platform_stats == old(self).platform_stats
            },
    {
        self.set_bounty_factory_canister(caller, canister)
    }

    /// The aggregate platform statistics.
    pub fn get_platform_stats(&self) -> (r: PlatformStats)
        ensures
            r == self.platform_stats,
    {
        self.platform_stats
    }

    /// Collects clones of the profiles holding one role, in store order.
    fn collect_role_profiles(&self, role: UserRole) -> (r: Vec<UserProfile>)
        ensures
            user_views(r@) == user_views(self.profiles@.filter(role_pred(role))),
    {
        let s = &self.profiles;
        let mut matched: Vec<UserProfile> = Vec::new();
        let mut i: usize = 0;
        while i < s.len()
            invariant
                i <= s@.len(),
                matched@.len() <= i,
                user_views(matched@) == user_views(s@.subrange(0, i as int).filter(role_pred(role))),
            decreases s@.len() - i,
        {
            let keep = s[i].role == role;
            proof {
                reveal(Seq::filter);
                assert(s@.subrange(0, i + 1).drop_last() =~= s@.subrange(0, i as int));
                assert(s@.subrange(0, i + 1).last() == s@[i as int]);
                assert(keep == (role_pred(role))(s@[i as int]));
                assert(s@.subrange(0, i as int).filter(role_pred(role)).len() <= s@.subrange(
                    0,
                    i as int,
                ).len());
            }
            if keep {
                let ghost m0 = matched@;
                let p = s[i].clone();
                matched.push(p);
                proof {
                    let f0 = s@.subrange(0, i as int).filter(role_pred(role));
                    assert(user_views(matched@) =~= user_views(m0).push(p@));
                    assert(user_views(f0.push(s@[i as int])) =~= user_views(f0).push(
                        s@[i as int]@,
                    ));
                }
            }
            i += 1;
        }
        proof {
            assert(s@.subrange(0, s@.len() as int) =~= s@);
        }
        matched
    }

    /// Looks up a user's display name, as a fresh value.
    fn lookup_display_name(&self, user: Principal) -> (r: Option<String>)
        ensures
            opt_name_view(r) == self.spec_name_of(user),
    {
        match find_name_slot(&self.display_names, user) {
            Some(j) => Some(self.display_names[j].name.clone()),
            None => None,
        }
    }

    /// The hacker leaderboard: the highest-reputation hackers, best first,
    /// ranked from 1, capped at `MAX_PAGE_LIMIT` rows.
    pub fn get_hacker_leaderboard(&self, limit: u64) -> (r: Vec<LeaderboardEntry>)
        requires
            self.wf(),
        ensures
            ({
                let tops = top_k_by_reputation(
                    user_views(self.profiles@.filter(role_pred(UserRole::Hacker))),
                    (if limit > MAX_PAGE_LIMIT {
                        MAX_PAGE_LIMIT
                    } else {
                        limit
                    }) as int,
                );
                &&& r@.len() == tops.len()
                &&& forall|i: int|
                    0 <= i < r@.len() ==> hacker_entry_ok(
                        #[trigger] r@[i],
                        tops[i],
                        i + 1,
                        self.spec_name_of(tops[i].principal),
                    )
            }),
            r@.len() <= limit,
            r@.len() <= MAX_PAGE_LIMIT,
            forall|i: int, j: int|
                0 <= i <= j < r@.len() ==> (#[trigger] r@[i]).reputation >= (
                #[trigger] r@[j]).reputation,
    {
        let lim: u64 = if limit > MAX_PAGE_LIMIT {
            MAX_PAGE_LIMIT
        } else {
            limit
        };
        let matched = self.collect_role_profiles(UserRole::Hacker);
        let ghost fv = user_views(self.profiles@.filter(role_pred(UserRole::Hacker)));
        let ghost tops = top_k_by_reputation(fv, lim as int);
        let top = top_profiles(matched, lim as usize);
        proof {
            lemma_top_k_sorted(fv, lim as int);
            assert(user_views(top@) == tops);
            assert(user_views(top@).len() == top@.len());
            assert(top@.len() <= lim);
        }
        let mut out: Vec<LeaderboardEntry> = Vec::new();
        let mut i: usize = 0;
        while i < top.len()
            invariant
                i <= top@.len(),
                user_views(top@) == tops,
                top@.len() == tops.len(),
                out@.len() == i,
                forall|m: int|
                    0 <= m < i ==> hacker_entry_ok(
                        #[trigger] out@[m],
                        tops[m],
                        m + 1,
                        self.spec_name_of(tops[m].principal),
                    ),
            decreases top@.len() - i,
        {
            let p = &top[i];
            let display_name = self.lookup_display_name(p.principal);
            let entry = LeaderboardEntry {
                rank: i as u64 + 1,
                principal: p.principal,
                display_name,
                reputation: p.reputation,
                challenges_completed: p.challenges_completed,
                total_earned: p.total_earned,
                created_at: p.created_at as i64,
            };
            proof {
                assert(top@[i as int]@ == tops[i as int]);
            }
            out.push(entry);
            i += 1;
        }
        proof {
            assert forall|a: int, b: int| 0 <= a <= b < out@.len() implies (
            #[trigger] out@[a]).reputation >= (#[trigger] out@[b]).reputation by {
                assert(hacker_entry_ok(out@[a], tops[a], a + 1, self.spec_name_of(tops[a].principal)));
                assert(hacker_entry_ok(out@[b], tops[b], b + 1, self.spec_name_of(tops[b].principal)));
            }
        }
        out
    }

    /// The company leaderboard: the highest-reputation companies, best
    /// first, ranked from 1, capped at `MAX_PAGE_LIMIT` rows.
    pub fn get_company_leaderboard(&self, limit: u64) -> (r: Vec<CompanyLeaderboardEntry>)
        requires
            self.wf(),
        ensures
            ({
                let tops = top_k_by_reputation(
                    user_views(self.profiles@.filter(role_pred(UserRole::Company))),
                    (if limit > MAX_PAGE_LIMIT {
                        MAX_PAGE_LIMIT
                    } else {
                        limit
                    }) as int,
                );
                &&& r@.len() == tops.len()
                &&& forall|i: int|
                    0 <= i < r@.len() ==> company_entry_ok(
                        #[trigger] r@[i],
                        tops[i],
                        i + 1,
                        self.spec_name_of(tops[i].principal),
                    )
            }),
            r@.len() <= limit,
            r@.len() <= MAX_PAGE_LIMIT,
            forall|i: int, j: int|
                0 <= i <= j < r@.len() ==> (#[trigger] r@[i]).reputation >= (
                #[trigger] r@[j]).reputation,
    {
        let lim: u64 = if limit > MAX_PAGE_LIMIT {
            MAX_PAGE_LIMIT
        } else {
            limit
        };
        let matched = self.collect_role_profiles(UserRole::Company);
        let ghost fv = user_views(self.profiles@.filter(role_pred(UserRole::Company)));
        let ghost tops = top_k_by_reputation(fv, lim as int);
        let top = top_profiles(matched, lim as usize);
        proof {
            lemma_top_k_sorted(fv, lim as int);
            assert(user_views(top@) == tops);
            assert(user_views(top@).len() == top@.len());
            assert(top@.len() <= lim);
        }
        let mut out: Vec<CompanyLeaderboardEntry> = Vec::new();
        let mut i: usize = 0;
        while i < top.len()
            invariant
                i <= top@.len(),
                user_views(top@) == tops,
                top@.len() == tops.len(),
                out@.len() == i,
                forall|m: int|
                    0 <= m < i ==> company_entry_ok(
                        #[trigger] out@[m],
                        tops[m],
                        m + 1,
                        self.spec_name_of(tops[m].principal),
                    ),
            decreases top@.len() - i,
        {
            let p = &top[i];
            let display_name = self.lookup_display_name(p.principal);
            let entry = CompanyLeaderboardEntry {
                rank: i as u64 + 1,
                principal: p.principal,
                display_name,
                reputation: p.reputation,
                challenges_completed: p.challenges_completed,
                total_earned: p.total_earned,
                created_at: p.created_at as i64,
            };
            proof {
                assert(top@[i as int]@ == tops[i as int]);
            }
            out.push(entry);
            i += 1;
        }
        proof {
            assert forall|a: int, b: int| 0 <= a <= b < out@.len() implies (
            #[trigger] out@[a]).reputation >= (#[trigger] out@[b]).reputation by {
                assert(company_entry_ok(out@[a], tops[a], a + 1, self.spec_name_of(tops[a].principal)));
                assert(company_entry_ok(out@[b], tops[b], b + 1, self.spec_name_of(tops[b].principal)));
            }
        }
        out
    }

    /// A user's profile, display name, achievements and challenge history.
    pub fn get_user_profile(&self, user: Principal) -> (r: Result<
        (UserProfile, Option<String>, Vec<Achievement>, Vec<u64>),
        ZeroLockError,
    >)
        ensures
            r is Ok <==> self.spec_profile_of(user) is Some,
            r matches Err(e) ==> e matches ZeroLockError::NotFound(_),
            r matches Ok(t) ==> ({
                &&& self.spec_profile_of(user) matches Some(p) && t.0@ == p@
                &&& opt_name_view(t.1) == self.spec_name_of(user)
                &&& achievement_views(t.2@) == achievement_views(
                    self.achievements@.filter(recipient_pred(user)),
                )
                &&& t.3@ == self.spec_challenges_of(user)
            }),
    {
        let j = match find_profile_slot(&self.profiles, user) {
            Some(j) => j,
            None => {
                return Err(ZeroLockError::NotFound("user profile not found".to_owned()));
            },
        };
        let profile = self.profiles[j].clone();
        let display_name = self.lookup_display_name(user);
        let s = &self.achievements;
        let mut user_achievements: Vec<Achievement> = Vec::new();
        let mut i: usize = 0;
        while i < s.len()
            invariant
                i <= s@.len(),
                user_achievements@.len() <= i,
                achievement_views(user_achievements@) == achievement_views(
                    s@.subrange(0, i as int).filter(recipient_pred(user)),
                ),
            decreases s@.len() - i,
        {
            let keep = s[i].recipient == user;
            proof {
                reveal(Seq::filter);
                assert(s@.subrange(0, i + 1).drop_last() =~= s@.subrange(0, i as int));
                assert(s@.subrange(0, i + 1).last() == s@[i as int]);
                assert(keep == (recipient_pred(user))(s@[i as int]));
                assert(s@.subrange(0, i as int).filter(recipient_pred(user)).len() <= s@.subrange(
                    0,
                    i as int,
                ).len());
            }
            if keep {
                let ghost m0 = user_achievements@;
                let a = s[i].clone();
                user_achievements.push(a);
                proof {
                    let f0 = s@.subrange(0, i as int).filter(recipient_pred(user));
                    assert(achievement_views(user_achievements@) =~= achievement_views(m0).push(
                        a@,
                    ));
                    assert(achievement_views(f0.push(s@[i as int])) =~= achievement_views(f0).push(
                        s@[i as int]@,
                    ));
                }
            }
            i += 1;
        }
        proof {
            assert(s@.subrange(0, s@.len() as int) =~= s@);
        }
        let user_challenges: Vec<u64> = match find_chist_slot(&self.challenge_history, user) {
            Some(h) => crate::types::clone_copy_vec(&self.challenge_history[h].challenges),
            None => Vec::new(),
        };
        proof {
            assert(user_challenges@ =~= self.spec_challenges_of(user));
        }
        Ok((profile, display_name, user_achievements, user_challenges))
    }

    /// User counts: everyone, recently created hackers and companies, and
    /// users registered in the last week.
    pub fn get_user_stats(&self, now: i64) -> (r: UserStats)
        requires
            now >= 0,
            self.profiles@.len() <= u64::MAX,
        ensures
            r.total_users == self.profiles@.len(),
            r.active_hackers == sum_by(
                self.profiles@,
                recent_role_weight(UserRole::Hacker, now - THIRTY_DAYS_NS),
            ),
            r.active_companies == sum_by(
                self.profiles@,
                recent_role_weight(UserRole::Company, now - THIRTY_DAYS_NS),
            ),
            r.new_users_last_week == sum_by(self.profiles@, recent_weight(now - WEEK_NS)),
    {
        let thirty_days_ago: i64 = now - THIRTY_DAYS_NS;
        let one_week_ago: i64 = now - WEEK_NS;
        let s = &self.profiles;
        let mut active_hackers: u64 = 0;
        let mut active_companies: u64 = 0;
        let mut new_users: u64 = 0;
        let mut i: usize = 0;
        while i < s.len()
            invariant
                i <= s@.len(),
                thirty_days_ago == now - THIRTY_DAYS_NS,
                one_week_ago == now - WEEK_NS,
                active_hackers == sum_by(
                    s@.subrange(0, i as int),
                    recent_role_weight(UserRole::Hacker, thirty_days_ago as int),
                ),
                active_companies == sum_by(
                    s@.subrange(0, i as int),
                    recent_role_weight(UserRole::Company, thirty_days_ago as int),
                ),
                new_users == sum_by(s@.subrange(0, i as int), recent_weight(one_week_ago as int)),
                active_hackers <= i && active_companies <= i && new_users <= i,
            decreases s@.len() - i,
        {
            proof {
                let pre = s@.subrange(0, i as int);
                let post = s@.subrange(0, i + 1);
                assert(post.drop_last() =~= pre);
                assert(post.last() == s@[i as int]);
            }
            let p = &s[i];
            let recent_month = thirty_days_ago < 0 || p.created_at > thirty_days_ago as u64;
            let recent_week = one_week_ago < 0 || p.created_at > one_week_ago as u64;
            match p.role {
                UserRole::Hacker => {
                    if recent_month {
                        active_hackers += 1;
                    }
                },
                UserRole::Company => {
                    if recent_month {
                        active_companies += 1;
                    }
                },
                UserRole::Admin => {},
            }
            if recent_week {
                new_users += 1;
            }
            i += 1;
        }
        proof {
            assert(s@.subrange(0, s@.len() as int) =~= s@);
        }
        UserStats {
            total_users: s.len() as u64,
            active_hackers,
            active_companies,
            new_users_last_week: new_users,
        }
    }

    /// Records a successful attack, reported by the registry: the attacker's
    /// profile, history, achievements and the platform totals are updated.
    /// Counters saturate rather than wrap.
    pub fn record_successful_attack(
        &mut self,
        caller: Principal,
        attacker: Principal,
        challenge_id: u64,
        bounty_amount: u64,
        now: i64,
    ) -> (r: Result<(), ZeroLockError>)
        requires
            old(self).wf(),
            old(self).achievements@.len() + 3 <= u64::MAX,
        ensures
            final(self).wf(),
            r is Ok <==> (old(self).bounty_factory matches Some(bf) && caller == bf),
            r is Err ==> *final(self) == *old(self) && r matches Err(ZeroLockError::Unauthorized(_)),
            r is Ok ==> ({
                let completed_after: int = match old(self).spec_profile_of(attacker) {
                    Some(p) => clamp_add(p.challenges_completed, 1) as int,
                    None => 0,
                };
                &&& forall|u: Principal|
                    #![trigger final(self).spec_profile_of(u)]
                    final(self).spec_profile_of(u) == if u == attacker && old(self).spec_profile_of(
                        attacker,
                    ) is Some {
                        Some(
                            attack_updated_profile(
                                old(self).spec_profile_of(attacker)->Some_0,
                                bounty_amount,
                            ),
                        )
                    } else {
                        old(self).spec_profile_of(u)
                    }
                &&& forall|u: Principal|
                    #![trigger final(self).spec_challenges_of(u)]
                    final(self).spec_challenges_of(u) == if u == attacker {
                        old(self).spec_challenges_of(u).push(challenge_id)
                    } else {
                        old(self).spec_challenges_of(u)
                    }
                &&& achievement_views(final(self).achievements@) == achievement_views(
                    old(self).achievements@,
                ) + attack_achievement_views(
                    old(self).achievements@.len() as int + 1,
                    attacker,
                    challenge_id,
                    bounty_amount,
                    completed_after,
                    now,
                )
                &&& final(self).platform_stats == (PlatformStats {
                    total_bounties_paid: clamp_add(
                        old(self).platform_stats.total_bounties_paid,
                        bounty_amount as int,
                    ),
                    successful_attacks: clamp_add(old(self).platform_stats.successful_attacks, 1),
                    ..old(self).platform_stats
                })
                &&& final(self).display_names@ == old(self).display_names@
                &&& final(self).bounty_factory == old(self).bounty_factory
            }),
    {
        let authorized = match self.bounty_factory {
            Some(bf) => caller == bf,
            None => false,
        };
        if !authorized {
            return Err(ZeroLockError::Unauthorized("only the challenge registry can record attacks".to_owned()));
        }
        let ghost p0 = self.profiles@;
        let completed_after: u64 = match find_profile_slot(&self.profiles, attacker) {
            Some(j) => {
                proof {
                    lemma_find_first_properties(p0, profile_pred(attacker));
                    assert((profile_pred(attacker))(p0[j as int]));
                }
                let gain = calculate_reputation_gain(bounty_amount);
                let p = &mut self.profiles[j];
                p.challenges_completed = p.challenges_completed.saturating_add(1);
                p.total_earned = p.total_earned.saturating_add(bounty_amount);
                p.reputation = p.reputation.saturating_add(gain);
                let after = self.profiles[j].challenges_completed;
                proof {
                    let s1 = self.profiles@;
                    assert(s1[j as int] == attack_updated_profile(p0[j as int], bounty_amount));
                    assert forall|u: Principal|
                        #![trigger profile_of_in(s1, u)]
                        profile_of_in(s1, u) == if u == attacker {
                            Some(attack_updated_profile(p0[j as int], bounty_amount))
                        } else {
                            profile_of_in(p0, u)
                        } by {
                        lemma_find_first_update(p0, j as int, s1[j as int], profile_pred(u));
                        lemma_find_first_properties(p0, profile_pred(u));
                        let i = profile_index_in(p0, u);
                        if u == attacker {
                            assert(i == j);
                        } else {
                            if i >= 0 {
                                assert(i != j);
                            }
                        }
                    }
                }
                after
            },
            None => 0,
        };
        let ghost h0 = self.challenge_history@;
        match find_chist_slot(&self.challenge_history, attacker) {
            Some(j) => {
                proof {
                    lemma_find_first_properties(h0, chist_pred(attacker));
                    assert((chist_pred(attacker))(h0[j as int]));
                }
                let h = &mut self.challenge_history[j];
                h.challenges.push(challenge_id);
                proof {
                    let s1 = self.challenge_history@;
                    assert(s1[j as int].principal == attacker);
                    assert(s1[j as int].challenges@ == h0[j as int].challenges@.push(challenge_id));
                    assert(s1 =~= h0.update(j as int, s1[j as int]));
                    assert forall|u: Principal|
                        #![trigger chist_of_in(s1, u)]
                        chist_of_in(s1, u) == if u == attacker {
                            chist_of_in(h0, u).push(challenge_id)
                        } else {
                            chist_of_in(h0, u)
                        } by {
                        lemma_find_first_update(h0, j as int, s1[j as int], chist_pred(u));
                        lemma_find_first_properties(h0, chist_pred(u));
                        let i = chist_index_in(h0, u);
                        if u == attacker {
                            assert(i == j);
                        } else {
                            if i >= 0 {
                                assert(i != j);
                            }
                        }
                    }
                }
            },
            None => {
                let mut challenges: Vec<u64> = Vec::new();
                challenges.push(challenge_id);
                let entry = ChallengeHistoryEntry { principal: attacker, challenges };
                self.challenge_history.push(entry);
                proof {
                    let s1 = self.challenge_history@;
                    lemma_find_first_properties(h0, chist_pred(attacker));
                    assert forall|u: Principal|
                        #![trigger chist_of_in(s1, u)]
                        chist_of_in(s1, u) == if u == attacker {
                            chist_of_in(h0, u).push(challenge_id)
                        } else {
                            chist_of_in(h0, u)
                        } by {
                        lemma_find_first_push(h0, s1.last(), chist_pred(u));
                        lemma_find_first_properties(h0, chist_pred(u));
                        if u == attacker {
                            assert(chist_of_in(h0, u) =~= Seq::<u64>::empty());
                            assert(chist_of_in(s1, u) =~= Seq::<u64>::empty().push(challenge_id));
                        }
                    }
                    assert forall|i: int, j: int|
                        0 <= i < j < s1.len() implies (#[trigger] s1[i]).principal != (
                        #[trigger] s1[j]).principal by {
                        if j == h0.len() as int {
                            assert(!(chist_pred(attacker))(h0[i]));
                        }
                    }
                }
            },
        }
        let ghost a0 = self.achievements@;
        if completed_after == 1 {
            self.grant_achievement(attacker, AchievementType::FirstBlood, Some(challenge_id), now);
        } else if completed_after == 5 {
            self.grant_achievement(
                attacker,
                AchievementType::SerialHacker,
                Some(challenge_id),
                now,
            );
        }
        if bounty_amount >= HIGH_VALUE_BOUNTY {
            self.grant_achievement(attacker, AchievementType::TopEarner, Some(challenge_id), now);
        }
        proof {
            assert(achievement_views(self.achievements@) =~= achievement_views(a0)
                + attack_achievement_views(
                a0.len() as int + 1,
                attacker,
                challenge_id,
                bounty_amount,
                completed_after as int,
                now,
            ));
        }
        self.platform_stats.total_bounties_paid =
            self.platform_stats.total_bounties_paid.saturating_add(bounty_amount);
        self.platform_stats.successful_attacks =
            self.platform_stats.successful_attacks.saturating_add(1);
        Ok(())
    }

    /// Records a created challenge, reported by the registry: the company's
    /// profile, achievements and the platform totals are updated. Counters
    /// saturate rather than wrap.
    pub fn record_challenge_creation(
        &mut self,
        caller: Principal,
        company: Principal,
        challenge_id: u64,
        bounty_amount: u64,
        now: i64,
    ) -> (r: Result<(), ZeroLockError>)
        requires
            old(self).wf(),
            old(self).achievements@.len() + 3 <= u64::MAX,
        ensures
            final(self).wf(),
            r is Ok <==> (old(self).bounty_factory matches Some(bf) && caller == bf),
            r is Err ==> *final(self) == *old(self) && r matches Err(ZeroLockError::Unauthorized(_)),
            r is Ok ==> ({
                let created_after: int = match old(self).spec_profile_of(company) {
                    Some(p) => clamp_add(p.challenges_completed, 1) as int,
                    None => 0,
                };
                &&& forall|u: Principal|
                    #![trigger final(self).spec_profile_of(u)]
                    final(self).spec_profile_of(u) == if u == company && old(self).spec_profile_of(
                        company,
                    ) is Some {
                        Some(
                            creation_updated_profile(
                                old(self).spec_profile_of(company)->Some_0,
                                bounty_amount,
                            ),
                        )
                    } else {
                        old(self).spec_profile_of(u)
                    }
                &&& achievement_views(final(self).achievements@) == achievement_views(
                    old(self).achievements@,
                ) + creation_achievement_views(
                    old(self).achievements@.len() as int + 1,
                    company,
                    challenge_id,
                    bounty_amount,
                    created_after,
                    now,
                )
                &&& final(self).platform_stats == (PlatformStats {
                    total_challenges: clamp_add(old(self).platform_stats.total_challenges, 1),
                    active_challenges: clamp_add(old(self).platform_stats.active_challenges, 1),
                    ..old(self).platform_stats
                })
                &&& final(self).challenge_history@ == old(self).challenge_history@
                &&& final(self).display_names@ == old(self).display_names@
                &&& final(self).bounty_factory == old(self).bounty_factory
            }),
    {
        let authorized = match self.bounty_factory {
            Some(bf) => caller == bf,
            None => false,
        };
        if !authorized {
            return Err(ZeroLockError::Unauthorized("only the challenge registry can record creations".to_owned()));
        }
        let ghost p0 = self.profiles@;
        let created_after: u64 = match find_profile_slot(&self.profiles, company) {
            Some(j) => {
                proof {
                    lemma_find_first_properties(p0, profile_pred(company));
                    assert((profile_pred(company))(p0[j as int]));
                }
                let p = &mut self.profiles[j];
                p.challenges_completed = p.challenges_completed.saturating_add(1);
                p.total_earned = p.total_earned.saturating_add(bounty_amount);
                p.reputation = p.reputation.saturating_add(10);
                let after = self.profiles[j].challenges_completed;
                proof {
                    let s1 = self.profiles@;
                    assert(s1[j as int] == creation_updated_profile(p0[j as int], bounty_amount));
                    assert forall|u: Principal|
                        #![trigger profile_of_in(s1, u)]
                        profile_of_in(s1, u) == if u == company {
                            Some(creation_updated_profile(p0[j as int], bounty_amount))
                        } else {
                            profile_of_in(p0, u)
                        } by {
                        lemma_find_first_update(p0, j as int, s1[j as int], profile_pred(u));
                        lemma_find_first_properties(p0, profile_pred(u));
                        let i = profile_index_in(p0, u);
                        if u == company {
                            assert(i == j);
                        } else {
                            if i >= 0 {
                                assert(i != j);
                            }
                        }
                    }
                }
                after
            },
            None => 0,
        };
        let ghost a0 = self.achievements@;
        if created_after == 5 {
            self.grant_achievement(
                company,
                AchievementType::ActiveContributor,
                Some(challenge_id),
                now,
            );
        }
        if bounty_amount >= GENEROUS_BOUNTY {
            self.grant_achievement(
                company,
                AchievementType::GenerousCompany,
                Some(challenge_id),
                now,
            );
        }
        proof {
            assert(achievement_views(self.achievements@) =~= achievement_views(a0)
                + creation_achievement_views(
                a0.len() as int + 1,
                company,
                challenge_id,
                bounty_amount,
                created_after as int,
                now,
            ));
        }
        self.platform_stats.total_challenges =
            self.platform_stats.total_challenges.saturating_add(1);
        self.platform_stats.active_challenges =
            self.platform_stats.active_challenges.saturating_add(1);
        Ok(())
    }
}

/// One leaderboard row matches the profile it ranks.
pub open spec fn hacker_entry_ok(
    e: LeaderboardEntry,
    t: UserProfileView,
    rank: int,
    name: Option<Seq<char>>,
) -> bool {
    &&& e.rank == rank
    &&& e.principal == t.principal
    &&& e.reputation == t.reputation
    &&& e.challenges_completed == t.challenges_completed
    &&& e.total_earned == t.total_earned
    &&& e.created_at == t.created_at as i64
    &&& opt_name_view(e.display_name) == name
}

pub open spec fn company_entry_ok(
    e: CompanyLeaderboardEntry,
    t: UserProfileView,
    rank: int,
    name: Option<Seq<char>>,
) -> bool {
    &&& e.rank == rank
    &&& e.principal == t.principal
    &&& e.reputation == t.reputation
    &&& e.challenges_completed == t.challenges_completed
    &&& e.total_earned == t.total_earned
    &&& e.created_at == t.created_at as i64
    &&& opt_name_view(e.display_name) == name
}

/// Selects the `k` highest-reputation profiles, best first.
fn top_profiles(profiles: Vec<UserProfile>, k: usize) -> (r: Vec<UserProfile>)
    ensures
        user_views(r@) == top_k_by_reputation(user_views(profiles@), k as int),
{
    let ghost v0 = user_views(profiles@);
    let mut matched = profiles;
    let mut out: Vec<UserProfile> = Vec::new();
    proof {
        assert(user_views(out@) =~= Seq::<UserProfileView>::empty());
        assert(user_views(out@) + top_k_by_reputation(user_views(matched@), k as int)
            =~= top_k_by_reputation(v0, k as int));
    }
    while out.len() < k && matched.len() > 0
        invariant
            out@.len() <= k,
            top_k_by_reputation(v0, k as int) == user_views(out@) + top_k_by_reputation(
                user_views(matched@),
                k as int - out@.len(),
            ),
        decreases matched@.len(),
    {
        let ghost mv = user_views(matched@);
        let ghost out0 = out@;
        let mut best: usize = 0;
        let mut i: usize = 1;
        while i < matched.len()
            invariant
                matched@.len() > 0,
                best < i,
                i <= matched@.len(),
                best == first_max_index(user_views(matched@).subrange(0, i as int)),
            decreases matched@.len() - i,
        {
            proof {
                let pre = user_views(matched@).subrange(0, i as int);
                let post = user_views(matched@).subrange(0, i + 1);
                assert(post.drop_last() =~= pre);
                assert(post.last() == user_views(matched@)[i as int]);
            }
            if matched[i].reputation > matched[best].reputation {
                best = i;
            }
            i += 1;
        }
        proof {
            assert(user_views(matched@).subrange(0, matched@.len() as int) =~= mv);
            assert(best == first_max_index(mv));
            lemma_first_max_index(mv);
        }
        let p = matched.remove(best);
        out.push(p);
        proof {
            assert(p@ == mv[best as int]);
            assert(user_views(matched@) =~= mv.remove(best as int));
            assert(user_views(out@) =~= user_views(out0).push(p@));
            let krem = k as int - out0.len();
            assert(top_k_by_reputation(mv, krem) == seq![mv[best as int]]
                + top_k_by_reputation(mv.remove(best as int), krem - 1));
            assert(user_views(out0) + (seq![mv[best as int]] + top_k_by_reputation(
                mv.remove(best as int),
                krem - 1,
            )) =~= (user_views(out0).push(p@)) + top_k_by_reputation(
                mv.remove(best as int),
                krem - 1,
            ));
        }
    }
    proof {
        assert(top_k_by_reputation(user_views(matched@), k as int - out@.len())
            =~= Seq::<UserProfileView>::empty());
        assert(user_views(out@) + Seq::<UserProfileView>::empty() =~= user_views(out@));
    }
    out
}

} // verus!
