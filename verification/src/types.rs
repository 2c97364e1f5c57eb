//! Shared data model: identities, token types, challenge and ledger records,
//! error kinds, and the small pure predicates that the components agree on.

use vstd::prelude::*;

verus! {

/// An opaque caller identity. The runtime hands every operation the identity
/// of its caller; the logic only ever compares identities for equality and
/// tests for the distinguished anonymous identity, so an identity is modelled
/// as a plain number with `0` reserved for the anonymous caller.
#[derive(Clone, Copy, Debug, PartialEq, Eq, Structural, Hash)]
pub struct Principal {
    pub id: u64,
}

impl Principal {
    /// The distinguished anonymous identity, rejected by every
    /// money- or dispute-creating operation.
    pub fn anonymous() -> (r: Principal)
        ensures
            r.id == 0,
    {
        Principal { id: 0 }
    }

    pub open spec fn spec_is_anonymous(self) -> bool {
        self.id == 0
    }

    pub fn is_anonymous(&self) -> (r: bool)
        ensures
            r == self.spec_is_anonymous(),
    {
        self.id == 0
    }
}

/// Hard cap on the page size of every listing query.
pub const MAX_PAGE_LIMIT: u64 = 100;

/// Token types supported by the platform.
#[derive(Clone, Copy, Debug, PartialEq, Eq, Structural, Hash)]
pub enum TokenType {
    ICP,
    ICRC1(Principal),
}

/// The view of one byte payload.
pub open spec fn bytes_view() -> spec_fn(Vec<u8>) -> Seq<u8> {
    |b: Vec<u8>| b@
}

/// The views of a sequence of byte payloads.
pub open spec fn payload_views(s: Seq<Vec<u8>>) -> Seq<Seq<u8>> {
    s.map_values(bytes_view())
}

/// Copies a vector of plainly copyable values; the copy has the same view.
pub fn clone_copy_vec<T: Copy>(v: &Vec<T>) -> (r: Vec<T>)
    ensures
        r@ == v@,
{
    let mut r: Vec<T> = Vec::new();
    let mut i: usize = 0;
    while i < v.len()
        invariant
            i <= v.len(),
            r@ == v@.subrange(0, i as int),
        decreases v.len() - i,
    {
        r.push(v[i]);
        proof {
            assert(v@.subrange(0, i + 1) =~= v@.subrange(0, i as int).push(v@[i as int]));
        }
        i += 1;
    }
    proof {
        assert(v@.subrange(0, v@.len() as int) =~= v@);
    }
    r
}

/// Copies a byte payload; the copy has the same view.
pub fn clone_bytes(v: &Vec<u8>) -> (r: Vec<u8>)
    ensures
        r@ == v@,
{
    clone_copy_vec(v)
}

/// Challenge lifecycle states.
#[derive(Clone, Copy, Debug, PartialEq, Eq, Structural, Hash)]
pub enum ChallengeStatus {
    Created,
    Active,
    Completed,
    Expired,
    Cancelled,
}

/// Error kinds used across the platform. Each failure carries a
/// human-readable reason; contracts speak only of the kind.
#[derive(Clone, Debug)]
pub enum ZeroLockError {
    NotFound(String),
    Unauthorized(String),
    InvalidInput(String),
    InternalError(String),
    ResourceLimit(String),
    InvalidState(String),
    InsufficientFunds(String),
    NetworkError(String),
    AlreadyExists(String),
}

/// Response wrapper for the message boundary. The component operations
/// themselves return `Result`; this mirror exists for callers that need a
/// concrete sum type of their own.
#[derive(Clone, Debug)]
pub enum ApiResponse<T> {
    Success(T),
    Failure(ZeroLockError),
}

impl<T> ApiResponse<T> {
    pub fn from_result(result: Result<T, ZeroLockError>) -> (r: ApiResponse<T>)
        ensures
            result matches Ok(v) ==> r matches ApiResponse::Success(u) && u == v,
            result matches Err(e) ==> r matches ApiResponse::Failure(f) && f == e,
    {
        match result {
            Ok(value) => ApiResponse::Success(value),
            Err(error) => ApiResponse::Failure(error),
        }
    }
}

pub fn is_valid_difficulty_level(level: u8) -> (r: bool)
    ensures
        r == (1 <= level <= 5),
{
    level >= 1 && level <= 5
}

pub fn is_valid_token_type(token: &TokenType) -> (r: bool)
    ensures
        r,
{
    match token {
        TokenType::ICP => true,
        TokenType::ICRC1(_) => true,
    }
}

/// Whether a status is terminal: no transition leaves it except to itself.
pub open spec fn spec_is_final_status(status: ChallengeStatus) -> bool {
    status is Completed || status is Expired || status is Cancelled
}

pub fn is_final_status(status: &ChallengeStatus) -> (r: bool)
    ensures
        r == spec_is_final_status(*status),
{
    matches!(status, ChallengeStatus::Completed | ChallengeStatus::Expired | ChallengeStatus::Cancelled)
}

/// The lifecycle transition table: `Created -> Active`,
/// `Created -> Cancelled`, `Active -> {Completed, Expired, Cancelled}`,
/// and every status may be re-asserted unchanged.
pub open spec fn spec_can_transition_to(from: ChallengeStatus, to: ChallengeStatus) -> bool {
    match (from, to) {
        (ChallengeStatus::Created, ChallengeStatus::Active) => true,
        (ChallengeStatus::Created, ChallengeStatus::Cancelled) => true,
        (ChallengeStatus::Active, ChallengeStatus::Completed) => true,
        (ChallengeStatus::Active, ChallengeStatus::Expired) => true,
        (ChallengeStatus::Active, ChallengeStatus::Cancelled) => true,
        (_, _) => from == to,
    }
}

pub fn can_transition_to(from: &ChallengeStatus, to: &ChallengeStatus) -> (r: bool)
    ensures
        r == spec_can_transition_to(*from, *to),
{
    match (from, to) {
        (ChallengeStatus::Created, ChallengeStatus::Active) => true,
        (ChallengeStatus::Created, ChallengeStatus::Cancelled) => true,
        (ChallengeStatus::Active, ChallengeStatus::Completed) => true,
        (ChallengeStatus::Active, ChallengeStatus::Expired) => true,
        (ChallengeStatus::Active, ChallengeStatus::Cancelled) => true,
        (f, t) => f == t,
    }
}

/// Re-asserting the current status is always a legal (no-op) transition.
pub proof fn lemma_same_status_transition_allowed(status: ChallengeStatus)
    ensures
        spec_can_transition_to(status, status),
{
}

/// Computes a deadline from the current time, as handed in by the caller.
pub fn time_from_now(now: i64, duration_ns: u64) -> (r: i64)
    requires
        duration_ns <= i64::MAX,
        now + duration_ns <= i64::MAX,
    ensures
        r == now + duration_ns,
{
    now + duration_ns as i64
}

/// A published security challenge with an escrowed bounty.
pub struct Challenge {
    pub id: u64,
    pub company: Principal,
    pub target_canister: Option<Principal>,
    pub wasm_code: Vec<u8>,
    pub candid_interface: String,
    pub bounty_amount: u64,
    pub token_type: TokenType,
    pub start_time: i64,
    pub end_time: i64,
    pub status: ChallengeStatus,
    pub description: String,
    pub difficulty_level: u8,
    pub created_at: i64,
    pub updated_at: i64,
}

/// Mathematical model of a challenge: payloads and text as sequences.
pub struct ChallengeView {
    pub id: u64,
    pub company: Principal,
    pub target_canister: Option<Principal>,
    pub wasm_code: Seq<u8>,
    pub candid_interface: Seq<char>,
    pub bounty_amount: u64,
    pub token_type: TokenType,
    pub start_time: i64,
    pub end_time: i64,
    pub status: ChallengeStatus,
    pub description: Seq<char>,
    pub difficulty_level: u8,
    pub created_at: i64,
    pub updated_at: i64,
}

impl View for Challenge {
    type V = ChallengeView;

    open spec fn view(&self) -> ChallengeView {
        ChallengeView {
            id: self.id,
            company: self.company,
            target_canister: self.target_canister,
            wasm_code: self.wasm_code@,
            candid_interface: self.candid_interface@,
            bounty_amount: self.bounty_amount,
            token_type: self.token_type,
            start_time: self.start_time,
            end_time: self.end_time,
            status: self.status,
            description: self.description@,
            difficulty_level: self.difficulty_level,
            created_at: self.created_at,
            updated_at: self.updated_at,
        }
    }
}

impl Clone for Challenge {
    fn clone(&self) -> (r: Self)
        ensures
            r@ == self@,
    {
        Challenge {
            id: self.id,
            company: self.company,
            target_canister: self.target_canister,
            wasm_code: clone_bytes(&self.wasm_code),
            candid_interface: self.candid_interface.clone(),
            bounty_amount: self.bounty_amount,
            token_type: self.token_type,
            start_time: self.start_time,
            end_time: self.end_time,
            status: self.status,
            description: self.description.clone(),
            difficulty_level: self.difficulty_level,
            created_at: self.created_at,
            updated_at: self.updated_at,
        }
    }
}

/// A submitted claim that an exploit succeeded against a target.
pub struct AttackAttempt {
    pub id: u64,
    pub challenge_id: u64,
    pub hacker: Principal,
    pub timestamp: i64,
    pub success: bool,
    pub proof_data: Option<Vec<u8>>,
    pub gas_used: u64,
}

/// Ledger transaction kinds.
#[derive(Clone, Copy, Debug, PartialEq, Eq, Structural, Hash)]
pub enum TransactionType {
    Lock,
    Unlock,
    Payout,
    Refund,
    Fee,
}

#[derive(Clone, Copy, Debug, PartialEq, Eq, Structural, Hash)]
pub enum TransactionStatus {
    Pending,
    Completed,
    Failed,
    Cancelled,
}

/// An immutable ledger entry; never mutated after insertion.
#[derive(Clone, Copy, Debug, PartialEq, Eq, Structural, Hash)]
pub struct Transaction {
    pub id: u64,
    pub transaction_type: TransactionType,
    pub challenge_id: u64,
    pub from: Principal,
    pub to: Principal,
    pub amount: u64,
    pub token_type: TokenType,
    pub timestamp: i64,
    pub status: TransactionStatus,
}

/// Decisions the judge can reach about an attack attempt.
#[derive(Clone, Copy, Debug, PartialEq, Eq, Structural, Hash)]
pub enum JudgeDecision {
    Valid,
    Invalid,
    Disputed,
    Pending,
}

/// An immutable evaluation record in the judge's audit trail.
pub struct Evaluation {
    pub id: u64,
    pub challenge_id: u64,
    pub attack_attempt_id: u64,
    pub decision: JudgeDecision,
    pub reasoning: String,
    pub timestamp: i64,
    pub evaluator: Principal,
}

pub struct EvaluationView {
    pub id: u64,
    pub challenge_id: u64,
    pub attack_attempt_id: u64,
    pub decision: JudgeDecision,
    pub reasoning: Seq<char>,
    pub timestamp: i64,
    pub evaluator: Principal,
}

impl View for Evaluation {
    type V = EvaluationView;

    open spec fn view(&self) -> EvaluationView {
        EvaluationView {
            id: self.id,
            challenge_id: self.challenge_id,
            attack_attempt_id: self.attack_attempt_id,
            decision: self.decision,
            reasoning: self.reasoning@,
            timestamp: self.timestamp,
            evaluator: self.evaluator,
        }
    }
}

impl Clone for Evaluation {
    fn clone(&self) -> (r: Self)
        ensures
            r@ == self@,
    {
        Evaluation {
            id: self.id,
            challenge_id: self.challenge_id,
            attack_attempt_id: self.attack_attempt_id,
            decision: self.decision,
            reasoning: self.reasoning.clone(),
            timestamp: self.timestamp,
            evaluator: self.evaluator,
        }
    }
}

/// Aggregate platform statistics, maintained by the leaderboard.
#[derive(Clone, Copy, Debug, PartialEq, Eq, Structural)]
pub struct PlatformStats {
    pub total_challenges: u64,
    pub active_challenges: u64,
    pub completed_challenges: u64,
    pub total_bounty_paid: u64,
    pub total_bounties_paid: u64,
    pub successful_attacks: u64,
    pub total_hackers: u64,
    pub total_companies: u64,
}

impl Default for PlatformStats {
    fn default() -> (r: Self)
        ensures
            r == (PlatformStats {
                total_challenges: 0,
                active_challenges: 0,
                completed_challenges: 0,
                total_bounty_paid: 0,
                total_bounties_paid: 0,
                successful_attacks: 0,
                total_hackers: 0,
                total_companies: 0,
            }),
    {
        PlatformStats {
            total_challenges: 0,
            active_challenges: 0,
            completed_challenges: 0,
            total_bounty_paid: 0,
            total_bounties_paid: 0,
            successful_attacks: 0,
            total_hackers: 0,
            total_companies: 0,
        }
    }
}

/// Roles a registered user can hold.
#[derive(Clone, Copy, Debug, PartialEq, Eq, Structural, Hash)]
pub enum UserRole {
    Company,
    Hacker,
    Admin,
}

/// A registered user's profile.
pub struct UserProfile {
    pub principal: Principal,
    pub username: String,
    pub reputation: u64,
    pub total_earned: u64,
    pub challenges_completed: u64,
    pub role: UserRole,
    pub created_at: u64,
}

pub struct UserProfileView {
    pub principal: Principal,
    pub username: Seq<char>,
    pub reputation: u64,
    pub total_earned: u64,
    pub challenges_completed: u64,
    pub role: UserRole,
    pub created_at: u64,
}

impl View for UserProfile {
    type V = UserProfileView;

    open spec fn view(&self) -> UserProfileView {
        UserProfileView {
            principal: self.principal,
            username: self.username@,
            reputation: self.reputation,
            total_earned: self.total_earned,
            challenges_completed: self.challenges_completed,
            role: self.role,
            created_at: self.created_at,
        }
    }
}

impl Clone for UserProfile {
    fn clone(&self) -> (r: Self)
        ensures
            r@ == self@,
    {
        UserProfile {
            principal: self.principal,
            username: self.username.clone(),
            reputation: self.reputation,
            total_earned: self.total_earned,
            challenges_completed: self.challenges_completed,
            role: self.role,
            created_at: self.created_at,
        }
    }
}

/// Notifications of cross-component happenings, identified by value.
#[derive(Clone, Copy, Debug, PartialEq, Eq, Structural)]
pub enum Event {
    ChallengeCreated { challenge_id: u64, company: Principal },
    ChallengeActivated { challenge_id: u64 },
    AttackAttempted { challenge_id: u64, hacker: Principal },
    AttackSuccessful { challenge_id: u64, hacker: Principal },
    ChallengeCompleted { challenge_id: u64, winner: Principal },
    ChallengeExpired { challenge_id: u64 },
    FundsLocked { challenge_id: u64, amount: u64 },
    BountyPaid { challenge_id: u64, recipient: Principal, amount: u64 },
}

/// Platform-wide configuration values.
#[derive(Clone, Copy, Debug, PartialEq, Eq, Structural)]
pub struct PlatformConfig {
    pub min_bounty_amount: u64,
    pub max_challenge_duration: u64,
    pub platform_fee_percentage: u64,
    pub max_challenges_per_user: u64,
    pub reputation_threshold_for_high_value: u64,
}

impl Default for PlatformConfig {
    fn default() -> (r: Self)
        ensures
            r == (PlatformConfig {
                min_bounty_amount: 1_000_000,
                max_challenge_duration: 2_592_000_000_000_000,
                platform_fee_percentage: 250,
                max_challenges_per_user: 10,
                reputation_threshold_for_high_value: 1000,
            }),
    {
        PlatformConfig {
            min_bounty_amount: 1_000_000,
            max_challenge_duration: 30 * 24 * 60 * 60 * 1_000_000_000,
            platform_fee_percentage: 250,
            max_challenges_per_user: 10,
            reputation_threshold_for_high_value: 1000,
        }
    }
}

/// Pagination request: skip `offset` records, return at most `limit`.
#[derive(Clone, Copy, Debug, PartialEq, Eq, Structural)]
pub struct PaginationParams {
    pub offset: u64,
    pub limit: u64,
}

/// One page of results with the totals needed to page further.
#[derive(Clone, Debug)]
pub struct PaginatedResult<T> {
    pub data: Vec<T>,
    pub total: u64,
    pub offset: u64,
    pub limit: u64,
    pub has_more: bool,
}

/// Filter for challenge queries.
#[derive(Clone, Copy, Debug, PartialEq, Eq, Structural)]
pub struct ChallengeFilter {
    pub status: Option<ChallengeStatus>,
    pub company: Option<Principal>,
    pub difficulty_level: Option<u8>,
    pub token_type: Option<TokenType>,
    pub min_bounty: Option<u64>,
    pub max_bounty: Option<u64>,
}

impl Default for ChallengeFilter {
    fn default() -> (r: Self)
        ensures
            r == (ChallengeFilter {
                status: None::<ChallengeStatus>,
                company: None::<Principal>,
                difficulty_level: None::<u8>,
                token_type: None::<TokenType>,
                min_bounty: None::<u64>,
                max_bounty: None::<u64>,
            }),
    {
        ChallengeFilter {
            status: None,
            company: None,
            difficulty_level: None,
            token_type: None,
            min_bounty: None,
            max_bounty: None,
        }
    }
}

#[derive(Clone, Copy, Debug, PartialEq, Eq, Structural)]
pub enum SortOrder {
    Asc,
    Desc,
}

#[derive(Clone, Copy, Debug, PartialEq, Eq, Structural)]
pub enum ChallengeSortBy {
    CreatedAt,
    BountyAmount,
    EndTime,
    DifficultyLevel,
}

} // verus!
