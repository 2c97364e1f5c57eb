//! The challenge lifecycle state machine: submission with validation and a
//! per-owner cap, the deploy-then-activate flow, status transitions, manual
//! and periodic expiry, and read-only listings.
//!
//! Deployment spans an outside call: `deploy_target_begin` checks and hands
//! out the payload, the caller stands the target up, and
//! `deploy_target_commit` re-checks the state before activating, so a failed
//! or interleaved deployment never commits a partial success.

use vstd::prelude::*;

use crate::store::{lemma_filter_sorted, page_newest_first, sorted_by_key, sum_by};
use crate::types::{Challenge, ChallengeStatus, ChallengeView, MAX_PAGE_LIMIT, Principal,
    TokenType, ZeroLockError, clone_bytes, clone_copy_vec, spec_can_transition_to,
    spec_is_final_status, can_transition_to, is_final_status, is_valid_difficulty_level};

verus! {

/// Most simultaneously open challenges per owner.
pub const MAX_CHALLENGES_PER_USER: u64 = 10;

/// Smallest accepted bounty.
pub const MIN_BOUNTY_AMOUNT: u64 = 1_000_000;

/// Longest accepted challenge duration, in hours.
pub const MAX_DURATION_HOURS: u64 = 720;

/// Shortest accepted challenge duration, in hours.
pub const MIN_DURATION_HOURS: u64 = 24;

/// Longest accepted target payload, in bytes.
pub const MAX_WASM_SIZE: usize = 2_000_000;

/// Longest accepted description, in characters.
pub const MAX_DESCRIPTION_LENGTH: usize = 1000;

/// Nanoseconds per hour.
pub const HOUR_NS: u64 = 3_600_000_000_000;

/// The longest duration in nanoseconds; bounds `end_time` arithmetic.
pub const MAX_DURATION_NS: i64 = 2_592_000_000_000_000;

/// What a company submits to open a challenge.
pub struct CreateChallengeRequest {
    pub wasm_code: Vec<u8>,
    pub candid_interface: String,
    pub bounty_amount: u64,
    pub duration_hours: u64,
    pub token_type: TokenType,
    pub description: String,
    pub difficulty_level: u8,
}

/// Challenge counts by lifecycle status.
#[derive(Clone, Copy, Debug, PartialEq, Eq, Structural)]
pub struct ChallengeStats {
    pub total: u64,
    pub active: u64,
    pub completed: u64,
    pub expired: u64,
    pub cancelled: u64,
}

impl Default for ChallengeStats {
    fn default() -> (r: Self)
        ensures
            r == (ChallengeStats { total: 0, active: 0, completed: 0, expired: 0, cancelled: 0 }),
    {
        ChallengeStats { total: 0, active: 0, completed: 0, expired: 0, cancelled: 0 }
    }
}

/// A submission is valid when the payload is non-empty and within bounds,
/// the bounty and duration are within bounds, the description fits, the
/// difficulty is on the 1–5 scale and the interface descriptor is non-empty.
pub open spec fn request_valid(r: CreateChallengeRequest) -> bool {
    &&& r.wasm_code@.len() <= MAX_WASM_SIZE
    &&& r.wasm_code@.len() > 0
    &&& r.bounty_amount >= MIN_BOUNTY_AMOUNT
    &&& MIN_DURATION_HOURS <= r.duration_hours <= MAX_DURATION_HOURS
    &&& r.description@.len() <= MAX_DESCRIPTION_LENGTH
    &&& 1 <= r.difficulty_level <= 5
    &&& r.candid_interface@.len() > 0
}

/// Validates a submission; the result is exactly `request_valid`.
pub fn validate_challenge_request(request: &CreateChallengeRequest) -> (r: Result<
    (),
    ZeroLockError,
>)
    ensures
        r is Ok <==> request_valid(*request),
        r matches Err(e) ==> e matches ZeroLockError::InvalidInput(_),
{
    if request.wasm_code.len() > MAX_WASM_SIZE {
        return Err(ZeroLockError::InvalidInput("target payload exceeds maximum size limit".to_owned()));
    }
    if request.wasm_code.len() == 0 {
        return Err(ZeroLockError::InvalidInput("target payload cannot be empty".to_owned()));
    }
    if request.bounty_amount < MIN_BOUNTY_AMOUNT {
        return Err(ZeroLockError::InvalidInput("bounty amount below minimum threshold".to_owned()));
    }
    if request.duration_hours < MIN_DURATION_HOURS || request.duration_hours > MAX_DURATION_HOURS {
        return Err(ZeroLockError::InvalidInput("duration outside the allowed range of hours".to_owned()));
    }
    if request.description.as_str().unicode_len() > MAX_DESCRIPTION_LENGTH {
        return Err(ZeroLockError::InvalidInput("description exceeds maximum length".to_owned()));
    }
    if !is_valid_difficulty_level(request.difficulty_level) {
        return Err(ZeroLockError::InvalidInput("difficulty level must be between 1 and 5".to_owned()));
    }
    if request.candid_interface.as_str().unicode_len() == 0 {
        return Err(ZeroLockError::InvalidInput("interface descriptor cannot be empty".to_owned()));
    }
    Ok(())
}

/// Validates a lifecycle transition against the transition table.
pub fn validate_status_transition(
    current_status: &ChallengeStatus,
    new_status: &ChallengeStatus,
) -> (r: Result<(), ZeroLockError>)
    ensures
        r is Ok <==> spec_can_transition_to(*current_status, *new_status),
        r matches Err(e) ==> e matches ZeroLockError::InvalidState(_),
{
    if can_transition_to(current_status, new_status) {
        Ok(())
    } else {
        Err(ZeroLockError::InvalidState("invalid status transition".to_owned()))
    }
}

/// Counts the challenges a company holds open: owned and not yet in a
/// terminal status. Completed, expired and cancelled challenges free their
/// slot under the per-owner cap.
pub open spec fn company_count_weight(user: Principal) -> spec_fn(Challenge) -> int {
    |c: Challenge| if c.company == user && !spec_is_final_status(c.status) {
        1int
    } else {
        0int
    }
}

/// Picks the challenges a listing keeps: all of them, or one status.
pub open spec fn status_pred(status: Option<ChallengeStatus>) -> spec_fn(Challenge) -> bool {
    |c: Challenge| match status {
        Some(st) => c.status == st,
        None => true,
    }
}

/// Picks the challenges a company owns.
pub open spec fn company_pred(company: Principal) -> spec_fn(Challenge) -> bool {
    |c: Challenge| c.company == company
}

/// A challenge's creation time, as the sort key of the listings.
pub open spec fn created_key() -> spec_fn(Challenge) -> int {
    |c: Challenge| c.created_at as int
}

/// The views of a sequence of challenges.
pub open spec fn challenge_views(s: Seq<Challenge>) -> Seq<ChallengeView> {
    s.map_values(|c: Challenge| c@)
}

/// Whether the periodic sweep is due to expire this challenge.
pub open spec fn needs_expiry(c: Challenge, now: i64) -> bool {
    c.status is Active && now > c.end_time
}

/// The challenge after the sweep expired it.
pub open spec fn expired_challenge(c: Challenge, now: i64) -> Challenge {
    Challenge { status: ChallengeStatus::Expired, updated_at: now, ..c }
}

/// The store after one sweep at time `now` with a mutation budget: scanning
/// from the front, the first `budget` overdue Active challenges flip to
/// Expired; everything else stays. The budget bounds the work of one tick;
/// what it leaves over, the next tick picks up.
pub open spec fn sweep_expired(s: Seq<Challenge>, now: i64, budget: int) -> Seq<Challenge>
    decreases s.len(),
{
    if s.len() == 0 {
        s
    } else if budget > 0 && needs_expiry(s[0], now) {
        seq![expired_challenge(s[0], now)] + sweep_expired(s.drop_first(), now, budget - 1)
    } else {
        seq![s[0]] + sweep_expired(s.drop_first(), now, budget)
    }
}

/// How many challenges that sweep flips.
pub open spec fn sweep_count(s: Seq<Challenge>, now: i64, budget: int) -> int
    decreases s.len(),
{
    if s.len() == 0 {
        0
    } else if budget > 0 && needs_expiry(s[0], now) {
        1 + sweep_count(s.drop_first(), now, budget - 1)
    } else {
        sweep_count(s.drop_first(), now, budget)
    }
}

/// A sweep leaves every challenge either untouched or expired in place; in
/// particular ids, owners and creation times stay.
pub proof fn lemma_sweep_shape(s: Seq<Challenge>, now: i64, budget: int)
    ensures
        sweep_expired(s, now, budget).len() == s.len(),
        0 <= sweep_count(s, now, budget) <= s.len(),
        forall|i: int|
            0 <= i < s.len() ==> {
                let c = #[trigger] sweep_expired(s, now, budget)[i];
                c == s[i] || c == expired_challenge(s[i], now)
            },
    decreases s.len(),
{
    if s.len() != 0 {
        let t = s.drop_first();
        let b2: int = if budget > 0 && needs_expiry(s[0], now) {
            budget - 1
        } else {
            budget
        };
        lemma_sweep_shape(t, now, b2);
        let out = sweep_expired(s, now, budget);
        assert(forall|i: int| 1 <= i < out.len() ==> out[i] == sweep_expired(t, now, b2)[i - 1]);
        assert(forall|i: int| 1 <= i < s.len() ==> t[i - 1] == s[i]);
    }
}

/// Splitting a store splits the sweep: the tail is swept with whatever
/// budget the head left over.
pub proof fn lemma_sweep_decompose(s1: Seq<Challenge>, s2: Seq<Challenge>, now: i64, budget: int)
    ensures
        sweep_expired(s1 + s2, now, budget) == sweep_expired(s1, now, budget) + sweep_expired(
            s2,
            now,
            budget - sweep_count(s1, now, budget),
        ),
        sweep_count(s1 + s2, now, budget) == sweep_count(s1, now, budget) + sweep_count(
            s2,
            now,
            budget - sweep_count(s1, now, budget),
        ),
    decreases s1.len(),
{
    if s1.len() == 0 {
        assert(s1 + s2 =~= s2);
        assert(sweep_expired(s1, now, budget) =~= Seq::empty());
        assert(sweep_expired(s1, now, budget) + sweep_expired(s2, now, budget) =~= sweep_expired(
            s2,
            now,
            budget,
        ));
    } else {
        let h = s1[0];
        assert((s1 + s2)[0] == h);
        assert((s1 + s2).drop_first() =~= s1.drop_first() + s2);
        let b2: int = if budget > 0 && needs_expiry(h, now) {
            budget - 1
        } else {
            budget
        };
        lemma_sweep_decompose(s1.drop_first(), s2, now, b2);
        let hh = if budget > 0 && needs_expiry(h, now) {
            expired_challenge(h, now)
        } else {
            h
        };
        assert(seq![hh] + (sweep_expired(s1.drop_first(), now, b2) + sweep_expired(
            s2,
            now,
            b2 - sweep_count(s1.drop_first(), now, b2),
        )) =~= (seq![hh] + sweep_expired(s1.drop_first(), now, b2)) + sweep_expired(
            s2,
            now,
            b2 - sweep_count(s1.drop_first(), now, b2),
        ));
    }
}

/// Sweep idempotence: one sweep with budget for the whole store expires each
/// overdue challenge exactly once, and a repeated sweep at the same time,
/// with any budget, changes nothing.
pub proof fn lemma_sweep_idempotent(s: Seq<Challenge>, now: i64, budget: int, budget2: int)
    requires
        budget >= s.len(),
    ensures
        sweep_expired(sweep_expired(s, now, budget), now, budget2) == sweep_expired(s, now, budget),
        sweep_count(sweep_expired(s, now, budget), now, budget2) == 0,
    decreases s.len(),
{
    if s.len() != 0 {
        let t = s.drop_first();
        let out = sweep_expired(s, now, budget);
        if needs_expiry(s[0], now) {
            let hh = expired_challenge(s[0], now);
            assert(out == seq![hh] + sweep_expired(t, now, budget - 1));
            lemma_sweep_idempotent(t, now, budget - 1, budget2);
            assert(out[0] == hh);
            assert(!needs_expiry(hh, now));
            assert(out.drop_first() =~= sweep_expired(t, now, budget - 1));
            assert(sweep_expired(out, now, budget2) == seq![out[0]] + sweep_expired(
                out.drop_first(),
                now,
                budget2,
            ));
            assert(seq![out[0]] + out.drop_first() =~= out);
        } else {
            assert(out == seq![s[0]] + sweep_expired(t, now, budget));
            lemma_sweep_idempotent(t, now, budget, budget2);
            assert(out[0] == s[0]);
            assert(out.drop_first() =~= sweep_expired(t, now, budget));
            assert(seq![out[0]] + out.drop_first() =~= out);
        }
    }
}

/// The challenge registry: the store of challenges, ids assigned
/// monotonically from 1, and the admin list.
pub struct BountyFactory {
    pub challenges: Vec<Challenge>,
    pub admins: Vec<Principal>,
}

impl BountyFactory {
    /// Challenge ids are the positions shifted by one, and creation times
    /// never decrease along the store.
    pub open spec fn wf(self) -> bool {
        &&& forall|i: int|
            0 <= i < self.challenges@.len() ==> (#[trigger] self.challenges@[i]).id == i + 1
        &&& sorted_by_key(self.challenges@, created_key())
    }

    /// `now` does not precede any recorded creation time; holds of a
    /// monotone clock source.
    pub open spec fn time_ok(self, now: i64) -> bool {
        forall|i: int|
            0 <= i < self.challenges@.len() ==> (#[trigger] self.challenges@[i]).created_at <= now
    }

    /// The challenge with a given id, if it was ever created.
    pub open spec fn spec_challenge(self, id: u64) -> Option<Challenge> {
        if 1 <= id <= self.challenges@.len() {
            Some(self.challenges@[id - 1])
        } else {
            None
        }
    }

    pub open spec fn spec_is_admin(self, caller: Principal) -> bool {
        self.admins@.contains(caller)
    }

    /// Owners and admins may manage a challenge.
    pub open spec fn spec_may_manage(self, caller: Principal, c: Challenge) -> bool {
        caller == c.company || self.spec_is_admin(caller)
    }

    pub open spec fn next_challenge_id(self) -> int {
        self.challenges@.len() as int + 1
    }

    /// How many challenges `user` holds open.
    pub open spec fn spec_company_count(self, user: Principal) -> int {
        sum_by(self.challenges@, company_count_weight(user))
    }

    /// A fresh, empty registry.
    pub fn new() -> (f: BountyFactory)
        ensures
            f.wf(),
            f.challenges@.len() == 0,
            f.admins@.len() == 0,
    {
        BountyFactory { challenges: Vec::new(), admins: Vec::new() }
    }

    /// Whether `principal` is an admin.
    pub fn is_admin(&self, principal: &Principal) -> (r: bool)
        ensures
            r == self.spec_is_admin(*principal),
    {
        let mut i: usize = 0;
        while i < self.admins.len()
            invariant
                i <= self.admins@.len(),
                forall|k: int| 0 <= k < i ==> self.admins@[k] != *principal,
            decreases self.admins@.len() - i,
        {
            if self.admins[i] == *principal {
                return true;
            }
            i += 1;
        }
        assert(!self.admins@.contains(*principal));
        false
    }

    /// Counts the challenges `user` holds open.
    pub fn count_user_challenges(&self, user: &Principal) -> (r: u64)
        requires
            self.challenges@.len() <= u64::MAX,
        ensures
            r == self.spec_company_count(*user),
    {
        let mut count: u64 = 0;
        let mut i: usize = 0;
        while i < self.challenges.len()
            invariant
                i <= self.challenges@.len(),
                count == sum_by(self.challenges@.subrange(0, i as int), company_count_weight(*user)),
                count <= i,
            decreases self.challenges@.len() - i,
        {
            proof {
                let pre = self.challenges@.subrange(0, i as int);
                let post = self.challenges@.subrange(0, i + 1);
                assert(post.drop_last() =~= pre);
                assert(post.last() == self.challenges@[i as int]);
            }
            if self.challenges[i].company == *user && !is_final_status(&self.challenges[i].status) {
                count += 1;
            }
            i += 1;
        }
        proof {
            assert(self.challenges@.subrange(0, self.challenges@.len() as int)
                =~= self.challenges@);
        }
        count
    }

    /// The challenge a successful submission stores.
    pub open spec fn spec_new_challenge(
        self,
        caller: Principal,
        request: CreateChallengeRequest,
        now: i64,
    ) -> Challenge {
        Challenge {
            id: (self.challenges@.len() + 1) as u64,
            company: caller,
            target_canister: None,
            wasm_code: request.wasm_code,
            candid_interface: request.candid_interface,
            bounty_amount: request.bounty_amount,
            token_type: request.token_type,
            start_time: now,
            end_time: (now + request.duration_hours * HOUR_NS) as i64,
            status: ChallengeStatus::Created,
            description: request.description,
            difficulty_level: request.difficulty_level,
            created_at: now,
            updated_at: now,
        }
    }

    /// The inputs on which a submission succeeds: a named caller, a valid
    /// request and a free slot under the per-owner cap.
    pub open spec fn create_allowed(
        self,
        caller: Principal,
        request: CreateChallengeRequest,
    ) -> bool {
        &&& !caller.spec_is_anonymous()
        &&& request_valid(request)
        &&& self.spec_company_count(caller) < MAX_CHALLENGES_PER_USER
    }

    /// Opens a new challenge: validates the submission, enforces the
    /// per-owner cap, assigns the next monotonic id and stores the challenge
    /// with status Created and `end_time = start_time + duration`.
    pub fn create_challenge(
        &mut self,
        caller: Principal,
        request: CreateChallengeRequest,
        now: i64,
    ) -> (r: Result<u64, ZeroLockError>)
        requires
            old(self).wf(),
            old(self).time_ok(now),
            old(self).challenges@.len() + 2 <= u64::MAX,
            0 <= now <= i64::MAX - MAX_DURATION_NS,
        ensures
            final(self).wf(),
            final(self).time_ok(now),
            r is Ok <==> old(self).create_allowed(caller, request),
            r is Err ==> *final(self) == *old(self),
            caller.spec_is_anonymous() ==> r matches Err(ZeroLockError::Unauthorized(_)),
            !caller.spec_is_anonymous() && !request_valid(request) ==> r matches Err(
                ZeroLockError::InvalidInput(_),
            ),
            !caller.spec_is_anonymous() && request_valid(request) && old(self).spec_company_count(
                caller,
            ) >= MAX_CHALLENGES_PER_USER ==> r matches Err(ZeroLockError::ResourceLimit(_)),
            r matches Ok(id) ==> {
                &&& id == old(self).next_challenge_id()
                &&& final(self).challenges@ == old(self).challenges@.push(
                    old(self).spec_new_challenge(caller, request, now),
                )
                &&& final(self).admins@ == old(self).admins@
            },
    {
        if caller.is_anonymous() {
            return Err(ZeroLockError::Unauthorized("anonymous principals cannot create challenges".to_owned()));
        }
        if let Err(error) = validate_challenge_request(&request) {
            return Err(error);
        }
        let user_challenge_count = self.count_user_challenges(&caller);
        if user_challenge_count >= MAX_CHALLENGES_PER_USER {
            return Err(ZeroLockError::ResourceLimit("maximum challenges per user exceeded".to_owned()));
        }
        let challenge_id = self.challenges.len() as u64 + 1;
        let duration_ns: u64 = request.duration_hours * HOUR_NS;
        let challenge = Challenge {
            id: challenge_id,
            company: caller,
            target_canister: None,
            wasm_code: request.wasm_code,
            candid_interface: request.candid_interface,
            bounty_amount: request.bounty_amount,
            token_type: request.token_type,
            start_time: now,
            end_time: now + duration_ns as i64,
            status: ChallengeStatus::Created,
            description: request.description,
            difficulty_level: request.difficulty_level,
            created_at: now,
            updated_at: now,
        };
        self.challenges.push(challenge);
        Ok(challenge_id)
    }

    /// Reads a challenge by id.
    pub fn get_challenge(&self, id: u64) -> (r: Result<Challenge, ZeroLockError>)
        ensures
            match r {
                Ok(c) => self.spec_challenge(id) matches Some(sc) && c@ == sc@,
                Err(e) => self.spec_challenge(id) is None && e matches ZeroLockError::NotFound(_),
            },
    {
        if id >= 1 && id <= self.challenges.len() as u64 {
            Ok(self.challenges[(id - 1) as usize].clone())
        } else {
            Err(ZeroLockError::NotFound("challenge not found".to_owned()))
        }
    }

    /// Adds an admin; the first admin may be added by anyone (initial
    /// setup), later ones only by an existing admin.
    pub fn add_admin(&mut self, caller: Principal, new_admin: Principal) -> (r: Result<
        (),
        ZeroLockError,
    >)
        requires
            old(self).wf(),
        ensures
            final(self).wf(),
            r is Ok <==> (old(self).admins@.len() == 0 || old(self).spec_is_admin(caller))
                && !old(self).spec_is_admin(new_admin),
            r is Err ==> *final(self) == *old(self),
            old(self).admins@.len() > 0 && !old(self).spec_is_admin(caller) ==> r matches Err(
                ZeroLockError::Unauthorized(_),
            ),
            (old(self).admins@.len() == 0 || old(self).spec_is_admin(caller))
                && old(self).spec_is_admin(new_admin) ==> r matches Err(
                ZeroLockError::InvalidInput(_),
            ),
            r is Ok ==> final(self).admins@ == old(self).admins@.push(new_admin)
                && final(self).challenges@ == old(self).challenges@,
    {
        let admin_count = self.admins.len();
        if admin_count > 0 && !self.is_admin(&caller) {
            return Err(ZeroLockError::Unauthorized("only admins can add new admins".to_owned()));
        }
        if self.is_admin(&new_admin) {
            return Err(ZeroLockError::InvalidInput("principal is already an admin".to_owned()));
        }
        self.admins.push(new_admin);
        Ok(())
    }

    /// The admin list, in insertion order.
    pub fn get_admins(&self) -> (r: Vec<Principal>)
        ensures
            r@ == self.admins@,
    {
        clone_copy_vec(&self.admins)
    }

    /// Sets a challenge's status. Only the owner or an admin may, and only
    /// along the transition table; re-asserting the current status is always
    /// accepted and refreshes nothing but `updated_at`.
    pub fn update_challenge_status(
        &mut self,
        caller: Principal,
        id: u64,
        new_status: ChallengeStatus,
        now: i64,
    ) -> (r: Result<(), ZeroLockError>)
        requires
            old(self).wf(),
        ensures
            final(self).wf(),
            r is Ok <==> (old(self).spec_challenge(id) matches Some(c) && old(self).spec_may_manage(
                caller,
                c,
            ) && spec_can_transition_to(c.status, new_status)),
            r is Err ==> *final(self) == *old(self),
            old(self).spec_challenge(id) is None ==> r matches Err(ZeroLockError::NotFound(_)),
            (old(self).spec_challenge(id) matches Some(c) && !old(self).spec_may_manage(caller, c))
                ==> r matches Err(ZeroLockError::Unauthorized(_)),
            (old(self).spec_challenge(id) matches Some(c) && old(self).spec_may_manage(caller, c)
                && !spec_can_transition_to(c.status, new_status)) ==> r matches Err(
                ZeroLockError::InvalidState(_),
            ),
            r is Ok ==> final(self).challenges@ == old(self).challenges@.update(
                id - 1,
                Challenge {
                    status: new_status,
                    updated_at: now,
                    ..old(self).challenges@[id - 1]
                },
            ) && final(self).admins@ == old(self).admins@,
    {
        if !(id >= 1 && id <= self.challenges.len() as u64) {
            return Err(ZeroLockError::NotFound("challenge not found".to_owned()));
        }
        let i = (id - 1) as usize;
        let authorized = caller == self.challenges[i].company || self.is_admin(&caller);
        if !authorized {
            return Err(ZeroLockError::Unauthorized("not authorized to update this challenge".to_owned()));
        }
        if let Err(error) = validate_status_transition(&self.challenges[i].status, &new_status) {
            return Err(error);
        }
        let c = &mut self.challenges[i];
        c.status = new_status;
        c.updated_at = now;
        Ok(())
    }

    /// Manually expires a challenge. Only the owner or an admin may, and only
    /// while the challenge is not already terminal.
    pub fn expire_challenge(&mut self, caller: Principal, id: u64, now: i64) -> (r: Result<
        (),
        ZeroLockError,
    >)
        requires
            old(self).wf(),
        ensures
            final(self).wf(),
            r is Ok <==> (old(self).spec_challenge(id) matches Some(c) && old(self).spec_may_manage(
                caller,
                c,
            ) && !spec_is_final_status(c.status)),
            r is Err ==> *final(self) == *old(self),
            old(self).spec_challenge(id) is None ==> r matches Err(ZeroLockError::NotFound(_)),
            (old(self).spec_challenge(id) matches Some(c) && !old(self).spec_may_manage(caller, c))
                ==> r matches Err(ZeroLockError::Unauthorized(_)),
            (old(self).spec_challenge(id) matches Some(c) && old(self).spec_may_manage(caller, c)
                && spec_is_final_status(c.status)) ==> r matches Err(
                ZeroLockError::InvalidState(_),
            ),
            r is Ok ==> final(self).challenges@ == old(self).challenges@.update(
                id - 1,
                Challenge {
                    status: ChallengeStatus::Expired,
                    updated_at: now,
                    ..old(self).challenges@[id - 1]
                },
            ) && final(self).admins@ == old(self).admins@,
    {
        if !(id >= 1 && id <= self.challenges.len() as u64) {
            return Err(ZeroLockError::NotFound("challenge not found".to_owned()));
        }
        let i = (id - 1) as usize;
        let authorized = caller == self.challenges[i].company || self.is_admin(&caller);
        if !authorized {
            return Err(ZeroLockError::Unauthorized("not authorized to expire this challenge".to_owned()));
        }
        if is_final_status(&self.challenges[i].status) {
            return Err(ZeroLockError::InvalidState("challenge is already in final state".to_owned()));
        }
        let c = &mut self.challenges[i];
        c.status = ChallengeStatus::Expired;
        c.updated_at = now;
        Ok(())
    }

    /// First half of target deployment: checks that the caller may deploy
    /// and that the challenge is still in Created, and hands out the payload
    /// to install. Nothing is recorded yet; the caller performs the outside
    /// deployment and then calls `deploy_target_commit`.
    pub fn deploy_target_begin(&self, caller: Principal, challenge_id: u64) -> (r: Result<
        Vec<u8>,
        ZeroLockError,
    >)
        ensures
            r is Ok <==> (self.spec_challenge(challenge_id) matches Some(c)
                && self.spec_may_manage(caller, c) && c.status is Created),
            self.spec_challenge(challenge_id) is None ==> r matches Err(ZeroLockError::NotFound(_)),
            (self.spec_challenge(challenge_id) matches Some(c) && !self.spec_may_manage(caller, c))
                ==> r matches Err(ZeroLockError::Unauthorized(_)),
            (self.spec_challenge(challenge_id) matches Some(c) && self.spec_may_manage(caller, c)
                && !(c.status is Created)) ==> r matches Err(ZeroLockError::InvalidState(_)),
            r matches Ok(w) ==> (self.spec_challenge(challenge_id) matches Some(c) && w@
                == c.wasm_code@),
    {
        if !(challenge_id >= 1 && challenge_id <= self.challenges.len() as u64) {
            return Err(ZeroLockError::NotFound("challenge not found".to_owned()));
        }
        let i = (challenge_id - 1) as usize;
        let authorized = caller == self.challenges[i].company || self.is_admin(&caller);
        if !authorized {
            return Err(ZeroLockError::Unauthorized("not authorized to deploy this challenge's target".to_owned()));
        }
        if self.challenges[i].status != ChallengeStatus::Created {
            return Err(ZeroLockError::InvalidState("challenge must be in Created status to deploy its target".to_owned()));
        }
        Ok(clone_bytes(&self.challenges[i].wasm_code))
    }

    /// Second half of target deployment, called after the outside deployment
    /// succeeded: records the deployed address and activates the challenge.
    /// The Created status is re-checked, so an interleaved transition since
    /// `deploy_target_begin` surfaces as an error instead of an illegal
    /// activation; a failed deployment is simply never committed, leaving the
    /// challenge in Created.
    pub fn deploy_target_commit(&mut self, challenge_id: u64, canister: Principal, now: i64) -> (r:
        Result<(), ZeroLockError>)
        requires
            old(self).wf(),
        ensures
            final(self).wf(),
            r is Ok <==> (old(self).spec_challenge(challenge_id) matches Some(c)
                && c.status is Created),
            r is Err ==> *final(self) == *old(self),
            old(self).spec_challenge(challenge_id) is None ==> r matches Err(
                ZeroLockError::NotFound(_),
            ),
            (old(self).spec_challenge(challenge_id) matches Some(c) && !(c.status is Created))
                ==> r matches Err(ZeroLockError::InvalidState(_)),
            r is Ok ==> final(self).challenges@ == old(self).challenges@.update(
                challenge_id - 1,
                Challenge {
                    target_canister: Some(canister),
                    status: ChallengeStatus::Active,
                    updated_at: now,
                    ..old(self).challenges@[challenge_id - 1]
                },
            ) && final(self).admins@ == old(self).admins@,
    {
        if !(challenge_id >= 1 && challenge_id <= self.challenges.len() as u64) {
            return Err(ZeroLockError::NotFound("challenge not found".to_owned()));
        }
        let i = (challenge_id - 1) as usize;
        if self.challenges[i].status != ChallengeStatus::Created {
            return Err(ZeroLockError::InvalidState("challenge left Created before the deployment committed".to_owned()));
        }
        let c = &mut self.challenges[i];
        c.target_canister = Some(canister);
        c.status = ChallengeStatus::Active;
        c.updated_at = now;
        Ok(())
    }

    /// The periodic sweep: flips up to `max_updates` Active challenges whose
    /// `end_time` has passed to Expired, scanning from the oldest. Returns
    /// how many it flipped; safe to run repeatedly.
    pub fn check_expired_challenges(&mut self, now: i64, max_updates: usize) -> (n: usize)
        requires
            old(self).wf(),
        ensures
            final(self).wf(),
            final(self).challenges@ == sweep_expired(
                old(self).challenges@,
                now,
                max_updates as int,
            ),
            n == sweep_count(old(self).challenges@, now, max_updates as int),
            final(self).admins@ == old(self).admins@,
    {
        let ghost s0 = self.challenges@;
        let ghost a0 = self.admins@;
        let mut n: usize = 0;
        let mut i: usize = 0;
        while i < self.challenges.len()
            invariant
                i <= s0.len(),
                n <= max_updates,
                self.challenges@.len() == s0.len(),
                self.admins@ == a0,
                n == sweep_count(s0.subrange(0, i as int), now, max_updates as int),
                self.challenges@ == sweep_expired(s0.subrange(0, i as int), now, max_updates as int)
                    + s0.subrange(i as int, s0.len() as int),
            decreases s0.len() - i,
        {
            proof {
                lemma_sweep_shape(s0.subrange(0, i as int), now, max_updates as int);
                assert(self.challenges@[i as int] == s0[i as int]);
            }
            let due = n < max_updates && self.challenges[i].status == ChallengeStatus::Active
                && now > self.challenges[i].end_time;
            if due {
                let c = &mut self.challenges[i];
                c.status = ChallengeStatus::Expired;
                c.updated_at = now;
                n += 1;
            }
            proof {
                let pre = s0.subrange(0, i as int);
                let one = seq![s0[i as int]];
                assert(s0.subrange(0, i + 1) =~= pre + one);
                lemma_sweep_decompose(pre, one, now, max_updates as int);
                let b_left = max_updates as int - sweep_count(pre, now, max_updates as int);
                assert(one.drop_first() =~= Seq::<Challenge>::empty());
                assert(one[0] == s0[i as int]);
                assert(sweep_count(Seq::<Challenge>::empty(), now, b_left) == 0);
                assert(sweep_count(Seq::<Challenge>::empty(), now, b_left - 1) == 0);
                assert(sweep_expired(Seq::<Challenge>::empty(), now, b_left) =~= Seq::<
                    Challenge,
                >::empty());
                assert(sweep_expired(Seq::<Challenge>::empty(), now, b_left - 1) =~= Seq::<
                    Challenge,
                >::empty());
                if b_left > 0 && needs_expiry(s0[i as int], now) {
                    assert(sweep_expired(one, now, b_left) == seq![
                        expired_challenge(s0[i as int], now),
                    ] + sweep_expired(Seq::<Challenge>::empty(), now, b_left - 1));
                    assert(sweep_expired(one, now, b_left) =~= seq![
                        expired_challenge(s0[i as int], now),
                    ]);
                    assert(sweep_count(one, now, b_left) == 1);
                } else {
                    assert(sweep_expired(one, now, b_left) =~= one);
                    assert(sweep_count(one, now, b_left) == 0);
                }
                assert(self.challenges@ =~= sweep_expired(s0.subrange(0, i + 1), now, max_updates as int)
                    + s0.subrange(i + 1, s0.len() as int));
            }
            i += 1;
        }
        proof {
            assert(s0.subrange(0, s0.len() as int) =~= s0);
            assert(s0.subrange(s0.len() as int, s0.len() as int) =~= Seq::<Challenge>::empty());
            assert(sweep_expired(s0, now, max_updates as int) + Seq::<Challenge>::empty()
                =~= sweep_expired(s0, now, max_updates as int));
            lemma_sweep_shape(s0, now, max_updates as int);
        }
        n
    }

    /// Collects clones of the challenges satisfying the status filter, in
    /// store (oldest-first) order.
    fn collect_filtered(&self, status: Option<ChallengeStatus>) -> (r: Vec<Challenge>)
        ensures
            challenge_views(r@) == challenge_views(self.challenges@.filter(status_pred(status))),
    {
        let s = &self.challenges;
        let mut matched: Vec<Challenge> = Vec::new();
        let mut i: usize = 0;
        while i < s.len()
            invariant
                i <= s@.len(),
                challenge_views(matched@) == challenge_views(
                    s@.subrange(0, i as int).filter(status_pred(status)),
                ),
            decreases s@.len() - i,
        {
            let keep = match status {
                Some(st) => s[i].status == st,
                None => true,
            };
            proof {
                reveal(Seq::filter);
                assert(s@.subrange(0, i + 1).drop_last() =~= s@.subrange(0, i as int));
                assert(s@.subrange(0, i + 1).last() == s@[i as int]);
                assert(keep == (status_pred(status))(s@[i as int]));
            }
            if keep {
                let ghost m0 = matched@;
                let c = s[i].clone();
                matched.push(c);
                proof {
                    let f0 = s@.subrange(0, i as int).filter(status_pred(status));
                    assert(challenge_views(matched@) =~= challenge_views(m0).push(c@));
                    assert(challenge_views(f0.push(s@[i as int])) =~= challenge_views(f0).push(
                        s@[i as int]@,
                    ));
                }
            }
            i += 1;
        }
        proof {
            assert(s@.subrange(0, s@.len() as int) =~= s@);
        }
        matched
    }

    /// Lists challenges, optionally by status, newest-created-first. Never
    /// returns more than `MAX_PAGE_LIMIT` entries, whatever the requested
    /// limit; an offset at or past the end yields an empty page.
    pub fn list_challenges(&self, status: Option<ChallengeStatus>, offset: u64, limit: u64) -> (r:
        Vec<Challenge>)
        requires
            self.wf(),
        ensures
            challenge_views(r@) == challenge_views(
                page_newest_first(
                    self.challenges@.filter(status_pred(status)),
                    offset as int,
                    (if limit > MAX_PAGE_LIMIT {
                        MAX_PAGE_LIMIT
                    } else {
                        limit
                    }) as int,
                ),
            ),
            r@.len() <= MAX_PAGE_LIMIT,
            r@.len() <= limit,
            offset >= self.challenges@.filter(status_pred(status)).len() ==> r@.len() == 0,
            forall|i: int, j: int|
                0 <= i <= j < r@.len() ==> (#[trigger] r@[i]).created_at >= (
                #[trigger] r@[j]).created_at,
    {
        let lim: u64 = if limit > MAX_PAGE_LIMIT {
            MAX_PAGE_LIMIT
        } else {
            limit
        };
        let ghost fl = self.challenges@.filter(status_pred(status));
        proof {
            lemma_filter_sorted(self.challenges@, status_pred(status), created_key());
        }
        let mut matched = self.collect_filtered(status);
        let ghost m0 = matched@;
        proof {
            assert(challenge_views(m0).len() == m0.len());
            assert(challenge_views(fl).len() == fl.len());
            assert(m0.len() == fl.len());
            assert forall|a: int, b: int| 0 <= a <= b < m0.len() implies (#[trigger] m0[a]).created_at
                <= (#[trigger] m0[b]).created_at by {
                assert(challenge_views(m0)[a] == challenge_views(fl)[a]);
                assert(challenge_views(m0)[b] == challenge_views(fl)[b]);
                assert((created_key())(fl[a]) <= (created_key())(fl[b]));
            }
        }
        let total = matched.len();
        if offset >= total as u64 {
            let r: Vec<Challenge> = Vec::new();
            proof {
                assert(challenge_views(r@) =~= challenge_views(
                    page_newest_first(fl, offset as int, lim as int),
                ));
            }
            return r;
        }
        let off = offset as usize;
        let remaining = total - off;
        let count: usize = if (lim as usize) < remaining {
            lim as usize
        } else {
            remaining
        };
        // Discard the oldest entries so that exactly `off + count` of the
        // newest remain, then emit them newest-first from the back.
        let mut skip: usize = 0;
        while skip < off
            invariant
                skip <= off,
                off < total,
                total == m0.len(),
                matched@ == m0.subrange(0, total - skip),
            decreases off - skip,
        {
            proof {
                assert(matched@.len() == total - skip);
                assert(matched@.drop_last() =~= m0.subrange(0, total - (skip + 1)));
            }
            matched.pop();
            skip += 1;
        }
        let mut out: Vec<Challenge> = Vec::new();
        let mut k: usize = 0;
        while k < count
            invariant
                k <= count,
                count <= total - off,
                off < total,
                total == m0.len(),
                matched@ == m0.subrange(0, total - off - k),
                out@.len() == k,
                forall|m: int| 0 <= m < k ==> out@[m] == m0[total - off - 1 - m],
            decreases count - k,
        {
            proof {
                assert(matched@.len() == total - off - k);
                assert(matched@.drop_last() =~= m0.subrange(0, total - off - (k + 1)));
                assert(matched@.last() == m0[total - off - 1 - k]);
            }
            let c = match matched.pop() {
                Some(c) => c,
                None => {
                    proof {
                        assert(false);
                    }
                    return out;
                },
            };
            out.push(c);
            k += 1;
        }
        proof {
            let page = page_newest_first(fl, offset as int, lim as int);
            let rev = fl.reverse();
            assert(forall|m: int| 0 <= m < rev.len() ==> rev[m] == fl[fl.len() - 1 - m]);
            assert(page.len() == count);
            assert forall|m: int| 0 <= m < count implies challenge_views(out@)[m] == challenge_views(
                page,
            )[m] by {
                assert(out@[m] == m0[total - off - 1 - m]);
                assert(page[m] == fl[fl.len() - 1 - offset - m]);
                assert(challenge_views(m0)[total - off - 1 - m] == challenge_views(fl)[total - off
                    - 1 - m]);
            }
            assert(challenge_views(out@) =~= challenge_views(page));
        }
        out
    }

    /// All challenges a company owns, newest-created-first.
    pub fn get_company_challenges(&self, company: Principal) -> (r: Vec<Challenge>)
        requires
            self.wf(),
        ensures
            challenge_views(r@) == challenge_views(
                self.challenges@.filter(company_pred(company)).reverse(),
            ),
            forall|i: int, j: int|
                0 <= i <= j < r@.len() ==> (#[trigger] r@[i]).created_at >= (
                #[trigger] r@[j]).created_at,
    {
        let s = &self.challenges;
        let mut matched: Vec<Challenge> = Vec::new();
        let mut i: usize = 0;
        while i < s.len()
            invariant
                i <= s@.len(),
                challenge_views(matched@) == challenge_views(
                    s@.subrange(0, i as int).filter(company_pred(company)),
                ),
            decreases s@.len() - i,
        {
            let keep = s[i].company == company;
            proof {
                reveal(Seq::filter);
                assert(s@.subrange(0, i + 1).drop_last() =~= s@.subrange(0, i as int));
                assert(s@.subrange(0, i + 1).last() == s@[i as int]);
                assert(keep == (company_pred(company))(s@[i as int]));
            }
            if keep {
                let ghost m0 = matched@;
                let c = s[i].clone();
                matched.push(c);
                proof {
                    let f0 = s@.subrange(0, i as int).filter(company_pred(company));
                    assert(challenge_views(matched@) =~= challenge_views(m0).push(c@));
                    assert(challenge_views(f0.push(s@[i as int])) =~= challenge_views(f0).push(
                        s@[i as int]@,
                    ));
                }
            }
            i += 1;
        }
        let ghost fl = self.challenges@.filter(company_pred(company));
        let ghost m0 = matched@;
        proof {
            assert(s@.subrange(0, s@.len() as int) =~= s@);
            lemma_filter_sorted(self.challenges@, company_pred(company), created_key());
            assert(challenge_views(m0).len() == m0.len());
            assert(challenge_views(fl).len() == fl.len());
            assert(m0.len() == fl.len());
            assert forall|a: int, b: int| 0 <= a <= b < m0.len() implies (#[trigger] m0[a]).created_at
                <= (#[trigger] m0[b]).created_at by {
                assert(challenge_views(m0)[a] == challenge_views(fl)[a]);
                assert(challenge_views(m0)[b] == challenge_views(fl)[b]);
                assert((created_key())(fl[a]) <= (created_key())(fl[b]));
            }
        }
        let total = matched.len();
        let mut out: Vec<Challenge> = Vec::new();
        let mut k: usize = 0;
        while k < total
            invariant
                k <= total,
                total == m0.len(),
                matched@ == m0.subrange(0, total - k),
                out@.len() == k,
                forall|m: int| 0 <= m < k ==> out@[m] == m0[total - 1 - m],
            decreases total - k,
        {
            proof {
                assert(matched@.len() == total - k);
                assert(matched@.drop_last() =~= m0.subrange(0, total - (k + 1)));
                assert(matched@.last() == m0[total - 1 - k]);
            }
            let c = match matched.pop() {
                Some(c) => c,
                None => {
                    proof {
                        assert(false);
                    }
                    return out;
                },
            };
            out.push(c);
            k += 1;
        }
        proof {
            let rev = fl.reverse();
            assert(forall|m: int| 0 <= m < rev.len() ==> rev[m] == fl[fl.len() - 1 - m]);
            assert forall|m: int| 0 <= m < total implies challenge_views(out@)[m] == challenge_views(
                rev,
            )[m] by {
                assert(out@[m] == m0[total - 1 - m]);
                assert(challenge_views(m0)[total - 1 - m] == challenge_views(fl)[total - 1 - m]);
            }
            assert(challenge_views(out@) =~= challenge_views(rev));
        }
        out
    }

    /// Challenge counts by status; Created counts only towards the total.
    pub fn get_challenge_stats(&self) -> (r: ChallengeStats)
        requires
            self.challenges@.len() <= u64::MAX,
        ensures
            r.total == self.challenges@.len(),
            r.active == sum_by(self.challenges@, status_count_weight(ChallengeStatus::Active)),
            r.completed == sum_by(
                self.challenges@,
                status_count_weight(ChallengeStatus::Completed),
            ),
            r.expired == sum_by(self.challenges@, status_count_weight(ChallengeStatus::Expired)),
            r.cancelled == sum_by(
                self.challenges@,
                status_count_weight(ChallengeStatus::Cancelled),
            ),
    {
        let s = &self.challenges;
        let mut active: u64 = 0;
        let mut completed: u64 = 0;
        let mut expired: u64 = 0;
        let mut cancelled: u64 = 0;
        let mut i: usize = 0;
        while i < s.len()
            invariant
                i <= s@.len(),
                active == sum_by(s@.subrange(0, i as int), status_count_weight(ChallengeStatus::Active)),
                completed == sum_by(s@.subrange(0, i as int), status_count_weight(ChallengeStatus::Completed)),
                expired == sum_by(s@.subrange(0, i as int), status_count_weight(ChallengeStatus::Expired)),
                cancelled == sum_by(s@.subrange(0, i as int), status_count_weight(ChallengeStatus::Cancelled)),
                active <= i && completed <= i && expired <= i && cancelled <= i,
            decreases s@.len() - i,
        {
            proof {
                let pre = s@.subrange(0, i as int);
                let post = s@.subrange(0, i + 1);
                assert(post.drop_last() =~= pre);
                assert(post.last() == s@[i as int]);
            }
            match s[i].status {
                ChallengeStatus::Active => {
                    active += 1;
                },
                ChallengeStatus::Completed => {
                    completed += 1;
                },
                ChallengeStatus::Expired => {
                    expired += 1;
                },
                ChallengeStatus::Cancelled => {
                    cancelled += 1;
                },
                ChallengeStatus::Created => {},
            }
            i += 1;
        }
        proof {
            assert(s@.subrange(0, s@.len() as int) =~= s@);
        }
        ChallengeStats { total: s.len() as u64, active, completed, expired, cancelled }
    }
}

/// Counts challenges holding one particular status.
pub open spec fn status_count_weight(st: ChallengeStatus) -> spec_fn(Challenge) -> int {
    |c: Challenge| if c.status == st {
        1int
    } else {
        0int
    }
}

} // verus!
