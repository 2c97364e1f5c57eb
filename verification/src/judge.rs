//! The evaluation and dispute engine: per-challenge monitoring of a target's
//! balance against the baseline recorded when monitoring started, automated
//! attack evaluation on a balance-delta heuristic, bounded snapshot history,
//! and manually resolved disputes.
//!
//! The judge never reads a balance itself: callers observe the target and
//! hand the observed value in, so every decision is a function of recorded
//! state and the observation. The evaluation record is stored before any
//! settlement is issued, so the audit trail stands even if settlement fails.

use vstd::prelude::*;
use vstd::string::StringExecFns;

use crate::store::{find_first, lemma_filter_sorted, lemma_find_first_properties,
    lemma_find_first_push, lemma_find_first_update, sorted_by_key};
use crate::types::{AttackAttempt, Evaluation, EvaluationView, JudgeDecision, MAX_PAGE_LIMIT,
    Principal, ZeroLockError};

verus! {

/// How long a monitoring state may go unchecked before the periodic sweep
/// re-queries it, in nanoseconds.
pub const BALANCE_CHECK_INTERVAL: i64 = 60 * 1_000_000_000;

/// Most snapshots kept per monitored target; the oldest is dropped first.
pub const MAX_BALANCE_HISTORY: usize = 1000;

/// A balance decrease of at least this percentage of the baseline counts as
/// a successful attack.
pub const ATTACK_THRESHOLD_PERCENTAGE: u64 = 10;

/// How long a dispute should stay open before escalation, in nanoseconds; a
/// policy bound, not an automatic transition.
pub const DISPUTE_REVIEW_PERIOD: i64 = 7 * 24 * 3600 * 1_000_000_000;

/// Monitoring bookkeeping for one challenge's target.
#[derive(Clone, Copy, Debug, PartialEq, Eq, Structural)]
pub struct MonitoringState {
    pub challenge_id: u64,
    pub target_canister: Principal,
    pub initial_balance: u64,
    pub current_balance: u64,
    pub last_check: i64,
    pub monitoring_active: bool,
    pub attack_detected: bool,
}

/// One observation of a target's balance.
#[derive(Clone, Copy, Debug)]
pub struct BalanceSnapshot {
    pub canister_id: Principal,
    pub balance: u64,
    pub timestamp: i64,
    pub block_height: Option<u64>,
}

impl PartialEq for BalanceSnapshot {
    fn eq(&self, other: &Self) -> (r: bool) {
        self.canister_id == other.canister_id && self.balance == other.balance && self.timestamp
            == other.timestamp
    }
}

impl vstd::std_specs::cmp::PartialEqSpecImpl for BalanceSnapshot {
    open spec fn obeys_eq_spec() -> bool {
        true
    }

    open spec fn eq_spec(&self, other: &Self) -> bool {
        self.canister_id == other.canister_id && self.balance == other.balance && self.timestamp
            == other.timestamp
    }
}

/// The snapshot history of one monitored target.
pub struct BalanceHistory {
    pub canister_id: Principal,
    pub snapshots: Vec<BalanceSnapshot>,
}

/// A condition/action rule of the automated-rule extension point; defined as
/// data, evaluated by no operation yet.
#[derive(Clone, Debug)]
pub struct AutomatedRule {
    pub id: u64,
    pub name: String,
    pub condition: RuleCondition,
    pub action: RuleAction,
    pub enabled: bool,
    pub priority: u64,
}

#[derive(Clone, Copy, Debug, PartialEq, Eq, Structural)]
pub enum RuleCondition {
    BalanceDecrease { threshold_percentage: u64 },
    TimeExpired,
    ManualTrigger,
    ConsensusReached { required_votes: u64 },
}

#[derive(Clone, Copy, Debug, PartialEq, Eq, Structural)]
pub enum RuleAction {
    PayBounty(Principal),
    RefundCompany,
    RequireManualReview,
    ExtendDeadline(i64),
}

#[derive(Clone, Copy, Debug, PartialEq, Eq, Structural, Hash)]
pub enum DisputeStatus {
    Open,
    UnderReview,
    Resolved,
    Rejected,
}

/// A challenge to an evaluation's correctness, resolved manually.
pub struct DisputeCase {
    pub id: u64,
    pub challenge_id: u64,
    pub attack_attempt_id: u64,
    pub disputer: Principal,
    pub reason: String,
    pub evidence: Vec<Vec<u8>>,
    pub status: DisputeStatus,
    pub created_at: i64,
    pub resolved_at: Option<i64>,
    pub resolution: Option<String>,
}

/// Mathematical model of a dispute: text and blobs as sequences.
pub struct DisputeCaseView {
    pub id: u64,
    pub challenge_id: u64,
    pub attack_attempt_id: u64,
    pub disputer: Principal,
    pub reason: Seq<char>,
    pub evidence: Seq<Seq<u8>>,
    pub status: DisputeStatus,
    pub created_at: i64,
    pub resolved_at: Option<i64>,
    pub resolution: Option<Seq<char>>,
}

impl View for DisputeCase {
    type V = DisputeCaseView;

    open spec fn view(&self) -> DisputeCaseView {
        DisputeCaseView {
            id: self.id,
            challenge_id: self.challenge_id,
            attack_attempt_id: self.attack_attempt_id,
            disputer: self.disputer,
            reason: self.reason@,
            evidence: crate::types::payload_views(self.evidence@),
            status: self.status,
            created_at: self.created_at,
            resolved_at: self.resolved_at,
            resolution: match self.resolution {
                Some(s) => Some(s@),
                None => None,
            },
        }
    }
}

impl Clone for DisputeCase {
    fn clone(&self) -> (r: Self)
        ensures
            r@ == self@,
    {
        let mut evidence: Vec<Vec<u8>> = Vec::new();
        let mut i: usize = 0;
        while i < self.evidence.len()
            invariant
                i <= self.evidence@.len(),
                evidence@.len() == i,
                crate::types::payload_views(evidence@) == crate::types::payload_views(
                    self.evidence@.subrange(0, i as int),
                ),
            decreases self.evidence@.len() - i,
        {
            let ghost m0 = evidence@;
            let blob = crate::types::clone_bytes(&self.evidence[i]);
            proof {
                assert(blob@ == self.evidence@[i as int]@);
            }
            evidence.push(blob);
            proof {
                let sub1 = self.evidence@.subrange(0, i + 1);
                assert(sub1.len() == i + 1);
                assert(forall|k: int| 0 <= k < i + 1 ==> sub1[k] == self.evidence@[k]);
                assert(evidence@ == m0.push(blob));
                assert(m0.len() == i);
                assert forall|k: int|
                    0 <= k < i + 1 implies crate::types::payload_views(evidence@)[k]
                    == crate::types::payload_views(sub1)[k] by {
                    if k < i {
                        assert(crate::types::payload_views(m0)[k] == crate::types::payload_views(
                            self.evidence@.subrange(0, i as int),
                        )[k]);
                        assert(evidence@[k] == m0[k]);
                        assert(self.evidence@.subrange(0, i as int)[k] == self.evidence@[k]);
                    } else {
                        assert(evidence@[k] == blob);
                    }
                }
                assert(crate::types::payload_views(evidence@) =~= crate::types::payload_views(
                    sub1,
                ));
            }
            i += 1;
        }
        proof {
            assert(self.evidence@.subrange(0, self.evidence@.len() as int) =~= self.evidence@);
            assert(crate::types::payload_views(evidence@) =~= crate::types::payload_views(
                self.evidence@,
            ));
        }
        let resolution = match &self.resolution {
            Some(s) => Some(s.clone()),
            None => None,
        };
        DisputeCase {
            id: self.id,
            challenge_id: self.challenge_id,
            attack_attempt_id: self.attack_attempt_id,
            disputer: self.disputer,
            reason: self.reason.clone(),
            evidence,
            status: self.status,
            created_at: self.created_at,
            resolved_at: self.resolved_at,
            resolution,
        }
    }
}

/// The judge's wiring: its collaborators and thresholds.
#[derive(Clone, Copy, Debug, PartialEq, Eq, Structural)]
pub struct JudgeConfig {
    pub bounty_factory: Option<Principal>,
    pub vault: Option<Principal>,
    pub balance_check_interval: i64,
    pub attack_threshold: u64,
}

/// The lookup predicate for a challenge's monitoring state.
pub open spec fn mon_pred(challenge_id: u64) -> spec_fn(MonitoringState) -> bool {
    |m: MonitoringState| m.challenge_id == challenge_id
}

pub open spec fn mon_index_in(s: Seq<MonitoringState>, challenge_id: u64) -> int {
    find_first(s, mon_pred(challenge_id))
}

/// The monitoring state of a challenge, if any was ever created.
pub open spec fn mon_of_in(s: Seq<MonitoringState>, challenge_id: u64) -> Option<MonitoringState> {
    let i = mon_index_in(s, challenge_id);
    if i >= 0 {
        Some(s[i])
    } else {
        None
    }
}

/// The lookup predicate for a target's snapshot history.
pub open spec fn hist_pred(canister: Principal) -> spec_fn(BalanceHistory) -> bool {
    |h: BalanceHistory| h.canister_id == canister
}

pub open spec fn hist_index_in(s: Seq<BalanceHistory>, canister: Principal) -> int {
    find_first(s, hist_pred(canister))
}

/// The snapshots recorded for a target, oldest first; empty if none yet.
pub open spec fn history_of_in(s: Seq<BalanceHistory>, canister: Principal) -> Seq<
    BalanceSnapshot,
> {
    let i = hist_index_in(s, canister);
    if i >= 0 {
        s[i].snapshots@
    } else {
        Seq::empty()
    }
}

/// A history after one more snapshot: at the cap, the oldest entry leaves
/// first (FIFO eviction), so the history never exceeds the cap.
pub open spec fn pushed_history(h: Seq<BalanceSnapshot>, snap: BalanceSnapshot) -> Seq<
    BalanceSnapshot,
> {
    if h.len() >= MAX_BALANCE_HISTORY {
        h.drop_first().push(snap)
    } else {
        h.push(snap)
    }
}

/// The judge component.
pub struct Judge {
    pub evaluations: Vec<Evaluation>,
    pub monitoring_states: Vec<MonitoringState>,
    pub disputes: Vec<DisputeCase>,
    pub balance_history: Vec<BalanceHistory>,
    pub bounty_factory: Option<Principal>,
    pub vault_canister: Option<Principal>,
    /// The judge's own identity, recorded as the evaluator of automated
    /// evaluations.
    pub judge_id: Principal,
    /// The identity allowed to rewire the judge's collaborators; fixed when
    /// the judge is stood up.
    pub governance: Principal,
}

impl Judge {
    pub open spec fn wf(self) -> bool {
        &&& forall|i: int|
            0 <= i < self.evaluations@.len() ==> (#[trigger] self.evaluations@[i]).id == i + 1
        &&& sorted_by_key(self.evaluations@, eval_time_key())
        &&& forall|i: int|
            0 <= i < self.disputes@.len() ==> (#[trigger] self.disputes@[i]).id == i + 1
        &&& sorted_by_key(self.disputes@, dispute_created_key())
        &&& forall|i: int, j: int|
            0 <= i < j < self.monitoring_states@.len() ==> (
            #[trigger] self.monitoring_states@[i]).challenge_id != (
            #[trigger] self.monitoring_states@[j]).challenge_id
        &&& forall|i: int, j: int|
            0 <= i < j < self.balance_history@.len() ==> (
            #[trigger] self.balance_history@[i]).canister_id != (
            #[trigger] self.balance_history@[j]).canister_id
        &&& forall|i: int|
            0 <= i < self.balance_history@.len() ==> (
            #[trigger] self.balance_history@[i]).snapshots@.len() <= MAX_BALANCE_HISTORY
    }

    pub open spec fn spec_monitoring_of(self, challenge_id: u64) -> Option<MonitoringState> {
        mon_of_in(self.monitoring_states@, challenge_id)
    }

    pub open spec fn spec_history_of(self, canister: Principal) -> Seq<BalanceSnapshot> {
        history_of_in(self.balance_history@, canister)
    }

    /// A fresh judge with no recorded state, owned by `judge_id` and
    /// governed by `governance`.
    pub fn new(judge_id: Principal, governance: Principal) -> (j: Judge)
        ensures
            j.wf(),
            j.evaluations@.len() == 0,
            j.monitoring_states@.len() == 0,
            j.disputes@.len() == 0,
            j.balance_history@.len() == 0,
            j.bounty_factory is None,
            j.vault_canister is None,
            j.judge_id == judge_id,
            j.governance == governance,
    {
        Judge {
            evaluations: Vec::new(),
            monitoring_states: Vec::new(),
            disputes: Vec::new(),
            balance_history: Vec::new(),
            bounty_factory: None,
            vault_canister: None,
            judge_id,
            governance,
        }
    }

    /// Everything but monitoring states and histories is unchanged.
    pub open spec fn same_audit_state(self, j0: Judge) -> bool {
        &&& self.evaluations@ == j0.evaluations@
        &&& self.disputes@ == j0.disputes@
        &&& self.bounty_factory == j0.bounty_factory
        &&& self.vault_canister == j0.vault_canister
        &&& self.judge_id == j0.judge_id
        &&& self.governance == j0.governance
    }

    /// Records the challenge registry the judge accepts monitoring calls
    /// from. Only governance may rewire it.
    pub fn set_bounty_factory(&mut self, caller: Principal, canister: Principal) -> (r: Result<
        (),
        ZeroLockError,
    >)
        requires
            old(self).wf(),
        ensures
            final(self).wf(),
            r is Ok <==> caller == old(self).governance,
            r is Err ==> *final(self) == *old(self) && r matches Err(ZeroLockError::Unauthorized(_)),
            r is Ok ==> {
                &&& final(self).bounty_factory == Some(canister)
                &&& final(self).vault_canister == old(self).vault_canister
                &&& final(self).evaluations@ == old(self).evaluations@
                &&& final(self).disputes@ == old(self).disputes@
                &&& final(self).monitoring_states@ == old(self).monitoring_states@
                &&& final(self).balance_history@ == old(self).balance_history@
                &&& final(self).judge_id == old(self).judge_id
                &&& final(self).governance == old(self).governance
            },
    {
        if caller != self.governance {
            return Err(ZeroLockError::Unauthorized("only governance can rewire the judge".to_owned()));
        }
        self.bounty_factory = Some(canister);
        Ok(())
    }

    /// Records the ledger the judge settles through. Only governance may
    /// rewire it.
    pub fn set_vault_canister(&mut self, caller: Principal, canister: Principal) -> (r: Result<
        (),
        ZeroLockError,
    >)
        requires
            old(self).wf(),
        ensures
            final(self).wf(),
            r is Ok <==> caller == old(self).governance,
            r is Err ==> *final(self) == *old(self) && r matches Err(ZeroLockError::Unauthorized(_)),
            r is Ok ==> {
                &&& final(self).vault_canister == Some(canister)
                &&& final(self).bounty_factory == old(self).bounty_factory
                &&& final(self).evaluations@ == old(self).evaluations@
                &&& final(self).disputes@ == old(self).disputes@
                &&& final(self).monitoring_states@ == old(self).monitoring_states@
                &&& final(self).balance_history@ == old(self).balance_history@
                &&& final(self).judge_id == old(self).judge_id
                &&& final(self).governance == old(self).governance
            },
    {
        if caller != self.governance {
            return Err(ZeroLockError::Unauthorized("only governance can rewire the judge".to_owned()));
        }
        self.vault_canister = Some(canister);
        Ok(())
    }

    /// The judge's wiring and thresholds.
    pub fn get_config(&self) -> (r: JudgeConfig)
        ensures
            r == (JudgeConfig {
                bounty_factory: self.bounty_factory,
                vault: self.vault_canister,
                balance_check_interval: BALANCE_CHECK_INTERVAL,
                attack_threshold: ATTACK_THRESHOLD_PERCENTAGE,
            }),
    {
        JudgeConfig {
            bounty_factory: self.bounty_factory,
            vault: self.vault_canister,
            balance_check_interval: BALANCE_CHECK_INTERVAL,
            attack_threshold: ATTACK_THRESHOLD_PERCENTAGE,
        }
    }

    /// Starts monitoring a challenge's target. Only the registry may;
    /// `observed_balance` is the target's balance the caller just read, and
    /// becomes both the baseline and the first historical snapshot.
    /// Re-activating an inactive state resets the baseline.
    pub fn start_monitoring(
        &mut self,
        caller: Principal,
        challenge_id: u64,
        target_canister: Principal,
        observed_balance: u64,
        now: i64,
    ) -> (r: Result<(), ZeroLockError>)
        requires
            old(self).wf(),
        ensures
            final(self).wf(),
            r is Ok <==> (old(self).bounty_factory matches Some(f) && caller == f && !(old(
                self,
            ).spec_monitoring_of(challenge_id) matches Some(m) && m.monitoring_active)),
            r is Err ==> *final(self) == *old(self),
            old(self).bounty_factory is None ==> r matches Err(ZeroLockError::InternalError(_)),
            (old(self).bounty_factory matches Some(f) && caller != f) ==> r matches Err(
                ZeroLockError::Unauthorized(_),
            ),
            (old(self).bounty_factory matches Some(f) && caller == f && (old(
                self,
            ).spec_monitoring_of(challenge_id) matches Some(m) && m.monitoring_active))
                ==> r matches Err(ZeroLockError::InvalidState(_)),
            r is Ok ==> {
                &&& forall|id: u64|
                    #![trigger final(self).spec_monitoring_of(id)]
                    final(self).spec_monitoring_of(id) == if id == challenge_id {
                        Some(
                            spec_new_monitoring(challenge_id, target_canister, observed_balance, now),
                        )
                    } else {
                        old(self).spec_monitoring_of(id)
                    }
                &&& forall|c: Principal|
                    #![trigger final(self).spec_history_of(c)]
                    final(self).spec_history_of(c) == if c == target_canister {
                        pushed_history(
                            old(self).spec_history_of(c),
                            BalanceSnapshot {
                                canister_id: target_canister,
                                balance: observed_balance,
                                timestamp: now,
                                block_height: None,
                            },
                        )
                    } else {
                        old(self).spec_history_of(c)
                    }
                &&& final(self).same_audit_state(*old(self))
            },
    {
        let factory = match self.bounty_factory {
            Some(f) => f,
            None => {
                return Err(ZeroLockError::InternalError("challenge registry not configured".to_owned()));
            },
        };
        if caller != factory {
            return Err(ZeroLockError::Unauthorized("only the challenge registry can start monitoring".to_owned()));
        }
        let ghost s0 = self.monitoring_states@;
        let existing = find_mon_slot(&self.monitoring_states, challenge_id);
        if let Some(j) = existing {
            if self.monitoring_states[j].monitoring_active {
                return Err(ZeroLockError::InvalidState("already monitoring this challenge".to_owned()));
            }
        }
        let state = MonitoringState {
            challenge_id,
            target_canister,
            initial_balance: observed_balance,
            current_balance: observed_balance,
            last_check: now,
            monitoring_active: true,
            attack_detected: false,
        };
        match existing {
            Some(j) => {
                self.monitoring_states.set(j, state);
                proof {
                    let s1 = self.monitoring_states@;
                    lemma_find_first_properties(s0, mon_pred(challenge_id));
                    assert((mon_pred(challenge_id))(s0[j as int]));
                    assert forall|id: u64|
                        #![trigger mon_of_in(s1, id)]
                        mon_of_in(s1, id) == if id == challenge_id {
                            Some(state)
                        } else {
                            mon_of_in(s0, id)
                        } by {
                        lemma_find_first_update(s0, j as int, state, mon_pred(id));
                        lemma_find_first_properties(s0, mon_pred(id));
                        let i = mon_index_in(s0, id);
                        if id == challenge_id {
                            assert(i == j);
                        } else {
                            if i >= 0 {
                                assert(i != j);
                            }
                        }
                    }
                }
            },
            None => {
                self.monitoring_states.push(state);
                proof {
                    let s1 = self.monitoring_states@;
                    lemma_find_first_properties(s0, mon_pred(challenge_id));
                    assert forall|id: u64|
                        #![trigger mon_of_in(s1, id)]
                        mon_of_in(s1, id) == if id == challenge_id {
                            Some(state)
                        } else {
                            mon_of_in(s0, id)
                        } by {
                        lemma_find_first_push(s0, state, mon_pred(id));
                        lemma_find_first_properties(s0, mon_pred(id));
                    }
                    assert forall|i: int, j2: int|
                        0 <= i < j2 < s1.len() implies (#[trigger] s1[i]).challenge_id != (
                        #[trigger] s1[j2]).challenge_id by {
                        if j2 == s0.len() as int {
                            assert(!(mon_pred(challenge_id))(s0[i]));
                        }
                    }
                }
            },
        }
        record_balance_snapshot(&mut self.balance_history, target_canister, observed_balance, now);
        Ok(())
    }

    /// Stops monitoring a challenge. Only the registry may; the history is
    /// kept, and monitoring can be started again later.
    pub fn stop_monitoring(&mut self, caller: Principal, challenge_id: u64) -> (r: Result<
        (),
        ZeroLockError,
    >)
        requires
            old(self).wf(),
        ensures
            final(self).wf(),
            r is Ok <==> (old(self).bounty_factory matches Some(f) && caller == f && old(
                self,
            ).spec_monitoring_of(challenge_id) is Some),
            r is Err ==> *final(self) == *old(self),
            old(self).bounty_factory is None ==> r matches Err(ZeroLockError::InternalError(_)),
            (old(self).bounty_factory matches Some(f) && caller != f) ==> r matches Err(
                ZeroLockError::Unauthorized(_),
            ),
            (old(self).bounty_factory matches Some(f) && caller == f && old(
                self,
            ).spec_monitoring_of(challenge_id) is None) ==> r matches Err(ZeroLockError::NotFound(
                _,
            )),
            r is Ok ==> ({
                let m = old(self).spec_monitoring_of(challenge_id)->Some_0;
                &&& forall|id: u64|
                    #![trigger final(self).spec_monitoring_of(id)]
                    final(self).spec_monitoring_of(id) == if id == challenge_id {
                        Some(MonitoringState { monitoring_active: false, ..m })
                    } else {
                        old(self).spec_monitoring_of(id)
                    }
                &&& final(self).balance_history@ == old(self).balance_history@
                &&& final(self).same_audit_state(*old(self))
            }),
    {
        let factory = match self.bounty_factory {
            Some(f) => f,
            None => {
                return Err(ZeroLockError::InternalError("challenge registry not configured".to_owned()));
            },
        };
        if caller != factory {
            return Err(ZeroLockError::Unauthorized("only the challenge registry can stop monitoring".to_owned()));
        }
        let ghost s0 = self.monitoring_states@;
        let j = match find_mon_slot(&self.monitoring_states, challenge_id) {
            Some(j) => j,
            None => {
                return Err(ZeroLockError::NotFound("no monitoring state found for this challenge".to_owned()));
            },
        };
        let m = self.monitoring_states[j];
        let stopped = MonitoringState { monitoring_active: false, ..m };
        self.monitoring_states.set(j, stopped);
        proof {
            let s1 = self.monitoring_states@;
            lemma_find_first_properties(s0, mon_pred(challenge_id));
            assert((mon_pred(challenge_id))(s0[j as int]));
            assert forall|id: u64|
                #![trigger mon_of_in(s1, id)]
                mon_of_in(s1, id) == if id == challenge_id {
                    Some(stopped)
                } else {
                    mon_of_in(s0, id)
                } by {
                lemma_find_first_update(s0, j as int, stopped, mon_pred(id));
                lemma_find_first_properties(s0, mon_pred(id));
                let i = mon_index_in(s0, id);
                if id == challenge_id {
                    assert(i == j);
                } else {
                    if i >= 0 {
                        assert(i != j);
                    }
                }
            }
        }
        Ok(())
    }

    /// `now` does not precede any recorded evaluation; holds of a monotone
    /// clock source.
    pub open spec fn eval_time_ok(self, now: i64) -> bool {
        forall|i: int|
            0 <= i < self.evaluations@.len() ==> (#[trigger] self.evaluations@[i]).timestamp <= now
    }

    /// Evaluates an attack attempt against the balance-delta heuristic.
    /// `observed_balance` is the target's balance the caller just read. The
    /// evaluation record is stored before any settlement can be issued, the
    /// monitoring state is refreshed, and the verdict is Valid exactly when
    /// the balance fell by at least the threshold percentage of the baseline.
    /// Settlement is the caller's next step on a Valid verdict, via
    /// `trigger_settlement` and the ledger.
    pub fn evaluate_attack(
        &mut self,
        challenge_id: u64,
        attack_attempt: AttackAttempt,
        observed_balance: u64,
        now: i64,
    ) -> (r: Result<Evaluation, ZeroLockError>)
        requires
            old(self).wf(),
            old(self).eval_time_ok(now),
            old(self).evaluations@.len() + 2 <= u64::MAX,
        ensures
            final(self).wf(),
            final(self).eval_time_ok(now),
            r is Ok <==> (old(self).spec_monitoring_of(challenge_id) matches Some(m)
                && m.monitoring_active),
            r is Err ==> *final(self) == *old(self),
            old(self).spec_monitoring_of(challenge_id) is None ==> r matches Err(
                ZeroLockError::NotFound(_),
            ),
            (old(self).spec_monitoring_of(challenge_id) matches Some(m) && !m.monitoring_active)
                ==> r matches Err(ZeroLockError::InvalidState(_)),
            r matches Ok(ev) ==> ({
                let m = old(self).spec_monitoring_of(challenge_id)->Some_0;
                &&& ev.id == old(self).evaluations@.len() + 1
                &&& ev.challenge_id == challenge_id
                &&& ev.attack_attempt_id == attack_attempt.id
                &&& ev.decision == spec_decision(m.initial_balance, observed_balance)
                &&& ev.timestamp == now
                &&& ev.evaluator == old(self).judge_id
                &&& eval_views(final(self).evaluations@) == eval_views(old(self).evaluations@).push(
                    ev@,
                )
                &&& forall|id: u64|
                    #![trigger final(self).spec_monitoring_of(id)]
                    final(self).spec_monitoring_of(id) == if id == challenge_id {
                        Some(
                            MonitoringState {
                                current_balance: observed_balance,
                                last_check: now,
                                attack_detected: spec_decision(
                                    m.initial_balance,
                                    observed_balance,
                                ) is Valid,
                                ..m
                            },
                        )
                    } else {
                        old(self).spec_monitoring_of(id)
                    }
                &&& forall|c: Principal|
                    #![trigger final(self).spec_history_of(c)]
                    final(self).spec_history_of(c) == if c == m.target_canister {
                        pushed_history(
                            old(self).spec_history_of(c),
                            BalanceSnapshot {
                                canister_id: m.target_canister,
                                balance: observed_balance,
                                timestamp: now,
                                block_height: None,
                            },
                        )
                    } else {
                        old(self).spec_history_of(c)
                    }
                &&& final(self).disputes@ == old(self).disputes@
                &&& final(self).bounty_factory == old(self).bounty_factory
                &&& final(self).vault_canister == old(self).vault_canister
                &&& final(self).judge_id == old(self).judge_id
            }),
    {
        let ghost s0 = self.monitoring_states@;
        let j = match find_mon_slot(&self.monitoring_states, challenge_id) {
            Some(j) => j,
            None => {
                return Err(ZeroLockError::NotFound("no monitoring state found for this challenge".to_owned()));
            },
        };
        let state = self.monitoring_states[j];
        if !state.monitoring_active {
            return Err(ZeroLockError::InvalidState("monitoring is not active for this challenge".to_owned()));
        }
        proof {
            lemma_find_first_properties(s0, mon_pred(challenge_id));
            assert((mon_pred(challenge_id))(s0[j as int]));
        }
        record_balance_snapshot(
            &mut self.balance_history,
            state.target_canister,
            observed_balance,
            now,
        );
        let balance_decrease: u64 = if state.initial_balance > observed_balance {
            state.initial_balance - observed_balance
        } else {
            0
        };
        let decrease_percentage: u64 = if state.initial_balance > 0 {
            (((balance_decrease as u128) * 100) / (state.initial_balance as u128)) as u64
        } else {
            0
        };
        proof {
            lemma_decrease_pct_bounds(state.initial_balance, observed_balance);
        }
        assert(decrease_percentage == spec_decrease_pct(state.initial_balance, observed_balance));
        let decision = if decrease_percentage >= ATTACK_THRESHOLD_PERCENTAGE {
            JudgeDecision::Valid
        } else {
            JudgeDecision::Invalid
        };
        let mut reasoning = String::from_str("balance change: ");
        reasoning.append(decrease_percentage.to_string().as_str());
        reasoning.append("% (");
        reasoning.append(balance_decrease.to_string().as_str());
        reasoning.append(" tokens); threshold: ");
        reasoning.append(ATTACK_THRESHOLD_PERCENTAGE.to_string().as_str());
        reasoning.append("%");
        let evaluation_id = self.evaluations.len() as u64 + 1;
        let evaluation = Evaluation {
            id: evaluation_id,
            challenge_id,
            attack_attempt_id: attack_attempt.id,
            decision,
            reasoning,
            timestamp: now,
            evaluator: self.judge_id,
        };
        let ghost e0 = self.evaluations@;
        let stored = evaluation.clone();
        self.evaluations.push(stored);
        proof {
            assert(eval_views(self.evaluations@) =~= eval_views(e0).push(evaluation@));
        }
        let updated = MonitoringState {
            challenge_id: state.challenge_id,
            target_canister: state.target_canister,
            initial_balance: state.initial_balance,
            current_balance: observed_balance,
            last_check: now,
            monitoring_active: state.monitoring_active,
            attack_detected: decision == JudgeDecision::Valid,
        };
        self.monitoring_states.set(j, updated);
        proof {
            let s1 = self.monitoring_states@;
            assert forall|id: u64|
                #![trigger mon_of_in(s1, id)]
                mon_of_in(s1, id) == if id == challenge_id {
                    Some(updated)
                } else {
                    mon_of_in(s0, id)
                } by {
                lemma_find_first_update(s0, j as int, updated, mon_pred(id));
                lemma_find_first_properties(s0, mon_pred(id));
                let i = mon_index_in(s0, id);
                if id == challenge_id {
                    assert(i == j);
                } else {
                    if i >= 0 {
                        assert(i != j);
                    }
                }
            }
        }
        Ok(evaluation)
    }

    /// The monitoring states owed a re-check at time `now`: active, and
    /// unchecked for at least the check interval. At most `max_checks`
    /// entries are returned, so one tick's work stays bounded; the rest wait
    /// for the next tick. The caller reads each target's balance and hands it
    /// to `record_periodic_check`.
    pub fn due_monitoring_checks(&self, now: i64, max_checks: usize) -> (r: Vec<(u64, Principal)>)
        ensures
            r@ == due_targets(self.monitoring_states@, now).subrange(
                0,
                if max_checks as int <= due_targets(self.monitoring_states@, now).len() as int {
                    max_checks as int
                } else {
                    due_targets(self.monitoring_states@, now).len() as int
                },
            ),
            r@.len() <= max_checks,
    {
        let s = &self.monitoring_states;
        let mut out: Vec<(u64, Principal)> = Vec::new();
        let mut i: usize = 0;
        while i < s.len()
            invariant
                i <= s@.len(),
                out@ == due_targets(s@.subrange(0, i as int), now).subrange(
                    0,
                    if max_checks as int <= due_targets(s@.subrange(0, i as int), now).len() as int {
                        max_checks as int
                    } else {
                        due_targets(s@.subrange(0, i as int), now).len() as int
                    },
                ),
                out@.len() <= max_checks,
            decreases s@.len() - i,
        {
            let m = s[i];
            let due = m.monitoring_active && (now as i128) - (m.last_check as i128)
                >= BALANCE_CHECK_INTERVAL as i128;
            proof {
                reveal(Seq::filter);
                let pre = s@.subrange(0, i as int);
                let post = s@.subrange(0, i + 1);
                assert(post.drop_last() =~= pre);
                assert(post.last() == s@[i as int]);
                assert(due == (due_pred(now))(s@[i as int]));
                if due {
                    assert(post.filter(due_pred(now)) == pre.filter(due_pred(now)).push(
                        s@[i as int],
                    ));
                    assert(due_targets(post, now) =~= due_targets(pre, now).push(
                        (m.challenge_id, m.target_canister),
                    ));
                } else {
                    assert(due_targets(post, now) == due_targets(pre, now));
                }
            }
            if due && out.len() < max_checks {
                out.push((m.challenge_id, m.target_canister));
            }
            proof {
                let pre = s@.subrange(0, i as int);
                let post = s@.subrange(0, i + 1);
                let dpre = due_targets(pre, now);
                let dpost = due_targets(post, now);
                let capped_pre: int = if max_checks as int <= dpre.len() as int {
                    max_checks as int
                } else {
                    dpre.len() as int
                };
                let capped_post: int = if max_checks as int <= dpost.len() as int {
                    max_checks as int
                } else {
                    dpost.len() as int
                };
                assert(out@ =~= dpost.subrange(0, capped_post));
            }
            i += 1;
        }
        proof {
            assert(s@.subrange(0, s@.len() as int) =~= s@);
        }
        out
    }

    /// Applies one periodic re-check: refreshes the state's current balance
    /// and check time, appends a snapshot (evicting the oldest at the cap),
    /// and reports whether the threshold is exceeded — purely for detection
    /// flagging; the recorded `attack_detected` flag and settlement are only
    /// ever driven by `evaluate_attack`.
    pub fn record_periodic_check(
        &mut self,
        challenge_id: u64,
        observed_balance: u64,
        now: i64,
    ) -> (r: Result<bool, ZeroLockError>)
        requires
            old(self).wf(),
        ensures
            final(self).wf(),
            r is Ok <==> (old(self).spec_monitoring_of(challenge_id) matches Some(m)
                && m.monitoring_active),
            r is Err ==> *final(self) == *old(self),
            old(self).spec_monitoring_of(challenge_id) is None ==> r matches Err(
                ZeroLockError::NotFound(_),
            ),
            (old(self).spec_monitoring_of(challenge_id) matches Some(m) && !m.monitoring_active)
                ==> r matches Err(ZeroLockError::InvalidState(_)),
            r matches Ok(detected) ==> ({
                let m = old(self).spec_monitoring_of(challenge_id)->Some_0;
                &&& detected == (spec_decrease_pct(m.initial_balance, observed_balance)
                    >= ATTACK_THRESHOLD_PERCENTAGE)
                &&& forall|id: u64|
                    #![trigger final(self).spec_monitoring_of(id)]
                    final(self).spec_monitoring_of(id) == if id == challenge_id {
                        Some(
                            MonitoringState {
                                current_balance: observed_balance,
                                last_check: now,
                                ..m
                            },
                        )
                    } else {
                        old(self).spec_monitoring_of(id)
                    }
                &&& forall|c: Principal|
                    #![trigger final(self).spec_history_of(c)]
                    final(self).spec_history_of(c) == if c == m.target_canister {
                        pushed_history(
                            old(self).spec_history_of(c),
                            BalanceSnapshot {
                                canister_id: m.target_canister,
                                balance: observed_balance,
                                timestamp: now,
                                block_height: None,
                            },
                        )
                    } else {
                        old(self).spec_history_of(c)
                    }
                &&& final(self).same_audit_state(*old(self))
            }),
    {
        let ghost s0 = self.monitoring_states@;
        let j = match find_mon_slot(&self.monitoring_states, challenge_id) {
            Some(j) => j,
            None => {
                return Err(ZeroLockError::NotFound("no monitoring state found for this challenge".to_owned()));
            },
        };
        let state = self.monitoring_states[j];
        if !state.monitoring_active {
            return Err(ZeroLockError::InvalidState("monitoring is not active for this challenge".to_owned()));
        }
        proof {
            lemma_find_first_properties(s0, mon_pred(challenge_id));
            assert((mon_pred(challenge_id))(s0[j as int]));
        }
        record_balance_snapshot(
            &mut self.balance_history,
            state.target_canister,
            observed_balance,
            now,
        );
        let balance_decrease: u64 = if state.initial_balance > observed_balance {
            state.initial_balance - observed_balance
        } else {
            0
        };
        let decrease_percentage: u64 = if state.initial_balance > 0 {
            (((balance_decrease as u128) * 100) / (state.initial_balance as u128)) as u64
        } else {
            0
        };
        proof {
            lemma_decrease_pct_bounds(state.initial_balance, observed_balance);
        }
        assert(decrease_percentage == spec_decrease_pct(state.initial_balance, observed_balance));
        let detected = decrease_percentage >= ATTACK_THRESHOLD_PERCENTAGE;
        let updated = MonitoringState {
            challenge_id: state.challenge_id,
            target_canister: state.target_canister,
            initial_balance: state.initial_balance,
            current_balance: observed_balance,
            last_check: now,
            monitoring_active: state.monitoring_active,
            attack_detected: state.attack_detected,
        };
        self.monitoring_states.set(j, updated);
        proof {
            let s1 = self.monitoring_states@;
            assert forall|id: u64|
                #![trigger mon_of_in(s1, id)]
                mon_of_in(s1, id) == if id == challenge_id {
                    Some(updated)
                } else {
                    mon_of_in(s0, id)
                } by {
                lemma_find_first_update(s0, j as int, updated, mon_pred(id));
                lemma_find_first_properties(s0, mon_pred(id));
                let i = mon_index_in(s0, id);
                if id == challenge_id {
                    assert(i == j);
                } else {
                    if i >= 0 {
                        assert(i != j);
                    }
                }
            }
        }
        Ok(detected)
    }

    /// Clears a settlement for sending: succeeds exactly when the ledger is
    /// configured. The caller then instructs the ledger to unlock the
    /// challenge's funds as a bounty payout to the winner; a failure there is
    /// reported by the ledger and never rewrites the evaluation record.
    pub fn trigger_settlement(&self, challenge_id: u64, winner: Principal) -> (r: Result<
        Principal,
        ZeroLockError,
    >)
        ensures
            r is Ok <==> self.vault_canister is Some,
            r matches Ok(v) ==> self.vault_canister == Some(v),
            r matches Err(e) ==> e matches ZeroLockError::InternalError(_),
    {
        match self.vault_canister {
            Some(vault) => Ok(vault),
            None => Err(ZeroLockError::InternalError("ledger not configured".to_owned())),
        }
    }

    /// Opens a dispute over an evaluation. Anonymous callers and empty
    /// reasons are rejected; the dispute starts Open.
    pub fn create_dispute(
        &mut self,
        caller: Principal,
        challenge_id: u64,
        attack_attempt_id: u64,
        reason: String,
        evidence: Vec<Vec<u8>>,
        now: i64,
    ) -> (r: Result<u64, ZeroLockError>)
        requires
            old(self).wf(),
            old(self).dispute_time_ok(now),
            old(self).disputes@.len() + 2 <= u64::MAX,
        ensures
            final(self).wf(),
            final(self).dispute_time_ok(now),
            r is Ok <==> (!caller.spec_is_anonymous() && reason@.len() > 0),
            r is Err ==> *final(self) == *old(self),
            caller.spec_is_anonymous() ==> r matches Err(ZeroLockError::Unauthorized(_)),
            !caller.spec_is_anonymous() && reason@.len() == 0 ==> r matches Err(
                ZeroLockError::InvalidInput(_),
            ),
            r matches Ok(id) ==> {
                &&& id == old(self).disputes@.len() + 1
                &&& final(self).disputes@ == old(self).disputes@.push(
                    DisputeCase {
                        id: (old(self).disputes@.len() + 1) as u64,
                        challenge_id,
                        attack_attempt_id,
                        disputer: caller,
                        reason,
                        evidence,
                        status: DisputeStatus::Open,
                        created_at: now,
                        resolved_at: None,
                        resolution: None,
                    },
                )
                &&& final(self).evaluations@ == old(self).evaluations@
                &&& final(self).monitoring_states@ == old(self).monitoring_states@
                &&& final(self).balance_history@ == old(self).balance_history@
                &&& final(self).bounty_factory == old(self).bounty_factory
                &&& final(self).vault_canister == old(self).vault_canister
                &&& final(self).judge_id == old(self).judge_id
            },
    {
        if caller.is_anonymous() {
            return Err(ZeroLockError::Unauthorized("anonymous principals cannot create disputes".to_owned()));
        }
        if reason.as_str().unicode_len() == 0 {
            return Err(ZeroLockError::InvalidInput("dispute reason cannot be empty".to_owned()));
        }
        let dispute_id = self.disputes.len() as u64 + 1;
        let dispute = DisputeCase {
            id: dispute_id,
            challenge_id,
            attack_attempt_id,
            disputer: caller,
            reason,
            evidence,
            status: DisputeStatus::Open,
            created_at: now,
            resolved_at: None,
            resolution: None,
        };
        self.disputes.push(dispute);
        Ok(dispute_id)
    }

    /// `now` does not precede any recorded dispute; holds of a monotone
    /// clock source.
    pub open spec fn dispute_time_ok(self, now: i64) -> bool {
        forall|i: int|
            0 <= i < self.disputes@.len() ==> (#[trigger] self.disputes@[i]).created_at <= now
    }

    /// Resolves a dispute: only one still Open or UnderReview can be, and
    /// the resolution text and time are recorded.
    pub fn resolve_dispute(
        &mut self,
        dispute_id: u64,
        resolution: DisputeStatus,
        resolution_text: String,
        now: i64,
    ) -> (r: Result<(), ZeroLockError>)
        requires
            old(self).wf(),
        ensures
            final(self).wf(),
            r is Ok <==> (1 <= dispute_id <= old(self).disputes@.len() && (open_dispute_pred())(
                old(self).disputes@[dispute_id - 1],
            )),
            r is Err ==> *final(self) == *old(self),
            !(1 <= dispute_id <= old(self).disputes@.len()) ==> r matches Err(
                ZeroLockError::NotFound(_),
            ),
            (1 <= dispute_id <= old(self).disputes@.len() && !(open_dispute_pred())(
                old(self).disputes@[dispute_id - 1],
            )) ==> r matches Err(ZeroLockError::InvalidState(_)),
            r is Ok ==> {
                &&& final(self).disputes@ == old(self).disputes@.update(
                    dispute_id - 1,
                    DisputeCase {
                        status: resolution,
                        resolved_at: Some(now),
                        resolution: Some(resolution_text),
                        ..old(self).disputes@[dispute_id - 1]
                    },
                )
                &&& final(self).evaluations@ == old(self).evaluations@
                &&& final(self).monitoring_states@ == old(self).monitoring_states@
                &&& final(self).balance_history@ == old(self).balance_history@
                &&& final(self).bounty_factory == old(self).bounty_factory
                &&& final(self).vault_canister == old(self).vault_canister
                &&& final(self).judge_id == old(self).judge_id
            },
    {
        if !(dispute_id >= 1 && dispute_id <= self.disputes.len() as u64) {
            return Err(ZeroLockError::NotFound("dispute not found".to_owned()));
        }
        let i = (dispute_id - 1) as usize;
        let is_open = match self.disputes[i].status {
            DisputeStatus::Open => true,
            DisputeStatus::UnderReview => true,
            _ => false,
        };
        if !is_open {
            return Err(ZeroLockError::InvalidState("dispute is already resolved".to_owned()));
        }
        let d = &mut self.disputes[i];
        d.status = resolution;
        d.resolved_at = Some(now);
        d.resolution = Some(resolution_text);
        Ok(())
    }

    /// Reads the monitoring state of a challenge.
    pub fn get_monitoring_state(&self, challenge_id: u64) -> (r: Result<
        MonitoringState,
        ZeroLockError,
    >)
        ensures
            match r {
                Ok(m) => self.spec_monitoring_of(challenge_id) == Some(m),
                Err(e) => self.spec_monitoring_of(challenge_id) is None && e matches ZeroLockError::NotFound(_),
            },
    {
        match find_mon_slot(&self.monitoring_states, challenge_id) {
            Some(j) => Ok(self.monitoring_states[j]),
            None => Err(ZeroLockError::NotFound("no monitoring state found".to_owned())),
        }
    }

    /// The evaluation history of a challenge, newest first.
    pub fn get_evaluations(&self, challenge_id: u64) -> (r: Vec<Evaluation>)
        requires
            self.wf(),
        ensures
            eval_views(r@) == eval_views(
                self.evaluations@.filter(eval_challenge_pred(challenge_id)).reverse(),
            ),
            forall|i: int, j: int|
                0 <= i <= j < r@.len() ==> (#[trigger] r@[i]).timestamp >= (
                #[trigger] r@[j]).timestamp,
    {
        let s = &self.evaluations;
        let mut matched: Vec<Evaluation> = Vec::new();
        let mut i: usize = 0;
        while i < s.len()
            invariant
                i <= s@.len(),
                matched@.len() <= i,
                eval_views(matched@) == eval_views(
                    s@.subrange(0, i as int).filter(eval_challenge_pred(challenge_id)),
                ),
            decreases s@.len() - i,
        {
            let keep = s[i].challenge_id == challenge_id;
            proof {
                reveal(Seq::filter);
                assert(s@.subrange(0, i + 1).drop_last() =~= s@.subrange(0, i as int));
                assert(s@.subrange(0, i + 1).last() == s@[i as int]);
                assert(keep == (eval_challenge_pred(challenge_id))(s@[i as int]));
                assert(s@.subrange(0, i as int).filter(eval_challenge_pred(challenge_id)).len()
                    <= s@.subrange(0, i as int).len());
            }
            if keep {
                let ghost m0 = matched@;
                let e = s[i].clone();
                matched.push(e);
                proof {
                    let f0 = s@.subrange(0, i as int).filter(eval_challenge_pred(challenge_id));
                    assert(eval_views(matched@) =~= eval_views(m0).push(e@));
                    assert(eval_views(f0.push(s@[i as int])) =~= eval_views(f0).push(
                        s@[i as int]@,
                    ));
                }
            }
            i += 1;
        }
        let ghost fl = self.evaluations@.filter(eval_challenge_pred(challenge_id));
        let ghost m0 = matched@;
        proof {
            assert(s@.subrange(0, s@.len() as int) =~= s@);
            lemma_filter_sorted(self.evaluations@, eval_challenge_pred(challenge_id), eval_time_key());
            assert(eval_views(m0).len() == m0.len());
            assert(eval_views(fl).len() == fl.len());
            assert(m0.len() == fl.len());
            assert forall|a: int, b: int| 0 <= a <= b < m0.len() implies (#[trigger] m0[a]).timestamp
                <= (#[trigger] m0[b]).timestamp by {
                assert(eval_views(m0)[a] == eval_views(fl)[a]);
                assert(eval_views(m0)[b] == eval_views(fl)[b]);
                assert((eval_time_key())(fl[a]) <= (eval_time_key())(fl[b]));
            }
        }
        let total = matched.len();
        let mut out: Vec<Evaluation> = Vec::new();
        let mut k: usize = 0;
        while k < total
            invariant
                k <= total,
                total == m0.len(),
                matched@ == m0.subrange(0, total - k),
                out@.len() == k,
                forall|m: int| 0 <= m < k ==> out@[m] == m0[total - 1 - m],
            decreases total - k,
        {
            proof {
                assert(matched@.len() == total - k);
                assert(matched@.drop_last() =~= m0.subrange(0, total - (k + 1)));
                assert(matched@.last() == m0[total - 1 - k]);
            }
            let e = match matched.pop() {
                Some(e) => e,
                None => {
                    proof {
                        assert(false);
                    }
                    return out;
                },
            };
            out.push(e);
            k += 1;
        }
        proof {
            let rev = fl.reverse();
            assert(forall|m: int| 0 <= m < rev.len() ==> rev[m] == fl[fl.len() - 1 - m]);
            assert forall|m: int| 0 <= m < total implies eval_views(out@)[m] == eval_views(rev)[m] by {
                assert(out@[m] == m0[total - 1 - m]);
                assert(eval_views(m0)[total - 1 - m] == eval_views(fl)[total - 1 - m]);
            }
            assert(eval_views(out@) =~= eval_views(rev));
        }
        out
    }

    /// The disputes still awaiting resolution, newest first.
    pub fn get_open_disputes(&self) -> (r: Vec<DisputeCase>)
        requires
            self.wf(),
        ensures
            dispute_views(r@) == dispute_views(
                self.disputes@.filter(open_dispute_pred()).reverse(),
            ),
            forall|i: int, j: int|
                0 <= i <= j < r@.len() ==> (#[trigger] r@[i]).created_at >= (
                #[trigger] r@[j]).created_at,
    {
        let s = &self.disputes;
        let mut matched: Vec<DisputeCase> = Vec::new();
        let mut i: usize = 0;
        while i < s.len()
            invariant
                i <= s@.len(),
                matched@.len() <= i,
                dispute_views(matched@) == dispute_views(
                    s@.subrange(0, i as int).filter(open_dispute_pred()),
                ),
            decreases s@.len() - i,
        {
            let keep = match s[i].status {
                DisputeStatus::Open => true,
                DisputeStatus::UnderReview => true,
                _ => false,
            };
            proof {
                reveal(Seq::filter);
                assert(s@.subrange(0, i + 1).drop_last() =~= s@.subrange(0, i as int));
                assert(s@.subrange(0, i + 1).last() == s@[i as int]);
                assert(keep == (open_dispute_pred())(s@[i as int]));
                assert(s@.subrange(0, i as int).filter(open_dispute_pred()).len() <= s@.subrange(
                    0,
                    i as int,
                ).len());
            }
            if keep {
                let ghost m0 = matched@;
                let d = s[i].clone();
                matched.push(d);
                proof {
                    let f0 = s@.subrange(0, i as int).filter(open_dispute_pred());
                    assert(dispute_views(matched@) =~= dispute_views(m0).push(d@));
                    assert(dispute_views(f0.push(s@[i as int])) =~= dispute_views(f0).push(
                        s@[i as int]@,
                    ));
                }
            }
            i += 1;
        }
        let ghost fl = self.disputes@.filter(open_dispute_pred());
        let ghost m0 = matched@;
        proof {
            assert(s@.subrange(0, s@.len() as int) =~= s@);
            lemma_filter_sorted(self.disputes@, open_dispute_pred(), dispute_created_key());
            assert(dispute_views(m0).len() == m0.len());
            assert(dispute_views(fl).len() == fl.len());
            assert(m0.len() == fl.len());
            assert forall|a: int, b: int| 0 <= a <= b < m0.len() implies (#[trigger] m0[a]).created_at
                <= (#[trigger] m0[b]).created_at by {
                assert(dispute_views(m0)[a] == dispute_views(fl)[a]);
                assert(dispute_views(m0)[b] == dispute_views(fl)[b]);
                assert((dispute_created_key())(fl[a]) <= (dispute_created_key())(fl[b]));
            }
        }
        let total = matched.len();
        let mut out: Vec<DisputeCase> = Vec::new();
        let mut k: usize = 0;
        while k < total
            invariant
                k <= total,
                total == m0.len(),
                matched@ == m0.subrange(0, total - k),
                out@.len() == k,
                forall|m: int| 0 <= m < k ==> out@[m] == m0[total - 1 - m],
            decreases total - k,
        {
            proof {
                assert(matched@.len() == total - k);
                assert(matched@.drop_last() =~= m0.subrange(0, total - (k + 1)));
                assert(matched@.last() == m0[total - 1 - k]);
            }
            let d = match matched.pop() {
                Some(d) => d,
                None => {
                    proof {
                        assert(false);
                    }
                    return out;
                },
            };
            out.push(d);
            k += 1;
        }
        proof {
            let rev = fl.reverse();
            assert(forall|m: int| 0 <= m < rev.len() ==> rev[m] == fl[fl.len() - 1 - m]);
            assert forall|m: int| 0 <= m < total implies dispute_views(out@)[m] == dispute_views(
                rev,
            )[m] by {
                assert(out@[m] == m0[total - 1 - m]);
                assert(dispute_views(m0)[total - 1 - m] == dispute_views(fl)[total - 1 - m]);
            }
            assert(dispute_views(out@) =~= dispute_views(rev));
        }
        out
    }

    /// The last `limit` snapshots of a target, oldest first.
    pub fn get_balance_history(&self, canister_id: Principal, limit: u64) -> (r: Vec<
        BalanceSnapshot,
    >)
        ensures
            ({
                let h = self.spec_history_of(canister_id);
                let k: int = if limit as int <= h.len() as int {
                    limit as int
                } else {
                    h.len() as int
                };
                r@ == h.subrange(h.len() - k, h.len() as int)
            }),
    {
        let empty: Vec<BalanceSnapshot> = Vec::new();
        let snapshots: &Vec<BalanceSnapshot> = match find_hist_slot(
            &self.balance_history,
            canister_id,
        ) {
            Some(j) => &self.balance_history[j].snapshots,
            None => {
                proof {
                    assert(self.spec_history_of(canister_id) =~= Seq::<BalanceSnapshot>::empty());
                }
                return empty;
            },
        };
        let len = snapshots.len();
        let k: usize = if (limit as u64) <= len as u64 {
            limit as usize
        } else {
            len
        };
        let start = len - k;
        let mut out: Vec<BalanceSnapshot> = Vec::new();
        let mut i: usize = start;
        while i < len
            invariant
                start <= i <= len,
                len == snapshots@.len(),
                out@ == snapshots@.subrange(start as int, i as int),
            decreases len - i,
        {
            out.push(snapshots[i]);
            proof {
                assert(snapshots@.subrange(start as int, i + 1) =~= snapshots@.subrange(
                    start as int,
                    i as int,
                ).push(snapshots@[i as int]));
            }
            i += 1;
        }
        out
    }
}

/// The sweep worklist: challenge and target of every due monitoring state.
pub open spec fn due_targets(s: Seq<MonitoringState>, now: i64) -> Seq<(u64, Principal)> {
    s.filter(due_pred(now)).map_values(mon_pair())
}

/// Snapshot histories are bounded: a well-formed judge never reports more
/// than `MAX_BALANCE_HISTORY` snapshots for any target; recording one more at
/// the cap drops the oldest entry first.
pub proof fn lemma_history_bounded(j: Judge, target: Principal)
    requires
        j.wf(),
    ensures
        j.spec_history_of(target).len() <= MAX_BALANCE_HISTORY,
        j.spec_history_of(target).len() == MAX_BALANCE_HISTORY ==> forall|snap: BalanceSnapshot|
            #![trigger pushed_history(j.spec_history_of(target), snap)]
            pushed_history(j.spec_history_of(target), snap) == j.spec_history_of(
                target,
            ).drop_first().push(snap),
{
    lemma_find_first_properties(j.balance_history@, hist_pred(target));
}

/// How far the target's balance fell below the monitoring baseline.
pub open spec fn spec_decrease(initial: u64, current: u64) -> int {
    if initial > current {
        initial - current
    } else {
        0
    }
}

/// The decrease as a percentage of the baseline, truncating; zero for a zero
/// baseline.
pub open spec fn spec_decrease_pct(initial: u64, current: u64) -> int {
    if initial > 0 {
        spec_decrease(initial, current) * 100 / initial as int
    } else {
        0
    }
}

/// The judge's verdict on an attempt: Valid exactly when the decrease
/// percentage reaches the attack threshold.
pub open spec fn spec_decision(initial: u64, current: u64) -> JudgeDecision {
    if spec_decrease_pct(initial, current) >= ATTACK_THRESHOLD_PERCENTAGE {
        JudgeDecision::Valid
    } else {
        JudgeDecision::Invalid
    }
}

/// The decrease percentage is a percentage: between 0 and 100.
pub proof fn lemma_decrease_pct_bounds(initial: u64, current: u64)
    ensures
        0 <= spec_decrease_pct(initial, current) <= 100,
{
    if initial > 0 {
        let d = spec_decrease(initial, current);
        assert(0 <= d <= initial);
        assert(d * 100 / initial as int >= 0) by (nonlinear_arith)
            requires
                d >= 0,
                initial > 0,
        ;
        assert(d * 100 / initial as int <= 100) by (nonlinear_arith)
            requires
                0 <= d <= initial,
                initial > 0,
        ;
    }
}

/// Threshold law: the automated decision is Valid exactly when the balance
/// decrease reaches `ATTACK_THRESHOLD_PERCENTAGE` percent of the baseline.
pub proof fn lemma_decision_threshold(initial: u64, current: u64)
    ensures
        spec_decision(initial, current) is Valid <==> spec_decrease_pct(initial, current)
            >= ATTACK_THRESHOLD_PERCENTAGE,
{
}

/// The monitoring state recorded when monitoring starts: the observed
/// balance is both the baseline and the current value.
pub open spec fn spec_new_monitoring(
    challenge_id: u64,
    target: Principal,
    initial_balance: u64,
    now: i64,
) -> MonitoringState {
    MonitoringState {
        challenge_id,
        target_canister: target,
        initial_balance,
        current_balance: initial_balance,
        last_check: now,
        monitoring_active: true,
        attack_detected: false,
    }
}

/// Whether the periodic sweep owes this state a re-check at time `now`.
pub open spec fn due_pred(now: i64) -> spec_fn(MonitoringState) -> bool {
    |m: MonitoringState| m.monitoring_active && now - m.last_check >= BALANCE_CHECK_INTERVAL
}

/// What the sweep needs of a due state: its challenge and its target.
pub open spec fn mon_pair() -> spec_fn(MonitoringState) -> (u64, Principal) {
    |m: MonitoringState| (m.challenge_id, m.target_canister)
}

/// The views of a sequence of evaluations.
pub open spec fn eval_views(s: Seq<Evaluation>) -> Seq<EvaluationView> {
    s.map_values(|e: Evaluation| e@)
}

/// The views of a sequence of disputes.
pub open spec fn dispute_views(s: Seq<DisputeCase>) -> Seq<DisputeCaseView> {
    s.map_values(|d: DisputeCase| d@)
}

/// Picks the evaluations of one challenge.
pub open spec fn eval_challenge_pred(challenge_id: u64) -> spec_fn(Evaluation) -> bool {
    |e: Evaluation| e.challenge_id == challenge_id
}

/// Picks the disputes still awaiting resolution.
pub open spec fn open_dispute_pred() -> spec_fn(DisputeCase) -> bool {
    |d: DisputeCase| d.status is Open || d.status is UnderReview
}

/// An evaluation's timestamp, as the sort key of the evaluation listing.
pub open spec fn eval_time_key() -> spec_fn(Evaluation) -> int {
    |e: Evaluation| e.timestamp as int
}

/// A dispute's creation time, as the sort key of the dispute listing.
pub open spec fn dispute_created_key() -> spec_fn(DisputeCase) -> int {
    |d: DisputeCase| d.created_at as int
}

/// Finds the slot of a challenge's monitoring state.
fn find_mon_slot(states: &Vec<MonitoringState>, challenge_id: u64) -> (r: Option<usize>)
    ensures
        match r {
            Some(j) => j == mon_index_in(states@, challenge_id) && j < states@.len(),
            None => mon_index_in(states@, challenge_id) == -1,
        },
{
    let mut i: usize = 0;
    while i < states.len()
        invariant
            i <= states@.len(),
            forall|k: int| 0 <= k < i ==> !(mon_pred(challenge_id))(#[trigger] states@[k]),
        decreases states@.len() - i,
    {
        if states[i].challenge_id == challenge_id {
            proof {
                lemma_find_first_properties(states@, mon_pred(challenge_id));
                assert((mon_pred(challenge_id))(states@[i as int]));
            }
            return Some(i);
        }
        i += 1;
    }
    proof {
        lemma_find_first_properties(states@, mon_pred(challenge_id));
    }
    None
}

/// Finds the slot of a target's snapshot history.
fn find_hist_slot(histories: &Vec<BalanceHistory>, canister: Principal) -> (r: Option<usize>)
    ensures
        match r {
            Some(j) => j == hist_index_in(histories@, canister) && j < histories@.len(),
            None => hist_index_in(histories@, canister) == -1,
        },
{
    let mut i: usize = 0;
    while i < histories.len()
        invariant
            i <= histories@.len(),
            forall|k: int| 0 <= k < i ==> !(hist_pred(canister))(#[trigger] histories@[k]),
        decreases histories@.len() - i,
    {
        if histories[i].canister_id == canister {
            proof {
                lemma_find_first_properties(histories@, hist_pred(canister));
                assert((hist_pred(canister))(histories@[i as int]));
            }
            return Some(i);
        }
        i += 1;
    }
    proof {
        lemma_find_first_properties(histories@, hist_pred(canister));
    }
    None
}

/// Appends one snapshot to a target's history, evicting the oldest entry
/// when the cap is reached; other targets' histories are untouched.
fn record_balance_snapshot(
    histories: &mut Vec<BalanceHistory>,
    canister: Principal,
    balance: u64,
    now: i64,
)
    requires
        forall|i: int, j: int|
            0 <= i < j < old(histories)@.len() ==> (#[trigger] old(histories)@[i]).canister_id != (
            #[trigger] old(histories)@[j]).canister_id,
        forall|i: int|
            0 <= i < old(histories)@.len() ==> (#[trigger] old(histories)@[i]).snapshots@.len()
                <= MAX_BALANCE_HISTORY,
    ensures
        forall|i: int, j: int|
            0 <= i < j < final(histories)@.len() ==> (#[trigger] final(histories)@[i]).canister_id
                != (#[trigger] final(histories)@[j]).canister_id,
        forall|i: int|
            0 <= i < final(histories)@.len() ==> (#[trigger] final(histories)@[i]).snapshots@.len()
                <= MAX_BALANCE_HISTORY,
        forall|c: Principal|
            #![trigger history_of_in(final(histories)@, c)]
            history_of_in(final(histories)@, c) == if c == canister {
                pushed_history(
                    history_of_in(old(histories)@, c),
                    BalanceSnapshot { canister_id: canister, balance, timestamp: now, block_height: None },
                )
            } else {
                history_of_in(old(histories)@, c)
            },
{
    let snap = BalanceSnapshot { canister_id: canister, balance, timestamp: now, block_height: None };
    let ghost s0 = histories@;
    proof {
        lemma_find_first_properties(s0, hist_pred(canister));
    }
    match find_hist_slot(histories, canister) {
        Some(j) => {
            let ghost old_h = s0[j as int];
            let h = &mut histories[j];
            assert(*h == old_h);
            if h.snapshots.len() >= MAX_BALANCE_HISTORY {
                h.snapshots.remove(0);
                proof {
                    assert(h.snapshots@ =~= old_h.snapshots@.drop_first());
                }
            }
            h.snapshots.push(snap);
            proof {
                let s1 = histories@;
                let new_h = s1[j as int];
                assert(new_h.canister_id == canister);
                assert(new_h.snapshots@ == pushed_history(old_h.snapshots@, snap));
                assert(s1 =~= s0.update(j as int, new_h));
                assert forall|c: Principal|
                    #![trigger history_of_in(s1, c)]
                    history_of_in(s1, c) == if c == canister {
                        pushed_history(history_of_in(s0, c), snap)
                    } else {
                        history_of_in(s0, c)
                    } by {
                    let q = hist_pred(c);
                    lemma_find_first_update(s0, j as int, new_h, q);
                    lemma_find_first_properties(s0, q);
                    let i = hist_index_in(s0, c);
                    if c == canister {
                        assert(i == j);
                    } else {
                        if i >= 0 {
                            assert(i != j);
                        }
                    }
                }
            }
        },
        None => {
            let mut snapshots: Vec<BalanceSnapshot> = Vec::new();
            snapshots.push(snap);
            let nh = BalanceHistory { canister_id: canister, snapshots };
            histories.push(nh);
            proof {
                let s1 = histories@;
                lemma_find_first_properties(s0, hist_pred(canister));
                assert forall|c: Principal|
                    #![trigger history_of_in(s1, c)]
                    history_of_in(s1, c) == if c == canister {
                        pushed_history(history_of_in(s0, c), snap)
                    } else {
                        history_of_in(s0, c)
                    } by {
                    let q = hist_pred(c);
                    lemma_find_first_push(s0, nh, q);
                    lemma_find_first_properties(s0, q);
                    if c == canister {
                        assert(hist_index_in(s0, c) == -1);
                        assert(history_of_in(s1, c) =~= Seq::<BalanceSnapshot>::empty().push(snap));
                    }
                }
                assert forall|i: int, j2: int|
                    0 <= i < j2 < s1.len() implies (#[trigger] s1[i]).canister_id != (
                    #[trigger] s1[j2]).canister_id by {
                    if j2 == s0.len() as int {
                        assert(!(hist_pred(canister))(s0[i]));
                    }
                }
            }
        },
    }
}

} // verus!
