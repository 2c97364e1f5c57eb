//! The escrow ledger: per-(owner, asset) balances split into available and
//! locked portions, per-challenge locks, an append-only transaction log, and
//! an allow-list of callers permitted to move funds.
//!
//! Every operation takes the caller identity and the current time from the
//! caller; nothing here performs outside calls. Balances satisfy
//! `total == available + locked` after every operation, and each challenge id
//! has at most one lock record, so at most one Active lock.

use vstd::prelude::*;

use crate::store::{clamp_u64, find_first, lemma_filter_sorted, lemma_find_first_properties,
    lemma_find_first_push, lemma_find_first_update, lemma_sum_by_nonneg, page_newest_first,
    sorted_by_key, sum_by};
use crate::types::{MAX_PAGE_LIMIT, Principal, TokenType, Transaction, TransactionStatus,
    TransactionType, ZeroLockError, clone_copy_vec};

verus! {

/// Platform fee on bounty payouts, in basis points.
pub const PLATFORM_FEE_BASIS_POINTS: u64 = 250;

/// Longest accepted lock duration, in nanoseconds.
pub const MAX_LOCK_DURATION: i64 = 30 * 24 * 3600 * 1_000_000_000;

/// Smallest amount that may be locked.
pub const MIN_LOCK_AMOUNT: u64 = 1_000_000;

/// A per-(owner, asset) balance record.
#[derive(Clone, Copy, Debug, PartialEq, Eq, Structural)]
pub struct Balance {
    pub owner: Principal,
    pub token_type: TokenType,
    pub available: u64,
    pub locked: u64,
    pub total: u64,
}

/// Request to lock part of a company's available balance for a challenge.
#[derive(Clone, Copy, Debug, PartialEq, Eq, Structural)]
pub struct LockRequest {
    pub challenge_id: u64,
    pub company: Principal,
    pub amount: u64,
    pub token_type: TokenType,
    pub duration: i64,
}

/// Why a lock is being released; a bounty payout carries the platform fee.
#[derive(Clone, Debug)]
pub enum UnlockReason {
    BountyPayout(Principal),
    ChallengeExpired,
    ChallengeCancelled,
    AdminOverride(String),
}

/// Request to release a lock and pay out `amount` of it.
#[derive(Clone, Debug)]
pub struct UnlockRequest {
    pub challenge_id: u64,
    pub recipient: Principal,
    pub amount: u64,
    pub reason: UnlockReason,
}

#[derive(Clone, Copy, Debug, PartialEq, Eq, Structural)]
pub struct VaultStats {
    pub total_locked: u64,
    pub total_transactions: u64,
    pub active_locks: u64,
    pub total_volume: u64,
}

impl Default for VaultStats {
    fn default() -> (r: Self)
        ensures
            r == (VaultStats { total_locked: 0, total_transactions: 0, active_locks: 0, total_volume: 0 }),
    {
        VaultStats { total_locked: 0, total_transactions: 0, active_locks: 0, total_volume: 0 }
    }
}

#[derive(Clone, Copy, Debug, PartialEq, Eq, Structural)]
pub enum LockStatus {
    Active,
    Released,
    Expired,
}

/// A hold on a company's balance, earmarked for one challenge's payout.
#[derive(Clone, Copy, Debug, PartialEq, Eq, Structural)]
pub struct LockInfo {
    pub challenge_id: u64,
    pub company: Principal,
    pub amount: u64,
    pub token_type: TokenType,
    pub locked_at: i64,
    pub expires_at: i64,
    pub status: LockStatus,
}

/// The balance record every owner implicitly starts from.
pub open spec fn zero_balance(owner: Principal, token: TokenType) -> Balance {
    Balance { owner, token_type: token, available: 0, locked: 0, total: 0 }
}

pub open spec fn balance_matches(b: Balance, owner: Principal, token: TokenType) -> bool {
    b.owner == owner && b.token_type == token
}

/// Available and locked funds always add up to the total.
pub open spec fn balance_ok(b: Balance) -> bool {
    b.total == b.available + b.locked
}

pub open spec fn balances_ok(s: Seq<Balance>) -> bool {
    forall|i: int| 0 <= i < s.len() ==> balance_ok(#[trigger] s[i])
}

/// The lookup predicate for the `(owner, token)` key.
pub open spec fn balance_pred(owner: Principal, token: TokenType) -> spec_fn(Balance) -> bool {
    |b: Balance| balance_matches(b, owner, token)
}

/// Index of the record for `(owner, token)`, or `-1` if none exists yet.
pub open spec fn balance_index_in(s: Seq<Balance>, owner: Principal, token: TokenType) -> int {
    find_first(s, balance_pred(owner, token))
}

/// The balance of `(owner, token)`: the stored record, or the zero record.
pub open spec fn balance_in(s: Seq<Balance>, owner: Principal, token: TokenType) -> Balance {
    let i = balance_index_in(s, owner, token);
    if i >= 0 {
        s[i]
    } else {
        zero_balance(owner, token)
    }
}

/// `b` with `amount` added to its available and total funds.
pub open spec fn credit_record(b: Balance, amount: u64) -> Balance {
    Balance {
        available: (b.available + amount) as u64,
        total: (b.total + amount) as u64,
        ..b
    }
}

/// `b` with `amount` removed from its locked and total funds.
pub open spec fn debit_locked_record(b: Balance, amount: u64) -> Balance {
    Balance {
        locked: (b.locked - amount) as u64,
        total: (b.total - amount) as u64,
        ..b
    }
}

/// `b` with `amount` moved from its available to its locked funds.
pub open spec fn reserve_record(b: Balance, amount: u64) -> Balance {
    Balance {
        available: (b.available - amount) as u64,
        locked: (b.locked + amount) as u64,
        ..b
    }
}

/// `s1` is `s0` with `amount` credited to `(owner, token)` and every other
/// balance unchanged.
pub open spec fn credited_seq(
    s0: Seq<Balance>,
    s1: Seq<Balance>,
    owner: Principal,
    token: TokenType,
    amount: u64,
) -> bool {
    forall|o: Principal, t: TokenType|
        #![trigger balance_in(s1, o, t)]
        balance_in(s1, o, t) == if o == owner && t == token {
            credit_record(balance_in(s0, o, t), amount)
        } else {
            balance_in(s0, o, t)
        }
}

/// `s1` is `s0` with `amount` of `(owner, token)` unlocked and removed.
pub open spec fn debited_seq(
    s0: Seq<Balance>,
    s1: Seq<Balance>,
    owner: Principal,
    token: TokenType,
    amount: u64,
) -> bool {
    forall|o: Principal, t: TokenType|
        #![trigger balance_in(s1, o, t)]
        balance_in(s1, o, t) == if o == owner && t == token {
            debit_locked_record(balance_in(s0, o, t), amount)
        } else {
            balance_in(s0, o, t)
        }
}

/// `s1` is `s0` with `amount` of `(owner, token)` moved from available to
/// locked.
pub open spec fn reserved_seq(
    s0: Seq<Balance>,
    s1: Seq<Balance>,
    owner: Principal,
    token: TokenType,
    amount: u64,
) -> bool {
    forall|o: Principal, t: TokenType|
        #![trigger balance_in(s1, o, t)]
        balance_in(s1, o, t) == if o == owner && t == token {
            reserve_record(balance_in(s0, o, t), amount)
        } else {
            balance_in(s0, o, t)
        }
}

/// The platform fee a release carries: `amount * 250 / 10000` (truncating)
/// for a bounty payout, nothing for an expiry, a cancellation or an admin
/// override.
pub open spec fn spec_fee_for(amount: u64, reason: UnlockReason) -> int {
    if reason is BountyPayout {
        amount * PLATFORM_FEE_BASIS_POINTS / 10000
    } else {
        0
    }
}

/// What the recipient receives: the amount less the platform fee.
pub open spec fn spec_net_for(amount: u64, reason: UnlockReason) -> int {
    amount - spec_fee_for(amount, reason)
}

/// The fee never exceeds the amount, and fee plus net is exactly the amount.
pub proof fn lemma_fee_bounds(amount: u64, reason: UnlockReason)
    ensures
        0 <= spec_fee_for(amount, reason) <= amount,
        spec_fee_for(amount, reason) + spec_net_for(amount, reason) == amount,
        amount > 0 ==> spec_net_for(amount, reason) > 0,
{
    if reason is BountyPayout {
        assert(amount * PLATFORM_FEE_BASIS_POINTS / 10000 >= 0) by (nonlinear_arith);
        assert(amount > 0 ==> amount * PLATFORM_FEE_BASIS_POINTS / 10000 < amount) by (nonlinear_arith);
        assert(amount * PLATFORM_FEE_BASIS_POINTS / 10000 <= amount) by (nonlinear_arith);
    }
}

/// Fee law: a bounty payout of amount `a` at 250 basis points pays a fee of
/// exactly `a * 250 / 10000` (integer division truncating), a net of
/// `a - fee`, and the fee and the net add back up to `a` exactly.
pub proof fn lemma_fee_split(amount: u64, reason: UnlockReason)
    requires
        reason is BountyPayout,
    ensures
        spec_fee_for(amount, reason) == amount * PLATFORM_FEE_BASIS_POINTS / 10000,
        spec_net_for(amount, reason) == amount - amount * PLATFORM_FEE_BASIS_POINTS / 10000,
        spec_fee_for(amount, reason) + spec_net_for(amount, reason) == amount,
{
}

/// What a settlement adds to the `(o, t)` balance: the net for the
/// recipient, the fee for the fee recipient, both when they coincide.
pub open spec fn settle_gain(
    o: Principal,
    t: TokenType,
    recipient: Principal,
    fee_recipient: Principal,
    token: TokenType,
    net: int,
    fee: int,
) -> int {
    (if o == recipient && t == token {
        net
    } else {
        0
    }) + (if o == fee_recipient && t == token {
        fee
    } else {
        0
    })
}

/// What a settlement removes from the `(o, t)` locked funds: the released
/// amount for the owning company.
pub open spec fn settle_loss(
    o: Principal,
    t: TokenType,
    company: Principal,
    token: TokenType,
    amount: u64,
) -> int {
    if o == company && t == token {
        amount as int
    } else {
        0
    }
}

/// One balance record after a settlement touched it.
pub open spec fn settle_record(b: Balance, gain: int, loss: int) -> Balance {
    Balance {
        available: (b.available + gain) as u64,
        locked: (b.locked - loss) as u64,
        total: (b.total + gain - loss) as u64,
        ..b
    }
}

/// `s1` is `s0` after a settlement: the company's locked funds shrink by the
/// amount, the recipient gains the net, the fee recipient gains the fee, and
/// every other balance is untouched. Aliased parties compose additively.
pub open spec fn settled_seq(
    s0: Seq<Balance>,
    s1: Seq<Balance>,
    company: Principal,
    recipient: Principal,
    fee_recipient: Principal,
    token: TokenType,
    amount: u64,
    net: int,
    fee: int,
) -> bool {
    forall|o: Principal, t: TokenType|
        #![trigger balance_in(s1, o, t)]
        balance_in(s1, o, t) == settle_record(
            balance_in(s0, o, t),
            settle_gain(o, t, recipient, fee_recipient, token, net, fee),
            settle_loss(o, t, company, token, amount),
        )
}

/// The lookup predicate for a challenge's lock record.
pub open spec fn lock_pred(challenge_id: u64) -> spec_fn(LockInfo) -> bool {
    |l: LockInfo| l.challenge_id == challenge_id
}

/// Index of the lock record for `challenge_id`, or `-1`.
pub open spec fn lock_index_in(s: Seq<LockInfo>, challenge_id: u64) -> int {
    find_first(s, lock_pred(challenge_id))
}

/// The lock record for `challenge_id`, if one exists.
pub open spec fn lock_of_in(s: Seq<LockInfo>, challenge_id: u64) -> Option<LockInfo> {
    let i = lock_index_in(s, challenge_id);
    if i >= 0 {
        Some(s[i])
    } else {
        None
    }
}

/// Finds the record for `(owner, token)` in an association vector.
fn find_balance_slot(balances: &Vec<Balance>, owner: Principal, token: TokenType) -> (r: Option<
    usize,
>)
    ensures
        match r {
            Some(j) => j == balance_index_in(balances@, owner, token) && j < balances@.len(),
            None => balance_index_in(balances@, owner, token) == -1,
        },
{
    let mut i: usize = 0;
    while i < balances.len()
        invariant
            i <= balances@.len(),
            forall|k: int| 0 <= k < i ==> !(balance_pred(owner, token))(#[trigger] balances@[k]),
        decreases balances@.len() - i,
    {
        if balances[i].owner == owner && balances[i].token_type == token {
            proof {
                lemma_find_first_properties(balances@, balance_pred(owner, token));
                assert((balance_pred(owner, token))(balances@[i as int]));
            }
            return Some(i);
        }
        i += 1;
    }
    proof {
        lemma_find_first_properties(balances@, balance_pred(owner, token));
    }
    None
}

/// Finds the lock record for `challenge_id`.
fn find_lock_slot(locks: &Vec<LockInfo>, challenge_id: u64) -> (r: Option<usize>)
    ensures
        match r {
            Some(j) => j == lock_index_in(locks@, challenge_id) && j < locks@.len(),
            None => lock_index_in(locks@, challenge_id) == -1,
        },
{
    let mut i: usize = 0;
    while i < locks.len()
        invariant
            i <= locks@.len(),
            forall|k: int| 0 <= k < i ==> !(lock_pred(challenge_id))(#[trigger] locks@[k]),
        decreases locks@.len() - i,
    {
        if locks[i].challenge_id == challenge_id {
            proof {
                lemma_find_first_properties(locks@, lock_pred(challenge_id));
                assert((lock_pred(challenge_id))(locks@[i as int]));
            }
            return Some(i);
        }
        i += 1;
    }
    proof {
        lemma_find_first_properties(locks@, lock_pred(challenge_id));
    }
    None
}

/// Credits `(owner, token)` with `amount`, creating the record on first use.
fn credit_balance(balances: &mut Vec<Balance>, owner: Principal, token: TokenType, amount: u64)
    requires
        balances_ok(old(balances)@),
        balance_in(old(balances)@, owner, token).total + amount <= u64::MAX,
    ensures
        balances_ok(final(balances)@),
        credited_seq(old(balances)@, final(balances)@, owner, token, amount),
{
    let ghost s0 = balances@;
    let ghost p = balance_pred(owner, token);
    proof {
        lemma_find_first_properties(s0, p);
    }
    match find_balance_slot(balances, owner, token) {
        Some(j) => {
            let b = balances[j];
            assert(b == balance_in(s0, owner, token));
            assert(balance_ok(b));
            let nb = Balance {
                owner: b.owner,
                token_type: b.token_type,
                available: b.available + amount,
                locked: b.locked,
                total: b.total + amount,
            };
            balances.set(j, nb);
            proof {
                let s1 = balances@;
                assert forall|o: Principal, t: TokenType|
                    #![trigger balance_in(s1, o, t)]
                    balance_in(s1, o, t) == if o == owner && t == token {
                        credit_record(balance_in(s0, o, t), amount)
                    } else {
                        balance_in(s0, o, t)
                    } by {
                    let q = balance_pred(o, t);
                    lemma_find_first_update(s0, j as int, nb, q);
                    lemma_find_first_properties(s0, q);
                    let i = balance_index_in(s0, o, t);
                    if o == owner && t == token {
                        assert(i == j);
                    } else {
                        if i >= 0 {
                            assert(i != j);
                        }
                    }
                }
                assert(balances_ok(s1));
            }
        },
        None => {
            let nb = Balance {
                owner,
                token_type: token,
                available: amount,
                locked: 0,
                total: amount,
            };
            balances.push(nb);
            proof {
                let s1 = balances@;
                assert forall|o: Principal, t: TokenType|
                    #![trigger balance_in(s1, o, t)]
                    balance_in(s1, o, t) == if o == owner && t == token {
                        credit_record(balance_in(s0, o, t), amount)
                    } else {
                        balance_in(s0, o, t)
                    } by {
                    let q = balance_pred(o, t);
                    lemma_find_first_push(s0, nb, q);
                    lemma_find_first_properties(s0, q);
                    if o == owner && t == token {
                        assert(balance_index_in(s0, o, t) == -1);
                        assert(balance_in(s1, o, t) == nb);
                    }
                }
                assert(balances_ok(s1));
            }
        },
    }
}

/// Moves `amount` of `(owner, token)` from available to locked funds.
fn reserve_balance(balances: &mut Vec<Balance>, owner: Principal, token: TokenType, amount: u64)
    requires
        balances_ok(old(balances)@),
        balance_index_in(old(balances)@, owner, token) >= 0,
        balance_in(old(balances)@, owner, token).available >= amount,
    ensures
        balances_ok(final(balances)@),
        reserved_seq(old(balances)@, final(balances)@, owner, token, amount),
{
    let ghost s0 = balances@;
    proof {
        lemma_find_first_properties(s0, balance_pred(owner, token));
    }
    let j = match find_balance_slot(balances, owner, token) {
        Some(j) => j,
        None => {
            proof {
                assert(false);
            }
            0
        },
    };
    let b = balances[j];
    assert(b == balance_in(s0, owner, token));
    assert(balance_ok(b));
    let nb = Balance {
        owner: b.owner,
        token_type: b.token_type,
        available: b.available - amount,
        locked: b.locked + amount,
        total: b.total,
    };
    balances.set(j, nb);
    proof {
        let s1 = balances@;
        assert forall|o: Principal, t: TokenType|
            #![trigger balance_in(s1, o, t)]
            balance_in(s1, o, t) == if o == owner && t == token {
                reserve_record(balance_in(s0, o, t), amount)
            } else {
                balance_in(s0, o, t)
            } by {
            let q = balance_pred(o, t);
            lemma_find_first_update(s0, j as int, nb, q);
            lemma_find_first_properties(s0, q);
            let i = balance_index_in(s0, o, t);
            if o == owner && t == token {
                assert(i == j);
            } else {
                if i >= 0 {
                    assert(i != j);
                }
            }
        }
        assert(balances_ok(s1));
    }
}

/// Removes `amount` from the locked and total funds of `(owner, token)`.
fn debit_locked_balance(balances: &mut Vec<Balance>, owner: Principal, token: TokenType, amount: u64)
    requires
        balances_ok(old(balances)@),
        balance_index_in(old(balances)@, owner, token) >= 0,
        balance_in(old(balances)@, owner, token).locked >= amount,
    ensures
        balances_ok(final(balances)@),
        debited_seq(old(balances)@, final(balances)@, owner, token, amount),
{
    let ghost s0 = balances@;
    proof {
        lemma_find_first_properties(s0, balance_pred(owner, token));
    }
    let j = match find_balance_slot(balances, owner, token) {
        Some(j) => j,
        None => {
            proof {
                assert(false);
            }
            0
        },
    };
    let b = balances[j];
    assert(b == balance_in(s0, owner, token));
    assert(balance_ok(b));
    let nb = Balance {
        owner: b.owner,
        token_type: b.token_type,
        available: b.available,
        locked: b.locked - amount,
        total: b.total - amount,
    };
    balances.set(j, nb);
    proof {
        let s1 = balances@;
        assert forall|o: Principal, t: TokenType|
            #![trigger balance_in(s1, o, t)]
            balance_in(s1, o, t) == if o == owner && t == token {
                debit_locked_record(balance_in(s0, o, t), amount)
            } else {
                balance_in(s0, o, t)
            } by {
            let q = balance_pred(o, t);
            lemma_find_first_update(s0, j as int, nb, q);
            lemma_find_first_properties(s0, q);
            let i = balance_index_in(s0, o, t);
            if o == owner && t == token {
                assert(i == j);
            } else {
                if i >= 0 {
                    assert(i != j);
                }
            }
        }
        assert(balances_ok(s1));
    }
}

/// The transactions a user took part in, as sender or receiver.
pub open spec fn tx_party_pred(user: Principal) -> spec_fn(Transaction) -> bool {
    |t: Transaction| t.from == user || t.to == user
}

/// A transaction's timestamp, as the sort key of the history query.
pub open spec fn tx_time_key() -> spec_fn(Transaction) -> int {
    |t: Transaction| t.timestamp as int
}

/// The funds an Active lock holds; anything else weighs nothing.
pub open spec fn active_amount_weight() -> spec_fn(LockInfo) -> int {
    |l: LockInfo| if l.status is Active {
        l.amount as int
    } else {
        0
    }
}

/// Counts Active locks.
pub open spec fn active_count_weight() -> spec_fn(LockInfo) -> int {
    |l: LockInfo| if l.status is Active {
        1int
    } else {
        0int
    }
}

/// The amount a completed transaction moved; anything else weighs nothing.
pub open spec fn completed_volume_weight() -> spec_fn(Transaction) -> int {
    |t: Transaction| if t.status is Completed {
        t.amount as int
    } else {
        0
    }
}

/// Copies one page of `src` read newest-first: conceptually reverse `src`,
/// skip `offset` elements, return at most `limit`. When `src` is sorted
/// ascending under `key`, the page is sorted descending.
fn page_copy_desc<T: Copy>(
    src: &Vec<T>,
    offset: u64,
    limit: u64,
    Ghost(key): Ghost<spec_fn(T) -> int>,
) -> (r: Vec<T>)
    requires
        limit <= MAX_PAGE_LIMIT,
    ensures
        r@ == page_newest_first(src@, offset as int, limit as int),
        r@.len() <= limit,
        offset >= src@.len() ==> r@.len() == 0,
        sorted_by_key(src@, key) ==> forall|i: int, j: int|
            0 <= i <= j < r@.len() ==> key(r@[i]) >= key(r@[j]),
{
    let total = src.len();
    if offset >= total as u64 {
        let r: Vec<T> = Vec::new();
        return r;
    }
    let off = offset as usize;
    let remaining = total - off;
    let count: usize = if (limit as usize) < remaining {
        limit as usize
    } else {
        remaining
    };
    let mut out: Vec<T> = Vec::new();
    let mut k: usize = 0;
    while k < count
        invariant
            k <= count,
            off < total,
            total == src@.len(),
            count == if (limit as int) < total - off {
                limit as int
            } else {
                total - off
            },
            out@.len() == k,
            forall|m: int| 0 <= m < k ==> out@[m] == src@[total - 1 - off - m],
        decreases count - k,
    {
        out.push(src[total - 1 - off - k]);
        k += 1;
    }
    proof {
        let s = src@;
        let rev = s.reverse();
        assert(rev.len() == s.len());
        assert(forall|m: int| 0 <= m < rev.len() ==> rev[m] == s[s.len() - 1 - m]);
        let page = page_newest_first(s, offset as int, limit as int);
        assert(out@ =~= page);
        if sorted_by_key(s, key) {
            assert forall|i: int, j: int| 0 <= i <= j < out@.len() implies key(out@[i]) >= key(
                out@[j],
            ) by {
                assert(out@[i] == s[total - 1 - off - i]);
                assert(out@[j] == s[total - 1 - off - j]);
            }
        }
    }
    out
}

/// Balance invariant: every balance a well-formed vault reports, stored or
/// implicit, satisfies `total == available + locked`.
pub proof fn lemma_balance_invariant(v: Vault, owner: Principal, token: TokenType)
    requires
        v.wf(),
    ensures
        balance_ok(v.balance_of(owner, token)),
{
    lemma_find_first_properties(v.balances@, balance_pred(owner, token));
}

/// At most one lock record, hence at most one Active lock, exists per
/// challenge id in a well-formed vault.
pub proof fn lemma_at_most_one_active_lock(v: Vault, i: int, j: int)
    requires
        v.wf(),
        0 <= i < v.locks@.len(),
        0 <= j < v.locks@.len(),
        v.locks@[i].challenge_id == v.locks@[j].challenge_id,
        v.locks@[i].status is Active,
        v.locks@[j].status is Active,
    ensures
        i == j,
{
}

/// Applies the three balance movements of a settlement: debits the released
/// amount from the company's locked funds, credits the net to the recipient
/// and the fee to the fee recipient. Aliased parties compose additively.
#[verifier::rlimit(100)]
#[verifier::spinoff_prover]
fn settle_balances(
    balances: &mut Vec<Balance>,
    company: Principal,
    recipient: Principal,
    fee_recipient: Principal,
    token: TokenType,
    amount: u64,
    net: u64,
    fee: u64,
)
    requires
        balances_ok(old(balances)@),
        balance_index_in(old(balances)@, company, token) >= 0,
        balance_in(old(balances)@, company, token).locked >= amount,
        balance_in(old(balances)@, recipient, token).total + settle_gain(
            recipient,
            token,
            recipient,
            fee_recipient,
            token,
            net as int,
            fee as int,
        ) - settle_loss(recipient, token, company, token, amount) <= u64::MAX,
        balance_in(old(balances)@, fee_recipient, token).total + settle_gain(
            fee_recipient,
            token,
            recipient,
            fee_recipient,
            token,
            net as int,
            fee as int,
        ) - settle_loss(fee_recipient, token, company, token, amount) <= u64::MAX,
    ensures
        balances_ok(final(balances)@),
        settled_seq(
            old(balances)@,
            final(balances)@,
            company,
            recipient,
            fee_recipient,
            token,
            amount,
            net as int,
            fee as int,
        ),
{
    let ghost b0 = balances@;
    debit_locked_balance(balances, company, token, amount);
    let ghost b1 = balances@;
    if net > 0 {
        proof {
            lemma_find_first_properties(b0, balance_pred(recipient, token));
            assert(balance_ok(balance_in(b0, recipient, token)));
            if recipient == company {
                assert(balance_in(b0, recipient, token).locked >= amount);
                assert(balance_in(b0, recipient, token).total >= amount);
            }
            assert(balance_in(b1, recipient, token) == if recipient == company {
                debit_locked_record(balance_in(b0, recipient, token), amount)
            } else {
                balance_in(b0, recipient, token)
            });
            assert(balance_in(b1, recipient, token).total + net <= u64::MAX);
        }
        credit_balance(balances, recipient, token, net);
    }
    let ghost b2 = balances@;
    if fee > 0 {
        proof {
            lemma_find_first_properties(b0, balance_pred(fee_recipient, token));
            assert(balance_ok(balance_in(b0, fee_recipient, token)));
            if fee_recipient == company {
                assert(balance_in(b0, fee_recipient, token).locked >= amount);
                assert(balance_in(b0, fee_recipient, token).total >= amount);
            }
            assert(balance_in(b1, fee_recipient, token) == if fee_recipient == company {
                debit_locked_record(balance_in(b0, fee_recipient, token), amount)
            } else {
                balance_in(b0, fee_recipient, token)
            });
            assert(balance_in(b1, fee_recipient, token).total == balance_in(
                b0,
                fee_recipient,
                token,
            ).total - settle_loss(fee_recipient, token, company, token, amount));
            if net > 0 && fee_recipient == recipient {
                assert(balance_in(b1, fee_recipient, token).total + net <= u64::MAX);
                assert(balance_in(b2, fee_recipient, token) == credit_record(
                    balance_in(b1, fee_recipient, token),
                    net,
                ));
            } else {
                assert(balance_in(b2, fee_recipient, token) == balance_in(
                    b1,
                    fee_recipient,
                    token,
                ));
            }
            assert(balance_in(b2, fee_recipient, token).total + fee <= u64::MAX);
        }
        credit_balance(balances, fee_recipient, token, fee);
    }
    let ghost b3 = balances@;
    proof {
        assert forall|o: Principal, t: TokenType|
            #![trigger balance_in(b3, o, t)]
            balance_in(b3, o, t) == settle_record(
                balance_in(b0, o, t),
                settle_gain(o, t, recipient, fee_recipient, token, net as int, fee as int),
                settle_loss(o, t, company, token, amount),
            ) by {
            lemma_find_first_properties(b0, balance_pred(o, t));
            assert(balance_in(b1, o, t) == if o == company && t == token {
                debit_locked_record(balance_in(b0, o, t), amount)
            } else {
                balance_in(b0, o, t)
            });
            assert(balance_in(b2, o, t) == if net > 0 && o == recipient && t == token {
                credit_record(balance_in(b1, o, t), net)
            } else {
                balance_in(b1, o, t)
            });
            assert(balance_in(b3, o, t) == if fee > 0 && o == fee_recipient && t == token {
                credit_record(balance_in(b2, o, t), fee)
            } else {
                balance_in(b2, o, t)
            });
        }
    }
}

/// The vault component: escrow balances, locks, the transaction log, the
/// caller allow-list and the emergency pause switch.
pub struct Vault {
    pub balances: Vec<Balance>,
    pub locks: Vec<LockInfo>,
    pub transactions: Vec<Transaction>,
    pub authorized_canisters: Vec<Principal>,
    pub next_transaction_id: u64,
    pub platform_fee_recipient: Principal,
    pub paused: bool,
    /// The ledger's own identity, recorded as the counterparty of deposits
    /// and locks.
    pub vault_id: Principal,
    /// The identity allowed to pause the vault, direct the platform fee and
    /// manage the allow-list; fixed when the ledger is stood up.
    pub governance: Principal,
}

impl Vault {
    pub open spec fn balance_of(self, owner: Principal, token: TokenType) -> Balance {
        balance_in(self.balances@, owner, token)
    }

    pub open spec fn lock_index(self, challenge_id: u64) -> int {
        lock_index_in(self.locks@, challenge_id)
    }

    /// The lock record for a challenge, if one was ever created.
    pub open spec fn spec_lock_of(self, challenge_id: u64) -> Option<LockInfo> {
        lock_of_in(self.locks@, challenge_id)
    }

    /// Whether a challenge currently holds an Active lock.
    pub open spec fn has_active_lock(self, challenge_id: u64) -> bool {
        self.spec_lock_of(challenge_id) matches Some(l) && l.status is Active
    }

    pub open spec fn spec_is_authorized(self, caller: Principal) -> bool {
        self.authorized_canisters@.contains(caller)
    }

    /// Transaction timestamps never decrease along the log.
    pub open spec fn tx_times_ok(self) -> bool {
        forall|i: int, j: int|
            0 <= i <= j < self.transactions@.len() ==> (#[trigger] self.transactions@[i]).timestamp
                <= (#[trigger] self.transactions@[j]).timestamp
    }

    /// `now` does not precede anything already in the log; holds of a
    /// monotone clock source.
    pub open spec fn time_ok(self, now: i64) -> bool {
        forall|i: int|
            0 <= i < self.transactions@.len() ==> (#[trigger] self.transactions@[i]).timestamp
                <= now
    }

    pub open spec fn wf(self) -> bool {
        &&& balances_ok(self.balances@)
        &&& forall|i: int, j: int|
            0 <= i < j < self.locks@.len() ==> (#[trigger] self.locks@[i]).challenge_id != (
            #[trigger] self.locks@[j]).challenge_id
        &&& forall|i: int|
            0 <= i < self.transactions@.len() ==> (#[trigger] self.transactions@[i]).id == i + 1
        &&& self.next_transaction_id == self.transactions@.len() + 1
        &&& self.tx_times_ok()
    }

    /// Everything but balances, locks and the log is unchanged.
    pub open spec fn same_admin_state(self, v0: Vault) -> bool {
        &&& self.authorized_canisters@ == v0.authorized_canisters@
        &&& self.platform_fee_recipient == v0.platform_fee_recipient
        &&& self.paused == v0.paused
        &&& self.vault_id == v0.vault_id
        &&& self.governance == v0.governance
    }

    /// A fresh, empty ledger owned by `vault_id`, governed by `governance`.
    pub fn new(vault_id: Principal, governance: Principal) -> (v: Vault)
        ensures
            v.wf(),
            v.balances@.len() == 0,
            v.locks@.len() == 0,
            v.transactions@.len() == 0,
            v.authorized_canisters@.len() == 0,
            v.next_transaction_id == 1,
            v.platform_fee_recipient.spec_is_anonymous(),
            !v.paused,
            v.vault_id == vault_id,
            v.governance == governance,
    {
        Vault {
            balances: Vec::new(),
            locks: Vec::new(),
            transactions: Vec::new(),
            authorized_canisters: Vec::new(),
            next_transaction_id: 1,
            platform_fee_recipient: Principal::anonymous(),
            paused: false,
            vault_id,
            governance,
        }
    }

    /// The inputs on which a deposit succeeds: a named, non-anonymous caller,
    /// a positive amount, the vault not paused, and the credited total still
    /// representable.
    pub open spec fn deposit_allowed(self, caller: Principal, token_type: TokenType, amount: u64) -> bool {
        &&& !caller.spec_is_anonymous()
        &&& amount > 0
        &&& !self.paused
        &&& self.balance_of(caller, token_type).total + amount <= u64::MAX
    }

    /// The log entry a successful deposit appends.
    pub open spec fn deposit_tx(self, caller: Principal, token_type: TokenType, amount: u64, now: i64) -> Transaction {
        Transaction {
            id: self.next_transaction_id,
            transaction_type: TransactionType::Lock,
            challenge_id: 0,
            from: caller,
            to: self.vault_id,
            amount,
            token_type,
            timestamp: now,
            status: TransactionStatus::Completed,
        }
    }

    /// Deposits funds into the caller's available balance and logs the
    /// movement. (The log reuses the `Lock` transaction kind for deposits.)
    pub fn deposit(&mut self, caller: Principal, token_type: TokenType, amount: u64, now: i64) -> (r:
        Result<u64, ZeroLockError>)
        requires
            old(self).wf(),
            old(self).time_ok(now),
            old(self).transactions@.len() + 2 <= u64::MAX,
        ensures
            final(self).wf(),
            final(self).time_ok(now),
            r is Ok <==> old(self).deposit_allowed(caller, token_type, amount),
            r is Err ==> *final(self) == *old(self),
            caller.spec_is_anonymous() ==> r matches Err(ZeroLockError::Unauthorized(_)),
            !caller.spec_is_anonymous() && amount == 0 ==> r matches Err(
                ZeroLockError::InvalidInput(_),
            ),
            !caller.spec_is_anonymous() && amount > 0 && old(self).paused ==> r matches Err(
                ZeroLockError::InvalidState(_),
            ),
            !caller.spec_is_anonymous() && amount > 0 && !old(self).paused && old(self).balance_of(
                caller,
                token_type,
            ).total + amount > u64::MAX ==> r matches Err(ZeroLockError::ResourceLimit(_)),
            r matches Ok(id) ==> {
                &&& id == old(self).next_transaction_id
                &&& credited_seq(
                    old(self).balances@,
                    final(self).balances@,
                    caller,
                    token_type,
                    amount,
                )
                &&& final(self).locks@ == old(self).locks@
                &&& final(self).transactions@ == old(self).transactions@.push(
                    old(self).deposit_tx(caller, token_type, amount, now),
                )
                &&& final(self).next_transaction_id == old(self).next_transaction_id + 1
                &&& final(self).same_admin_state(*old(self))
            },
    {
        if caller.is_anonymous() {
            return Err(ZeroLockError::Unauthorized("anonymous principals cannot deposit".to_owned()));
        }
        if amount == 0 {
            return Err(ZeroLockError::InvalidInput("deposit amount must be greater than zero".to_owned()));
        }
        if self.paused {
            return Err(ZeroLockError::InvalidState("vault operations are currently paused".to_owned()));
        }
        let slot = find_balance_slot(&self.balances, caller, token_type);
        let current_total: u64 = match slot {
            Some(j) => self.balances[j].total,
            None => 0,
        };
        if amount > u64::MAX - current_total {
            return Err(ZeroLockError::ResourceLimit("balance would exceed the representable total".to_owned()));
        }
        assert(current_total == self.balance_of(caller, token_type).total);
        credit_balance(&mut self.balances, caller, token_type, amount);
        let transaction_id = self.next_transaction_id;
        let transaction = Transaction {
            id: transaction_id,
            transaction_type: TransactionType::Lock,
            challenge_id: 0,
            from: caller,
            to: self.vault_id,
            amount,
            token_type,
            timestamp: now,
            status: TransactionStatus::Completed,
        };
        self.transactions.push(transaction);
        self.next_transaction_id = transaction_id + 1;
        Ok(transaction_id)
    }

    /// The lock record a successful lock request creates.
    pub open spec fn spec_new_lock(request: LockRequest, now: i64) -> LockInfo {
        LockInfo {
            challenge_id: request.challenge_id,
            company: request.company,
            amount: request.amount,
            token_type: request.token_type,
            locked_at: now,
            expires_at: (now + request.duration) as i64,
            status: LockStatus::Active,
        }
    }

    /// The log entry a successful lock request appends.
    pub open spec fn lock_tx(self, request: LockRequest, now: i64) -> Transaction {
        Transaction {
            id: self.next_transaction_id,
            transaction_type: TransactionType::Lock,
            challenge_id: request.challenge_id,
            from: request.company,
            to: self.vault_id,
            amount: request.amount,
            token_type: request.token_type,
            timestamp: now,
            status: TransactionStatus::Completed,
        }
    }

    /// The inputs on which a lock request succeeds: an allow-listed caller,
    /// the vault not paused, amount and duration within bounds, no Active
    /// lock for the challenge yet, and enough available funds.
    pub open spec fn lock_allowed(self, caller: Principal, request: LockRequest) -> bool {
        &&& self.spec_is_authorized(caller)
        &&& !self.paused
        &&& request.amount >= MIN_LOCK_AMOUNT
        &&& 0 <= request.duration <= MAX_LOCK_DURATION
        &&& !self.has_active_lock(request.challenge_id)
        &&& balance_index_in(self.balances@, request.company, request.token_type) >= 0
        &&& self.balance_of(request.company, request.token_type).available >= request.amount
    }

    /// Locks `request.amount` of the company's available balance for the
    /// challenge. A lock never succeeds with insufficient available funds,
    /// and never while an Active lock exists for the same challenge id: the
    /// Active-lock existence check is the reservation that keeps a second,
    /// concurrent lock out.
    pub fn lock_funds(&mut self, caller: Principal, request: LockRequest, now: i64) -> (r: Result<
        (),
        ZeroLockError,
    >)
        requires
            old(self).wf(),
            old(self).time_ok(now),
            old(self).transactions@.len() + 2 <= u64::MAX,
            now <= i64::MAX - MAX_LOCK_DURATION,
        ensures
            final(self).wf(),
            final(self).time_ok(now),
            r is Ok <==> old(self).lock_allowed(caller, request),
            r is Err ==> *final(self) == *old(self),
            !old(self).spec_is_authorized(caller) ==> r matches Err(ZeroLockError::Unauthorized(_)),
            old(self).spec_is_authorized(caller) && old(self).paused ==> r matches Err(
                ZeroLockError::InvalidState(_),
            ),
            old(self).spec_is_authorized(caller) && !old(self).paused && !(request.amount
                >= MIN_LOCK_AMOUNT && 0 <= request.duration <= MAX_LOCK_DURATION) ==> r matches Err(
                ZeroLockError::InvalidInput(_),
            ),
            old(self).spec_is_authorized(caller) && !old(self).paused && request.amount
                >= MIN_LOCK_AMOUNT && 0 <= request.duration <= MAX_LOCK_DURATION && old(
                self,
            ).has_active_lock(request.challenge_id) ==> r matches Err(
                ZeroLockError::InvalidState(_),
            ),
            old(self).spec_is_authorized(caller) && !old(self).paused && request.amount
                >= MIN_LOCK_AMOUNT && 0 <= request.duration <= MAX_LOCK_DURATION && !old(
                self,
            ).has_active_lock(request.challenge_id) && !(balance_index_in(
                old(self).balances@,
                request.company,
                request.token_type,
            ) >= 0 && old(self).balance_of(request.company, request.token_type).available
                >= request.amount) ==> r matches Err(ZeroLockError::InsufficientFunds(_)),
            r is Ok ==> {
                &&& reserved_seq(
                    old(self).balances@,
                    final(self).balances@,
                    request.company,
                    request.token_type,
                    request.amount,
                )
                &&& forall|id: u64|
                    #![trigger final(self).spec_lock_of(id)]
                    final(self).spec_lock_of(id) == if id == request.challenge_id {
                        Some(Self::spec_new_lock(request, now))
                    } else {
                        old(self).spec_lock_of(id)
                    }
                &&& final(self).transactions@ == old(self).transactions@.push(
                    old(self).lock_tx(request, now),
                )
                &&& final(self).next_transaction_id == old(self).next_transaction_id + 1
                &&& final(self).same_admin_state(*old(self))
            },
    {
        if !self.is_authorized_canister(&caller) {
            return Err(ZeroLockError::Unauthorized("only authorized canisters can lock funds".to_owned()));
        }
        if self.paused {
            return Err(ZeroLockError::InvalidState("vault operations are currently paused".to_owned()));
        }
        if request.amount < MIN_LOCK_AMOUNT {
            return Err(ZeroLockError::InvalidInput("lock amount below minimum threshold".to_owned()));
        }
        if request.duration < 0 || request.duration > MAX_LOCK_DURATION {
            return Err(ZeroLockError::InvalidInput("lock duration outside the allowed range".to_owned()));
        }
        let existing = find_lock_slot(&self.locks, request.challenge_id);
        if let Some(j) = existing {
            if self.locks[j].status == LockStatus::Active {
                return Err(ZeroLockError::InvalidState("funds already locked for this challenge".to_owned()));
            }
        }
        let company_slot = find_balance_slot(&self.balances, request.company, request.token_type);
        let cj = match company_slot {
            Some(cj) => cj,
            None => {
                return Err(ZeroLockError::InsufficientFunds("no balance found for this token type".to_owned()));
            },
        };
        if self.balances[cj].available < request.amount {
            return Err(ZeroLockError::InsufficientFunds("insufficient available balance".to_owned()));
        }
        let ghost v0 = *self;
        reserve_balance(&mut self.balances, request.company, request.token_type, request.amount);
        let lock_info = LockInfo {
            challenge_id: request.challenge_id,
            company: request.company,
            amount: request.amount,
            token_type: request.token_type,
            locked_at: now,
            expires_at: now + request.duration,
            status: LockStatus::Active,
        };
        let ghost locks0 = self.locks@;
        match existing {
            Some(j) => {
                self.locks.set(j, lock_info);
                proof {
                    let locks1 = self.locks@;
                    lemma_find_first_properties(locks0, lock_pred(request.challenge_id));
                    assert((lock_pred(request.challenge_id))(locks0[j as int]));
                    assert forall|id: u64|
                        #![trigger lock_of_in(locks1, id)]
                        lock_of_in(locks1, id) == if id == request.challenge_id {
                            Some(Self::spec_new_lock(request, now))
                        } else {
                            lock_of_in(locks0, id)
                        } by {
                        lemma_find_first_update(locks0, j as int, lock_info, lock_pred(id));
                        lemma_find_first_properties(locks0, lock_pred(id));
                        let i = lock_index_in(locks0, id);
                        if id == request.challenge_id {
                            assert(i == j);
                        } else {
                            if i >= 0 {
                                assert(i != j);
                            }
                        }
                    }
                }
            },
            None => {
                self.locks.push(lock_info);
                proof {
                    let locks1 = self.locks@;
                    lemma_find_first_properties(locks0, lock_pred(request.challenge_id));
                    assert forall|id: u64|
                        #![trigger lock_of_in(locks1, id)]
                        lock_of_in(locks1, id) == if id == request.challenge_id {
                            Some(Self::spec_new_lock(request, now))
                        } else {
                            lock_of_in(locks0, id)
                        } by {
                        lemma_find_first_push(locks0, lock_info, lock_pred(id));
                        lemma_find_first_properties(locks0, lock_pred(id));
                    }
                    assert forall|i: int, j2: int|
                        0 <= i < j2 < locks1.len() implies (#[trigger] locks1[i]).challenge_id != (
                        #[trigger] locks1[j2]).challenge_id by {
                        if j2 == locks0.len() as int {
                            assert(!(lock_pred(request.challenge_id))(locks0[i]));
                        }
                    }
                }
            },
        }
        let transaction_id = self.next_transaction_id;
        let transaction = Transaction {
            id: transaction_id,
            transaction_type: TransactionType::Lock,
            challenge_id: request.challenge_id,
            from: request.company,
            to: self.vault_id,
            amount: request.amount,
            token_type: request.token_type,
            timestamp: now,
            status: TransactionStatus::Completed,
        };
        self.transactions.push(transaction);
        self.next_transaction_id = transaction_id + 1;
        Ok(())
    }

    /// Whether the two balances a settlement credits stay representable.
    pub open spec fn settle_fits(self, request: UnlockRequest, l: LockInfo) -> bool {
        let fee = spec_fee_for(request.amount, request.reason);
        let net = spec_net_for(request.amount, request.reason);
        let tt = l.token_type;
        &&& balance_in(self.balances@, request.recipient, tt).total + settle_gain(
            request.recipient,
            tt,
            request.recipient,
            self.platform_fee_recipient,
            tt,
            net,
            fee,
        ) - settle_loss(request.recipient, tt, l.company, tt, request.amount) <= u64::MAX
        &&& balance_in(self.balances@, self.platform_fee_recipient, tt).total + settle_gain(
            self.platform_fee_recipient,
            tt,
            request.recipient,
            self.platform_fee_recipient,
            tt,
            net,
            fee,
        ) - settle_loss(self.platform_fee_recipient, tt, l.company, tt, request.amount)
            <= u64::MAX
    }

    /// The inputs on which an unlock succeeds: an allow-listed caller, the
    /// vault not paused, an Active lock covering the amount, a consistent
    /// company balance, and credited totals that stay representable.
    pub open spec fn unlock_allowed(self, caller: Principal, request: UnlockRequest) -> bool {
        &&& self.spec_is_authorized(caller)
        &&& !self.paused
        &&& self.spec_lock_of(request.challenge_id) matches Some(l) && {
            &&& l.status is Active
            &&& request.amount <= l.amount
            &&& balance_index_in(self.balances@, l.company, l.token_type) >= 0
            &&& self.balance_of(l.company, l.token_type).locked >= request.amount
            &&& self.settle_fits(request, l)
        }
    }

    /// The log entries a successful unlock appends: the net movement — a
    /// Payout for a bounty payout, a Refund back for any other reason — and a
    /// separate Fee transaction when the fee is positive.
    pub open spec fn settle_txs(
        self,
        challenge_id: u64,
        l: LockInfo,
        recipient: Principal,
        reason: UnlockReason,
        net: int,
        fee: int,
        now: i64,
    ) -> Seq<Transaction> {
        let ptx = Transaction {
            id: self.next_transaction_id,
            transaction_type: if reason is BountyPayout {
                TransactionType::Payout
            } else {
                TransactionType::Refund
            },
            challenge_id,
            from: l.company,
            to: recipient,
            amount: net as u64,
            token_type: l.token_type,
            timestamp: now,
            status: TransactionStatus::Completed,
        };
        let ftx = Transaction {
            id: (self.next_transaction_id + if net > 0 {
                1int
            } else {
                0int
            }) as u64,
            transaction_type: TransactionType::Fee,
            challenge_id,
            from: l.company,
            to: self.platform_fee_recipient,
            amount: fee as u64,
            token_type: l.token_type,
            timestamp: now,
            status: TransactionStatus::Completed,
        };
        if net > 0 && fee > 0 {
            seq![ptx, ftx]
        } else if net > 0 {
            seq![ptx]
        } else if fee > 0 {
            seq![ftx]
        } else {
            Seq::empty()
        }
    }

    /// Releases the Active lock of a challenge and settles: the company's
    /// locked and total funds shrink by the amount, the recipient is credited
    /// the net, the platform fee recipient the fee, and the lock is marked
    /// Released. An unlock never moves more than the Active lock's amount.
    #[verifier::rlimit(100)]
    #[verifier::spinoff_prover]
    pub fn unlock_funds(&mut self, caller: Principal, request: UnlockRequest, now: i64) -> (r:
        Result<(), ZeroLockError>)
        requires
            old(self).wf(),
            old(self).time_ok(now),
            old(self).transactions@.len() + 3 <= u64::MAX,
        ensures
            final(self).wf(),
            final(self).time_ok(now),
            r is Ok <==> old(self).unlock_allowed(caller, request),
            r is Err ==> *final(self) == *old(self),
            !old(self).spec_is_authorized(caller) ==> r matches Err(ZeroLockError::Unauthorized(_)),
            old(self).spec_is_authorized(caller) && old(self).paused ==> r matches Err(
                ZeroLockError::InvalidState(_),
            ),
            old(self).spec_is_authorized(caller) && !old(self).paused && old(self).spec_lock_of(
                request.challenge_id,
            ) is None ==> r matches Err(ZeroLockError::NotFound(_)),
            old(self).spec_is_authorized(caller) && !old(self).paused && (old(self).spec_lock_of(
                request.challenge_id,
            ) matches Some(l) && !(l.status is Active)) ==> r matches Err(
                ZeroLockError::InvalidState(_),
            ),
            old(self).spec_is_authorized(caller) && !old(self).paused && (old(self).spec_lock_of(
                request.challenge_id,
            ) matches Some(l) && l.status is Active && request.amount > l.amount) ==> r matches Err(
                ZeroLockError::InvalidInput(_),
            ),
            old(self).spec_is_authorized(caller) && !old(self).paused && (old(self).spec_lock_of(
                request.challenge_id,
            ) matches Some(l) && l.status is Active && request.amount <= l.amount && !(
            balance_index_in(old(self).balances@, l.company, l.token_type) >= 0 && old(
                self,
            ).balance_of(l.company, l.token_type).locked >= request.amount)) ==> r matches Err(
                ZeroLockError::InternalError(_),
            ),
            old(self).spec_is_authorized(caller) && !old(self).paused && (old(self).spec_lock_of(
                request.challenge_id,
            ) matches Some(l) && l.status is Active && request.amount <= l.amount
                && balance_index_in(old(self).balances@, l.company, l.token_type) >= 0 && old(
                self,
            ).balance_of(l.company, l.token_type).locked >= request.amount && !old(
                self,
            ).settle_fits(request, l)) ==> r matches Err(ZeroLockError::ResourceLimit(_)),
            r is Ok ==> ({
                let l = old(self).spec_lock_of(request.challenge_id)->Some_0;
                let fee = spec_fee_for(request.amount, request.reason);
                let net = spec_net_for(request.amount, request.reason);
                &&& settled_seq(
                    old(self).balances@,
                    final(self).balances@,
                    l.company,
                    request.recipient,
                    old(self).platform_fee_recipient,
                    l.token_type,
                    request.amount,
                    net,
                    fee,
                )
                &&& forall|id: u64|
                    #![trigger final(self).spec_lock_of(id)]
                    final(self).spec_lock_of(id) == if id == request.challenge_id {
                        Some(LockInfo { status: LockStatus::Released, ..l })
                    } else {
                        old(self).spec_lock_of(id)
                    }
                &&& final(self).transactions@ == old(self).transactions@ + old(self).settle_txs(
                    request.challenge_id,
                    l,
                    request.recipient,
                    request.reason,
                    net,
                    fee,
                    now,
                )
                &&& final(self).next_transaction_id == old(self).next_transaction_id + (if net > 0 {
                    1int
                } else {
                    0int
                }) + (if fee > 0 {
                    1int
                } else {
                    0int
                })
                &&& final(self).same_admin_state(*old(self))
            }),
    {
        if !self.is_authorized_canister(&caller) {
            return Err(ZeroLockError::Unauthorized("only authorized canisters can unlock funds".to_owned()));
        }
        if self.paused {
            return Err(ZeroLockError::InvalidState("vault operations are currently paused".to_owned()));
        }
        let lj = match find_lock_slot(&self.locks, request.challenge_id) {
            Some(lj) => lj,
            None => {
                return Err(ZeroLockError::NotFound("no locked funds found for this challenge".to_owned()));
            },
        };
        let lock = self.locks[lj];
        if lock.status != LockStatus::Active {
            return Err(ZeroLockError::InvalidState("lock is not active".to_owned()));
        }
        if request.amount > lock.amount {
            return Err(ZeroLockError::InvalidInput("unlock amount exceeds locked amount".to_owned()));
        }
        let amount = request.amount;
        let company = lock.company;
        let tt = lock.token_type;
        let cj = match find_balance_slot(&self.balances, company, tt) {
            Some(cj) => cj,
            None => {
                return Err(ZeroLockError::InternalError("company balance not found".to_owned()));
            },
        };
        let company_balance = self.balances[cj];
        if company_balance.locked < amount {
            return Err(ZeroLockError::InternalError("company balance inconsistent with the lock".to_owned()));
        }
        proof {
            lemma_fee_bounds(amount, request.reason);
        }
        let (net, fee): (u64, u64) = match &request.reason {
            UnlockReason::BountyPayout(_) => {
                let fee_wide: u128 = (amount as u128) * (PLATFORM_FEE_BASIS_POINTS as u128) / 10000;
                let f: u64 = fee_wide as u64;
                (amount - f, f)
            },
            _ => (amount, 0),
        };
        assert(fee == spec_fee_for(amount, request.reason));
        assert(net == spec_net_for(amount, request.reason));
        let fee_recipient = self.platform_fee_recipient;
        let recipient = request.recipient;
        // Projected totals of the two credited keys, checked before anything
        // is written so a failure leaves the ledger untouched.
        let recipient_total: u64 = match find_balance_slot(&self.balances, recipient, tt) {
            Some(j) => self.balances[j].total,
            None => 0,
        };
        let fee_recipient_total: u64 = match find_balance_slot(&self.balances, fee_recipient, tt) {
            Some(j) => self.balances[j].total,
            None => 0,
        };
        proof {
            lemma_find_first_properties(self.balances@, balance_pred(company, tt));
        }
        let recipient_projected: u128 = (recipient_total as u128) - (if recipient == company {
            amount as u128
        } else {
            0
        }) + (net as u128) + (if fee_recipient == recipient {
            fee as u128
        } else {
            0
        });
        let fee_projected: u128 = (fee_recipient_total as u128) - (if fee_recipient == company {
            amount as u128
        } else {
            0
        }) + (fee as u128) + (if fee_recipient == recipient {
            net as u128
        } else {
            0
        });
        if recipient_projected > u64::MAX as u128 || fee_projected > u64::MAX as u128 {
            return Err(ZeroLockError::ResourceLimit("settlement would exceed a representable balance".to_owned()));
        }
        let ghost v0 = *self;
        assert(v0.unlock_allowed(caller, request));
        settle_balances(&mut self.balances, company, recipient, fee_recipient, tt, amount, net, fee);
        let released = LockInfo { status: LockStatus::Released, ..lock };
        let ghost locks0 = self.locks@;
        self.locks.set(lj, released);
        proof {
            let locks1 = self.locks@;
            lemma_find_first_properties(locks0, lock_pred(request.challenge_id));
            assert((lock_pred(request.challenge_id))(locks0[lj as int]));
            assert forall|id: u64|
                #![trigger lock_of_in(locks1, id)]
                lock_of_in(locks1, id) == if id == request.challenge_id {
                    Some(released)
                } else {
                    lock_of_in(locks0, id)
                } by {
                lemma_find_first_update(locks0, lj as int, released, lock_pred(id));
                lemma_find_first_properties(locks0, lock_pred(id));
                let i = lock_index_in(locks0, id);
                if id == request.challenge_id {
                    assert(i == lj);
                } else {
                    if i >= 0 {
                        assert(i != lj);
                    }
                }
            }
        }
        let ghost txs0 = self.transactions@;
        // The net movement is a payout of the bounty, or a refund for an
        // expiry, a cancellation or an admin override.
        let net_kind = match &request.reason {
            UnlockReason::BountyPayout(_) => TransactionType::Payout,
            _ => TransactionType::Refund,
        };
        if net > 0 {
            let payout_id = self.next_transaction_id;
            let payout_transaction = Transaction {
                id: payout_id,
                transaction_type: net_kind,
                challenge_id: request.challenge_id,
                from: company,
                to: recipient,
                amount: net,
                token_type: tt,
                timestamp: now,
                status: TransactionStatus::Completed,
            };
            self.transactions.push(payout_transaction);
            self.next_transaction_id = payout_id + 1;
        }
        if fee > 0 {
            let fee_id = self.next_transaction_id;
            let fee_transaction = Transaction {
                id: fee_id,
                transaction_type: TransactionType::Fee,
                challenge_id: request.challenge_id,
                from: company,
                to: fee_recipient,
                amount: fee,
                token_type: tt,
                timestamp: now,
                status: TransactionStatus::Completed,
            };
            self.transactions.push(fee_transaction);
            self.next_transaction_id = fee_id + 1;
        }
        proof {
            let expected = v0.settle_txs(
                request.challenge_id,
                lock,
                recipient,
                request.reason,
                net as int,
                fee as int,
                now,
            );
            assert(self.transactions@ =~= txs0 + expected);
        }
        Ok(())
    }

    /// Reads the balance of `(user, token_type)`; owners start from zero.
    pub fn get_balance(&self, user: Principal, token_type: TokenType) -> (r: Balance)
        ensures
            r == self.balance_of(user, token_type),
    {
        match find_balance_slot(&self.balances, user, token_type) {
            Some(j) => self.balances[j],
            None => Balance { owner: user, token_type, available: 0, locked: 0, total: 0 },
        }
    }

    /// Reads the lock record of a challenge, if one was ever created.
    pub fn get_lock_info(&self, challenge_id: u64) -> (r: Result<LockInfo, ZeroLockError>)
        ensures
            match r {
                Ok(l) => self.spec_lock_of(challenge_id) == Some(l),
                Err(e) => self.spec_lock_of(challenge_id) is None && e matches ZeroLockError::NotFound(_),
            },
    {
        match find_lock_slot(&self.locks, challenge_id) {
            Some(j) => Ok(self.locks[j]),
            None => Err(ZeroLockError::NotFound("no lock found for this challenge".to_owned())),
        }
    }

    /// The transactions a user took part in, newest first. Never returns
    /// more than `MAX_PAGE_LIMIT` entries, whatever the requested limit;
    /// an offset at or past the end yields an empty page.
    pub fn get_transaction_history(&self, user: Principal, offset: u64, limit: u64) -> (r: Vec<
        Transaction,
    >)
        requires
            self.wf(),
        ensures
            r@ == page_newest_first(
                self.transactions@.filter(tx_party_pred(user)),
                offset as int,
                (if limit > MAX_PAGE_LIMIT {
                    MAX_PAGE_LIMIT
                } else {
                    limit
                }) as int,
            ),
            r@.len() <= MAX_PAGE_LIMIT,
            r@.len() <= limit,
            offset >= self.transactions@.filter(tx_party_pred(user)).len() ==> r@.len() == 0,
            forall|i: int, j: int|
                0 <= i <= j < r@.len() ==> (#[trigger] r@[i]).timestamp >= (#[trigger] r@[j]).timestamp,
    {
        let lim: u64 = if limit > MAX_PAGE_LIMIT {
            MAX_PAGE_LIMIT
        } else {
            limit
        };
        let txs = &self.transactions;
        let mut matched: Vec<Transaction> = Vec::new();
        let mut i: usize = 0;
        while i < txs.len()
            invariant
                i <= txs@.len(),
                matched@ == txs@.subrange(0, i as int).filter(tx_party_pred(user)),
            decreases txs@.len() - i,
        {
            let tx = txs[i];
            proof {
                reveal(Seq::filter);
                assert(txs@.subrange(0, i + 1).drop_last() =~= txs@.subrange(0, i as int));
                assert(txs@.subrange(0, i + 1).last() == txs@[i as int]);
            }
            if tx.from == user || tx.to == user {
                matched.push(tx);
            }
            i += 1;
        }
        proof {
            assert(txs@.subrange(0, txs@.len() as int) =~= txs@);
            assert forall|a: int, b: int|
                0 <= a <= b < txs@.len() implies (tx_time_key())(txs@[a]) <= (tx_time_key())(
                txs@[b],
            ) by {}
            lemma_filter_sorted(txs@, tx_party_pred(user), tx_time_key());
        }
        page_copy_desc(&matched, offset, lim, Ghost(tx_time_key()))
    }

    /// Aggregate statistics: the funds and count of Active locks, the length
    /// of the log, and the volume of completed transactions, each sum clamped
    /// into `u64`.
    pub fn get_vault_stats(&self) -> (r: VaultStats)
        ensures
            r.total_locked == clamp_u64(sum_by(self.locks@, active_amount_weight())),
            r.active_locks == clamp_u64(sum_by(self.locks@, active_count_weight())),
            r.total_transactions == self.transactions@.len(),
            r.total_volume == clamp_u64(sum_by(self.transactions@, completed_volume_weight())),
    {
        proof {
            assert(forall|l: LockInfo| #[trigger] (active_amount_weight())(l) >= 0);
            assert(forall|l: LockInfo| #[trigger] (active_count_weight())(l) >= 0);
            assert(forall|t: Transaction| #[trigger] (completed_volume_weight())(t) >= 0);
        }
        let mut total_locked: u64 = 0;
        let mut active_locks: u64 = 0;
        let mut i: usize = 0;
        while i < self.locks.len()
            invariant
                i <= self.locks@.len(),
                total_locked == clamp_u64(sum_by(self.locks@.subrange(0, i as int), active_amount_weight())),
                active_locks == clamp_u64(sum_by(self.locks@.subrange(0, i as int), active_count_weight())),
            decreases self.locks@.len() - i,
        {
            let l = self.locks[i];
            proof {
                let pre = self.locks@.subrange(0, i as int);
                let post = self.locks@.subrange(0, i + 1);
                assert(post.drop_last() =~= pre);
                assert(post.last() == self.locks@[i as int]);
                assert(forall|x: LockInfo| #[trigger] (active_amount_weight())(x) >= 0);
                assert(forall|x: LockInfo| #[trigger] (active_count_weight())(x) >= 0);
                lemma_sum_by_nonneg(pre, active_amount_weight());
                lemma_sum_by_nonneg(pre, active_count_weight());
            }
            if l.status == LockStatus::Active {
                total_locked = total_locked.saturating_add(l.amount);
                active_locks = active_locks.saturating_add(1);
            }
            i += 1;
        }
        proof {
            assert(self.locks@.subrange(0, self.locks@.len() as int) =~= self.locks@);
        }
        let mut total_volume: u64 = 0;
        let mut k: usize = 0;
        while k < self.transactions.len()
            invariant
                k <= self.transactions@.len(),
                total_volume == clamp_u64(sum_by(self.transactions@.subrange(0, k as int), completed_volume_weight())),
            decreases self.transactions@.len() - k,
        {
            let t = self.transactions[k];
            proof {
                let pre = self.transactions@.subrange(0, k as int);
                let post = self.transactions@.subrange(0, k + 1);
                assert(post.drop_last() =~= pre);
                assert(post.last() == self.transactions@[k as int]);
                assert(forall|x: Transaction| #[trigger] (completed_volume_weight())(x) >= 0);
                lemma_sum_by_nonneg(pre, completed_volume_weight());
            }
            if t.status == TransactionStatus::Completed {
                total_volume = total_volume.saturating_add(t.amount);
            }
            k += 1;
        }
        proof {
            assert(self.transactions@.subrange(0, self.transactions@.len() as int)
                =~= self.transactions@);
        }
        VaultStats {
            total_locked,
            total_transactions: self.transactions.len() as u64,
            active_locks,
            total_volume,
        }
    }

    /// Adds a caller to the allow-list. Only governance may manage the
    /// allow-list; a caller already on it is rejected.
    pub fn add_authorized_canister(&mut self, caller: Principal, canister: Principal) -> (r:
        Result<(), ZeroLockError>)
        requires
            old(self).wf(),
        ensures
            final(self).wf(),
            r is Ok <==> caller == old(self).governance && !old(self).spec_is_authorized(canister),
            r is Err ==> *final(self) == *old(self),
            caller != old(self).governance ==> r matches Err(ZeroLockError::Unauthorized(_)),
            caller == old(self).governance && old(self).spec_is_authorized(canister) ==> r matches Err(
                ZeroLockError::InvalidInput(_),
            ),
            r is Ok ==> final(self).authorized_canisters@ == old(self).authorized_canisters@.push(
                canister,
            ) && final(self).same_funds_state(*old(self)) && final(self).paused == old(self).paused
                && final(self).platform_fee_recipient == old(self).platform_fee_recipient
                && final(self).vault_id == old(self).vault_id && final(self).governance == old(
                self,
            ).governance,
    {
        if caller != self.governance {
            return Err(ZeroLockError::Unauthorized("only governance can manage the allow-list".to_owned()));
        }
        if self.is_authorized_canister(&canister) {
            return Err(ZeroLockError::InvalidInput("canister is already authorized".to_owned()));
        }
        self.authorized_canisters.push(canister);
        Ok(())
    }

    /// The allow-list as a vector of identities, in insertion order.
    pub fn get_authorized_canisters(&self) -> (r: Vec<Principal>)
        ensures
            r@ == self.authorized_canisters@,
    {
        clone_copy_vec(&self.authorized_canisters)
    }

    /// Halts or resumes deposits, locks and unlocks; reads stay available.
    /// Only governance may throw this emergency brake.
    pub fn set_pause_status(&mut self, caller: Principal, paused: bool) -> (r: Result<
        (),
        ZeroLockError,
    >)
        requires
            old(self).wf(),
        ensures
            final(self).wf(),
            r is Ok <==> caller == old(self).governance,
            r is Err ==> *final(self) == *old(self) && r matches Err(ZeroLockError::Unauthorized(_)),
            r is Ok ==> {
                &&& final(self).paused == paused
                &&& final(self).same_funds_state(*old(self))
                &&& final(self).authorized_canisters@ == old(self).authorized_canisters@
                &&& final(self).platform_fee_recipient == old(self).platform_fee_recipient
                &&& final(self).vault_id == old(self).vault_id
                &&& final(self).governance == old(self).governance
            },
    {
        if caller != self.governance {
            return Err(ZeroLockError::Unauthorized("only governance can pause the vault".to_owned()));
        }
        self.paused = paused;
        Ok(())
    }

    pub fn is_paused(&self) -> (r: bool)
        ensures
            r == self.paused,
    {
        self.paused
    }

    /// Directs future platform fees to `recipient`. Only governance may.
    pub fn set_platform_fee_recipient(&mut self, caller: Principal, recipient: Principal) -> (r:
        Result<(), ZeroLockError>)
        requires
            old(self).wf(),
        ensures
            final(self).wf(),
            r is Ok <==> caller == old(self).governance,
            r is Err ==> *final(self) == *old(self) && r matches Err(ZeroLockError::Unauthorized(_)),
            r is Ok ==> {
                &&& final(self).platform_fee_recipient == recipient
                &&& final(self).same_funds_state(*old(self))
                &&& final(self).authorized_canisters@ == old(self).authorized_canisters@
                &&& final(self).paused == old(self).paused
                &&& final(self).vault_id == old(self).vault_id
                &&& final(self).governance == old(self).governance
            },
    {
        if caller != self.governance {
            return Err(ZeroLockError::Unauthorized("only governance can direct the platform fee".to_owned()));
        }
        self.platform_fee_recipient = recipient;
        Ok(())
    }

    /// Balances, locks and the log are unchanged.
    pub open spec fn same_funds_state(self, v0: Vault) -> bool {
        &&& self.balances@ == v0.balances@
        &&& self.locks@ == v0.locks@
        &&& self.transactions@ == v0.transactions@
        &&& self.next_transaction_id == v0.next_transaction_id
    }

    /// Whether `canister` is on the allow-list for lock and unlock calls.
    pub fn is_authorized_canister(&self, canister: &Principal) -> (r: bool)
        ensures
            r == self.spec_is_authorized(*canister),
    {
        let mut i: usize = 0;
        while i < self.authorized_canisters.len()
            invariant
                i <= self.authorized_canisters@.len(),
                forall|k: int| 0 <= k < i ==> self.authorized_canisters@[k] != *canister,
            decreases self.authorized_canisters@.len() - i,
        {
            if self.authorized_canisters[i] == *canister {
                return true;
            }
            i += 1;
        }
        assert(!self.authorized_canisters@.contains(*canister));
        false
    }
}

} // verus!
