//! The liquidity pool: provider capital and shares, coverage locks and payouts.

use vstd::prelude::*;

use crate::table::{
    keys_distinct, lemma_pairs_map_dom, lemma_pairs_map_lookup, lemma_seq_total_prefix,
    lemma_seq_total_push, pair_values, pairs_map, seq_total, Table,
};

verus! {

/// The pool's configuration, fixed at initialization.
#[derive(Debug)]
pub struct PoolConfig {
    pub admin: String,
    pub stablecoin_asset: String,
    /// Free capital required, once a lock is taken, per unit of that lock, scaled by 100
    /// (500 means five units of free capital per locked unit).
    pub min_collateral_ratio: u32,
}

impl Clone for PoolConfig {
    fn clone(&self) -> (r: Self)
        ensures
            r == *self,
    {
        PoolConfig {
            admin: self.admin.clone(),
            stablecoin_asset: self.stablecoin_asset.clone(),
            min_collateral_ratio: self.min_collateral_ratio,
        }
    }
}

#[derive(Debug, Clone, Copy, PartialEq, Eq, Structural)]
pub struct PoolStats {
    pub total_capital: i128,
    pub locked_amount: i128,
    pub total_shares: i128,
    /// Locked amount over total capital, in basis points.
    pub utilization_ratio: u32,
}

#[derive(Debug, Clone, Copy, PartialEq, Eq, Structural)]
pub struct ProviderPosition {
    pub shares: i128,
}

#[derive(Debug, Clone, Copy, PartialEq, Eq, Structural)]
pub enum Error {
    AlreadyInitialized,
    NotInitialized,
    InsufficientCapital,
    InsufficientShares,
    InvalidAmount,
    PolicyNotLocked,
    PolicyAlreadyLocked,
}

/// Counts a lock by its amount.
pub open spec fn lock_amount() -> spec_fn(i128) -> int {
    |v: i128| v as int
}

/// Counts a position by its shares.
pub open spec fn position_shares() -> spec_fn(ProviderPosition) -> int {
    |p: ProviderPosition| p.shares as int
}

/// The abstract state of a pool.
#[verifier::ext_equal]
pub struct PoolState {
    pub config: Option<PoolConfig>,
    pub total_capital: i128,
    pub locked_amount: i128,
    pub total_shares: i128,
    /// Provider address to position; providers without shares may be absent.
    pub providers: Map<Seq<char>, ProviderPosition>,
    /// Policy id to the coverage locked for it.
    pub locks: Map<u64, i128>,
}

impl PoolState {
    /// The shares that `provider` holds.
    pub open spec fn shares_of(self, provider: Seq<char>) -> int {
        if self.providers.contains_key(provider) {
            self.providers[provider].shares as int
        } else {
            0
        }
    }

    /// Shares minted for a deposit of `amount`: one per unit into an empty pool,
    /// else in proportion to the shares already outstanding.
    pub open spec fn deposit_shares(self, amount: int) -> int {
        if self.total_shares == 0 {
            amount
        } else {
            amount * self.total_shares / (self.total_capital as int)
        }
    }

    /// Capital returned for burning `shares`: their proportion of the total capital.
    pub open spec fn withdrawal_amount(self, shares: int) -> int {
        shares * self.total_capital / (self.total_shares as int)
    }

    /// The pool once `provider` has deposited `amount`.
    pub open spec fn with_deposit(self, provider: Seq<char>, amount: i128) -> PoolState {
        let minted = self.deposit_shares(amount as int);
        PoolState {
            total_capital: (self.total_capital + amount) as i128,
            total_shares: (self.total_shares + minted) as i128,
            providers: self.providers.insert(
                provider,
                ProviderPosition { shares: (self.shares_of(provider) + minted) as i128 },
            ),
            ..self
        }
    }

    /// The pool once `provider` has burnt `shares`; a provider left without shares is dropped.
    pub open spec fn with_withdrawal(self, provider: Seq<char>, shares: i128) -> PoolState {
        let remaining = self.shares_of(provider) - shares;
        PoolState {
            total_capital: (self.total_capital - self.withdrawal_amount(shares as int)) as i128,
            total_shares: (self.total_shares - shares) as i128,
            providers: if remaining == 0 {
                self.providers.remove(provider)
            } else {
                self.providers.insert(provider, ProviderPosition { shares: remaining as i128 })
            },
            ..self
        }
    }

    /// The capital not locked for coverage.
    pub open spec fn available_capital(self) -> int {
        self.total_capital - self.locked_amount
    }

    /// Whether locking `amount` more keeps locked coverage within capital and leaves free
    /// capital of at least `ratio / 100` times `amount`: each lock is held to the ratio on
    /// its own, so with ratio 500 a pool of 100_000 takes a first lock of 10_000 and then a
    /// second one.
    pub open spec fn lock_fits(self, ratio: u32, amount: int) -> bool {
        let new_locked = self.locked_amount + amount;
        &&& new_locked <= i128::MAX
        &&& new_locked <= self.total_capital
        &&& amount * ratio <= i128::MAX
        &&& self.total_capital - new_locked >= amount * ratio / 100
    }

    /// What locking `amount` for `policy_id` answers.
    pub open spec fn lock_check(self, policy_id: u64, amount: int) -> Result<(), Error> {
        if amount <= 0 {
            Err(Error::InvalidAmount)
        } else {
            match self.config {
                None => Err(Error::NotInitialized),
                Some(c) => if self.locks.contains_key(policy_id) {
                    Err(Error::PolicyAlreadyLocked)
                } else if !self.lock_fits(c.min_collateral_ratio, amount) {
                    Err(Error::InsufficientCapital)
                } else {
                    Ok(())
                },
            }
        }
    }

    /// The pool once `amount` is locked for `policy_id`.
    pub open spec fn with_lock(self, policy_id: u64, amount: i128) -> PoolState {
        PoolState {
            locked_amount: (self.locked_amount + amount) as i128,
            locks: self.locks.insert(policy_id, amount),
            ..self
        }
    }

    /// What paying `amount` out of the coverage locked for `policy_id` answers: the amount
    /// must be positive and no more than the lock.
    pub open spec fn payout_check(self, policy_id: u64, amount: int) -> Result<(), Error> {
        if amount <= 0 {
            Err(Error::InvalidAmount)
        } else if self.config is None {
            Err(Error::NotInitialized)
        } else if !self.locks.contains_key(policy_id) {
            Err(Error::PolicyNotLocked)
        } else if amount > self.locks[policy_id] {
            Err(Error::InsufficientCapital)
        } else {
            Ok(())
        }
    }

    /// The pool once the lock of `policy_id` is released and `amount` is paid out.
    pub open spec fn with_payout(self, policy_id: u64, amount: i128) -> PoolState {
        PoolState {
            total_capital: (self.total_capital - amount) as i128,
            locked_amount: (self.locked_amount - self.locks[policy_id]) as i128,
            locks: self.locks.remove(policy_id),
            ..self
        }
    }

    /// Whether shares are outstanding while no capital backs them, so that no share price
    /// can be taken for a deposit.
    pub open spec fn shares_without_capital(self) -> bool {
        self.total_shares != 0 && self.total_capital == 0
    }

    /// The arithmetic of a deposit stays within `i128` (there is none to do when shares
    /// are outstanding without capital: such a deposit is refused).
    pub open spec fn deposit_in_range(self, amount: int) -> bool {
        ||| self.shares_without_capital()
        ||| {
            &&& self.total_shares != 0 ==> amount * self.total_shares <= i128::MAX
            &&& self.total_capital + amount <= i128::MAX
            &&& self.total_shares + self.deposit_shares(amount) <= i128::MAX
        }
    }
}


/// Locking coverage for a policy and then paying the whole lock out is always accepted,
/// leaves the locked total and the other locks as they were, and takes exactly the payout
/// out of capital.
pub proof fn lemma_lock_then_pay_out(s: PoolState, policy_id: u64, amount: i128)
    requires
        s.lock_check(policy_id, amount as int) is Ok,
    ensures
        s.with_lock(policy_id, amount).payout_check(policy_id, amount as int) is Ok,
        s.with_lock(policy_id, amount).with_payout(policy_id, amount).locked_amount
            == s.locked_amount,
        s.with_lock(policy_id, amount).with_payout(policy_id, amount).total_capital
            == s.total_capital - amount,
        s.with_lock(policy_id, amount).with_payout(policy_id, amount).locks == s.locks,
        s.with_lock(policy_id, amount).with_payout(policy_id, amount).total_shares
            == s.total_shares,
        s.with_lock(policy_id, amount).with_payout(policy_id, amount).providers == s.providers,
{
    assert(s.with_lock(policy_id, amount).locks.remove(policy_id) =~= s.locks);
}

/// Depositing and then burning the shares the deposit minted never returns more than was
/// deposited; into a pool with neither capital nor shares it returns the deposit exactly.
pub proof fn lemma_deposit_then_withdraw(s: PoolState, provider: Seq<char>, amount: i128)
    requires
        0 <= s.total_capital,
        0 <= s.total_shares,
        amount > 0,
        s.total_shares == 0 ==> s.total_capital == 0,
        s.total_shares != 0 ==> s.total_capital != 0,
        0 <= s.shares_of(provider) <= s.total_shares,
        s.deposit_in_range(amount as int),
    ensures
        ({
            let minted = s.deposit_shares(amount as int);
            let after = s.with_deposit(provider, amount);
            &&& 0 <= minted <= after.shares_of(provider)
            &&& minted > 0 ==> after.withdrawal_amount(minted) <= amount
            &&& s.total_shares == 0 ==> minted == amount && after.withdrawal_amount(minted)
                == amount
        }),
{
    let minted = s.deposit_shares(amount as int);
    let after = s.with_deposit(provider, amount);
    let c = s.total_capital as int;
    let sh = s.total_shares as int;
    let a = amount as int;
    if sh == 0 {
        assert(after.total_capital == a);
        assert(after.total_shares == a);
        assert(a * a / a == a) by (nonlinear_arith)
            requires
                a > 0,
        ;
    } else {
        assert(a * sh >= 0) by (nonlinear_arith)
            requires
                a > 0,
                sh > 0,
        ;
        assert(minted == a * sh / c);
        assert(minted >= 0 && minted * c <= a * sh) by (nonlinear_arith)
            requires
                minted == a * sh / c,
                a * sh >= 0,
                c > 0,
        ;
        assert(after.total_capital == c + a);
        assert(after.total_shares == sh + minted);
        if minted > 0 {
            assert(minted * (c + a) <= a * (sh + minted)) by (nonlinear_arith)
                requires
                    minted * c <= a * sh,
                    minted >= 0,
                    a > 0,
            ;
            assert(minted * (c + a) >= 0) by (nonlinear_arith)
                requires
                    minted >= 0,
                    c + a >= 0,
            ;
            assert(minted * (c + a) / (sh + minted) <= a) by (nonlinear_arith)
                requires
                    minted * (c + a) <= a * (sh + minted),
                    sh + minted > 0,
                    minted * (c + a) >= 0,
            ;
        }
    }
}


/// Shares minted for a deposit: one per unit into a pool without shares; otherwise the
/// largest count whose worth at the pool's share price (capital over shares) is at most the
/// deposit.
pub proof fn lemma_minted_shares(s: PoolState, amount: int)
    requires
        amount > 0,
        s.total_shares >= 0,
        s.total_shares != 0 ==> s.total_capital > 0,
    ensures
        s.total_shares == 0 ==> s.deposit_shares(amount) == amount,
        s.total_shares != 0 ==> {
            let m = s.deposit_shares(amount);
            &&& m * s.total_capital <= amount * s.total_shares
            &&& amount * s.total_shares < (m + 1) * s.total_capital
        },
{
    if s.total_shares != 0 {
        let m = s.deposit_shares(amount);
        let c = s.total_capital as int;
        let x = amount * s.total_shares;
        assert(m == x / c);
        assert(m * c <= x && x < (m + 1) * c) by (nonlinear_arith)
            requires
                m == x / c,
                c > 0,
        ;
    }
}

/// Capital returned for burnt shares: the largest amount whose worth in shares (at the
/// pool's share price) is at most the shares burnt.
pub proof fn lemma_withdrawal_amount(s: PoolState, shares: int)
    requires
        s.total_shares > 0,
    ensures
        ({
            let a = s.withdrawal_amount(shares);
            &&& a * s.total_shares <= shares * s.total_capital
            &&& shares * s.total_capital < (a + 1) * s.total_shares
        }),
{
    let a = s.withdrawal_amount(shares);
    let t = s.total_shares as int;
    let x = shares * s.total_capital;
    assert(a == x / t);
    assert(a * t <= x && x < (a + 1) * t) by (nonlinear_arith)
        requires
            a == x / t,
            t > 0,
    ;
}

/// What locking answers, stated on the pool's totals: a positive amount for an unlocked
/// policy of a configured pool is accepted exactly when the locked total stays within
/// capital and the capital left free is at least `ratio / 100` times the amount (rounded
/// down), all within `i128`.
pub proof fn lemma_lock_rule(s: PoolState, policy_id: u64, amount: int)
    ensures
        amount <= 0 ==> s.lock_check(policy_id, amount) == Err::<(), Error>(Error::InvalidAmount),
        amount > 0 && s.config is None ==> s.lock_check(policy_id, amount) == Err::<(), Error>(
            Error::NotInitialized,
        ),
        amount > 0 && s.config is Some && s.locks.contains_key(policy_id) ==> s.lock_check(
            policy_id,
            amount,
        ) == Err::<(), Error>(Error::PolicyAlreadyLocked),
        s.config matches Some(c) ==> (amount > 0 && !s.locks.contains_key(policy_id) ==> (s.lock_check(policy_id, amount) is Ok <==> {
            let free = s.total_capital - s.locked_amount - amount;
            &&& s.locked_amount + amount <= i128::MAX
            &&& amount * c.min_collateral_ratio <= i128::MAX
            &&& free >= 0
            &&& amount * c.min_collateral_ratio < (free + 1) * 100
        })),
        s.lock_check(policy_id, amount) is Err ==> s.lock_check(policy_id, amount) != Err::<
            (),
            Error,
        >(Error::PolicyNotLocked),
{
    if let Some(c) = s.config {
        if amount > 0 {
            let x = amount * c.min_collateral_ratio;
            let free = s.total_capital - s.locked_amount - amount;
            assert(x / 100 <= free <==> x < (free + 1) * 100) by (nonlinear_arith)
                requires
                    x >= 0,
            ;
        }
    }
}

/// A lock pays out at most once: after a payout for a policy, every further positive
/// payout for it is refused as not locked.
pub proof fn lemma_single_release(s: PoolState, policy_id: u64, amount: i128, again: int)
    requires
        s.payout_check(policy_id, amount as int) is Ok,
        again > 0,
    ensures
        s.with_payout(policy_id, amount).payout_check(policy_id, again) == Err::<(), Error>(
            Error::PolicyNotLocked,
        ),
{
}

/// Withdrawals round in the pool's favour: what a withdrawal returns is at most the burnt
/// shares' exact proportion of the capital, so the capital behind each remaining share
/// never falls.
pub proof fn lemma_withdrawal_favours_pool(s: PoolState, provider: Seq<char>, shares: i128)
    requires
        0 <= s.total_capital,
        0 < shares <= s.shares_of(provider) <= s.total_shares,
    ensures
        ({
            let paid = s.withdrawal_amount(shares as int);
            let after = s.with_withdrawal(provider, shares);
            &&& 0 <= paid <= s.total_capital
            &&& paid * s.total_shares <= shares * s.total_capital
            &&& after.total_capital * s.total_shares >= s.total_capital * after.total_shares
        }),
{
    let c = s.total_capital as int;
    let t = s.total_shares as int;
    let k = shares as int;
    let paid = s.withdrawal_amount(k);
    assert(paid == k * c / t);
    assert(0 <= k * c) by (nonlinear_arith)
        requires
            k > 0,
            c >= 0,
    ;
    assert(paid * t <= k * c && 0 <= paid) by (nonlinear_arith)
        requires
            paid == k * c / t,
            t > 0,
            k * c >= 0,
    ;
    assert(k * c <= t * c) by (nonlinear_arith)
        requires
            0 < k <= t,
            c >= 0,
    ;
    assert(paid <= c) by (nonlinear_arith)
        requires
            paid * t <= k * c,
            k * c <= t * c,
            t > 0,
    ;
    assert((c - paid) * t >= c * (t - k)) by (nonlinear_arith)
        requires
            paid * t <= k * c,
    ;
}

/// A pool's state as plain values, as it is kept in storage.
#[derive(Debug)]
pub struct PoolRecord {
    pub config: Option<PoolConfig>,
    pub total_capital: i128,
    pub locked_amount: i128,
    pub total_shares: i128,
    pub providers: Vec<(String, ProviderPosition)>,
    pub locks: Vec<(u64, i128)>,
}

impl PoolRecord {
    /// The pool state the record describes.
    pub open spec fn state(&self) -> PoolState {
        PoolState {
            config: self.config,
            total_capital: self.total_capital,
            locked_amount: self.locked_amount,
            total_shares: self.total_shares,
            providers: pairs_map(self.providers@),
            locks: pairs_map(self.locks@),
        }
    }

    /// Whether the record describes a pool that operations can have produced: keys occur
    /// once, totals agree with positions and locks, locks are positive, shares are not
    /// negative, locked coverage is within capital, and an unconfigured pool is empty.
    pub open spec fn consistent(&self) -> bool {
        &&& keys_distinct(self.providers@)
        &&& keys_distinct(self.locks@)
        &&& 0 <= self.locked_amount <= self.total_capital
        &&& self.locked_amount == seq_total(pair_values(self.locks@), lock_amount())
        &&& self.total_shares == seq_total(pair_values(self.providers@), position_shares())
        &&& forall|i: int| 0 <= i < self.locks@.len() ==> #[trigger] self.locks@[i].1 > 0
        &&& forall|i: int|
            0 <= i < self.providers@.len() ==> #[trigger] self.providers@[i].1.shares >= 0
        &&& self.config is None ==> self.total_capital == 0 && self.providers@.len() == 0
    }
}

/// The total of the positions' shares, when none is negative and the total fits in `i128`.
fn total_position_shares(providers: &Vec<(String, ProviderPosition)>) -> (r: Option<i128>)
    ensures
        match r {
            Some(total) => {
                &&& forall|i: int|
                    0 <= i < providers@.len() ==> #[trigger] providers@[i].1.shares >= 0
                &&& total == seq_total(pair_values(providers@), position_shares())
            },
            None => !(forall|i: int|
                0 <= i < providers@.len() ==> #[trigger] providers@[i].1.shares >= 0) || seq_total(
                pair_values(providers@),
                position_shares(),
            ) > i128::MAX,
        },
{
    let ghost values = pair_values(providers@);
    let mut total: i128 = 0;
    let mut i: usize = 0;
    while i < providers.len()
        invariant
            values == pair_values(providers@),
            i <= providers@.len(),
            forall|j: int| 0 <= j < i ==> #[trigger] providers@[j].1.shares >= 0,
            total == seq_total(values.take(i as int), position_shares()),
        decreases providers.len() - i,
    {
        let shares = providers[i].1.shares;
        proof {
            assert(values.take(i + 1) =~= values.take(i as int).push(values[i as int]));
            lemma_seq_total_push(values.take(i as int), values[i as int], position_shares());
        }
        if shares < 0 {
            return None;
        }
        match total.checked_add(shares) {
            Some(t) => total = t,
            None => {
                proof {
                    if forall|j: int|
                        0 <= j < providers@.len() ==> #[trigger] providers@[j].1.shares >= 0 {
                        assert forall|j: int| 0 <= j < values.len() implies position_shares()(
                            #[trigger] values[j],
                        ) >= 0 by {
                            assert(providers@[j].1.shares >= 0);
                        }
                        lemma_seq_total_prefix(values, i + 1, position_shares());
                    }
                }
                return None;
            },
        }
        i = i + 1;
    }
    proof {
        assert(values.take(values.len() as int) =~= values);
    }
    Some(total)
}

/// The total of the locks, when every lock is positive and the total fits in `i128`.
fn total_locks(locks: &Vec<(u64, i128)>) -> (r: Option<i128>)
    ensures
        match r {
            Some(total) => {
                &&& forall|i: int| 0 <= i < locks@.len() ==> #[trigger] locks@[i].1 > 0
                &&& total == seq_total(pair_values(locks@), lock_amount())
            },
            None => !(forall|i: int| 0 <= i < locks@.len() ==> #[trigger] locks@[i].1 > 0)
                || seq_total(pair_values(locks@), lock_amount()) > i128::MAX,
        },
{
    let ghost values = pair_values(locks@);
    let mut total: i128 = 0;
    let mut i: usize = 0;
    while i < locks.len()
        invariant
            values == pair_values(locks@),
            i <= locks@.len(),
            forall|j: int| 0 <= j < i ==> #[trigger] locks@[j].1 > 0,
            total == seq_total(values.take(i as int), lock_amount()),
        decreases locks.len() - i,
    {
        let amount = locks[i].1;
        proof {
            assert(values.take(i + 1) =~= values.take(i as int).push(values[i as int]));
            lemma_seq_total_push(values.take(i as int), values[i as int], lock_amount());
        }
        if amount <= 0 {
            return None;
        }
        match total.checked_add(amount) {
            Some(t) => total = t,
            None => {
                proof {
                    if forall|j: int| 0 <= j < locks@.len() ==> #[trigger] locks@[j].1 > 0 {
                        assert forall|j: int| 0 <= j < values.len() implies lock_amount()(
                            #[trigger] values[j],
                        ) >= 0 by {
                            assert(locks@[j].1 > 0);
                        }
                        lemma_seq_total_prefix(values, i + 1, lock_amount());
                    }
                }
                return None;
            },
        }
        i = i + 1;
    }
    proof {
        assert(values.take(values.len() as int) =~= values);
    }
    Some(total)
}

/// The liquidity pool.
pub struct PoolContract {
    config: Option<PoolConfig>,
    total_capital: i128,
    locked_amount: i128,
    total_shares: i128,
    providers: Table<String, ProviderPosition>,
    locks: Table<u64, i128>,
}

impl View for PoolContract {
    type V = PoolState;

    closed spec fn view(&self) -> PoolState {
        PoolState {
            config: self.config,
            total_capital: self.total_capital,
            locked_amount: self.locked_amount,
            total_shares: self.total_shares,
            providers: self.providers@,
            locks: self.locks@,
        }
    }
}

impl PoolContract {
    /// Well-formedness: the totals agree with the positions and locks, and locked
    /// coverage never exceeds capital.
    pub closed spec fn wf(&self) -> bool {
        &&& self.providers.wf()
        &&& self.locks.wf()
        &&& 0 <= self.locked_amount <= self.total_capital
        &&& self.locked_amount == self.locks.total(lock_amount())
        &&& self.total_shares == self.providers.total(position_shares())
        &&& forall|id: u64| #[trigger] self.locks@.contains_key(id) ==> self.locks@[id] > 0
        &&& forall|p: Seq<char>| #[trigger]
            self.providers@.contains_key(p) ==> self.providers@[p].shares >= 0
        &&& self.config is None ==> self.total_capital == 0 && self.providers@.dom().is_empty()
    }

    /// Facts about the abstract state that well-formedness guarantees.
    pub proof fn lemma_wf(&self)
        requires
            self.wf(),
        ensures
            0 <= self@.locked_amount <= self@.total_capital,
            self@.total_shares >= 0,
            forall|p: Seq<char>| 0 <= #[trigger] self@.shares_of(p) <= self@.total_shares,
            forall|id: u64| #[trigger] self@.locks.contains_key(id) ==> 0 < self@.locks[id]
                <= self@.locked_amount,
            self@.config is None ==> self@.total_capital == 0 && self@.total_shares == 0,
    {
        self.providers.lemma_total_nonneg(position_shares());
        assert forall|p: Seq<char>| 0 <= #[trigger] self@.shares_of(p) <= self@.total_shares by {
            if self.providers@.contains_key(p) {
                self.providers.lemma_total_ge_value(p, position_shares());
            }
        }
        assert forall|id: u64| #[trigger] self@.locks.contains_key(id) implies 0 < self@.locks[id]
            <= self@.locked_amount by {
            self.locks.lemma_total_ge_value(id, lock_amount());
        }
        if self.config is None {
            self.providers.lemma_empty_total(position_shares());
        }
    }

    /// The pool's state as plain values, for storage.
    pub fn into_record(self) -> (r: PoolRecord)
        requires
            self.wf(),
        ensures
            r.consistent(),
            r.state() == self@,
    {
        let ghost old_self = self;
        let PoolContract { config, total_capital, locked_amount, total_shares, providers, locks } =
            self;
        let providers = providers.into_pairs();
        let locks = locks.into_pairs();
        let r = PoolRecord { config, total_capital, locked_amount, total_shares, providers, locks };
        proof {
            assert forall|i: int| 0 <= i < r.locks@.len() implies #[trigger] r.locks@[i].1 > 0 by {
                lemma_pairs_map_lookup(r.locks@, i);
            }
            assert forall|i: int| 0 <= i < r.providers@.len() implies #[trigger] r.providers@[
                i
            ].1.shares >= 0 by {
                lemma_pairs_map_lookup(r.providers@, i);
            }
            if r.config is None && r.providers@.len() > 0 {
                lemma_pairs_map_lookup(r.providers@, 0);
                assert(old_self.providers@.dom().contains(r.providers@[0].0@));
            }
            assert(r.state() =~= old_self@);
        }
        r
    }

    /// Restores a pool from its record; there is none when the record is not consistent.
    pub fn from_record(record: PoolRecord) -> (r: Option<PoolContract>)
        ensures
            r is Some <==> record.consistent(),
            r matches Some(pool) ==> pool.wf() && pool@ == record.state(),
    {
        let ghost rec = record;
        let PoolRecord { config, total_capital, locked_amount, total_shares, providers, locks } =
            record;
        if !(0 <= locked_amount && locked_amount <= total_capital) {
            return None;
        }
        if config.is_none() && !(total_capital == 0 && providers.len() == 0) {
            return None;
        }
        match total_position_shares(&providers) {
            Some(t) => {
                if t != total_shares {
                    return None;
                }
            },
            None => return None,
        }
        match total_locks(&locks) {
            Some(t) => {
                if t != locked_amount {
                    return None;
                }
            },
            None => return None,
        }
        let providers = match Table::from_pairs(providers) {
            Some(t) => t,
            None => return None,
        };
        let locks = match Table::from_pairs(locks) {
            Some(t) => t,
            None => return None,
        };
        let pool = PoolContract { config, total_capital, locked_amount, total_shares, providers, locks };
        proof {
            assert forall|id: u64| #[trigger] pool.locks@.contains_key(id) implies pool.locks@[id]
                > 0 by {
                lemma_pairs_map_dom(rec.locks@, id);
                let j = choose|j: int| 0 <= j < rec.locks@.len() && #[trigger] rec.locks@[j].0@ == id;
                lemma_pairs_map_lookup(rec.locks@, j);
            }
            assert forall|p: Seq<char>| #[trigger] pool.providers@.contains_key(p) implies pool.providers@[
                p
            ].shares >= 0 by {
                lemma_pairs_map_dom(rec.providers@, p);
                let j = choose|j: int|
                    0 <= j < rec.providers@.len() && #[trigger] rec.providers@[j].0@ == p;
                lemma_pairs_map_lookup(rec.providers@, j);
            }
            if pool.config is None {
                assert(rec.providers@.len() == 0);
                assert forall|p: Seq<char>| !pool.providers@.contains_key(p) by {
                    lemma_pairs_map_dom(rec.providers@, p);
                }
                assert(pool.providers@.dom() =~= Set::<Seq<char>>::empty());
            }
            assert(pool@ =~= rec.state());
        }
        Some(pool)
    }

    /// A pool that has not been initialized.
    pub fn new() -> (r: Self)
        ensures
            r.wf(),
            r@.config is None,
            r@.total_capital == 0,
            r@.locked_amount == 0,
            r@.total_shares == 0,
            r@.providers == Map::<Seq<char>, ProviderPosition>::empty(),
            r@.locks == Map::<u64, i128>::empty(),
    {
        let r = PoolContract {
            config: None,
            total_capital: 0,
            locked_amount: 0,
            total_shares: 0,
            providers: Table::new(),
            locks: Table::new(),
        };
        proof {
            assert(r.providers@.dom() =~= Set::<Seq<char>>::empty());
        }
        r
    }

    /// Sets up the pool with its admin, the asset it holds and its collateral ratio.
    pub fn initialize(
        &mut self,
        admin: String,
        stablecoin_asset: String,
        min_collateral_ratio: u32,
    ) -> (r: Result<(), Error>)
        requires
            old(self).wf(),
        ensures
            final(self).wf(),
            old(self)@.config is Some ==> r == Err::<(), Error>(Error::AlreadyInitialized)
                && final(self)@ == old(self)@,
            old(self)@.config is None ==> r is Ok && final(self)@ == (PoolState {
                config: Some((PoolConfig { admin, stablecoin_asset, min_collateral_ratio })),
                total_capital: 0,
                locked_amount: 0,
                total_shares: 0,
                ..old(self)@
            }),
    {
        if self.config.is_some() {
            return Err(Error::AlreadyInitialized);
        }
        proof {
            self.lemma_wf();
        }
        self.config = Some(PoolConfig { admin, stablecoin_asset, min_collateral_ratio });
        self.total_capital = 0;
        self.locked_amount = 0;
        self.total_shares = 0;
        Ok(())
    }

    /// The pool's configuration.
    pub fn get_config(&self) -> (r: Result<PoolConfig, Error>)
        ensures
            match self@.config {
                Some(c) => r == Ok::<PoolConfig, Error>(c),
                None => r == Err::<PoolConfig, Error>(Error::NotInitialized),
            },
    {
        match &self.config {
            Some(c) => Ok(c.clone()),
            None => Err(Error::NotInitialized),
        }
    }

    /// Adds `amount` of capital from `provider` and mints shares for it: one per
    /// unit into a pool without shares, else in proportion to the shares outstanding. A pool
    /// whose shares have no capital left behind them takes no deposit. The caller moves `amount` of the pool's asset from `provider` to the pool.
    pub fn deposit(&mut self, provider: String, amount: i128) -> (r: Result<i128, Error>)
        requires
            old(self).wf(),
            amount > 0 && old(self)@.config is Some ==> old(self)@.deposit_in_range(amount as int),
        ensures
            final(self).wf(),
            amount <= 0 ==> r == Err::<i128, Error>(Error::InvalidAmount) && final(self)@ == old(self)@,
            amount > 0 && old(self)@.config is None ==> r == Err::<i128, Error>(
                Error::NotInitialized,
            ) && final(self)@ == old(self)@,
            amount > 0 && old(self)@.config is Some && old(self)@.shares_without_capital() ==> r
                == Err::<i128, Error>(Error::InsufficientCapital) && final(self)@ == old(self)@,
            amount > 0 && old(self)@.config is Some && !old(self)@.shares_without_capital() ==> r
                == Ok::<i128, Error>(old(self)@.deposit_shares(amount as int) as i128)
                && final(self)@ == old(self)@.with_deposit(provider@, amount),
    {
        if amount <= 0 {
            return Err(Error::InvalidAmount);
        }
        if self.config.is_none() {
            return Err(Error::NotInitialized);
        }
        if self.total_shares != 0 && self.total_capital == 0 {
            return Err(Error::InsufficientCapital);
        }
        proof {
            self.lemma_wf();
        }
        let ghost old_self = *self;
        let total_capital = self.total_capital;
        let total_shares = self.total_shares;
        let shares_to_mint = if total_shares == 0 {
            amount
        } else {
            proof {
                assert(amount * total_shares >= 0) by (nonlinear_arith)
                    requires
                        amount > 0,
                        total_shares >= 0,
                ;
                assert(amount * total_shares / (total_capital as int) >= 0) by (nonlinear_arith)
                    requires
                        amount * total_shares >= 0,
                        total_capital > 0,
                ;
            }
            (amount * total_shares) / total_capital
        };
        assert(shares_to_mint == old_self@.deposit_shares(amount as int));
        let current = match self.providers.get(&provider) {
            Some(position) => position.shares,
            None => 0,
        };
        assert(current == old_self@.shares_of(provider@));
        let position = ProviderPosition { shares: current + shares_to_mint };
        self.providers.insert(&provider, position);
        self.total_capital = total_capital + amount;
        self.total_shares = total_shares + shares_to_mint;
        proof {
            assert(self.providers.total(position_shares()) == old_self.providers.total(
                position_shares(),
            ) - current + position.shares);
            assert(self@ =~= (PoolState {
                total_capital: (old_self@.total_capital + amount) as i128,
                total_shares: (old_self@.total_shares + shares_to_mint) as i128,
                providers: old_self@.providers.insert(provider@, position),
                ..old_self@
            }));
        }
        Ok(shares_to_mint)
    }

    /// Burns `shares` of `provider` and pays out their proportion of the capital,
    /// provided that much capital is not locked for coverage.
    /// The caller moves the returned amount of the pool's asset to `provider`.
    pub fn withdraw(&mut self, provider: String, shares: i128) -> (r: Result<i128, Error>)
        requires
            old(self).wf(),
            shares > 0 && old(self)@.config is Some && old(self)@.shares_of(provider@) >= shares
                ==> shares * old(self)@.total_capital <= i128::MAX,
        ensures
            final(self).wf(),
            r is Err ==> final(self)@ == old(self)@,
            shares <= 0 ==> r == Err::<i128, Error>(Error::InvalidAmount),
            shares > 0 && old(self)@.config is None ==> r == Err::<i128, Error>(
                Error::NotInitialized,
            ),
            shares > 0 && old(self)@.config is Some && old(self)@.shares_of(provider@) < shares
                ==> r == Err::<i128, Error>(Error::InsufficientShares),
            shares > 0 && old(self)@.config is Some && old(self)@.shares_of(provider@) >= shares
                && old(self)@.withdrawal_amount(shares as int) > old(self)@.available_capital()
                ==> r == Err::<i128, Error>(Error::InsufficientCapital),
            shares > 0 && old(self)@.config is Some && old(self)@.shares_of(provider@) >= shares
                && old(self)@.withdrawal_amount(shares as int) <= old(self)@.available_capital()
                ==> r == Ok::<i128, Error>(old(self)@.withdrawal_amount(shares as int) as i128)
                && final(self)@ == old(self)@.with_withdrawal(provider@, shares),
    {
        if shares <= 0 {
            return Err(Error::InvalidAmount);
        }
        if self.config.is_none() {
            return Err(Error::NotInitialized);
        }
        proof {
            self.lemma_wf();
        }
        let ghost old_self = *self;
        let total_capital = self.total_capital;
        let locked_amount = self.locked_amount;
        let total_shares = self.total_shares;
        let available_capital = total_capital - locked_amount;
        let held = match self.providers.get(&provider) {
            Some(position) => position.shares,
            None => return Err(Error::InsufficientShares),
        };
        assert(held == old_self@.shares_of(provider@));
        if held < shares {
            return Err(Error::InsufficientShares);
        }
        proof {
            assert(shares * total_capital >= 0) by (nonlinear_arith)
                requires
                    shares > 0,
                    total_capital >= 0,
            ;
            assert(shares * total_capital / (total_shares as int) <= total_capital) by (
            nonlinear_arith)
                requires
                    0 < shares <= total_shares,
                    total_capital >= 0,
            ;
            assert(shares * total_capital / (total_shares as int) >= 0) by (nonlinear_arith)
                requires
                    shares * total_capital >= 0,
                    total_shares > 0,
            ;
        }
        let amount_to_return = (shares * total_capital) / total_shares;
        if amount_to_return > available_capital {
            return Err(Error::InsufficientCapital);
        }
        let remaining = held - shares;
        if remaining == 0 {
            let _ = self.providers.remove(&provider);
        } else {
            self.providers.insert(&provider, ProviderPosition { shares: remaining });
        }
        self.total_capital = total_capital - amount_to_return;
        self.total_shares = total_shares - shares;
        proof {
            assert(self.providers.total(position_shares()) == old_self.providers.total(
                position_shares(),
            ) - shares);
            if remaining == 0 {
                assert(self@ =~= (PoolState {
                    total_capital: (old_self@.total_capital - amount_to_return) as i128,
                    total_shares: (old_self@.total_shares - shares) as i128,
                    providers: old_self@.providers.remove(provider@),
                    ..old_self@
                }));
            } else {
                assert(self@ =~= (PoolState {
                    total_capital: (old_self@.total_capital - amount_to_return) as i128,
                    total_shares: (old_self@.total_shares - shares) as i128,
                    providers: old_self@.providers.insert(
                        provider@,
                        ProviderPosition { shares: remaining },
                    ),
                    ..old_self@
                }));
            }
        }
        Ok(amount_to_return)
    }

    /// Reserves `amount` of capital as coverage for a policy, provided it fits within capital
    /// and leaves the configured free capital per unit of the new lock.
    pub fn lock_coverage(&mut self, policy_id: u64, amount: i128) -> (r: Result<(), Error>)
        requires
            old(self).wf(),
        ensures
            final(self).wf(),
            r == old(self)@.lock_check(policy_id, amount as int),
            r is Err ==> final(self)@ == old(self)@,
            r is Ok ==> final(self)@ == old(self)@.with_lock(policy_id, amount),
    {
        if amount <= 0 {
            return Err(Error::InvalidAmount);
        }
        let ratio = match &self.config {
            Some(config) => config.min_collateral_ratio,
            None => return Err(Error::NotInitialized),
        };
        if self.locks.contains_key(&policy_id) {
            return Err(Error::PolicyAlreadyLocked);
        }
        let ghost old_self = *self;
        let total_capital = self.total_capital;
        let locked_amount = self.locked_amount;
        let new_locked = match locked_amount.checked_add(amount) {
            Some(v) => v,
            None => return Err(Error::InsufficientCapital),
        };
        if new_locked > total_capital {
            return Err(Error::InsufficientCapital);
        }
        let scaled = match amount.checked_mul(ratio as i128) {
            Some(v) => v,
            None => return Err(Error::InsufficientCapital),
        };
        let required_free_capital = scaled / 100;
        if total_capital - new_locked < required_free_capital {
            return Err(Error::InsufficientCapital);
        }
        self.locks.insert(&policy_id, amount);
        self.locked_amount = new_locked;
        proof {
            assert(self@ =~= (PoolState {
                locked_amount: (old_self@.locked_amount + amount) as i128,
                locks: old_self@.locks.insert(policy_id, amount),
                ..old_self@
            }));
        }
        Ok(())
    }

    /// Releases the coverage locked for a policy and pays a positive `amount` of it out of
    /// the pool's capital. The caller moves `amount` of the pool's asset to the farmer.
    pub fn release_payout(&mut self, policy_id: u64, _farmer: String, amount: i128) -> (r: Result<
        (),
        Error,
    >)
        requires
            old(self).wf(),
        ensures
            final(self).wf(),
            r == old(self)@.payout_check(policy_id, amount as int),
            r is Err ==> final(self)@ == old(self)@,
            r is Ok ==> final(self)@ == old(self)@.with_payout(policy_id, amount),
    {
        if amount <= 0 {
            return Err(Error::InvalidAmount);
        }
        if self.config.is_none() {
            return Err(Error::NotInitialized);
        }
        proof {
            self.lemma_wf();
        }
        let ghost old_self = *self;
        let locked_amount = self.locked_amount;
        let total_capital = self.total_capital;
        let policy_locked = match self.locks.get(&policy_id) {
            Some(v) => *v,
            None => return Err(Error::PolicyNotLocked),
        };
        if amount > policy_locked {
            return Err(Error::InsufficientCapital);
        }
        let _ = self.locks.remove(&policy_id);
        self.locked_amount = locked_amount - policy_locked;
        self.total_capital = total_capital - amount;
        proof {
            assert(self@ =~= (PoolState {
                total_capital: (old_self@.total_capital - amount) as i128,
                locked_amount: (old_self@.locked_amount - policy_locked) as i128,
                locks: old_self@.locks.remove(policy_id),
                ..old_self@
            }));
        }
        Ok(())
    }

    /// The pool's totals, with the locked share of capital in basis points.
    pub fn get_pool_stats(&self) -> (r: Result<PoolStats, Error>)
        requires
            self.wf(),
            self@.locked_amount * 10000 <= i128::MAX,
        ensures
            r == Ok::<PoolStats, Error>(
                PoolStats {
                    total_capital: self@.total_capital,
                    locked_amount: self@.locked_amount,
                    total_shares: self@.total_shares,
                    utilization_ratio: if self@.total_capital > 0 {
                        (self@.locked_amount * 10000 / (self@.total_capital as int)) as u32
                    } else {
                        0
                    },
                },
            ),
    {
        proof {
            self.lemma_wf();
        }
        let total_capital = self.total_capital;
        let locked_amount = self.locked_amount;
        let utilization_ratio = if total_capital > 0 {
            proof {
                assert(locked_amount * 10000 / (total_capital as int) <= 10000) by (nonlinear_arith)
                    requires
                        0 <= locked_amount <= total_capital,
                        total_capital > 0,
                ;
                assert(locked_amount * 10000 / (total_capital as int) >= 0) by (nonlinear_arith)
                    requires
                        0 <= locked_amount,
                        total_capital > 0,
                ;
            }
            ((locked_amount * 10000) / total_capital) as u32
        } else {
            0
        };
        Ok(
            PoolStats {
                total_capital,
                locked_amount,
                total_shares: self.total_shares,
                utilization_ratio,
            },
        )
    }

    /// The shares that `provider` holds.
    pub fn get_provider_shares(&self, provider: String) -> (r: i128)
        requires
            self.wf(),
        ensures
            r == self@.shares_of(provider@),
    {
        match self.providers.get(&provider) {
            Some(position) => position.shares,
            None => 0,
        }
    }

    /// What `provider`'s shares are worth now: what withdrawing all of them would return.
    pub fn get_provider_value(&self, provider: String) -> (r: i128)
        requires
            self.wf(),
            self@.shares_of(provider@) * self@.total_capital <= i128::MAX,
        ensures
            r == (if self@.shares_of(provider@) == 0 {
                0
            } else {
                self@.withdrawal_amount(self@.shares_of(provider@))
            }),
    {
        proof {
            self.lemma_wf();
        }
        let shares = self.get_provider_shares(provider);
        if shares == 0 {
            return 0;
        }
        let total_capital = self.total_capital;
        let total_shares = self.total_shares;
        if total_shares == 0 {
            return 0;
        }
        proof {
            assert(shares * total_capital >= 0) by (nonlinear_arith)
                requires
                    shares >= 0,
                    total_capital >= 0,
            ;
        }
        (shares * total_capital) / total_shares
    }

    /// Whether a deposit of `amount` keeps its arithmetic within `i128`.
    pub fn deposit_in_range(&self, amount: i128) -> (r: bool)
        requires
            self.wf(),
        ensures
            r == (amount > 0 && self@.config is Some ==> self@.deposit_in_range(amount as int)),
    {
        if amount <= 0 || self.config.is_none() {
            return true;
        }
        proof {
            self.lemma_wf();
        }
        let total_capital = self.total_capital;
        let total_shares = self.total_shares;
        let minted = if total_shares == 0 {
            amount
        } else {
            if total_capital == 0 {
                return true;
            }
            match amount.checked_mul(total_shares) {
                Some(product) => {
                    proof {
                        assert(product >= 0) by (nonlinear_arith)
                            requires
                                product == amount * total_shares,
                                amount > 0,
                                total_shares >= 0,
                        ;
                    }
                    product / total_capital
                },
                None => return false,
            }
        };
        if total_capital.checked_add(amount).is_none() {
            return false;
        }
        total_shares.checked_add(minted).is_some()
    }

    /// Whether burning `shares` of `provider` keeps its arithmetic within `i128`.
    pub fn withdraw_in_range(&self, provider: String, shares: i128) -> (r: bool)
        requires
            self.wf(),
        ensures
            r == (shares > 0 && self@.config is Some && self@.shares_of(provider@) >= shares
                ==> shares * self@.total_capital <= i128::MAX),
    {
        if shares <= 0 || self.config.is_none() || self.get_provider_shares(provider) < shares {
            return true;
        }
        proof {
            self.lemma_wf();
        }
        shares.checked_mul(self.total_capital).is_some()
    }

    /// Whether the pool's statistics can be computed within `i128`.
    pub fn stats_in_range(&self) -> (r: bool)
        requires
            self.wf(),
        ensures
            r == (self@.locked_amount * 10000 <= i128::MAX),
    {
        proof {
            self.lemma_wf();
        }
        self.locked_amount.checked_mul(10000).is_some()
    }

    /// Whether the value of `provider`'s shares can be computed within `i128`.
    pub fn value_in_range(&self, provider: String) -> (r: bool)
        requires
            self.wf(),
        ensures
            r == (self@.shares_of(provider@) * self@.total_capital <= i128::MAX),
    {
        proof {
            self.lemma_wf();
        }
        let shares = self.get_provider_shares(provider);
        shares.checked_mul(self.total_capital).is_some()
    }

    /// The coverage locked for a policy.
    pub fn get_policy_lock(&self, policy_id: u64) -> (r: Result<i128, Error>)
        requires
            self.wf(),
        ensures
            self@.locks.contains_key(policy_id) ==> r == Ok::<i128, Error>(self@.locks[policy_id]),
            !self@.locks.contains_key(policy_id) ==> r == Err::<i128, Error>(Error::PolicyNotLocked),
    {
        match self.locks.get(&policy_id) {
            Some(v) => Ok(*v),
            None => Err(Error::PolicyNotLocked),
        }
    }
}

} // verus!
