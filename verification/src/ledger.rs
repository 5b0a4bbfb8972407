//! The staking ledger: stake deposit with reputation accrual, time-locked
//! withdrawal with proportional reputation decay, an owner-controlled
//! blacklist, and owner-controlled policy parameters.

use vstd::prelude::*;
use crate::accounts::{
    Account, Address, distinct_addresses, find_account, find_from,
    lemma_find_is_first_match, lemma_find_none_no_match, lemma_find_push_other,
    lemma_find_push_self, lemma_find_some_index, lemma_find_update_other,
    lemma_sum_reputation_element,
    lemma_sum_reputation_push, lemma_sum_reputation_update, lemma_sum_staked_element,
    lemma_sum_staked_push, lemma_sum_staked_update, sum_reputation, sum_staked,
};
use crate::uint256::{Uint256, checked_add, checked_div, checked_mul, checked_sub, u256_bound};

verus! {

/// The largest accepted reputation multiplier, in basis points (500%).
pub const MAX_MULTIPLIER: u64 = 50000;

/// Basis-point denominator of the reputation multiplier.
pub const MULTIPLIER_BASIS: u64 = 10000;

/// Seconds that must elapse after a participant's most recent deposit before
/// that participant may withdraw.
pub const COOLDOWN_SECONDS: u64 = 86400;

/// Why an operation was rejected. A rejected operation leaves the ledger
/// completely unchanged.
#[derive(Clone, Copy, PartialEq, Eq, Structural, Debug)]
pub enum ReputationStakingError {
    /// The caller is not the ledger owner.
    NotOwner,
    /// The deposit would leave the participant's total stake below the minimum.
    InsufficientStake,
    /// The participant has no stake to withdraw.
    NoStakeToWithdraw,
    /// The participant is blacklisted.
    UserBlacklisted,
    /// The null identity is not allowed in this operation.
    AddressZeroNotAllowed,
    /// The participant's stake is smaller than the requested withdrawal.
    InsufficientBalance,
    /// The amount is zero.
    InvalidAmount,
    /// The participant's cooldown has not elapsed yet.
    TooEarlyToWithdraw,
    /// The multiplier exceeds `MAX_MULTIPLIER`.
    InvalidMultiplier,
    /// The participant is not blacklisted.
    UserNotBlacklisted,
    /// A 256-bit counter would have overflowed.
    Overflow,
}

/// A record appended to the ledger's observable log by each successful
/// operation.
#[derive(Clone, Copy, PartialEq, Eq, Structural, Debug)]
pub enum Event {
    /// Ownership was established.
    OwnershipTransferred { previous_owner: Address, new_owner: Address },
    /// A deposit was accepted; `new_total` is the participant's whole stake.
    Staked { staker: Address, amount: Uint256, new_total: Uint256 },
    /// A withdrawal was accepted; `remaining` is the participant's whole stake.
    Withdrawn { staker: Address, amount: Uint256, remaining: Uint256 },
    /// A participant's reputation score changed.
    ReputationUpdated { staker: Address, old_score: Uint256, new_score: Uint256 },
    /// A participant was blacklisted.
    UserBlacklistedEvent { user: Address },
    /// A participant was removed from the blacklist.
    UserRemovedFromBlacklistEvent { user: Address },
    /// The minimum stake was changed.
    MinimumStakeUpdated { old_minimum: Uint256, new_minimum: Uint256 },
}

/// Reputation accrued by depositing `amount` under `multiplier` basis points.
pub open spec fn accrual(amount: nat, multiplier: nat) -> nat {
    amount * multiplier / (MULTIPLIER_BASIS as nat)
}

/// Reputation lost by withdrawing `amount` out of a pre-withdrawal stake of
/// `stake` at score `reputation`: the fraction of the stake removed, rounded
/// down, with full decay as the degenerate guard for an empty stake.
pub open spec fn decay(amount: nat, reputation: nat, stake: nat) -> nat {
    if stake == 0 {
        reputation
    } else {
        amount * reputation / stake
    }
}

/// Withdrawing at most the whole stake decays at most the whole score.
proof fn lemma_decay_le(amount: nat, reputation: nat, stake: nat)
    requires
        amount <= stake,
    ensures
        decay(amount, reputation, stake) <= reputation,
{
    if stake > 0 {
        assert(amount * reputation <= stake * reputation) by (nonlinear_arith)
            requires
                amount <= stake,
        ;
        vstd::arithmetic::div_mod::lemma_div_is_ordered(
            (amount * reputation) as int,
            (stake * reputation) as int,
            stake as int,
        );
        vstd::arithmetic::div_mod::lemma_div_multiples_vanish(reputation as int, stake as int);
    }
}

/// The log `new` keeps every entry of `old` and has `added` more.
pub open spec fn extends_log(new: Seq<Event>, old: Seq<Event>, added: nat) -> bool {
    new.len() == old.len() + added && (forall|i: int| 0 <= i < old.len() ==> new[i] == old[i])
}

/// The staking ledger. All operations go through the methods below; a
/// well-formed ledger (`wf`) stays well-formed under every one of them.
pub struct ReputationStaking {
    /// The ledger owner, set once at initialization.
    pub owner: Address,
    /// Sum of all participants' staked amounts.
    pub total_staked: Uint256,
    /// The smallest total stake a depositing participant may end up with.
    pub minimum_stake: Uint256,
    /// Basis-point conversion rate from staked amount to reputation accrual.
    pub reputation_multiplier: Uint256,
    /// Sum of all participants' reputation scores.
    pub total_reputation: Uint256,
    /// One record per participant that ever staked or was blacklisted.
    pub accounts: Vec<Account>,
    /// Append-only log of the events the operations emitted.
    pub events: Vec<Event>,
}

impl ReputationStaking {
    /// Well-formedness: record identities are distinct, the stored totals are
    /// the sums over all records, and the multiplier respects its cap.
    pub open spec fn wf(self) -> bool {
        &&& distinct_addresses(self.accounts@)
        &&& self.total_staked.as_nat() == sum_staked(self.accounts@)
        &&& self.total_reputation.as_nat() == sum_reputation(self.accounts@)
        &&& self.reputation_multiplier.as_nat() <= MAX_MULTIPLIER
    }

    /// The record of `a`, if `a` ever staked or was blacklisted.
    pub open spec fn spec_account(self, a: Address) -> Option<Account> {
        find_account(self.accounts@, a)
    }

    /// The staked amount of `a`; zero for an identity without a record.
    pub open spec fn spec_stake_of(self, a: Address) -> nat {
        match self.spec_account(a) {
            Some(x) => x.staked.as_nat(),
            None => 0,
        }
    }

    /// The reputation score of `a`; zero for an identity without a record.
    pub open spec fn spec_reputation_of(self, a: Address) -> nat {
        match self.spec_account(a) {
            Some(x) => x.reputation.as_nat(),
            None => 0,
        }
    }

    /// When `a` last deposited; zero for an identity without a record.
    pub open spec fn spec_stake_timestamp(self, a: Address) -> nat {
        match self.spec_account(a) {
            Some(x) => x.stake_timestamp.as_nat(),
            None => 0,
        }
    }

    /// Whether `a` is blacklisted; an identity without a record is not.
    pub open spec fn spec_blacklisted(self, a: Address) -> bool {
        match self.spec_account(a) {
            Some(x) => x.blacklisted,
            None => false,
        }
    }

    pub open spec fn spec_total_staked(self) -> nat {
        self.total_staked.as_nat()
    }

    pub open spec fn spec_total_reputation(self) -> nat {
        self.total_reputation.as_nat()
    }

    pub open spec fn spec_minimum_stake(self) -> nat {
        self.minimum_stake.as_nat()
    }

    pub open spec fn spec_reputation_multiplier(self) -> nat {
        self.reputation_multiplier.as_nat()
    }

    /// A deposit of `amount` by `staker` passes every gate: the staker is not
    /// blacklisted, the amount is positive, and the resulting total stake
    /// reaches the minimum.
    pub open spec fn stake_allowed(self, staker: Address, amount: nat) -> bool {
        &&& !self.spec_blacklisted(staker)
        &&& amount > 0
        &&& self.spec_stake_of(staker) + amount >= self.spec_minimum_stake()
    }

    /// A deposit of `amount` would push a 256-bit counter past its range.
    pub open spec fn stake_overflow(self, amount: nat) -> bool {
        ||| self.spec_total_staked() + amount >= u256_bound()
        ||| amount * self.spec_reputation_multiplier() >= u256_bound()
        ||| self.spec_total_reputation() + accrual(amount, self.spec_reputation_multiplier())
            >= u256_bound()
    }

    /// A withdrawal of `amount` by `staker` at time `now` passes every gate:
    /// the staker is not blacklisted, holds a positive stake of at least
    /// `amount`, and the cooldown since the staker's last deposit has elapsed.
    pub open spec fn withdraw_allowed(self, staker: Address, amount: nat, now: nat) -> bool {
        &&& !self.spec_blacklisted(staker)
        &&& self.spec_stake_of(staker) > 0
        &&& amount <= self.spec_stake_of(staker)
        &&& now >= self.spec_stake_timestamp(staker) + COOLDOWN_SECONDS
    }

    /// A withdrawal of `amount` by `staker` would push the decay computation's
    /// intermediate product past the 256-bit range.
    pub open spec fn withdraw_overflow(self, staker: Address, amount: nat) -> bool {
        amount * self.spec_reputation_of(staker) >= u256_bound()
    }

    /// The position of the record of `a`, if any. A found position is the
    /// only one, once the identities are distinct.
    fn find_index(&self, a: Address) -> (r: Option<usize>)
        ensures
            match r {
                Some(i) => i < self.accounts@.len() && self.accounts@[i as int].addr == a
                    && self.spec_account(a) == Some(self.accounts@[i as int])
                    && (forall|j: int| 0 <= j < i ==> self.accounts@[j].addr != a),
                None => self.spec_account(a) is None,
            },
    {
        let n = self.accounts.len();
        let mut i: usize = 0;
        while i < n
            invariant
                n == self.accounts@.len(),
                i <= n,
                forall|j: int| 0 <= j < i ==> self.accounts@[j].addr != a,
                find_from(self.accounts@, a, 0) == find_from(self.accounts@, a, i as int),
            decreases n - i,
        {
            if self.accounts[i].addr == a {
                return Some(i);
            }
            i = i + 1;
        }
        None
    }

    /// The ledger owner.
    pub fn owner(&self) -> (r: Address)
        ensures
            r == self.owner,
    {
        self.owner
    }

    /// The sum of all participants' staked amounts.
    pub fn total_staked(&self) -> (r: Uint256)
        ensures
            r == self.total_staked,
    {
        self.total_staked
    }

    /// The smallest total stake a depositing participant may end up with.
    pub fn minimum_stake(&self) -> (r: Uint256)
        ensures
            r == self.minimum_stake,
    {
        self.minimum_stake
    }

    /// The reputation multiplier, in basis points.
    pub fn reputation_multiplier(&self) -> (r: Uint256)
        ensures
            r == self.reputation_multiplier,
    {
        self.reputation_multiplier
    }

    /// The sum of all participants' reputation scores.
    pub fn total_reputation(&self) -> (r: Uint256)
        ensures
            r == self.total_reputation,
    {
        self.total_reputation
    }

    /// The staked amount of `staker`; zero for an unknown identity.
    pub fn stake_of(&self, staker: Address) -> (r: Uint256)
        ensures
            r.as_nat() == self.spec_stake_of(staker),
    {
        match self.find_index(staker) {
            Some(i) => self.accounts[i].staked,
            None => Uint256::zero(),
        }
    }

    /// The reputation score of `staker`; zero for an unknown identity.
    pub fn reputation_of(&self, staker: Address) -> (r: Uint256)
        ensures
            r.as_nat() == self.spec_reputation_of(staker),
    {
        match self.find_index(staker) {
            Some(i) => self.accounts[i].reputation,
            None => Uint256::zero(),
        }
    }

    /// When `staker` last deposited; zero for an unknown identity.
    pub fn stake_timestamp(&self, staker: Address) -> (r: Uint256)
        ensures
            r.as_nat() == self.spec_stake_timestamp(staker),
    {
        match self.find_index(staker) {
            Some(i) => self.accounts[i].stake_timestamp,
            None => Uint256::zero(),
        }
    }

    /// Whether `user` is blacklisted; an unknown identity is not.
    pub fn is_blacklisted(&self, user: Address) -> (r: bool)
        ensures
            r == self.spec_blacklisted(user),
    {
        match self.find_index(user) {
            Some(i) => self.accounts[i].blacklisted,
            None => false,
        }
    }

    /// The ledger's append-only event log.
    pub fn events(&self) -> (r: &Vec<Event>)
        ensures
            r@ == self.events@,
    {
        &self.events
    }

    /// Initializes the ledger: records `initiator` as owner, stores the two
    /// policy values, zeroes the totals and drops every record, and logs the
    /// established ownership. Rejects the null identity and a multiplier over
    /// `MAX_MULTIPLIER`, leaving the ledger unchanged.
    pub fn constructor(
        &mut self,
        initiator: Address,
        minimum_stake: Uint256,
        reputation_multiplier: Uint256,
    ) -> (r: Result<(), ReputationStakingError>)
        ensures
            (r matches Err(ReputationStakingError::AddressZeroNotAllowed))
                <==> initiator.spec_is_zero(),
            (r matches Err(ReputationStakingError::InvalidMultiplier)) <==> (
            !initiator.spec_is_zero() && reputation_multiplier.as_nat() > MAX_MULTIPLIER),
            (r is Ok) <==> (!initiator.spec_is_zero() && reputation_multiplier.as_nat()
                <= MAX_MULTIPLIER),
            r is Err ==> *final(self) == *old(self),
            r is Ok ==> final(self).wf(),
            r is Ok ==> final(self).owner == initiator,
            r is Ok ==> final(self).minimum_stake == minimum_stake,
            r is Ok ==> final(self).reputation_multiplier == reputation_multiplier,
            r is Ok ==> final(self).spec_total_staked() == 0,
            r is Ok ==> final(self).spec_total_reputation() == 0,
            r is Ok ==> forall|a: Address| final(self).spec_account(a) is None,
            r is Ok ==> extends_log(final(self).events@, old(self).events@, 1),
            r is Ok ==> final(self).events@.last() == (Event::OwnershipTransferred {
                previous_owner: Address { hi: 0, lo: 0 },
                new_owner: initiator,
            }),
    {
        if initiator.is_zero() {
            return Err(ReputationStakingError::AddressZeroNotAllowed);
        }
        if Uint256::from_u64(MAX_MULTIPLIER).lt(&reputation_multiplier) {
            return Err(ReputationStakingError::InvalidMultiplier);
        }
        self.owner = initiator;
        self.minimum_stake = minimum_stake;
        self.reputation_multiplier = reputation_multiplier;
        self.total_staked = Uint256::zero();
        self.total_reputation = Uint256::zero();
        self.accounts = Vec::new();
        self.events.push(Event::OwnershipTransferred {
            previous_owner: Address::zero(),
            new_owner: initiator,
        });
        Ok(())
    }

    /// Deposits `amount` for `staker` at time `now`: raises the staker's
    /// stake and the total, restarts the staker's cooldown, and accrues
    /// reputation at the current multiplier. Gates, in order: the blacklist,
    /// a zero amount, and the minimum on the post-deposit total (a staker
    /// already at the minimum may top up with any positive amount). A
    /// rejected deposit leaves the ledger unchanged.
    pub fn stake(&mut self, staker: Address, amount: Uint256, now: Uint256) -> (r: Result<
        (),
        ReputationStakingError,
    >)
        requires
            old(self).wf(),
        ensures
            final(self).wf(),
            (r matches Err(ReputationStakingError::UserBlacklisted)) <==> old(
                self,
            ).spec_blacklisted(staker),
            (r matches Err(ReputationStakingError::InvalidAmount)) <==> (!old(
                self,
            ).spec_blacklisted(staker) && amount.as_nat() == 0),
            (r matches Err(ReputationStakingError::InsufficientStake)) <==> (!old(
                self,
            ).spec_blacklisted(staker) && amount.as_nat() > 0 && old(self).spec_stake_of(staker)
                + amount.as_nat() < old(self).spec_minimum_stake()),
            (r matches Err(ReputationStakingError::Overflow)) <==> (old(self).stake_allowed(
                staker,
                amount.as_nat(),
            ) && old(self).stake_overflow(amount.as_nat())),
            (r is Ok) <==> (old(self).stake_allowed(staker, amount.as_nat()) && !old(
                self,
            ).stake_overflow(amount.as_nat())),
            r is Err ==> *final(self) == *old(self),
            r is Ok ==> ({
                let cur = old(self).spec_stake_of(staker);
                let rep = old(self).spec_reputation_of(staker);
                let delta = accrual(amount.as_nat(), old(self).spec_reputation_multiplier());
                let n = old(self).events@.len() as int;
                &&& final(self).spec_stake_of(staker) == cur + amount.as_nat()
                &&& final(self).spec_reputation_of(staker) == rep + delta
                &&& final(self).spec_stake_timestamp(staker) == now.as_nat()
                &&& !final(self).spec_blacklisted(staker)
                &&& final(self).spec_total_staked() == old(self).spec_total_staked()
                    + amount.as_nat()
                &&& final(self).spec_total_reputation() == old(self).spec_total_reputation()
                    + delta
                &&& final(self).owner == old(self).owner
                &&& final(self).minimum_stake == old(self).minimum_stake
                &&& final(self).reputation_multiplier == old(self).reputation_multiplier
                &&& (forall|b: Address| b != staker ==> final(self).spec_account(b) == old(
                    self,
                ).spec_account(b))
                &&& extends_log(final(self).events@, old(self).events@, 2)
                &&& (final(self).events@[n] matches Event::Staked {
                    staker: s,
                    amount: a,
                    new_total: t,
                } && s == staker && a == amount && t.as_nat() == cur + amount.as_nat())
                &&& (final(self).events@[n + 1] matches Event::ReputationUpdated {
                    staker: s,
                    old_score: o,
                    new_score: w,
                } && s == staker && o.as_nat() == rep && w.as_nat() == rep + delta)
            }),
    {
        if self.is_blacklisted(staker) {
            return Err(ReputationStakingError::UserBlacklisted);
        }
        if amount.is_zero() {
            return Err(ReputationStakingError::InvalidAmount);
        }
        let idx_opt = self.find_index(staker);
        let (current_stake, current_reputation) = match idx_opt {
            Some(i) => (self.accounts[i].staked, self.accounts[i].reputation),
            None => (Uint256::zero(), Uint256::zero()),
        };
        proof {
            amount.lemma_bound();
            self.minimum_stake.lemma_bound();
            if let Some(i) = idx_opt {
                lemma_sum_staked_element(self.accounts@, i as int, 0);
                lemma_sum_reputation_element(self.accounts@, i as int, 0);
            }
        }
        let new_stake = match checked_add(&current_stake, &amount) {
            Some(v) => v,
            None => {
                return Err(ReputationStakingError::Overflow);
            },
        };
        if new_stake.lt(&self.minimum_stake) {
            return Err(ReputationStakingError::InsufficientStake);
        }
        let new_total_staked = match checked_add(&self.total_staked, &amount) {
            Some(v) => v,
            None => {
                return Err(ReputationStakingError::Overflow);
            },
        };
        let delta = match self.calculate_reputation_increase(&amount) {
            Some(v) => v,
            None => {
                return Err(ReputationStakingError::Overflow);
            },
        };
        let new_reputation = match checked_add(&current_reputation, &delta) {
            Some(v) => v,
            None => {
                return Err(ReputationStakingError::Overflow);
            },
        };
        let new_total_reputation = match checked_add(&self.total_reputation, &delta) {
            Some(v) => v,
            None => {
                return Err(ReputationStakingError::Overflow);
            },
        };
        let new_account = Account {
            addr: staker,
            staked: new_stake,
            reputation: new_reputation,
            stake_timestamp: now,
            blacklisted: false,
        };
        let ghost s_old = self.accounts@;
        match idx_opt {
            Some(i) => {
                self.accounts.set(i, new_account);
                proof {
                    let k = i as int;
                    assert forall|x: int, y: int|
                        0 <= x < y < self.accounts@.len() implies self.accounts@[x].addr
                        != self.accounts@[y].addr by {
                        assert(s_old[x].addr != s_old[y].addr);
                    }
                    lemma_sum_staked_update(s_old, k, new_account, 0);
                    lemma_sum_reputation_update(s_old, k, new_account, 0);
                    lemma_find_is_first_match(self.accounts@, staker, k, 0);
                    assert forall|b: Address| b != staker implies find_account(
                        self.accounts@,
                        b,
                    ) == find_account(s_old, b) by {
                        lemma_find_update_other(s_old, k, new_account, b, 0);
                    }
                }
            },
            None => {
                proof {
                    lemma_find_none_no_match(s_old, staker, 0);
                }
                self.accounts.push(new_account);
                proof {
                    lemma_sum_staked_push(s_old, new_account, 0);
                    lemma_sum_reputation_push(s_old, new_account, 0);
                    lemma_find_push_self(s_old, new_account, 0);
                    assert forall|b: Address| b != staker implies find_account(
                        self.accounts@,
                        b,
                    ) == find_account(s_old, b) by {
                        lemma_find_push_other(s_old, new_account, b, 0);
                    }
                    assert forall|x: int, y: int|
                        0 <= x < y < self.accounts@.len() implies self.accounts@[x].addr
                        != self.accounts@[y].addr by {
                        if y < s_old.len() {
                            assert(s_old[x].addr != s_old[y].addr);
                        }
                    }
                }
            },
        }
        self.total_staked = new_total_staked;
        self.total_reputation = new_total_reputation;
        self.events.push(Event::Staked { staker, amount, new_total: new_stake });
        self.events.push(
            Event::ReputationUpdated {
                staker,
                old_score: current_reputation,
                new_score: new_reputation,
            },
        );
        Ok(())
    }

    /// Withdraws `amount` of the stake of `staker` at time `now`: lowers the
    /// staker's stake and the total, and decays the staker's reputation in
    /// proportion to the fraction of the pre-withdrawal stake removed. Gates,
    /// in order: the blacklist, an empty stake, a stake smaller than `amount`,
    /// and the cooldown since the staker's last deposit. A rejected
    /// withdrawal leaves the ledger unchanged.
    pub fn withdraw(&mut self, staker: Address, amount: Uint256, now: Uint256) -> (r: Result<
        (),
        ReputationStakingError,
    >)
        requires
            old(self).wf(),
        ensures
            final(self).wf(),
            (r matches Err(ReputationStakingError::UserBlacklisted)) <==> old(
                self,
            ).spec_blacklisted(staker),
            (r matches Err(ReputationStakingError::NoStakeToWithdraw)) <==> (!old(
                self,
            ).spec_blacklisted(staker) && old(self).spec_stake_of(staker) == 0),
            (r matches Err(ReputationStakingError::InsufficientBalance)) <==> (!old(
                self,
            ).spec_blacklisted(staker) && old(self).spec_stake_of(staker) > 0 && amount.as_nat()
                > old(self).spec_stake_of(staker)),
            (r matches Err(ReputationStakingError::TooEarlyToWithdraw)) <==> (!old(
                self,
            ).spec_blacklisted(staker) && old(self).spec_stake_of(staker) > 0 && amount.as_nat()
                <= old(self).spec_stake_of(staker) && now.as_nat() < old(
                self,
            ).spec_stake_timestamp(staker) + COOLDOWN_SECONDS),
            (r matches Err(ReputationStakingError::Overflow)) <==> (old(self).withdraw_allowed(
                staker,
                amount.as_nat(),
                now.as_nat(),
            ) && old(self).withdraw_overflow(staker, amount.as_nat())),
            (r is Ok) <==> (old(self).withdraw_allowed(staker, amount.as_nat(), now.as_nat())
                && !old(self).withdraw_overflow(staker, amount.as_nat())),
            r is Err ==> *final(self) == *old(self),
            r is Ok ==> ({
                let cur = old(self).spec_stake_of(staker);
                let rep = old(self).spec_reputation_of(staker);
                let dec = decay(amount.as_nat(), rep, cur);
                let n = old(self).events@.len() as int;
                &&& final(self).spec_stake_of(staker) == cur - amount.as_nat()
                &&& final(self).spec_reputation_of(staker) == rep - dec
                &&& final(self).spec_stake_timestamp(staker) == old(self).spec_stake_timestamp(
                    staker,
                )
                &&& !final(self).spec_blacklisted(staker)
                &&& final(self).spec_total_staked() == old(self).spec_total_staked()
                    - amount.as_nat()
                &&& final(self).spec_total_reputation() == old(self).spec_total_reputation()
                    - dec
                &&& final(self).owner == old(self).owner
                &&& final(self).minimum_stake == old(self).minimum_stake
                &&& final(self).reputation_multiplier == old(self).reputation_multiplier
                &&& (forall|b: Address| b != staker ==> final(self).spec_account(b) == old(
                    self,
                ).spec_account(b))
                &&& extends_log(final(self).events@, old(self).events@, 2)
                &&& (final(self).events@[n] matches Event::Withdrawn {
                    staker: s,
                    amount: a,
                    remaining: t,
                } && s == staker && a == amount && t.as_nat() == cur - amount.as_nat())
                &&& (final(self).events@[n + 1] matches Event::ReputationUpdated {
                    staker: s,
                    old_score: o,
                    new_score: w,
                } && s == staker && o.as_nat() == rep && w.as_nat() == rep - dec)
            }),
    {
        if self.is_blacklisted(staker) {
            return Err(ReputationStakingError::UserBlacklisted);
        }
        let idx: usize;
        match self.find_index(staker) {
            Some(i) => {
                idx = i;
            },
            None => {
                return Err(ReputationStakingError::NoStakeToWithdraw);
            },
        }
        let account = self.accounts[idx];
        let current_stake = account.staked;
        if current_stake.is_zero() {
            return Err(ReputationStakingError::NoStakeToWithdraw);
        }
        if current_stake.lt(&amount) {
            return Err(ReputationStakingError::InsufficientBalance);
        }
        proof {
            now.lemma_bound();
        }
        match checked_add(&account.stake_timestamp, &Uint256::from_u64(COOLDOWN_SECONDS)) {
            None => {
                return Err(ReputationStakingError::TooEarlyToWithdraw);
            },
            Some(deadline) => {
                if now.lt(&deadline) {
                    return Err(ReputationStakingError::TooEarlyToWithdraw);
                }
            },
        }
        let current_reputation = account.reputation;
        proof {
            lemma_sum_staked_element(self.accounts@, idx as int, 0);
            lemma_sum_reputation_element(self.accounts@, idx as int, 0);
        }
        let new_stake = match checked_sub(&current_stake, &amount) {
            Some(v) => v,
            None => {
                return Err(ReputationStakingError::Overflow);
            },
        };
        let new_total_staked = match checked_sub(&self.total_staked, &amount) {
            Some(v) => v,
            None => {
                return Err(ReputationStakingError::Overflow);
            },
        };
        let dec = match Self::calculate_reputation_decrease(
            &amount,
            &current_stake,
            &current_reputation,
        ) {
            Some(v) => v,
            None => {
                return Err(ReputationStakingError::Overflow);
            },
        };
        proof {
            lemma_decay_le(amount.as_nat(), current_reputation.as_nat(), current_stake.as_nat());
        }
        let new_reputation = if dec.lt(&current_reputation) {
            match checked_sub(&current_reputation, &dec) {
                Some(v) => v,
                None => {
                    return Err(ReputationStakingError::Overflow);
                },
            }
        } else {
            Uint256::zero()
        };
        let new_total_reputation = match checked_sub(&self.total_reputation, &dec) {
            Some(v) => v,
            None => {
                return Err(ReputationStakingError::Overflow);
            },
        };
        let new_account = Account {
            addr: staker,
            staked: new_stake,
            reputation: new_reputation,
            stake_timestamp: account.stake_timestamp,
            blacklisted: false,
        };
        let ghost s_old = self.accounts@;
        self.accounts.set(idx, new_account);
        proof {
            let k = idx as int;
            assert forall|x: int, y: int|
                0 <= x < y < self.accounts@.len() implies self.accounts@[x].addr
                != self.accounts@[y].addr by {
                assert(s_old[x].addr != s_old[y].addr);
            }
            lemma_sum_staked_update(s_old, k, new_account, 0);
            lemma_sum_reputation_update(s_old, k, new_account, 0);
            lemma_find_is_first_match(self.accounts@, staker, k, 0);
            assert forall|b: Address| b != staker implies find_account(self.accounts@, b)
                == find_account(s_old, b) by {
                lemma_find_update_other(s_old, k, new_account, b, 0);
            }
        }
        self.total_staked = new_total_staked;
        self.total_reputation = new_total_reputation;
        self.events.push(Event::Withdrawn { staker, amount, remaining: new_stake });
        self.events.push(
            Event::ReputationUpdated {
                staker,
                old_score: current_reputation,
                new_score: new_reputation,
            },
        );
        Ok(())
    }

    /// Sets the minimum stake (owner only). The change has no retroactive
    /// effect on existing balances; it only gates future deposits.
    pub fn set_minimum_stake(&mut self, caller: Address, new_minimum: Uint256) -> (r: Result<
        (),
        ReputationStakingError,
    >)
        requires
            old(self).wf(),
        ensures
            final(self).wf(),
            (r matches Err(ReputationStakingError::NotOwner)) <==> caller != old(self).owner,
            (r is Ok) <==> caller == old(self).owner,
            r is Err ==> *final(self) == *old(self),
            r is Ok ==> ({
                let n = old(self).events@.len() as int;
                &&& final(self).minimum_stake == new_minimum
                &&& final(self).owner == old(self).owner
                &&& final(self).reputation_multiplier == old(self).reputation_multiplier
                &&& final(self).total_staked == old(self).total_staked
                &&& final(self).total_reputation == old(self).total_reputation
                &&& final(self).accounts@ == old(self).accounts@
                &&& extends_log(final(self).events@, old(self).events@, 1)
                &&& (final(self).events@[n] matches Event::MinimumStakeUpdated {
                    old_minimum: o,
                    new_minimum: w,
                } && o == old(self).minimum_stake && w == new_minimum)
            }),
    {
        if caller != self.owner {
            return Err(ReputationStakingError::NotOwner);
        }
        let old_minimum = self.minimum_stake;
        self.minimum_stake = new_minimum;
        self.events.push(Event::MinimumStakeUpdated { old_minimum, new_minimum });
        Ok(())
    }

    /// Blacklists `user` (owner only), blocking the user's future deposits
    /// and withdrawals without touching the user's stored balances. The null
    /// identity is rejected; re-blacklisting is not.
    pub fn blacklist_user(&mut self, caller: Address, user: Address) -> (r: Result<
        (),
        ReputationStakingError,
    >)
        requires
            old(self).wf(),
        ensures
            final(self).wf(),
            (r matches Err(ReputationStakingError::NotOwner)) <==> caller != old(self).owner,
            (r matches Err(ReputationStakingError::AddressZeroNotAllowed)) <==> (caller == old(
                self,
            ).owner && user.spec_is_zero()),
            (r is Ok) <==> (caller == old(self).owner && !user.spec_is_zero()),
            r is Err ==> *final(self) == *old(self),
            r is Ok ==> ({
                let n = old(self).events@.len() as int;
                &&& final(self).spec_blacklisted(user)
                &&& final(self).spec_stake_of(user) == old(self).spec_stake_of(user)
                &&& final(self).spec_reputation_of(user) == old(self).spec_reputation_of(user)
                &&& final(self).spec_stake_timestamp(user) == old(self).spec_stake_timestamp(
                    user,
                )
                &&& (forall|b: Address| b != user ==> final(self).spec_account(b) == old(
                    self,
                ).spec_account(b))
                &&& final(self).owner == old(self).owner
                &&& final(self).minimum_stake == old(self).minimum_stake
                &&& final(self).reputation_multiplier == old(self).reputation_multiplier
                &&& final(self).total_staked == old(self).total_staked
                &&& final(self).total_reputation == old(self).total_reputation
                &&& extends_log(final(self).events@, old(self).events@, 1)
                &&& (final(self).events@[n] matches Event::UserBlacklistedEvent { user: u } && u
                    == user)
            }),
    {
        if caller != self.owner {
            return Err(ReputationStakingError::NotOwner);
        }
        if user.is_zero() {
            return Err(ReputationStakingError::AddressZeroNotAllowed);
        }
        let ghost s_old = self.accounts@;
        match self.find_index(user) {
            Some(i) => {
                let account = self.accounts[i];
                let new_account = Account {
                    addr: account.addr,
                    staked: account.staked,
                    reputation: account.reputation,
                    stake_timestamp: account.stake_timestamp,
                    blacklisted: true,
                };
                self.accounts.set(i, new_account);
                proof {
                    let k = i as int;
                    assert forall|x: int, y: int|
                        0 <= x < y < self.accounts@.len() implies self.accounts@[x].addr
                        != self.accounts@[y].addr by {
                        assert(s_old[x].addr != s_old[y].addr);
                    }
                    lemma_sum_staked_update(s_old, k, new_account, 0);
                    lemma_sum_reputation_update(s_old, k, new_account, 0);
                    lemma_find_is_first_match(self.accounts@, user, k, 0);
                    assert forall|b: Address| b != user implies find_account(self.accounts@, b)
                        == find_account(s_old, b) by {
                        lemma_find_update_other(s_old, k, new_account, b, 0);
                    }
                }
            },
            None => {
                let new_account = Account {
                    addr: user,
                    staked: Uint256::zero(),
                    reputation: Uint256::zero(),
                    stake_timestamp: Uint256::zero(),
                    blacklisted: true,
                };
                proof {
                    lemma_find_none_no_match(s_old, user, 0);
                }
                self.accounts.push(new_account);
                proof {
                    lemma_sum_staked_push(s_old, new_account, 0);
                    lemma_sum_reputation_push(s_old, new_account, 0);
                    lemma_find_push_self(s_old, new_account, 0);
                    assert forall|b: Address| b != user implies find_account(self.accounts@, b)
                        == find_account(s_old, b) by {
                        lemma_find_push_other(s_old, new_account, b, 0);
                    }
                    assert forall|x: int, y: int|
                        0 <= x < y < self.accounts@.len() implies self.accounts@[x].addr
                        != self.accounts@[y].addr by {
                        if y < s_old.len() {
                            assert(s_old[x].addr != s_old[y].addr);
                        }
                    }
                }
            },
        }
        self.events.push(Event::UserBlacklistedEvent { user });
        Ok(())
    }

    /// Clears the blacklist flag of `user` (owner only), restoring normal
    /// operation without altering the user's stored balances. A user who is
    /// not blacklisted is rejected.
    pub fn remove_from_blacklist(&mut self, caller: Address, user: Address) -> (r: Result<
        (),
        ReputationStakingError,
    >)
        requires
            old(self).wf(),
        ensures
            final(self).wf(),
            (r matches Err(ReputationStakingError::NotOwner)) <==> caller != old(self).owner,
            (r matches Err(ReputationStakingError::UserNotBlacklisted)) <==> (caller == old(
                self,
            ).owner && !old(self).spec_blacklisted(user)),
            (r is Ok) <==> (caller == old(self).owner && old(self).spec_blacklisted(user)),
            r is Err ==> *final(self) == *old(self),
            r is Ok ==> ({
                let n = old(self).events@.len() as int;
                &&& !final(self).spec_blacklisted(user)
                &&& final(self).spec_stake_of(user) == old(self).spec_stake_of(user)
                &&& final(self).spec_reputation_of(user) == old(self).spec_reputation_of(user)
                &&& final(self).spec_stake_timestamp(user) == old(self).spec_stake_timestamp(
                    user,
                )
                &&& (forall|b: Address| b != user ==> final(self).spec_account(b) == old(
                    self,
                ).spec_account(b))
                &&& final(self).owner == old(self).owner
                &&& final(self).minimum_stake == old(self).minimum_stake
                &&& final(self).reputation_multiplier == old(self).reputation_multiplier
                &&& final(self).total_staked == old(self).total_staked
                &&& final(self).total_reputation == old(self).total_reputation
                &&& extends_log(final(self).events@, old(self).events@, 1)
                &&& (final(self).events@[n] matches Event::UserRemovedFromBlacklistEvent {
                    user: u,
                } && u == user)
            }),
    {
        if caller != self.owner {
            return Err(ReputationStakingError::NotOwner);
        }
        let idx: usize;
        match self.find_index(user) {
            Some(i) => {
                idx = i;
            },
            None => {
                return Err(ReputationStakingError::UserNotBlacklisted);
            },
        }
        let account = self.accounts[idx];
        if !account.blacklisted {
            return Err(ReputationStakingError::UserNotBlacklisted);
        }
        let new_account = Account {
            addr: account.addr,
            staked: account.staked,
            reputation: account.reputation,
            stake_timestamp: account.stake_timestamp,
            blacklisted: false,
        };
        let ghost s_old = self.accounts@;
        self.accounts.set(idx, new_account);
        proof {
            let k = idx as int;
            assert forall|x: int, y: int|
                0 <= x < y < self.accounts@.len() implies self.accounts@[x].addr
                != self.accounts@[y].addr by {
                assert(s_old[x].addr != s_old[y].addr);
            }
            lemma_sum_staked_update(s_old, k, new_account, 0);
            lemma_sum_reputation_update(s_old, k, new_account, 0);
            lemma_find_is_first_match(self.accounts@, user, k, 0);
            assert forall|b: Address| b != user implies find_account(self.accounts@, b)
                == find_account(s_old, b) by {
                lemma_find_update_other(s_old, k, new_account, b, 0);
            }
        }
        self.events.push(Event::UserRemovedFromBlacklistEvent { user });
        Ok(())
    }

    /// Reputation accrued by depositing `stake_amount` under the current
    /// multiplier, or `None` if the intermediate product leaves the 256-bit
    /// range.
    fn calculate_reputation_increase(&self, stake_amount: &Uint256) -> (r: Option<Uint256>)
        ensures
            stake_amount.as_nat() * self.reputation_multiplier.as_nat() < u256_bound() ==> r
                is Some && r->0.as_nat() == accrual(
                stake_amount.as_nat(),
                self.reputation_multiplier.as_nat(),
            ),
            stake_amount.as_nat() * self.reputation_multiplier.as_nat() >= u256_bound() ==> r
                is None,
    {
        match checked_mul(stake_amount, &self.reputation_multiplier) {
            Some(product) => checked_div(&product, &Uint256::from_u64(MULTIPLIER_BASIS)),
            None => None,
        }
    }

    /// Reputation lost by withdrawing `withdraw_amount` out of a
    /// pre-withdrawal stake of `total_stake` at score `current_reputation`,
    /// or `None` if the intermediate product leaves the 256-bit range.
    fn calculate_reputation_decrease(
        withdraw_amount: &Uint256,
        total_stake: &Uint256,
        current_reputation: &Uint256,
    ) -> (r: Option<Uint256>)
        ensures
            total_stake.as_nat() == 0 || withdraw_amount.as_nat() * current_reputation.as_nat()
                < u256_bound() ==> r is Some && r->0.as_nat() == decay(
                withdraw_amount.as_nat(),
                current_reputation.as_nat(),
                total_stake.as_nat(),
            ),
            total_stake.as_nat() > 0 && withdraw_amount.as_nat() * current_reputation.as_nat()
                >= u256_bound() ==> r is None,
    {
        if total_stake.is_zero() {
            return Some(*current_reputation);
        }
        match checked_mul(withdraw_amount, current_reputation) {
            Some(product) => checked_div(&product, total_stake),
            None => None,
        }
    }
}

impl Default for ReputationStaking {
    /// An uninitialized ledger: the null owner, zero policy values, no
    /// records and an empty log.
    fn default() -> (r: ReputationStaking)
        ensures
            r.wf(),
            r.owner.spec_is_zero(),
            r.spec_total_staked() == 0,
            r.spec_total_reputation() == 0,
            r.spec_minimum_stake() == 0,
            r.spec_reputation_multiplier() == 0,
            forall|a: Address| r.spec_account(a) is None,
            r.events@.len() == 0,
    {
        ReputationStaking {
            owner: Address::zero(),
            total_staked: Uint256::zero(),
            minimum_stake: Uint256::zero(),
            reputation_multiplier: Uint256::zero(),
            total_reputation: Uint256::zero(),
            accounts: Vec::new(),
            events: Vec::new(),
        }
    }
}

/// Totals invariant: in a well-formed ledger the stored total of stakes and
/// the stored total of reputation equal the sums over all records.
pub proof fn lemma_totals_are_account_sums(l: ReputationStaking)
    requires
        l.wf(),
    ensures
        l.spec_total_staked() == sum_staked(l.accounts@),
        l.spec_total_reputation() == sum_reputation(l.accounts@),
{
}

/// Multiplier gate: a well-formed ledger's reputation multiplier never
/// exceeds `MAX_MULTIPLIER` basis points.
pub proof fn lemma_multiplier_bounded(l: ReputationStaking)
    requires
        l.wf(),
    ensures
        l.spec_reputation_multiplier() <= MAX_MULTIPLIER,
{
}

/// A consequence of the totals invariant: no single participant's stake
/// exceeds the stored total of stakes, nor any single score the stored total
/// of reputation.
pub proof fn lemma_account_within_totals(l: ReputationStaking, a: Address)
    requires
        l.wf(),
    ensures
        l.spec_stake_of(a) <= l.spec_total_staked(),
        l.spec_reputation_of(a) <= l.spec_total_reputation(),
{
    if l.spec_account(a) is Some {
        lemma_find_some_index(l.accounts@, a, 0);
        let k = choose|k: int|
            0 <= k < l.accounts@.len() && l.accounts@[k] == find_from(l.accounts@, a, 0)->0
                && l.accounts@[k].addr == a;
        lemma_sum_staked_element(l.accounts@, k, 0);
        lemma_sum_reputation_element(l.accounts@, k, 0);
    }
}

} // verus!
