//! The staking ledger exercised end to end: a full walkthrough of the
//! operation surface, and scenario tests for accrual, the minimum-stake gate,
//! the cooldown, proportional decay, the blacklist, and the read accessors.

use reputation_staking::{Address, Event, ReputationStaking, ReputationStakingError, Uint256};

fn u(x: u64) -> Uint256 {
    Uint256::from_u64(x)
}

#[test]
fn test_reputation_staking_contract() {
    let mut contract = ReputationStaking::default();

    let owner = Address::new(0, 1);
    let staker1 = Address::new(0, 2);
    let staker2 = Address::new(0, 3);

    // Test constructor
    let min_stake = u(100);
    let reputation_mult = u(5000); // 50%
    let result = contract.constructor(owner, min_stake, reputation_mult);
    assert!(result.is_ok());
    assert_eq!(contract.owner(), owner);
    assert_eq!(contract.minimum_stake(), min_stake);
    assert_eq!(contract.reputation_multiplier(), reputation_mult);

    // Test staking
    let now = u(1000);
    let result = contract.stake(staker1, u(200), now);
    assert!(result.is_ok());
    assert_eq!(contract.stake_of(staker1), u(200));
    assert_eq!(contract.total_staked(), u(200));
    // Reputation = 200 * 5000 / 10000 = 100
    assert_eq!(contract.reputation_of(staker1), u(100));

    // Test insufficient stake error
    let result = contract.stake(staker2, u(50), now); // Below minimum
    assert!(matches!(result, Err(ReputationStakingError::InsufficientStake)));

    // Test blacklist functionality
    let result = contract.blacklist_user(owner, staker2);
    assert!(result.is_ok());
    assert!(contract.is_blacklisted(staker2));

    // Test blacklisted user cannot stake
    let result = contract.stake(staker2, u(150), now);
    assert!(matches!(result, Err(ReputationStakingError::UserBlacklisted)));

    // Test remove from blacklist
    let result = contract.remove_from_blacklist(owner, staker2);
    assert!(result.is_ok());
    assert!(!contract.is_blacklisted(staker2));

    // Test early withdrawal error
    let result = contract.withdraw(staker1, u(50), now);
    assert!(matches!(result, Err(ReputationStakingError::TooEarlyToWithdraw)));

    // Test minimum stake update
    let new_min = u(150);
    let result = contract.set_minimum_stake(owner, new_min);
    assert!(result.is_ok());
    assert_eq!(contract.minimum_stake(), new_min);

    // Test error cases
    let result = contract.set_minimum_stake(staker1, u(200));
    assert!(matches!(result, Err(ReputationStakingError::NotOwner)));

    // Test withdraw more than staked
    let result = contract.withdraw(staker1, u(500), now);
    assert!(matches!(result, Err(ReputationStakingError::InsufficientBalance)));
}

#[test]
fn accrual_formula() {
    let mut ledger = ReputationStaking::default();
    let owner = Address::new(0, 1);
    let alice = Address::new(0, 2);
    assert!(ledger.constructor(owner, u(100), u(5000)).is_ok());
    assert!(ledger.stake(alice, u(200), u(7)).is_ok());
    assert_eq!(ledger.reputation_of(alice), u(100));
    assert_eq!(ledger.stake_of(alice), u(200));
    assert_eq!(ledger.total_reputation(), u(100));
    assert_eq!(ledger.stake_timestamp(alice), u(7));
}

#[test]
fn accrual_rounds_down() {
    let mut ledger = ReputationStaking::default();
    let owner = Address::new(0, 1);
    let alice = Address::new(0, 2);
    assert!(ledger.constructor(owner, u(0), u(2500)).is_ok());
    // 7 * 2500 / 10000 = 1.75, floored to 1
    assert!(ledger.stake(alice, u(7), u(0)).is_ok());
    assert_eq!(ledger.reputation_of(alice), u(1));
}

#[test]
fn minimum_gate_checks_total_not_delta() {
    let mut ledger = ReputationStaking::default();
    let owner = Address::new(0, 1);
    let alice = Address::new(0, 2);
    let bob = Address::new(0, 3);

    // A stake of 50 is accepted while the minimum is 50.
    assert!(ledger.constructor(owner, u(50), u(5000)).is_ok());
    assert!(ledger.stake(alice, u(50), u(10)).is_ok());

    // Raise the minimum to 100: existing balances stay valid.
    assert!(ledger.set_minimum_stake(owner, u(100)).is_ok());
    assert_eq!(ledger.stake_of(alice), u(50));

    // A deposit of 60 is below the minimum on its own, but the post-deposit
    // total 110 reaches it, so the deposit is accepted.
    assert!(ledger.stake(alice, u(60), u(20)).is_ok());
    assert_eq!(ledger.stake_of(alice), u(110));

    // A lone deposit of 50 by a fresh staker fails against the total gate.
    let result = ledger.stake(bob, u(50), u(20));
    assert!(matches!(result, Err(ReputationStakingError::InsufficientStake)));
    assert_eq!(ledger.stake_of(bob), u(0));
}

#[test]
fn topping_up_above_minimum_takes_any_positive_amount() {
    let mut ledger = ReputationStaking::default();
    let owner = Address::new(0, 1);
    let alice = Address::new(0, 2);
    assert!(ledger.constructor(owner, u(100), u(5000)).is_ok());
    assert!(ledger.stake(alice, u(150), u(10)).is_ok());
    assert!(ledger.stake(alice, u(1), u(20)).is_ok());
    assert_eq!(ledger.stake_of(alice), u(151));
}

#[test]
fn cooldown_gates_withdrawal() {
    let mut ledger = ReputationStaking::default();
    let owner = Address::new(0, 1);
    let alice = Address::new(0, 2);
    assert!(ledger.constructor(owner, u(100), u(5000)).is_ok());
    assert!(ledger.stake(alice, u(200), u(1000)).is_ok());

    // Immediately after staking, any positive withdrawal is too early.
    let result = ledger.withdraw(alice, u(1), u(1000));
    assert!(matches!(result, Err(ReputationStakingError::TooEarlyToWithdraw)));

    // One second before the cooldown elapses it is still too early.
    let result = ledger.withdraw(alice, u(50), u(1000 + 86399));
    assert!(matches!(result, Err(ReputationStakingError::TooEarlyToWithdraw)));

    // Exactly at the cooldown boundary the withdrawal goes through.
    assert!(ledger.withdraw(alice, u(50), u(1000 + 86400)).is_ok());
    assert_eq!(ledger.stake_of(alice), u(150));
}

#[test]
fn topping_up_resets_the_whole_cooldown() {
    let mut ledger = ReputationStaking::default();
    let owner = Address::new(0, 1);
    let alice = Address::new(0, 2);
    assert!(ledger.constructor(owner, u(100), u(5000)).is_ok());
    assert!(ledger.stake(alice, u(200), u(1000)).is_ok());
    // A top-up long after the first deposit restarts the clock for the
    // entire balance.
    assert!(ledger.stake(alice, u(1), u(500000)).is_ok());
    let result = ledger.withdraw(alice, u(10), u(500000 + 86399));
    assert!(matches!(result, Err(ReputationStakingError::TooEarlyToWithdraw)));
    assert!(ledger.withdraw(alice, u(10), u(500000 + 86400)).is_ok());
}

#[test]
fn proportional_decay_on_withdrawal() {
    let mut ledger = ReputationStaking::default();
    let owner = Address::new(0, 1);
    let alice = Address::new(0, 2);
    assert!(ledger.constructor(owner, u(100), u(5000)).is_ok());
    // Stake 200 at 50%: reputation 100.
    assert!(ledger.stake(alice, u(200), u(100)).is_ok());
    assert_eq!(ledger.stake_of(alice), u(200));
    assert_eq!(ledger.reputation_of(alice), u(100));
    // Withdraw half the stake after the cooldown: reputation halves.
    assert!(ledger.withdraw(alice, u(100), u(100 + 86400)).is_ok());
    assert_eq!(ledger.stake_of(alice), u(100));
    assert_eq!(ledger.reputation_of(alice), u(50));
    assert_eq!(ledger.total_staked(), u(100));
    assert_eq!(ledger.total_reputation(), u(50));
}

#[test]
fn full_withdrawal_decays_all_reputation() {
    let mut ledger = ReputationStaking::default();
    let owner = Address::new(0, 1);
    let alice = Address::new(0, 2);
    assert!(ledger.constructor(owner, u(100), u(5000)).is_ok());
    assert!(ledger.stake(alice, u(200), u(100)).is_ok());
    assert!(ledger.withdraw(alice, u(200), u(100 + 86400)).is_ok());
    assert_eq!(ledger.stake_of(alice), u(0));
    assert_eq!(ledger.reputation_of(alice), u(0));
    assert_eq!(ledger.total_staked(), u(0));
    assert_eq!(ledger.total_reputation(), u(0));
}

#[test]
fn blacklist_blocks_both_directions() {
    let mut ledger = ReputationStaking::default();
    let owner = Address::new(0, 1);
    let alice = Address::new(0, 2);
    assert!(ledger.constructor(owner, u(100), u(5000)).is_ok());
    assert!(ledger.stake(alice, u(200), u(100)).is_ok());
    assert!(ledger.blacklist_user(owner, alice).is_ok());

    // Both operations fail regardless of their other preconditions.
    let result = ledger.stake(alice, u(200), u(100));
    assert!(matches!(result, Err(ReputationStakingError::UserBlacklisted)));
    let result = ledger.withdraw(alice, u(50), u(100 + 86400));
    assert!(matches!(result, Err(ReputationStakingError::UserBlacklisted)));

    // Blacklisting froze nothing: the stored balances are intact.
    assert_eq!(ledger.stake_of(alice), u(200));
    assert_eq!(ledger.reputation_of(alice), u(100));

    // Removal restores normal operation without altering prior balances.
    assert!(ledger.remove_from_blacklist(owner, alice).is_ok());
    assert_eq!(ledger.stake_of(alice), u(200));
    assert_eq!(ledger.reputation_of(alice), u(100));
    assert_eq!(ledger.stake_timestamp(alice), u(100));
    assert!(ledger.withdraw(alice, u(50), u(100 + 86400)).is_ok());
    assert_eq!(ledger.stake_of(alice), u(150));
}

#[test]
fn unknown_address_reads_zero() {
    let mut ledger = ReputationStaking::default();
    let owner = Address::new(0, 1);
    let stranger = Address::new(7, 42);
    assert!(ledger.constructor(owner, u(100), u(5000)).is_ok());
    assert_eq!(ledger.stake_of(stranger), u(0));
    assert_eq!(ledger.reputation_of(stranger), u(0));
    assert_eq!(ledger.stake_timestamp(stranger), u(0));
    assert!(!ledger.is_blacklisted(stranger));
}

#[test]
fn constructor_rejects_null_identity() {
    let mut ledger = ReputationStaking::default();
    let result = ledger.constructor(Address::new(0, 0), u(100), u(5000));
    assert!(matches!(result, Err(ReputationStakingError::AddressZeroNotAllowed)));
}

#[test]
fn constructor_multiplier_cap_is_50000() {
    let mut ledger = ReputationStaking::default();
    let owner = Address::new(0, 1);
    let result = ledger.constructor(owner, u(100), u(50001));
    assert!(matches!(result, Err(ReputationStakingError::InvalidMultiplier)));
    assert!(ledger.constructor(owner, u(100), u(50000)).is_ok());
    assert_eq!(ledger.reputation_multiplier(), u(50000));
}

#[test]
fn stake_of_zero_amount_is_rejected() {
    let mut ledger = ReputationStaking::default();
    let owner = Address::new(0, 1);
    let alice = Address::new(0, 2);
    assert!(ledger.constructor(owner, u(100), u(5000)).is_ok());
    let result = ledger.stake(alice, u(0), u(100));
    assert!(matches!(result, Err(ReputationStakingError::InvalidAmount)));
}

#[test]
fn withdraw_without_stake_is_rejected() {
    let mut ledger = ReputationStaking::default();
    let owner = Address::new(0, 1);
    let alice = Address::new(0, 2);
    assert!(ledger.constructor(owner, u(100), u(5000)).is_ok());
    let result = ledger.withdraw(alice, u(1), u(100));
    assert!(matches!(result, Err(ReputationStakingError::NoStakeToWithdraw)));
}

#[test]
fn blacklist_rejects_null_identity_and_non_owner() {
    let mut ledger = ReputationStaking::default();
    let owner = Address::new(0, 1);
    let alice = Address::new(0, 2);
    assert!(ledger.constructor(owner, u(100), u(5000)).is_ok());
    let result = ledger.blacklist_user(owner, Address::new(0, 0));
    assert!(matches!(result, Err(ReputationStakingError::AddressZeroNotAllowed)));
    let result = ledger.blacklist_user(alice, alice);
    assert!(matches!(result, Err(ReputationStakingError::NotOwner)));
}

#[test]
fn removing_a_non_blacklisted_user_is_rejected() {
    let mut ledger = ReputationStaking::default();
    let owner = Address::new(0, 1);
    let alice = Address::new(0, 2);
    assert!(ledger.constructor(owner, u(100), u(5000)).is_ok());
    let result = ledger.remove_from_blacklist(owner, alice);
    assert!(matches!(result, Err(ReputationStakingError::UserNotBlacklisted)));
    let result = ledger.remove_from_blacklist(alice, alice);
    assert!(matches!(result, Err(ReputationStakingError::NotOwner)));
}

#[test]
fn re_blacklisting_is_not_rejected() {
    let mut ledger = ReputationStaking::default();
    let owner = Address::new(0, 1);
    let alice = Address::new(0, 2);
    assert!(ledger.constructor(owner, u(100), u(5000)).is_ok());
    assert!(ledger.blacklist_user(owner, alice).is_ok());
    assert!(ledger.blacklist_user(owner, alice).is_ok());
    assert!(ledger.is_blacklisted(alice));
}

#[test]
fn accrual_overflow_is_rejected_and_changes_nothing() {
    let mut ledger = ReputationStaking::default();
    let owner = Address::new(0, 1);
    let alice = Address::new(0, 2);
    assert!(ledger.constructor(owner, u(100), u(5000)).is_ok());
    // Close to the top of the 256-bit range: the accrual product overflows.
    let huge = Uint256 { l0: 0, l1: 0, l2: 0, l3: u64::MAX };
    let result = ledger.stake(alice, huge, u(100));
    assert!(matches!(result, Err(ReputationStakingError::Overflow)));
    assert_eq!(ledger.stake_of(alice), u(0));
    assert_eq!(ledger.total_staked(), u(0));
}

#[test]
fn total_staked_overflow_is_rejected() {
    let mut ledger = ReputationStaking::default();
    let owner = Address::new(0, 1);
    let alice = Address::new(0, 2);
    let bob = Address::new(0, 3);
    // Multiplier zero keeps the accrual product at zero.
    assert!(ledger.constructor(owner, u(0), u(0)).is_ok());
    let half = Uint256 { l0: 0, l1: 0, l2: 0, l3: 1 << 63 };
    assert!(ledger.stake(alice, half, u(100)).is_ok());
    assert_eq!(ledger.reputation_of(alice), u(0));
    // A second stake of the same size would carry the total past 2^256.
    let result = ledger.stake(bob, half, u(100));
    assert!(matches!(result, Err(ReputationStakingError::Overflow)));
    assert_eq!(ledger.stake_of(bob), u(0));
    assert_eq!(ledger.total_staked(), half);
}

#[test]
fn event_log_records_operations_in_order() {
    let mut ledger = ReputationStaking::default();
    let owner = Address::new(0, 1);
    let alice = Address::new(0, 2);
    assert!(ledger.constructor(owner, u(100), u(5000)).is_ok());
    assert!(ledger.stake(alice, u(200), u(100)).is_ok());
    assert!(ledger.withdraw(alice, u(100), u(100 + 86400)).is_ok());
    let events = ledger.events();
    assert_eq!(events.len(), 5);
    assert_eq!(
        events[0],
        Event::OwnershipTransferred { previous_owner: Address::new(0, 0), new_owner: owner }
    );
    assert_eq!(events[1], Event::Staked { staker: alice, amount: u(200), new_total: u(200) });
    assert_eq!(
        events[2],
        Event::ReputationUpdated { staker: alice, old_score: u(0), new_score: u(100) }
    );
    assert_eq!(events[3], Event::Withdrawn { staker: alice, amount: u(100), remaining: u(100) });
    assert_eq!(
        events[4],
        Event::ReputationUpdated { staker: alice, old_score: u(100), new_score: u(50) }
    );
}

#[test]
fn withdrawal_has_no_zero_amount_gate() {
    // Unlike deposits, withdrawals carry no zero-amount rejection: a zero
    // withdrawal after the cooldown goes through and moves nothing.
    let mut ledger = ReputationStaking::default();
    let owner = Address::new(0, 1);
    let alice = Address::new(0, 2);
    assert!(ledger.constructor(owner, u(100), u(5000)).is_ok());
    assert!(ledger.stake(alice, u(200), u(100)).is_ok());
    assert!(ledger.withdraw(alice, u(0), u(100 + 86400)).is_ok());
    assert_eq!(ledger.stake_of(alice), u(200));
    assert_eq!(ledger.reputation_of(alice), u(100));
}

#[test]
fn rejected_operations_log_nothing() {
    let mut ledger = ReputationStaking::default();
    let owner = Address::new(0, 1);
    let alice = Address::new(0, 2);
    assert!(ledger.constructor(owner, u(100), u(5000)).is_ok());
    let logged = ledger.events().len();
    assert!(ledger.stake(alice, u(0), u(100)).is_err());
    assert!(ledger.withdraw(alice, u(1), u(100)).is_err());
    assert!(ledger.set_minimum_stake(alice, u(1)).is_err());
    assert_eq!(ledger.events().len(), logged);
}
