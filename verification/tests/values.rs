//! 256-bit values beyond one machine word: comparisons across limbs, and the
//! ledger's arithmetic crossing limb boundaries.

use reputation_staking::{Address, ReputationStaking, ReputationStakingError, Uint256};

#[test]
fn comparison_spans_all_limbs() {
    let small = Uint256 { l0: u64::MAX, l1: u64::MAX, l2: 0, l3: 0 };
    let big = Uint256 { l0: 0, l1: 0, l2: 1, l3: 0 };
    assert!(small.lt(&big));
    assert!(!big.lt(&small));
    assert!(small.le(&big));
    assert!(big.le(&big));
    assert!(!small.is_zero());
    assert!(Uint256::from_u64(0).is_zero());
    assert_eq!(Uint256::from_u64(7), Uint256 { l0: 7, l1: 0, l2: 0, l3: 0 });
}

#[test]
fn minimum_gate_across_limb_boundary() {
    let mut ledger = ReputationStaking::default();
    let owner = Address::new(0, 1);
    let alice = Address::new(0, 2);
    // The minimum is 2^64, one past the largest single-limb value.
    let min = Uint256 { l0: 0, l1: 1, l2: 0, l3: 0 };
    let below = Uint256 { l0: u64::MAX, l1: 0, l2: 0, l3: 0 };
    assert!(ledger.constructor(owner, min, Uint256::from_u64(0)).is_ok());
    let result = ledger.stake(alice, below, Uint256::from_u64(5));
    assert!(matches!(result, Err(ReputationStakingError::InsufficientStake)));
    assert!(ledger.stake(alice, min, Uint256::from_u64(5)).is_ok());
    assert_eq!(ledger.stake_of(alice), min);
}

#[test]
fn withdrawal_borrows_across_limbs() {
    let mut ledger = ReputationStaking::default();
    let owner = Address::new(0, 1);
    let alice = Address::new(0, 2);
    let stake = Uint256 { l0: 0, l1: 1, l2: 0, l3: 0 }; // 2^64
    assert!(ledger.constructor(owner, Uint256::from_u64(0), Uint256::from_u64(0)).is_ok());
    assert!(ledger.stake(alice, stake, Uint256::from_u64(5)).is_ok());
    assert!(ledger.withdraw(alice, Uint256::from_u64(1), Uint256::from_u64(5 + 86400)).is_ok());
    assert_eq!(ledger.stake_of(alice), Uint256 { l0: u64::MAX, l1: 0, l2: 0, l3: 0 });
}

#[test]
fn accrual_crosses_limb_boundaries() {
    let mut ledger = ReputationStaking::default();
    let owner = Address::new(0, 1);
    let alice = Address::new(0, 2);
    // 200% multiplier on a one-limb-boundary stake: reputation is 2^65.
    let stake = Uint256 { l0: 0, l1: 1, l2: 0, l3: 0 }; // 2^64
    assert!(ledger.constructor(owner, Uint256::from_u64(0), Uint256::from_u64(20000)).is_ok());
    assert!(ledger.stake(alice, stake, Uint256::from_u64(5)).is_ok());
    assert_eq!(ledger.reputation_of(alice), Uint256 { l0: 0, l1: 2, l2: 0, l3: 0 });
}
