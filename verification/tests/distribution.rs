use staking_pool::shares::{compute_reward_shares, compute_slash_shares};
use staking_pool::types::{LockPeriod, Principal, Stake, StakingError};

fn holder(n: u8) -> Principal {
    Principal::try_from_slice(&[n, n, n]).unwrap()
}

fn position(id: u64, amount: u64, lock_period: LockPeriod) -> Stake {
    Stake {
        id,
        amount,
        lock_period,
        deposit_time: 0,
        unlock_time: lock_period.to_seconds(),
        subaccount: [0u8; 32],
        is_active: true,
        confirmed: false,
    }
}

#[test]
fn reward_follows_the_lock_multipliers() {
    let positions = vec![
        (holder(1), position(0, 1_000_000, LockPeriod::Days90)),
        (holder(2), position(1, 1_000_000, LockPeriod::Days360)),
    ];
    let shares = compute_reward_shares(300_000, &positions).unwrap();
    assert_eq!(shares, vec![(holder(1), 100_000), (holder(2), 200_000)]);
}

#[test]
fn reward_with_all_three_tiers() {
    let positions = vec![
        (holder(1), position(0, 200_000, LockPeriod::Days90)),
        (holder(2), position(1, 200_000, LockPeriod::Days180)),
        (holder(3), position(2, 200_000, LockPeriod::Days360)),
    ];
    // weights 2e8, 3e8, 4e8 of 9e8
    let shares = compute_reward_shares(900_000, &positions).unwrap();
    assert_eq!(
        shares,
        vec![(holder(1), 200_000), (holder(2), 300_000), (holder(3), 400_000)]
    );
}

#[test]
fn reward_rounds_down_and_keeps_the_dust() {
    let positions = vec![
        (holder(1), position(0, 1, LockPeriod::Days90)),
        (holder(2), position(1, 1, LockPeriod::Days90)),
        (holder(3), position(2, 1, LockPeriod::Days90)),
    ];
    let shares = compute_reward_shares(100, &positions).unwrap();
    assert_eq!(shares, vec![(holder(1), 33), (holder(2), 33), (holder(3), 33)]);
    let sum: u64 = shares.iter().map(|s| s.1).sum();
    assert_eq!(sum, 99);
    assert!(sum <= 100);
}

#[test]
fn reward_mirrors_the_order_of_the_snapshot() {
    let positions = vec![
        (holder(2), position(5, 300_000, LockPeriod::Days90)),
        (holder(1), position(3, 100_000, LockPeriod::Days90)),
        (holder(2), position(4, 100_000, LockPeriod::Days90)),
    ];
    let shares = compute_reward_shares(500, &positions).unwrap();
    assert_eq!(shares, vec![(holder(2), 300), (holder(1), 100), (holder(2), 100)]);
}

#[test]
fn reward_without_weight_has_no_eligible_positions() {
    let none: Vec<(Principal, Stake)> = Vec::new();
    assert_eq!(
        compute_reward_shares(1_000, &none),
        Err(StakingError::NoEligiblePositions)
    );
    let zero = vec![(holder(1), position(0, 0, LockPeriod::Days360))];
    assert_eq!(
        compute_reward_shares(1_000, &zero),
        Err(StakingError::NoEligiblePositions)
    );
}

#[test]
fn reward_with_amounts_beyond_the_total_range_overflows() {
    let positions = vec![
        (holder(1), position(0, u64::MAX, LockPeriod::Days90)),
        (holder(2), position(1, 1, LockPeriod::Days90)),
    ];
    assert_eq!(
        compute_reward_shares(1_000, &positions),
        Err(StakingError::Overflow)
    );
}

#[test]
fn reward_of_the_largest_values_is_exact() {
    let positions = vec![
        (holder(1), position(0, u64::MAX - 1, LockPeriod::Days360)),
        (holder(2), position(1, 1, LockPeriod::Days90)),
    ];
    let shares = compute_reward_shares(u64::MAX, &positions).unwrap();
    let w1 = (u64::MAX - 1) as u128 * 2000;
    let w2 = 1000u128;
    // The exact quotients need more than 128 bits before dividing; the
    // expected values split the products by hand.
    let total = w1 + w2;
    let t = u64::MAX as u128;
    let first = (t / total) * w1 + mul_div(t % total, w1, total);
    let second = (t / total) * w2 + (t % total) * w2 / total;
    assert_eq!(shares[0].1 as u128, first);
    assert_eq!(shares[1].1 as u128, second);
    assert!(shares[0].1 as u128 + shares[1].1 as u128 <= t);
}

fn mul_div(a: u128, b: u128, d: u128) -> u128 {
    // floor(a * b / d) for a < d, by long multiplication in binary.
    let mut quotient: u128 = 0;
    let mut remainder: u128 = 0;
    for bit in (0..128).rev() {
        quotient = quotient * 2;
        let doubled = remainder * 2;
        quotient += doubled / d;
        remainder = doubled % d;
        if (b >> bit) & 1 == 1 {
            remainder += a;
            quotient += remainder / d;
            remainder %= d;
        }
    }
    quotient
}

#[test]
fn reward_of_zero_gives_zero_shares() {
    let positions = vec![(holder(1), position(0, 500_000, LockPeriod::Days180))];
    assert_eq!(
        compute_reward_shares(0, &positions).unwrap(),
        vec![(holder(1), 0)]
    );
}

#[test]
fn slash_is_proportional_to_principal() {
    let positions = vec![
        (holder(1), position(0, 500_000, LockPeriod::Days90)),
        (holder(2), position(1, 1_500_000, LockPeriod::Days360)),
    ];
    let shares = compute_slash_shares(400_000, &positions).unwrap();
    assert_eq!(shares, vec![(holder(1), 100_000), (holder(2), 300_000)]);
}

#[test]
fn slash_ignores_the_lock_multiplier() {
    let positions = vec![
        (holder(1), position(0, 1_000_000, LockPeriod::Days90)),
        (holder(2), position(1, 1_000_000, LockPeriod::Days360)),
    ];
    let shares = compute_slash_shares(300_000, &positions).unwrap();
    assert_eq!(shares, vec![(holder(1), 150_000), (holder(2), 150_000)]);
}

#[test]
fn slash_rounds_down() {
    let positions = vec![
        (holder(1), position(0, 1, LockPeriod::Days90)),
        (holder(2), position(1, 2, LockPeriod::Days90)),
    ];
    let shares = compute_slash_shares(2, &positions).unwrap();
    assert_eq!(shares, vec![(holder(1), 0), (holder(2), 1)]);
}

#[test]
fn slash_within_the_total_never_exceeds_a_position() {
    let positions = vec![
        (holder(1), position(0, 7, LockPeriod::Days90)),
        (holder(2), position(1, 11, LockPeriod::Days90)),
        (holder(3), position(2, 13, LockPeriod::Days90)),
    ];
    for amount in 0..=31u64 {
        let shares = compute_slash_shares(amount, &positions).unwrap();
        for (share, position) in shares.iter().zip(positions.iter()) {
            assert!(share.1 <= position.1.amount);
        }
    }
}

#[test]
fn slash_of_more_than_the_total_follows_the_formula() {
    let positions = vec![(holder(1), position(0, 1, LockPeriod::Days90))];
    assert_eq!(
        compute_slash_shares(2, &positions).unwrap(),
        vec![(holder(1), 2)]
    );
}

#[test]
fn slash_of_the_largest_values_is_exact() {
    let positions = vec![
        (holder(1), position(0, u64::MAX, LockPeriod::Days90)),
        (holder(2), position(1, u64::MAX, LockPeriod::Days90)),
    ];
    let shares = compute_slash_shares(u64::MAX, &positions).unwrap();
    assert_eq!(shares, vec![(holder(1), u64::MAX / 2), (holder(2), u64::MAX / 2)]);
}

#[test]
fn slash_of_nothing_staked_has_no_eligible_positions() {
    let none: Vec<(Principal, Stake)> = Vec::new();
    assert_eq!(
        compute_slash_shares(10, &none),
        Err(StakingError::NoEligiblePositions)
    );
}
