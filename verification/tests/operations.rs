use staking_pool::address::{generate_subaccount, get_account_identifier};
use staking_pool::ledger::{
    classify, default_subaccount, reward_subaccount, transfer_from_subaccount, transfer_icp,
    LedgerError, TransferRequest, MEMO_REWARD, MEMO_SLASH, MEMO_WITHDRAW,
};
use staking_pool::lifecycle::{
    check_distribution, reward_request, sweep_request, validate_deposit_args, WithdrawReceipt,
};
use staking_pool::state::State;
use staking_pool::types::{
    DepositArgs, LockPeriod, Principal, RewardPoolArgs, SlashPoolArgs, StakingError,
    TransferFailure, WithdrawArgs, MAX_DEPOSIT, MIN_DEPOSIT, TRANSFER_FEE,
};

const DAYS_90: u64 = 7_776_000;

fn member(n: u8) -> Principal {
    Principal::try_from_slice(&[n, 1, n]).unwrap()
}

fn canister() -> Principal {
    Principal::try_from_slice(&[0, 0, 0, 0, 0, 0, 0, 9, 1, 1]).unwrap()
}

fn controller() -> Principal {
    Principal::try_from_slice(&[200, 200]).unwrap()
}

fn receiver() -> Principal {
    Principal::try_from_slice(&[100, 100, 100]).unwrap()
}

fn deposit(state: &mut State, user: u8, amount: u64, lock_period: LockPeriod, now: u64) -> u64 {
    state
        .deposit(member(user), &canister(), &DepositArgs { amount, lock_period }, now, 77)
        .unwrap()
        .stake_id
}

fn sum_of_active(state: &State) -> u64 {
    state
        .users
        .iter()
        .flat_map(|u| u.deposits.iter())
        .filter(|s| s.is_active)
        .map(|s| s.amount)
        .sum()
}

#[test]
fn constants_of_the_pool() {
    assert_eq!(MIN_DEPOSIT, 100_000);
    assert_eq!(MAX_DEPOSIT, 100_000_000_000);
    assert_eq!(TRANSFER_FEE, 10_000);
    assert_eq!(default_subaccount(), [0u8; 32]);
    assert_eq!(reward_subaccount(), [1u8; 32]);
    assert_eq!((MEMO_WITHDRAW, MEMO_REWARD, MEMO_SLASH), (0, 1, 2));
}

#[test]
fn deposit_args_are_validated() {
    let ok = |amount| {
        validate_deposit_args(&DepositArgs { amount, lock_period: LockPeriod::Days90 })
    };
    assert_eq!(ok(99_999), Err(StakingError::InvalidAmount));
    assert_eq!(ok(100_000), Ok(()));
    assert_eq!(ok(100_000_000_000), Ok(()));
    assert_eq!(ok(100_000_000_001), Err(StakingError::InvalidAmount));
    assert_eq!(ok(0), Err(StakingError::InvalidAmount));
    assert_eq!(ok(u64::MAX), Err(StakingError::InvalidAmount));
}

#[test]
fn deposit_gives_address_and_identifier() {
    let mut state = State::new();
    let args = DepositArgs { amount: 1_000_000, lock_period: LockPeriod::Days180 };
    let receipt = state.deposit(member(1), &canister(), &args, 5_000, 12345).unwrap();
    let subaccount = generate_subaccount(&member(1), 12345);
    assert_eq!(receipt.stake_id, 0);
    assert_eq!(receipt.amount, 1_000_000);
    assert_eq!(receipt.unlock_time, 5_000 + 15_552_000);
    assert_eq!(receipt.subaccount, subaccount);
    assert_eq!(receipt.account, get_account_identifier(&canister(), &subaccount));
    let stake = state.get_stake_by_id(&member(1), 0).unwrap();
    assert_eq!(stake.subaccount, subaccount);
    assert_eq!(stake.unlock_time, stake.deposit_time + LockPeriod::Days180.to_seconds());
    assert!(stake.is_active);
    assert_eq!(state.total_staked, 1_000_000);
    let second = state.deposit(member(1), &canister(), &args, 5_000, 12346).unwrap();
    assert_eq!(second.stake_id, 1);
    assert_ne!(second.account, receipt.account);
}

#[test]
fn deposit_with_an_invalid_amount_changes_nothing() {
    let mut state = State::new();
    let args = DepositArgs { amount: 99_999, lock_period: LockPeriod::Days90 };
    assert_eq!(
        state.deposit(member(1), &canister(), &args, 0, 1),
        Err(StakingError::InvalidAmount)
    );
    assert!(state.users.is_empty());
    assert_eq!(state.next_deposit_id, 0);
}

#[test]
fn confirm_checks_the_balance() {
    let mut state = State::new();
    let id = deposit(&mut state, 1, 500_000, LockPeriod::Days90, 0);
    assert_eq!(
        state.confirm_deposit(&member(1), id, Some(499_999)),
        Err(StakingError::InsufficientFunds)
    );
    assert_eq!(
        state.confirm_deposit(&member(1), id, None),
        Err(StakingError::LedgerUnavailable)
    );
    assert_eq!(
        state.confirm_deposit(&member(1), id + 1, Some(500_000)),
        Err(StakingError::StakeNotFound)
    );
    assert_eq!(
        state.confirm_deposit(&member(2), id, Some(500_000)),
        Err(StakingError::StakeNotFound)
    );
    assert!(!state.get_stake_by_id(&member(1), id).unwrap().confirmed);
    let stake = state.confirm_deposit(&member(1), id, Some(500_000)).unwrap();
    assert_eq!(stake.id, id);
    assert_eq!(stake.amount, 500_000);
    assert!(stake.confirmed);
    assert_eq!(state.get_stake_by_id(&member(1), id), Some(stake));
    assert_eq!(state.total_staked, 500_000);
    assert_eq!(
        state.confirm_deposit(&member(1), id, Some(500_000)),
        Err(StakingError::AlreadyConfirmed)
    );
    assert_eq!(
        state.confirm_deposit(&member(1), id, None),
        Err(StakingError::AlreadyConfirmed)
    );
    state.mark_withdrawn(&member(1), id).unwrap();
    assert_eq!(
        state.confirm_deposit(&member(1), id, Some(500_000)),
        Err(StakingError::StakeAlreadyWithdrawn)
    );
}

#[test]
fn confirm_begins_only_for_a_deposit_that_awaits_it() {
    let mut state = State::new();
    let id = deposit(&mut state, 1, 500_000, LockPeriod::Days90, 0);
    assert_eq!(state.confirm_begin(&member(2), id), Err(StakingError::StakeNotFound));
    assert_eq!(state.confirm_begin(&member(1), id + 1), Err(StakingError::StakeNotFound));
    assert_eq!(
        state.confirm_begin(&member(1), id),
        Ok(state.get_stake_by_id(&member(1), id).unwrap())
    );
    state.confirm_deposit(&member(1), id, Some(500_000)).unwrap();
    assert_eq!(state.confirm_begin(&member(1), id), Err(StakingError::AlreadyConfirmed));
    state.mark_withdrawn(&member(1), id).unwrap();
    assert_eq!(
        state.confirm_begin(&member(1), id),
        Err(StakingError::StakeAlreadyWithdrawn)
    );
}

#[test]
fn confirm_keeps_everything_but_the_mark() {
    let mut state = State::new();
    let a = deposit(&mut state, 1, 500_000, LockPeriod::Days90, 0);
    let b = deposit(&mut state, 1, 300_000, LockPeriod::Days180, 0);
    let before_a = state.get_stake_by_id(&member(1), a).unwrap();
    let before_b = state.get_stake_by_id(&member(1), b).unwrap();
    let confirmed = state.confirm_deposit(&member(1), b, Some(u64::MAX)).unwrap();
    assert_eq!(state.get_stake_by_id(&member(1), a), Some(before_a));
    assert_eq!(confirmed.amount, before_b.amount);
    assert_eq!(confirmed.unlock_time, before_b.unlock_time);
    assert_eq!(confirmed.subaccount, before_b.subaccount);
    assert!(confirmed.is_active);
    assert_eq!(state.total_staked, 800_000);
    assert_eq!(state.total_staked, sum_of_active(&state));
}

#[test]
fn withdraw_before_unlock_is_still_locked() {
    let mut state = State::new();
    let id = deposit(&mut state, 1, 500_000, LockPeriod::Days90, 1_000);
    assert_eq!(
        state.withdraw_begin(&member(1), id, 1_000 + DAYS_90 - 1),
        Err(StakingError::StakeStillLocked)
    );
    assert_eq!(
        state.withdraw_request(&member(1), id, 1_000 + DAYS_90 - 1, Some(500_000)),
        Err(StakingError::StakeStillLocked)
    );
    assert!(state.get_stake_by_id(&member(1), id).unwrap().is_active);
}

#[test]
fn withdraw_with_too_small_a_balance_leaves_the_position_active() {
    let mut state = State::new();
    let id = deposit(&mut state, 1, 500_000, LockPeriod::Days90, 1_000);
    let now = 1_000 + DAYS_90;
    assert_eq!(state.withdraw_begin(&member(1), id, now).unwrap().id, id);
    assert_eq!(
        state.withdraw_request(&member(1), id, now, Some(499_999)),
        Err(StakingError::InsufficientFunds)
    );
    assert!(state.get_stake_by_id(&member(1), id).unwrap().is_active);
    assert_eq!(state.total_staked, 500_000);
    assert_eq!(state.can_withdraw(&member(1), id, now), Ok(()));
}

#[test]
fn withdraw_with_an_unreachable_ledger_is_not_insufficient_funds() {
    let mut state = State::new();
    let id = deposit(&mut state, 1, 500_000, LockPeriod::Days90, 0);
    assert_eq!(
        state.withdraw_request(&member(1), id, DAYS_90, None),
        Err(StakingError::LedgerUnavailable)
    );
    assert!(state.get_stake_by_id(&member(1), id).unwrap().is_active);
}

#[test]
fn withdraw_asks_for_the_amount_less_the_fee() {
    let mut state = State::new();
    let id = deposit(&mut state, 1, 500_000, LockPeriod::Days90, 0);
    let stake = state.get_stake_by_id(&member(1), id).unwrap();
    let request = state.withdraw_request(&member(1), id, DAYS_90, Some(500_000)).unwrap();
    assert_eq!(
        request,
        TransferRequest {
            from_subaccount: Some(stake.subaccount),
            to: get_account_identifier(&member(1), &[0u8; 32]),
            amount: 490_000,
            fee: 10_000,
            memo: 0,
        }
    );
}

#[test]
fn withdraw_completes_only_with_a_receipt() {
    let mut state = State::new();
    let id = deposit(&mut state, 1, 500_000, LockPeriod::Days90, 0);
    for failure in [
        (LedgerError::InsufficientFunds, TransferFailure::InsufficientFundsAtSource),
        (LedgerError::TooOld, TransferFailure::TransferRejected),
        (LedgerError::Rejected, TransferFailure::TransferRejected),
        (LedgerError::Unavailable, TransferFailure::LedgerUnavailable),
    ] {
        assert_eq!(classify(failure.0), failure.1);
        assert_eq!(
            state.withdraw(&member(1), id, Err(failure.0)),
            Err(StakingError::TransferFailed(failure.1))
        );
        assert!(state.get_stake_by_id(&member(1), id).unwrap().is_active);
        assert_eq!(state.total_staked, 500_000);
    }
    assert_eq!(
        state.withdraw(&member(1), id, Ok(42)),
        Ok(WithdrawReceipt { amount: 500_000, block_index: 42 })
    );
    assert!(!state.get_stake_by_id(&member(1), id).unwrap().is_active);
    assert_eq!(state.total_staked, 0);
}

#[test]
fn second_withdraw_fails_as_already_withdrawn() {
    let mut state = State::new();
    let id = deposit(&mut state, 1, 500_000, LockPeriod::Days90, 0);
    deposit(&mut state, 2, 300_000, LockPeriod::Days90, 0);
    assert!(state.withdraw(&member(1), id, Ok(1)).is_ok());
    assert_eq!(
        state.withdraw_begin(&member(1), id, DAYS_90),
        Err(StakingError::StakeAlreadyWithdrawn)
    );
    assert_eq!(
        state.withdraw_request(&member(1), id, DAYS_90, Some(500_000)),
        Err(StakingError::StakeAlreadyWithdrawn)
    );
    assert_eq!(
        state.withdraw(&member(1), id, Ok(2)),
        Err(StakingError::StakeAlreadyWithdrawn)
    );
    assert_eq!(state.total_staked, 300_000);
    assert_eq!(state.total_staked, sum_of_active(&state));
}

#[test]
fn withdraw_of_an_unknown_deposit_is_not_found() {
    let mut state = State::new();
    assert_eq!(
        state.withdraw_begin(&member(1), WithdrawArgs { deposit_id: 3 }.deposit_id, 0),
        Err(StakingError::StakeNotFound)
    );
    assert_eq!(state.withdraw(&member(1), 3, Ok(1)), Err(StakingError::StakeNotFound));
}

#[test]
fn withdraw_of_what_the_fees_would_eat_fails_at_the_source() {
    let mut state = State::new();
    let id = deposit(&mut state, 1, 100_000, LockPeriod::Days90, 0);
    // a deposit cannot fall this low and stay active; the record is forced
    state.users[0].deposits[0].amount = 20_000;
    state.users[0].total_staked = 20_000;
    state.total_staked = 20_000;
    assert_eq!(
        state.withdraw_request(&member(1), id, DAYS_90, Some(20_000)),
        Err(StakingError::TransferFailed(TransferFailure::InsufficientFundsAtSource))
    );
    state.users[0].deposits[0].amount = 20_001;
    state.users[0].total_staked = 20_001;
    state.total_staked = 20_001;
    assert_eq!(
        state.withdraw_request(&member(1), id, DAYS_90, Some(20_001)).unwrap().amount,
        10_001
    );
}

#[test]
fn slash_during_a_withdrawal_is_counted_once() {
    let mut state = State::new();
    let id = deposit(&mut state, 1, 500_000, LockPeriod::Days90, 0);
    deposit(&mut state, 2, 1_500_000, LockPeriod::Days90, 0);
    // the withdrawal starts and waits for its transfer
    let request = state.withdraw_request(&member(1), id, DAYS_90, Some(500_000)).unwrap();
    assert_eq!(request.amount, 490_000);
    // meanwhile the pool is slashed
    let plan = state
        .slash_pool(&controller(), &controller(), 400_000, &receiver())
        .unwrap();
    assert_eq!(plan.total_slashed, 400_000);
    assert_eq!(state.get_stake_by_id(&member(1), id).unwrap().amount, 400_000);
    assert_eq!(state.total_staked, 1_600_000);
    assert_eq!(state.total_staked, sum_of_active(&state));
    // the transfer returns: what leaves the totals is what is there now
    let receipt = state.withdraw(&member(1), id, Ok(7)).unwrap();
    assert_eq!(receipt.amount, 400_000);
    assert_eq!(state.total_staked, 1_200_000);
    assert_eq!(state.total_staked, sum_of_active(&state));
    assert_eq!(state.users[1].deposits[0].amount, 1_200_000);
}

#[test]
fn slash_that_deactivates_a_position_stops_its_withdrawal() {
    let mut state = State::new();
    let id = deposit(&mut state, 1, 100_000, LockPeriod::Days90, 0);
    deposit(&mut state, 2, 100_000, LockPeriod::Days90, 0);
    assert!(state.withdraw_request(&member(1), id, DAYS_90, Some(100_000)).is_ok());
    state.slash_pool(&controller(), &controller(), 100_000, &receiver()).unwrap();
    assert_eq!(
        state.withdraw(&member(1), id, Ok(7)),
        Err(StakingError::StakeAlreadyWithdrawn)
    );
    assert_eq!(state.total_staked, 0);
    assert_eq!(state.total_staked, sum_of_active(&state));
}

#[test]
fn only_the_controller_distributes() {
    assert_eq!(
        check_distribution(&member(1), &controller(), 5),
        Err(StakingError::Unauthorized)
    );
    assert_eq!(
        check_distribution(&member(1), &controller(), 0),
        Err(StakingError::Unauthorized)
    );
    assert_eq!(
        check_distribution(&controller(), &controller(), 0),
        Err(StakingError::InvalidAmount)
    );
    assert_eq!(check_distribution(&controller(), &controller(), 1), Ok(()));
}

#[test]
fn reward_round_over_two_tiers() {
    let mut state = State::new();
    deposit(&mut state, 1, 1_000_000, LockPeriod::Days90, 0);
    deposit(&mut state, 2, 1_000_000, LockPeriod::Days360, 0);
    let amount = RewardPoolArgs { amount: 300_000 }.amount;
    let shares = state
        .reward_pool(&controller(), &controller(), amount, Some(310_000))
        .unwrap();
    assert_eq!(shares, vec![(member(1), 100_000), (member(2), 200_000)]);
    let sum: u64 = shares.iter().map(|s| s.1).sum();
    assert!(sum <= amount);
}

#[test]
fn reward_round_is_refused_in_order() {
    let mut state = State::new();
    let c = controller();
    assert_eq!(
        state.reward_pool(&member(1), &c, 0, None),
        Err(StakingError::Unauthorized)
    );
    assert_eq!(
        state.reward_pool(&c, &c, 0, None),
        Err(StakingError::InvalidAmount)
    );
    assert_eq!(
        state.reward_pool(&c, &c, 100, None),
        Err(StakingError::LedgerUnavailable)
    );
    assert_eq!(
        state.reward_pool(&c, &c, 100, Some(10_099)),
        Err(StakingError::InsufficientFunds)
    );
    assert_eq!(
        state.reward_pool(&c, &c, u64::MAX, Some(u64::MAX)),
        Err(StakingError::InsufficientFunds)
    );
    assert_eq!(
        state.reward_pool(&c, &c, 100, Some(10_100)),
        Err(StakingError::NoEligiblePositions)
    );
    deposit(&mut state, 1, 100_000, LockPeriod::Days90, 0);
    assert_eq!(
        state.reward_pool(&c, &c, 100, Some(10_100)),
        Ok(vec![(member(1), 100)])
    );
}

#[test]
fn reward_transfer_needs_more_than_the_fees() {
    assert_eq!(reward_request(&member(1), 0), None);
    assert_eq!(reward_request(&member(1), 10_000), None);
    assert_eq!(reward_request(&member(1), 20_000), None);
    assert_eq!(
        reward_request(&member(1), 20_001),
        Some(TransferRequest {
            from_subaccount: Some([1u8; 32]),
            to: get_account_identifier(&member(1), &[0u8; 32]),
            amount: 10_001,
            fee: 10_000,
            memo: 1,
        })
    );
}

#[test]
fn reward_is_credited_only_after_its_transfer() {
    let mut state = State::new();
    deposit(&mut state, 1, 1_000_000, LockPeriod::Days90, 0);
    deposit(&mut state, 2, 1_000_000, LockPeriod::Days360, 0);
    let shares = state
        .reward_pool(&controller(), &controller(), 300_000, Some(1_000_000))
        .unwrap();
    // the first transfer fails, the second succeeds
    assert!(!state.reward_settle(&shares[0].0, shares[0].1, Err(LedgerError::Rejected)));
    assert_eq!(state.total_staked, 2_000_000);
    assert_eq!(state.total_rewards_distributed, 0);
    assert!(state.reward_settle(&shares[1].0, shares[1].1, Ok(5)));
    assert_eq!(state.users[0].deposits[0].amount, 1_000_000);
    assert_eq!(state.users[1].deposits[0].amount, 1_200_000);
    assert_eq!(state.total_staked, 2_200_000);
    assert_eq!(state.total_rewards_distributed, 200_000);
    assert_eq!(state.get_user_rewards(&member(1)), 0);
    assert_eq!(state.get_user_rewards(&member(2)), 190_000);
    assert_eq!(state.total_staked, sum_of_active(&state));
}

#[test]
fn reward_for_a_position_that_left_meanwhile_is_dropped() {
    let mut state = State::new();
    let id = deposit(&mut state, 1, 1_000_000, LockPeriod::Days90, 0);
    let shares = state
        .reward_pool(&controller(), &controller(), 50_000, Some(1_000_000))
        .unwrap();
    state.withdraw(&member(1), id, Ok(1)).unwrap();
    // the transfer went through, so it counts; no deposit is left to credit
    assert!(!state.reward_settle(&shares[0].0, shares[0].1, Ok(2)));
    assert_eq!(state.total_staked, 0);
    assert_eq!(state.users[0].deposits[0].amount, 1_000_000);
    assert_eq!(state.total_rewards_distributed, 50_000);
    assert_eq!(state.get_user_rewards(&member(1)), 40_000);
}

#[test]
fn distributed_total_counts_exactly_the_confirmed_transfers() {
    let mut state = State::new();
    deposit(&mut state, 1, 1_000_000, LockPeriod::Days90, 0);
    deposit(&mut state, 2, 1_000_000, LockPeriod::Days90, 0);
    deposit(&mut state, 3, 2_000_000, LockPeriod::Days90, 0);
    let shares = state
        .reward_pool(&controller(), &controller(), 400_000, Some(1_000_000))
        .unwrap();
    assert_eq!(
        shares,
        vec![(member(1), 100_000), (member(2), 100_000), (member(3), 200_000)]
    );
    assert!(state.reward_settle(&shares[0].0, shares[0].1, Ok(1)));
    assert!(!state.reward_settle(&shares[1].0, shares[1].1, Err(LedgerError::Unavailable)));
    assert!(state.reward_settle(&shares[2].0, shares[2].1, Ok(2)));
    assert_eq!(state.total_rewards_distributed, 300_000);
    assert_eq!(state.total_staked, 4_300_000);
    assert_eq!(state.total_staked, sum_of_active(&state));
    assert_eq!(state.get_user_rewards(&member(1)), 90_000);
    assert_eq!(state.get_user_rewards(&member(2)), 0);
    assert_eq!(state.get_user_rewards(&member(3)), 190_000);
}

#[test]
fn slash_of_a_quarter_position() {
    let mut state = State::new();
    deposit(&mut state, 1, 500_000, LockPeriod::Days90, 0);
    deposit(&mut state, 2, 1_500_000, LockPeriod::Days360, 0);
    assert_eq!(state.total_staked, 2_000_000);
    let args = SlashPoolArgs { amount: 400_000, receiver: receiver() };
    let plan = state
        .slash_pool(&controller(), &controller(), args.amount, &args.receiver)
        .unwrap();
    assert_eq!(plan.shares, vec![(member(1), 100_000), (member(2), 300_000)]);
    assert_eq!(plan.total_slashed, 400_000);
    assert_eq!(state.users[0].deposits[0].amount, 400_000);
    assert_eq!(state.users[1].deposits[0].amount, 1_200_000);
    assert_eq!(state.total_staked, 1_600_000);
    assert_eq!(
        plan.transfer,
        Ok(TransferRequest {
            from_subaccount: None,
            to: get_account_identifier(&receiver(), &[0u8; 32]),
            amount: 390_000,
            fee: 10_000,
            memo: 2,
        })
    );
    assert_eq!(state.total_slashed, 0);
    assert_eq!(state.slash_settle(plan.total_slashed, Ok(11)), Ok(11));
    assert_eq!(state.total_slashed, 400_000);
}

#[test]
fn slash_is_refused_in_order() {
    let mut state = State::new();
    let c = controller();
    let anonymous = Principal::anonymous();
    assert!(matches!(
        state.slash_pool(&member(1), &c, 0, &anonymous),
        Err(StakingError::Unauthorized)
    ));
    assert!(matches!(
        state.slash_pool(&c, &c, 0, &anonymous),
        Err(StakingError::InvalidAmount)
    ));
    assert!(matches!(
        state.slash_pool(&c, &c, 5, &anonymous),
        Err(StakingError::InvalidReceiver)
    ));
    assert!(matches!(
        state.slash_pool(&c, &c, 5, &receiver()),
        Err(StakingError::InvalidAmount)
    ));
    deposit(&mut state, 1, 500_000, LockPeriod::Days90, 0);
    assert!(matches!(
        state.slash_pool(&c, &c, 5, &anonymous),
        Err(StakingError::InvalidReceiver)
    ));
    assert_eq!(state.total_staked, 500_000);
    assert!(state.slash_pool(&c, &c, 5, &receiver()).is_ok());
    assert_eq!(state.total_staked, 499_995);
}

#[test]
fn failed_sweep_keeps_the_deductions() {
    let mut state = State::new();
    deposit(&mut state, 1, 500_000, LockPeriod::Days90, 0);
    let plan = state
        .slash_pool(&controller(), &controller(), 100_000, &receiver())
        .unwrap();
    assert_eq!(
        state.slash_settle(plan.total_slashed, Err(LedgerError::Unavailable)),
        Err(StakingError::TransferFailed(TransferFailure::LedgerUnavailable))
    );
    assert_eq!(state.users[0].deposits[0].amount, 400_000);
    assert_eq!(state.total_staked, 400_000);
    assert_eq!(state.total_slashed, 0);
}

#[test]
fn sweep_needs_more_than_the_fees() {
    assert_eq!(sweep_request(&receiver(), 0), Err(StakingError::InvalidAmount));
    assert_eq!(sweep_request(&receiver(), 10_000), Err(StakingError::InvalidAmount));
    assert_eq!(
        sweep_request(&receiver(), 10_001),
        Err(StakingError::TransferFailed(TransferFailure::InsufficientFundsAtSource))
    );
    assert_eq!(
        sweep_request(&receiver(), 20_000),
        Err(StakingError::TransferFailed(TransferFailure::InsufficientFundsAtSource))
    );
    assert_eq!(sweep_request(&receiver(), 20_001).unwrap().amount, 10_001);
}

#[test]
fn small_slash_deducts_but_cannot_be_swept() {
    let mut state = State::new();
    deposit(&mut state, 1, 500_000, LockPeriod::Days90, 0);
    let plan = state
        .slash_pool(&controller(), &controller(), 10_000, &receiver())
        .unwrap();
    assert_eq!(plan.total_slashed, 10_000);
    assert_eq!(plan.transfer, Err(StakingError::InvalidAmount));
    assert_eq!(state.total_staked, 490_000);
}

#[test]
fn slash_of_more_than_is_staked_takes_everything() {
    let mut state = State::new();
    deposit(&mut state, 1, 500_000, LockPeriod::Days90, 0);
    deposit(&mut state, 2, 300_000, LockPeriod::Days90, 0);
    let plan = state
        .slash_pool(&controller(), &controller(), 1_600_000, &receiver())
        .unwrap();
    assert_eq!(plan.shares, vec![(member(1), 1_000_000), (member(2), 600_000)]);
    assert_eq!(plan.total_slashed, 800_000);
    assert_eq!(state.total_staked, 0);
    assert_eq!(state.total_staked, sum_of_active(&state));
}

#[test]
fn transfer_is_refused_at_or_below_the_fee() {
    assert_eq!(
        transfer_icp(None, [5u8; 32], 10_000, 0),
        Err(TransferFailure::InsufficientFundsAtSource)
    );
    assert_eq!(
        transfer_icp(None, [5u8; 32], 0, 0),
        Err(TransferFailure::InsufficientFundsAtSource)
    );
    assert_eq!(
        transfer_icp(Some([6u8; 32]), [5u8; 32], 10_001, 3),
        Ok(TransferRequest {
            from_subaccount: Some([6u8; 32]),
            to: [5u8; 32],
            amount: 10_001,
            fee: 10_000,
            memo: 3,
        })
    );
}

#[test]
fn transfer_from_a_subaccount_deducts_the_fee() {
    assert_eq!(
        transfer_from_subaccount([6u8; 32], &member(1), 20_000),
        Err(TransferFailure::InsufficientFundsAtSource)
    );
    assert_eq!(
        transfer_from_subaccount([6u8; 32], &member(1), 1_000_000),
        Ok(TransferRequest {
            from_subaccount: Some([6u8; 32]),
            to: get_account_identifier(&member(1), &[0u8; 32]),
            amount: 990_000,
            fee: 10_000,
            memo: 0,
        })
    );
}
