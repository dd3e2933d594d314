//! The decisions of the public operations. Every operation that needs the
//! ledger is cut at the points where it waits: each function here takes what
//! the ledger answered, looks at the pool as it is now, and either changes
//! the pool or says what to ask of the ledger next.

use crate::address::{
    account_identifier_bytes, be_bytes, generate_subaccount, get_account_identifier, sha256_digest,
};
use crate::ledger::{
    classify, default_subaccount, filled, reward_subaccount, spec_classify,
    transfer_from_subaccount, transfer_icp, LedgerError, TransferRequest, MEMO_REWARD, MEMO_SLASH,
    MEMO_WITHDRAW,
};
use crate::rewards::reward_one;
use crate::shares::{
    compute_reward_shares, compute_slash_shares, reward_shares, shares_sum, slash_shares,
};
use crate::slashing::{slashed_pool, slashed_total};
use crate::snapshot::snapshot;
use crate::state::{
    deposit_error, find_stake, floor_at, lemma_with_replaced, mark_result, with_replaced,
    with_stake, with_tally, with_user, withdraw_check, withdrawn, State, StateView,
};
use crate::totals::{active_count, user_index};
use crate::types::{
    DepositArgs, Principal, Stake, StakingError, TransferFailure, UserView, MAX_DEPOSIT,
    MIN_DEPOSIT, TRANSFER_FEE,
};
use vstd::prelude::*;

verus! {

/// What a depositor is told: where to send the funds, and what was recorded.
#[derive(Clone, Copy, Debug, PartialEq, Eq)]
pub struct DepositReceipt {
    pub stake_id: u64,
    /// Account identifier that collects the funds of this deposit.
    pub account: [u8; 32],
    /// Subaccount of the pool behind that account.
    pub subaccount: [u8; 32],
    pub amount: u64,
    pub unlock_time: u64,
}

/// What a completed withdrawal reports.
#[derive(Clone, Copy, Debug, PartialEq, Eq, Structural)]
pub struct WithdrawReceipt {
    /// Amount that left the pool's totals.
    pub amount: u64,
    /// Block of the ledger that holds the transfer.
    pub block_index: u64,
}

/// What a slash did, and the sweep that is to follow.
#[derive(Debug)]
pub struct SlashPlan {
    /// The share asked of every position of the snapshot.
    pub shares: Vec<(Principal, u64)>,
    /// What was actually deducted.
    pub total_slashed: u64,
    /// The transfer that moves the deducted funds, or why there is none.
    pub transfer: Result<TransferRequest, StakingError>,
}

/// Whether the amount of a deposit lies within the accepted bounds.
pub fn validate_deposit_args(args: &DepositArgs) -> (r: Result<(), StakingError>)
    ensures
        r == if args.amount < MIN_DEPOSIT || args.amount > MAX_DEPOSIT {
            Err::<(), StakingError>(StakingError::InvalidAmount)
        } else {
            Ok::<(), StakingError>(())
        },
{
    if args.amount < MIN_DEPOSIT {
        return Err(StakingError::InvalidAmount);
    }
    if args.amount > MAX_DEPOSIT {
        return Err(StakingError::InvalidAmount);
    }
    Ok(())
}

/// Why a distribution is refused before anything else is looked at: only
/// the controller may distribute, and only a positive amount.
pub open spec fn distribution_error(caller: Seq<u8>, controller: Seq<u8>, amount: u64) -> Option<
    StakingError,
> {
    if caller != controller {
        Some(StakingError::Unauthorized)
    } else if amount == 0 {
        Some(StakingError::InvalidAmount)
    } else {
        None
    }
}

/// Checks the caller and the amount of a reward or a slash.
pub fn check_distribution(caller: &Principal, controller: &Principal, amount: u64) -> (r: Result<
    (),
    StakingError,
>)
    ensures
        r == match distribution_error(caller@, controller@, amount) {
            Some(e) => Err::<(), StakingError>(e),
            None => Ok::<(), StakingError>(()),
        },
{
    if !caller.same(controller) {
        return Err(StakingError::Unauthorized);
    }
    if amount == 0 {
        return Err(StakingError::InvalidAmount);
    }
    Ok(())
}

/// The deposit that a withdrawal at time `now` may return, given the
/// balance found at its collection account; `None` stands for a ledger that
/// did not answer. A deposit is returned only if it exists, is active and
/// unlocked, is covered by the balance, and leaves something above the fees.
pub open spec fn withdraw_plan(
    users: Seq<UserView>,
    principal: Seq<u8>,
    stake_id: u64,
    now: u64,
    balance: Option<u64>,
) -> Result<Stake, StakingError> {
    match withdraw_check(users, principal, stake_id, now) {
        Err(e) => Err(e),
        Ok(_) => {
            let stake = find_stake(users, principal, stake_id).unwrap().1;
            match balance {
                None => Err(StakingError::LedgerUnavailable),
                Some(b) => if b < stake.amount {
                    Err(StakingError::InsufficientFunds)
                } else if stake.amount <= 2 * TRANSFER_FEE {
                    Err(StakingError::TransferFailed(TransferFailure::InsufficientFundsAtSource))
                } else {
                    Ok(stake)
                },
            }
        },
    }
}

/// The deposit that still awaits confirmation: it exists, is active, and
/// was not confirmed before.
pub open spec fn confirm_check(users: Seq<UserView>, principal: Seq<u8>, stake_id: u64) -> Result<
    Stake,
    StakingError,
> {
    match find_stake(users, principal, stake_id) {
        None => Err(StakingError::StakeNotFound),
        Some((_, stake)) => if !stake.is_active {
            Err(StakingError::StakeAlreadyWithdrawn)
        } else if stake.confirmed {
            Err(StakingError::AlreadyConfirmed)
        } else {
            Ok(stake)
        },
    }
}

/// The deposit that the balance found at its collection account confirms
/// as funded, as it stands once confirmed; `None` stands for a ledger that
/// did not answer. A deposit is confirmed once, while it is active, and
/// only by a balance that covers its amount.
pub open spec fn confirm_plan(
    users: Seq<UserView>,
    principal: Seq<u8>,
    stake_id: u64,
    balance: Option<u64>,
) -> Result<Stake, StakingError> {
    match confirm_check(users, principal, stake_id) {
        Err(e) => Err(e),
        Ok(stake) => match balance {
            None => Err(StakingError::LedgerUnavailable),
            Some(b) => if b < stake.amount {
                Err(StakingError::InsufficientFunds)
            } else {
                Ok(Stake { confirmed: true, ..stake })
            },
        },
    }
}

/// The pool after a confirmation: a confirmed deposit is marked as such,
/// and nothing else changes.
pub open spec fn confirmed_pool(
    st: StateView,
    principal: Seq<u8>,
    stake_id: u64,
    balance: Option<u64>,
) -> StateView {
    match confirm_plan(st.users, principal, stake_id, balance) {
        Err(_) => st,
        Ok(stake) => StateView {
            users: with_replaced(
                st.users,
                user_index(st.users, principal),
                find_stake(st.users, principal, stake_id).unwrap().0,
                stake,
            ),
            ..st
        },
    }
}

/// Why a reward round cannot start, if it cannot.
pub open spec fn reward_pool_error(
    st: StateView,
    caller: Seq<u8>,
    controller: Seq<u8>,
    amount: u64,
    balance: Option<u64>,
) -> Option<StakingError> {
    match distribution_error(caller, controller, amount) {
        Some(e) => Some(e),
        None => match balance {
            None => Some(StakingError::LedgerUnavailable),
            Some(b) => if b < amount + TRANSFER_FEE {
                Some(StakingError::InsufficientFunds)
            } else if st.total_staked == 0 {
                Some(StakingError::NoEligiblePositions)
            } else {
                None
            },
        },
    }
}

/// Why a slash cannot start, if it cannot.
pub open spec fn slash_pool_error(
    st: StateView,
    caller: Seq<u8>,
    controller: Seq<u8>,
    amount: u64,
    receiver: Seq<u8>,
) -> Option<StakingError> {
    match distribution_error(caller, controller, amount) {
        Some(e) => Some(e),
        None => if receiver == Principal::anonymous_bytes() {
            Some(StakingError::InvalidReceiver)
        } else if st.total_staked == 0 {
            Some(StakingError::InvalidAmount)
        } else {
            None
        },
    }
}

/// Whether a credit of `share` to the user applies: the user has an active
/// deposit and the pool-wide total stays within 64 bits.
pub open spec fn reward_applies(st: StateView, principal: Seq<u8>, share: u64) -> bool {
    let i = user_index(st.users, principal);
    i < st.users.len() && active_count(st.users[i].deposits) > 0 && st.total_staked + share
        <= u64::MAX
}

/// Sum of two counters that stops at the largest 64-bit value.
pub open spec fn capped_sum(a: u64, b: u64) -> u64 {
    if a + b > u64::MAX {
        u64::MAX
    } else {
        (a + b) as u64
    }
}

/// What of a share reaches its recipient once the ledger has taken the fee.
pub open spec fn net_of_fee(share: u64) -> u64 {
    if share > TRANSFER_FEE {
        (share - TRANSFER_FEE) as u64
    } else {
        0
    }
}

/// The pool after the transfer of one recipient's reward has returned. A
/// failed transfer changes nothing. A confirmed one counts in full towards
/// the distributed total, adds what was transferred to the recipient's
/// tally, and credits the share to the recipient's deposits where that
/// credit applies.
pub open spec fn reward_settled(st: StateView, principal: Principal, share: u64, confirmed: bool)
    -> StateView {
    if !confirmed {
        st
    } else {
        let credited = reward_one(st, principal@, share);
        StateView {
            users: with_tally(
                with_user(credited.users, principal),
                user_index(credited.users, principal@),
                net_of_fee(share),
            ),
            total_rewards_distributed: capped_sum(st.total_rewards_distributed, share),
            ..credited
        }
    }
}

/// The request that pays `share`, less the fee, to the default account of
/// `owner` out of the reward funds. There is none for a share that leaves
/// nothing above the fees.
pub fn reward_request(owner: &Principal, share: u64) -> (r: Option<TransferRequest>)
    ensures
        share <= 2 * TRANSFER_FEE ==> r.is_none(),
        share > 2 * TRANSFER_FEE ==> r.is_some() && r.unwrap().from_subaccount.is_some()
            && r.unwrap().from_subaccount.unwrap()@ == filled(1) && r.unwrap().to@
            == account_identifier_bytes(owner@, filled(0)) && r.unwrap().amount == share
            - TRANSFER_FEE && r.unwrap().fee == TRANSFER_FEE && r.unwrap().memo == MEMO_REWARD,
{
    if share <= TRANSFER_FEE {
        return None;
    }
    let subaccount = default_subaccount();
    let account = get_account_identifier(owner, &subaccount);
    match transfer_icp(Some(reward_subaccount()), account, share - TRANSFER_FEE, MEMO_REWARD) {
        Ok(request) => Some(request),
        Err(_) => None,
    }
}

/// The request that sweeps `total`, less the fee, from the pool's default
/// account to the default account of `receiver`.
pub fn sweep_request(receiver: &Principal, total: u64) -> (r: Result<TransferRequest, StakingError>)
    ensures
        total <= TRANSFER_FEE ==> r == Err::<TransferRequest, StakingError>(
            StakingError::InvalidAmount,
        ),
        TRANSFER_FEE < total <= 2 * TRANSFER_FEE ==> r == Err::<TransferRequest, StakingError>(
            StakingError::TransferFailed(TransferFailure::InsufficientFundsAtSource),
        ),
        total > 2 * TRANSFER_FEE ==> r.is_ok() && r.unwrap().from_subaccount.is_none()
            && r.unwrap().to@ == account_identifier_bytes(receiver@, filled(0))
            && r.unwrap().amount == total - TRANSFER_FEE && r.unwrap().fee == TRANSFER_FEE
            && r.unwrap().memo == MEMO_SLASH,
{
    if total <= TRANSFER_FEE {
        return Err(StakingError::InvalidAmount);
    }
    let subaccount = default_subaccount();
    let account = get_account_identifier(receiver, &subaccount);
    match transfer_icp(None, account, total - TRANSFER_FEE, MEMO_SLASH) {
        Ok(request) => Ok(request),
        Err(e) => Err(StakingError::TransferFailed(e)),
    }
}

impl State {
    /// Records a deposit of `user` made at time `now` and says where its
    /// funds are to be sent: the account of `canister` under a subaccount
    /// derived from the user and `nonce`.
    pub fn deposit(
        &mut self,
        user: Principal,
        canister: &Principal,
        args: &DepositArgs,
        now: u64,
        nonce: u64,
    ) -> (r: Result<DepositReceipt, StakingError>)
        requires
            old(self).wf(),
        ensures
            final(self).wf(),
            match deposit_error(old(self)@, args.amount, args.lock_period, now) {
                Some(e) => r == Err::<DepositReceipt, StakingError>(e) && final(self)@ == old(
                    self,
                )@,
                None => r.is_ok() && {
                    let receipt = r.unwrap();
                    &&& receipt.stake_id == old(self)@.next_deposit_id
                    &&& receipt.amount == args.amount
                    &&& receipt.unlock_time == now + args.lock_period.spec_seconds()
                    &&& receipt.subaccount@ == sha256_digest(user@ + be_bytes(nonce))
                    &&& receipt.account@ == account_identifier_bytes(
                        canister@,
                        receipt.subaccount@,
                    )
                    &&& final(self)@ == (StateView {
                        users: with_stake(
                            old(self)@.users,
                            user,
                            Stake {
                                id: receipt.stake_id,
                                amount: args.amount,
                                lock_period: args.lock_period,
                                deposit_time: now,
                                unlock_time: receipt.unlock_time,
                                subaccount: receipt.subaccount,
                                is_active: true,
                                confirmed: false,
                            },
                        ),
                        total_staked: (old(self)@.total_staked + args.amount) as u64,
                        next_deposit_id: (old(self)@.next_deposit_id + 1) as u64,
                        ..old(self)@
                    })
                },
            },
    {
        match validate_deposit_args(args) {
            Err(e) => {
                return Err(e);
            },
            Ok(_) => {},
        }
        let subaccount = generate_subaccount(&user, nonce);
        let account = get_account_identifier(canister, &subaccount);
        match self.add_deposit(user, args.amount, args.lock_period, now, subaccount) {
            Err(e) => Err(e),
            Ok(stake_id) => Ok(
                DepositReceipt {
                    stake_id,
                    account,
                    subaccount,
                    amount: args.amount,
                    unlock_time: now + args.lock_period.to_seconds(),
                },
            ),
        }
    }

    /// First step of a confirmation: the deposit that awaits it, whose
    /// collection account is to be queried next.
    pub fn confirm_begin(&self, user: &Principal, stake_id: u64) -> (r: Result<Stake, StakingError>)
        ensures
            r == confirm_check(self@.users, user@, stake_id),
    {
        match self.find_stake_by_id(user, stake_id) {
            None => Err(StakingError::StakeNotFound),
            Some((_, stake)) => {
                if !stake.is_active {
                    Err(StakingError::StakeAlreadyWithdrawn)
                } else if stake.confirmed {
                    Err(StakingError::AlreadyConfirmed)
                } else {
                    Ok(stake)
                }
            },
        }
    }

    /// Confirms that the funds of a deposit have arrived, given the balance
    /// found at its collection account. The deposit is looked up as it is
    /// now; only a balance that covers it marks it confirmed, and nothing
    /// else changes.
    pub fn confirm_deposit(&mut self, user: &Principal, stake_id: u64, balance: Option<u64>) -> (r:
        Result<Stake, StakingError>)
        requires
            old(self).wf(),
        ensures
            final(self).wf(),
            r == confirm_plan(old(self)@.users, user@, stake_id, balance),
            final(self)@ == confirmed_pool(old(self)@, user@, stake_id, balance),
    {
        let (k, stake) = match self.find_stake_by_id(user, stake_id) {
            None => {
                return Err(StakingError::StakeNotFound);
            },
            Some(found) => found,
        };
        if !stake.is_active {
            return Err(StakingError::StakeAlreadyWithdrawn);
        }
        if stake.confirmed {
            return Err(StakingError::AlreadyConfirmed);
        }
        let b = match balance {
            None => {
                return Err(StakingError::LedgerUnavailable);
            },
            Some(b) => b,
        };
        if b < stake.amount {
            return Err(StakingError::InsufficientFunds);
        }
        let i = match self.find_user(user) {
            Some(i) => i,
            None => {
                return Err(StakingError::StakeNotFound);
            },
        };
        let ghost before = self@;
        let updated = Stake { confirmed: true, ..stake };
        proof {
            assert(floor_at(before.users, i as int, k as int));
            lemma_with_replaced(before, i as int, k as int, updated);
        }
        self.users[i].deposits[k].confirmed = true;
        proof {
            assert(self@.users =~= with_replaced(before.users, i as int, k as int, updated));
        }
        Ok(updated)
    }

    /// First step of a withdrawal: the deposit that may leave at time
    /// `now`, whose collection account is to be queried next.
    pub fn withdraw_begin(&self, user: &Principal, stake_id: u64, now: u64) -> (r: Result<
        Stake,
        StakingError,
    >)
        ensures
            r == match withdraw_check(self@.users, user@, stake_id, now) {
                Err(e) => Err::<Stake, StakingError>(e),
                Ok(_) => Ok::<Stake, StakingError>(
                    find_stake(self@.users, user@, stake_id).unwrap().1,
                ),
            },
    {
        match self.can_withdraw(user, stake_id, now) {
            Err(e) => Err(e),
            Ok(_) => {
                match self.find_stake_by_id(user, stake_id) {
                    None => Err(StakingError::StakeNotFound),
                    Some((_, stake)) => Ok(stake),
                }
            },
        }
    }

    /// Second step of a withdrawal, taken when the balance of the
    /// collection account is known: looks at the deposit again and, if it
    /// may still leave and is covered, gives the transfer that returns it.
    pub fn withdraw_request(&self, user: &Principal, stake_id: u64, now: u64, balance: Option<u64>)
        -> (r: Result<TransferRequest, StakingError>)
        ensures
            match withdraw_plan(self@.users, user@, stake_id, now, balance) {
                Err(e) => r == Err::<TransferRequest, StakingError>(e),
                Ok(stake) => r.is_ok() && r.unwrap().from_subaccount == Some(stake.subaccount)
                    && r.unwrap().to@ == account_identifier_bytes(user@, filled(0))
                    && r.unwrap().amount == stake.amount - TRANSFER_FEE && r.unwrap().fee
                    == TRANSFER_FEE && r.unwrap().memo == MEMO_WITHDRAW,
            },
    {
        let stake = match self.withdraw_begin(user, stake_id, now) {
            Err(e) => {
                return Err(e);
            },
            Ok(stake) => stake,
        };
        match balance {
            None => Err(StakingError::LedgerUnavailable),
            Some(b) => {
                if b < stake.amount {
                    return Err(StakingError::InsufficientFunds);
                }
                match transfer_from_subaccount(stake.subaccount, user, stake.amount) {
                    Ok(request) => Ok(request),
                    Err(e) => Err(StakingError::TransferFailed(e)),
                }
            },
        }
    }

    /// Last step of a withdrawal, taken when the transfer has returned.
    /// Only a receipt marks the deposit withdrawn, and it is the deposit as
    /// it is now that leaves the totals; a failed transfer changes nothing.
    pub fn withdraw(&mut self, user: &Principal, stake_id: u64, outcome: Result<u64, LedgerError>)
        -> (r: Result<WithdrawReceipt, StakingError>)
        requires
            old(self).wf(),
        ensures
            final(self).wf(),
            match outcome {
                Err(e) => r == Err::<WithdrawReceipt, StakingError>(
                    StakingError::TransferFailed(spec_classify(e)),
                ) && final(self)@ == old(self)@,
                Ok(block_index) => final(self)@ == withdrawn(old(self)@, user@, stake_id) && r
                    == match mark_result(old(self)@.users, user@, stake_id) {
                    Err(e) => Err::<WithdrawReceipt, StakingError>(e),
                    Ok(amount) => Ok::<WithdrawReceipt, StakingError>(
                        WithdrawReceipt { amount, block_index },
                    ),
                },
            },
            final(self)@ != old(self)@ ==> outcome.is_ok(),
    {
        match outcome {
            Err(e) => Err(StakingError::TransferFailed(classify(e))),
            Ok(block_index) => {
                match self.mark_withdrawn(user, stake_id) {
                    Err(e) => Err(e),
                    Ok(amount) => Ok(WithdrawReceipt { amount, block_index }),
                }
            },
        }
    }

    /// First step of a reward round, taken when the balance of the reward
    /// funds is known: the share of every active position, computed over the
    /// pool as it is now.
    pub fn reward_pool(
        &self,
        caller: &Principal,
        controller: &Principal,
        amount: u64,
        balance: Option<u64>,
    ) -> (r: Result<Vec<(Principal, u64)>, StakingError>)
        requires
            self.wf(),
        ensures
            match reward_pool_error(self@, caller@, controller@, amount, balance) {
                Some(e) => r == Err::<Vec<(Principal, u64)>, StakingError>(e),
                None => r.is_ok() && r.unwrap()@ == reward_shares(snapshot(self@.users), amount)
                    && shares_sum(r.unwrap()@) <= amount,
            },
    {
        match check_distribution(caller, controller, amount) {
            Err(e) => {
                return Err(e);
            },
            Ok(_) => {},
        }
        let b = match balance {
            None => {
                return Err(StakingError::LedgerUnavailable);
            },
            Some(b) => b,
        };
        if amount > u64::MAX - TRANSFER_FEE || b < amount + TRANSFER_FEE {
            return Err(StakingError::InsufficientFunds);
        }
        let positions = self.get_all_active_stakes();
        compute_reward_shares(amount, &positions)
    }

    /// Step of a reward round taken when the transfer to one recipient has
    /// returned. Only a receipt credits the recipient and counts towards
    /// the distributed total; a failed transfer changes nothing. Returns
    /// whether the share was credited to the recipient's deposits.
    pub fn reward_settle(
        &mut self,
        owner: &Principal,
        share: u64,
        outcome: Result<u64, LedgerError>,
    ) -> (r: bool)
        requires
            old(self).wf(),
        ensures
            final(self).wf(),
            final(self)@ == reward_settled(old(self)@, *owner, share, outcome.is_ok()),
            r == (outcome.is_ok() && reward_applies(old(self)@, owner@, share)),
            final(self)@ != old(self)@ ==> outcome.is_ok(),
    {
        match outcome {
            Err(_) => false,
            Ok(_) => {
                let credited = self.apply_reward(owner, share);
                self.add_user_reward(*owner, share.saturating_sub(TRANSFER_FEE));
                self.total_rewards_distributed = self.total_rewards_distributed.saturating_add(
                    share,
                );
                credited
            },
        }
    }

    /// A slash of `amount`: computes the share of every active position
    /// over the pool as it is now, deducts the shares at once, and gives the
    /// transfer that sweeps what was deducted to `receiver`. Nothing changes
    /// when the slash is refused.
    pub fn slash_pool(
        &mut self,
        caller: &Principal,
        controller: &Principal,
        amount: u64,
        receiver: &Principal,
    ) -> (r: Result<SlashPlan, StakingError>)
        requires
            old(self).wf(),
        ensures
            final(self).wf(),
            match slash_pool_error(old(self)@, caller@, controller@, amount, receiver@) {
                Some(e) => r.is_err() && r.unwrap_err() == e && final(self)@ == old(self)@,
                None => r.is_ok() && {
                    let plan = r.unwrap();
                    &&& plan.shares@ == slash_shares(snapshot(old(self)@.users), amount)
                    &&& final(self)@ == slashed_pool(old(self)@, plan.shares@)
                    &&& plan.total_slashed == slashed_total(old(self)@, plan.shares@)
                    &&& plan.total_slashed + final(self)@.total_staked <= old(
                        self,
                    )@.total_staked
                    &&& plan.total_slashed <= TRANSFER_FEE ==> plan.transfer == Err::<
                        TransferRequest,
                        StakingError,
                    >(StakingError::InvalidAmount)
                    &&& TRANSFER_FEE < plan.total_slashed <= 2 * TRANSFER_FEE ==> plan.transfer
                        == Err::<TransferRequest, StakingError>(
                        StakingError::TransferFailed(TransferFailure::InsufficientFundsAtSource),
                    )
                    &&& plan.total_slashed > 2 * TRANSFER_FEE ==> plan.transfer.is_ok()
                        && plan.transfer.unwrap().from_subaccount.is_none()
                        && plan.transfer.unwrap().to@ == account_identifier_bytes(
                        receiver@,
                        filled(0),
                    ) && plan.transfer.unwrap().amount == plan.total_slashed - TRANSFER_FEE
                        && plan.transfer.unwrap().fee == TRANSFER_FEE
                        && plan.transfer.unwrap().memo == MEMO_SLASH
                },
            },
    {
        match check_distribution(caller, controller, amount) {
            Err(e) => {
                return Err(e);
            },
            Ok(_) => {},
        }
        if receiver.is_anonymous() {
            return Err(StakingError::InvalidReceiver);
        }
        if self.total_staked == 0 {
            return Err(StakingError::InvalidAmount);
        }
        let positions = self.get_all_active_stakes();
        let shares = match compute_slash_shares(amount, &positions) {
            Err(e) => {
                return Err(e);
            },
            Ok(shares) => shares,
        };
        let total_slashed = self.apply_slash(&shares);
        let transfer = sweep_request(receiver, total_slashed);
        Ok(SlashPlan { shares, total_slashed, transfer })
    }

    /// Last step of a slash, taken when the sweep has returned. A receipt
    /// counts the deducted funds as slashed; a failed sweep gives an error and
    /// the deductions stay.
    pub fn slash_settle(&mut self, total_slashed: u64, outcome: Result<u64, LedgerError>) -> (r:
        Result<u64, StakingError>)
        requires
            old(self).wf(),
        ensures
            final(self).wf(),
            match outcome {
                Err(e) => r == Err::<u64, StakingError>(
                    StakingError::TransferFailed(spec_classify(e)),
                ) && final(self)@ == old(self)@,
                Ok(block_index) => r == Ok::<u64, StakingError>(block_index) && final(self)@ == (
                StateView {
                    total_slashed: capped_sum(old(self)@.total_slashed, total_slashed),
                    ..old(self)@
                }),
            },
    {
        match outcome {
            Err(e) => Err(StakingError::TransferFailed(classify(e))),
            Ok(block_index) => {
                self.total_slashed = self.total_slashed.saturating_add(total_slashed);
                Ok(block_index)
            },
        }
    }
}

} // verus!
