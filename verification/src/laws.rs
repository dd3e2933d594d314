//! What holds of every sound pool, whatever operations led to it.

use crate::rewards::{bonus_at, reward_deposits};
use crate::shares::{
    lemma_position_bounds, lemma_share_bounds, reward_share, reward_shares, shares_sum,
    slash_shares, total_principal, total_weight, weight,
};
use crate::slashing::{cut, slash_deposits, slash_left};
use crate::snapshot::{lemma_snapshot_total, snapshot};
use crate::state::{
    find_stake, floor_at, is_slot, lock_at, mark_result, same_terms, withdraw_check, withdrawn,
    StateView,
};
use crate::totals::{
    active_count, active_sum, first_active, lemma_active_count_some, lemma_active_sum_bounds,
    lemma_first_active, lemma_stake_index,
    lemma_stake_index_same, lemma_user_index, lemma_user_index_same, stake_index, staked_sum,
    user_index,
};
use crate::types::{Principal, Stake, StakingError, MIN_DEPOSIT};
use vstd::prelude::*;

verus! {

/// Every deposit of a sound pool unlocks exactly one lock period after it
/// was made.
pub proof fn law_unlock_exact(st: StateView, a: int, b: int)
    requires
        st.wf(),
        is_slot(st.users, a, b),
    ensures
        st.users[a].deposits[b].unlock_time == st.users[a].deposits[b].deposit_time
            + st.users[a].deposits[b].lock_period.spec_seconds(),
{
    assert(lock_at(st.users, a, b));
}

/// No active deposit of a sound pool is smaller than the smallest accepted
/// deposit: a slash that takes a deposit below it deactivates the deposit.
pub proof fn law_active_floor(st: StateView, a: int, b: int)
    requires
        st.wf(),
        is_slot(st.users, a, b),
        st.users[a].deposits[b].is_active,
    ensures
        st.users[a].deposits[b].amount >= MIN_DEPOSIT,
{
    assert(floor_at(st.users, a, b));
}

/// The cached total of a sound pool is the sum of the amounts of its active
/// deposits, which is also what a snapshot of the pool adds up to.
pub proof fn law_total_is_sum(st: StateView)
    requires
        st.wf(),
    ensures
        st.total_staked == staked_sum(st.users),
        st.total_staked == total_principal(snapshot(st.users)),
{
    lemma_snapshot_total(st.users);
}

/// A deposit can be withdrawn once: after it has been marked withdrawn,
/// every further check and every further attempt to mark it fails with
/// `StakeAlreadyWithdrawn`, at any time, and leaves the pool as it is.
pub proof fn law_withdraw_once(st: StateView, principal: Seq<u8>, deposit_id: u64, now: u64)
    requires
        st.wf(),
        mark_result(st.users, principal, deposit_id).is_ok(),
    ensures
        withdraw_check(withdrawn(st, principal, deposit_id).users, principal, deposit_id, now)
            == Err::<(), StakingError>(StakingError::StakeAlreadyWithdrawn),
        mark_result(withdrawn(st, principal, deposit_id).users, principal, deposit_id) == Err::<
            u64,
            StakingError,
        >(StakingError::StakeAlreadyWithdrawn),
        withdrawn(withdrawn(st, principal, deposit_id), principal, deposit_id) == withdrawn(
            st,
            principal,
            deposit_id,
        ),
{
    let i = user_index(st.users, principal);
    lemma_user_index(st.users, principal);
    let k = stake_index(st.users[i].deposits, deposit_id);
    lemma_stake_index(st.users[i].deposits, deposit_id);
    let after = withdrawn(st, principal, deposit_id).users;
    lemma_user_index_same(st.users, after, principal);
    lemma_stake_index_same(st.users[i].deposits, after[i].deposits, deposit_id);
    assert(find_stake(after, principal, deposit_id).is_some());
    assert(!find_stake(after, principal, deposit_id).unwrap().1.is_active);
}

/// The first `k` shares of a reward, times the total weight, stay within
/// the reward times the weight of the first `k` positions.
proof fn lemma_reward_prefix(positions: Seq<(Principal, Stake)>, total_amount: u64, k: int)
    requires
        0 <= k <= positions.len(),
        total_weight(positions) > 0,
    ensures
        shares_sum(reward_shares(positions, total_amount).take(k)) * total_weight(positions)
            <= total_amount * total_weight(positions.take(k)),
    decreases k,
{
    let shares = reward_shares(positions, total_amount);
    let whole = total_weight(positions);
    if k == 0 {
        assert(shares_sum(shares.take(0)) * whole == 0) by (nonlinear_arith)
            requires
                shares_sum(shares.take(0)) == 0,
        ;
        assert(total_amount * total_weight(positions.take(0)) == 0) by (nonlinear_arith)
            requires
                total_weight(positions.take(0)) == 0,
        ;
    } else {
        lemma_reward_prefix(positions, total_amount, k - 1);
        assert(shares.take(k).drop_last() =~= shares.take(k - 1));
        assert(positions.take(k).drop_last() =~= positions.take(k - 1));
        let s = positions[k - 1].1;
        let share = reward_share(s, total_amount, whole);
        lemma_position_bounds(positions, k - 1);
        lemma_share_bounds(weight(s), total_amount as nat, whole);
        assert(shares[k - 1].1 == share);
        let before = shares_sum(shares.take(k - 1));
        let part = total_weight(positions.take(k - 1));
        assert((before + share) * whole <= total_amount * (part + weight(s)))
            by (nonlinear_arith)
            requires
                before * whole <= total_amount * part,
                share * whole <= weight(s) * total_amount,
        ;
    }
}

/// The shares of a reward never add up to more than the reward; what the
/// rounding leaves over stays with the pool.
pub proof fn law_reward_within_amount(positions: Seq<(Principal, Stake)>, total_amount: u64)
    requires
        total_weight(positions) > 0,
    ensures
        shares_sum(reward_shares(positions, total_amount)) <= total_amount,
{
    let shares = reward_shares(positions, total_amount);
    let whole = total_weight(positions);
    lemma_reward_prefix(positions, total_amount, positions.len() as int);
    assert(shares.take(positions.len() as int) =~= shares);
    assert(positions.take(positions.len() as int) =~= positions);
    assert(shares_sum(shares) <= total_amount) by (nonlinear_arith)
        requires
            shares_sum(shares) * whole <= total_amount * whole,
            whole > 0,
    ;
}

/// While a slash does not exceed what is staked, no share of it exceeds the
/// amount of its position.
pub proof fn law_slash_within_position(
    positions: Seq<(Principal, Stake)>,
    total_amount: u64,
    i: int,
)
    requires
        0 <= i < positions.len(),
        0 < total_principal(positions),
        total_amount <= total_principal(positions),
    ensures
        slash_shares(positions, total_amount)[i].1 <= positions[i].1.amount,
{
    let s = positions[i].1;
    let whole = total_principal(positions);
    lemma_position_bounds(positions, i);
    lemma_share_bounds(total_amount as nat, s.amount as nat, whole);
    assert(s.amount as nat * total_amount as nat == total_amount as nat * s.amount as nat)
        by (nonlinear_arith);
}

/// Nothing is deducted before the first active deposit.
proof fn lemma_slash_left_before(stakes: Seq<Stake>, share: nat, k: int)
    requires
        0 <= k <= first_active(stakes),
    ensures
        slash_left(stakes, share, k as nat) == share,
    decreases k,
{
    lemma_first_active(stakes);
    if k > 0 {
        lemma_slash_left_before(stakes, share, k - 1);
        assert(!stakes[k - 1].is_active);
        assert(cut(stakes[k - 1], share) == 0);
    }
}

/// A slash that the first active deposit of a user can bear is deducted
/// from that deposit in full.
pub proof fn law_slash_first_active(stakes: Seq<Stake>, share: u64)
    requires
        first_active(stakes) < stakes.len(),
        0 < share <= stakes[first_active(stakes)].amount,
    ensures
        slash_deposits(stakes, share)[first_active(stakes)].amount == stakes[first_active(
            stakes,
        )].amount - share,
{
    lemma_first_active(stakes);
    lemma_slash_left_before(stakes, share as nat, first_active(stakes));
}

/// A reward for a user with a single active deposit goes to that deposit in
/// full.
pub proof fn law_reward_single(stakes: Seq<Stake>, share: u64)
    requires
        active_count(stakes) == 1,
        stakes[first_active(stakes)].amount + share <= u64::MAX,
    ensures
        first_active(stakes) < stakes.len(),
        reward_deposits(stakes, share)[first_active(stakes)].amount == stakes[first_active(
            stakes,
        )].amount + share,
{
    lemma_first_active(stakes);
    lemma_active_count_some(stakes);
}

/// A reward changes nothing of a deposit but its amount, and never lowers
/// that: identifier, lock, times, collection address and activity stay.
pub proof fn law_reward_only_raises(stakes: Seq<Stake>, share: u64, k: int)
    requires
        0 <= k < stakes.len(),
        active_count(stakes) > 0,
        active_sum(stakes) + share <= u64::MAX,
    ensures
        same_terms(reward_deposits(stakes, share)[k], stakes[k]),
        reward_deposits(stakes, share)[k].is_active == stakes[k].is_active,
        reward_deposits(stakes, share)[k].confirmed == stakes[k].confirmed,
        reward_deposits(stakes, share)[k].amount >= stakes[k].amount,
{
    let n = active_count(stakes);
    let per = share as nat / n;
    let extra = share as nat % n;
    lemma_active_sum_bounds(stakes, k);
    vstd::arithmetic::div_mod::lemma_fundamental_div_mod(share as int, n as int);
    assert(per <= n * per) by (nonlinear_arith)
        requires
            n >= 1,
    ;
    assert(bonus_at(per, extra, first_active(stakes), k) <= share);
}

/// A slash changes nothing of a deposit but its amount and its activity: it
/// never raises the amount and never makes an inactive deposit active.
pub proof fn law_slash_only_lowers(stakes: Seq<Stake>, share: u64, k: int)
    requires
        0 <= k < stakes.len(),
    ensures
        same_terms(slash_deposits(stakes, share)[k], stakes[k]),
        slash_deposits(stakes, share)[k].confirmed == stakes[k].confirmed,
        slash_deposits(stakes, share)[k].amount <= stakes[k].amount,
        slash_deposits(stakes, share)[k].is_active ==> stakes[k].is_active,
{
}

} // verus!
