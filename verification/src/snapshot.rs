//! Read-only views of the pool: snapshots of the active positions, the
//! totals recomputed from them, and per-user listings.

use crate::shares::{
    lemma_share_bounds, lemma_total_principal_prefix, total_principal, total_weight,
};
use crate::state::{find_stake, State};
use crate::totals::{active_sum, lemma_staked_sum_bounds, staked_sum, user_index};
use crate::types::{PoolStats, Principal, Stake, StakingInfo, UserView};
use vstd::prelude::*;

verus! {

/// The active deposits among `stakes`, in order.
pub open spec fn active_stakes(stakes: Seq<Stake>) -> Seq<Stake>
    decreases stakes.len(),
{
    if stakes.len() == 0 {
        Seq::empty()
    } else if stakes.last().is_active {
        active_stakes(stakes.drop_last()).push(stakes.last())
    } else {
        active_stakes(stakes.drop_last())
    }
}

/// The active deposits among `stakes`, each paired with `owner`.
pub open spec fn owned(owner: Principal, stakes: Seq<Stake>) -> Seq<(Principal, Stake)> {
    active_stakes(stakes).map_values(|s: Stake| (owner, s))
}

/// Every active position of the pool with its owner: users in the pool's
/// order, and each user's deposits in theirs.
pub open spec fn snapshot(users: Seq<UserView>) -> Seq<(Principal, Stake)>
    decreases users.len(),
{
    if users.len() == 0 {
        Seq::empty()
    } else {
        snapshot(users.drop_last()) + owned(users.last().principal, users.last().deposits)
    }
}

/// The deposits of the user with identity `principal`; none for a user the
/// pool does not know.
pub open spec fn stakes_of(users: Seq<UserView>, principal: Seq<u8>) -> Seq<Stake> {
    let i = user_index(users, principal);
    if i < users.len() {
        users[i].deposits
    } else {
        Seq::empty()
    }
}

/// The rewards credited to the user with identity `principal`; zero for a
/// user the pool does not know.
pub open spec fn rewards_of(users: Seq<UserView>, principal: Seq<u8>) -> u64 {
    let i = user_index(users, principal);
    if i < users.len() {
        users[i].rewards_earned
    } else {
        0
    }
}

/// Shares of `total_amount` by user, in proportion to each user's cached
/// total: one entry for every user with a stake, in the pool's order, and
/// none at all for an empty pool.
pub open spec fn proportional(users: Seq<UserView>, total_amount: u64, total_staked: u64) -> Seq<
    (Principal, u64),
>
    decreases users.len(),
{
    if users.len() == 0 || total_staked == 0 {
        Seq::empty()
    } else {
        let rest = proportional(users.drop_last(), total_amount, total_staked);
        let u = users.last();
        if u.total_staked > 0 {
            rest.push(
                (
                    u.principal,
                    (u.total_staked as nat * total_amount as nat / total_staked as nat) as u64,
                ),
            )
        } else {
            rest
        }
    }
}

/// Adding a position adds its amount and its weight to the sums.
pub proof fn lemma_total_principal_push(positions: Seq<(Principal, Stake)>, p: (Principal, Stake))
    ensures
        total_principal(positions.push(p)) == total_principal(positions) + p.1.amount,
        total_weight(positions.push(p)) == total_weight(positions) + crate::shares::weight(p.1),
{
    assert(positions.push(p).drop_last() =~= positions);
}

/// The owned positions of a sequence follow from those of all but its
/// last deposit.
pub proof fn lemma_owned_step(owner: Principal, stakes: Seq<Stake>)
    requires
        stakes.len() > 0,
    ensures
        owned(owner, stakes) == if stakes.last().is_active {
            owned(owner, stakes.drop_last()).push((owner, stakes.last()))
        } else {
            owned(owner, stakes.drop_last())
        },
{
    if stakes.last().is_active {
        assert(owned(owner, stakes) =~= owned(owner, stakes.drop_last()).push(
            (owner, stakes.last()),
        ));
    }
}

/// A snapshot followed by one user's active deposits adds up to the sum of
/// both.
pub proof fn lemma_total_principal_owned(
    head: Seq<(Principal, Stake)>,
    owner: Principal,
    stakes: Seq<Stake>,
)
    ensures
        total_principal(head + owned(owner, stakes)) == total_principal(head) + active_sum(stakes),
    decreases stakes.len(),
{
    if stakes.len() == 0 {
        assert(head + owned(owner, stakes) =~= head);
    } else {
        lemma_owned_step(owner, stakes);
        lemma_total_principal_owned(head, owner, stakes.drop_last());
        let rest = owned(owner, stakes.drop_last());
        if stakes.last().is_active {
            assert(head + rest.push((owner, stakes.last())) =~= (head + rest).push(
                (owner, stakes.last()),
            ));
            lemma_total_principal_push(head + rest, (owner, stakes.last()));
        }
    }
}

/// The amounts of a snapshot add up to the sum of the active deposits.
pub proof fn lemma_snapshot_total(users: Seq<UserView>)
    ensures
        total_principal(snapshot(users)) == staked_sum(users),
    decreases users.len(),
{
    if users.len() > 0 {
        lemma_snapshot_total(users.drop_last());
        lemma_total_principal_owned(
            snapshot(users.drop_last()),
            users.last().principal,
            users.last().deposits,
        );
    }
}

impl State {
    /// Every active position with its owner, in the pool's order.
    pub fn get_all_active_stakes(&self) -> (r: Vec<(Principal, Stake)>)
        ensures
            r@ == snapshot(self@.users),
            self.wf() ==> total_principal(r@) == self@.total_staked,
    {
        let mut out: Vec<(Principal, Stake)> = Vec::new();
        let n: usize = self.users.len();
        let mut i: usize = 0;
        while i < n
            invariant
                n == self.users@.len(),
                i <= n,
                out@ == snapshot(self@.users.take(i as int)),
            decreases n - i,
        {
            let owner = self.users[i].principal;
            let m: usize = self.users[i].deposits.len();
            let ghost head = out@;
            let ghost stakes = self@.users[i as int].deposits;
            let mut k: usize = 0;
            assert(head + owned(owner, stakes.take(0)) =~= head);
            while k < m
                invariant
                    i < n,
                    n == self.users@.len(),
                    stakes == self.users@[i as int].deposits@,
                    m == stakes.len(),
                    k <= m,
                    out@ == head + owned(owner, stakes.take(k as int)),
                decreases m - k,
            {
                let s = self.users[i].deposits[k];
                proof {
                    assert(stakes.take(k + 1).drop_last() =~= stakes.take(k as int));
                    lemma_owned_step(owner, stakes.take(k + 1));
                }
                if s.is_active {
                    out.push((owner, s));
                    assert(out@ =~= head + owned(owner, stakes.take(k + 1)));
                }
                k += 1;
            }
            proof {
                assert(stakes.take(m as int) =~= stakes);
                assert(self@.users.take(i + 1).drop_last() =~= self@.users.take(i as int));
            }
            i += 1;
        }
        proof {
            assert(self@.users.take(n as int) =~= self@.users);
            lemma_snapshot_total(self@.users);
        }
        out
    }

    /// The sum of the amounts of all active deposits, recomputed from the
    /// deposits themselves. It equals the cached total.
    pub fn get_total_staked_amount(&self) -> (r: u64)
        requires
            self.wf(),
        ensures
            r == staked_sum(self@.users),
            r == self@.total_staked,
    {
        let positions = self.get_all_active_stakes();
        let n: usize = positions.len();
        let mut sum: u64 = 0;
        let mut i: usize = 0;
        while i < n
            invariant
                n == positions@.len(),
                i <= n,
                sum == total_principal(positions@.take(i as int)),
                total_principal(positions@) <= u64::MAX,
            decreases n - i,
        {
            proof {
                assert(positions@.take(i + 1).drop_last() =~= positions@.take(i as int));
                lemma_total_principal_prefix(positions@, i + 1);
            }
            sum = sum + positions[i].1.amount;
            i += 1;
        }
        assert(positions@.take(n as int) =~= positions@);
        sum
    }

    /// The sum of the reward weights of all active deposits, in thousandths.
    pub fn get_total_weighted_stake(&self) -> (r: u128)
        requires
            self.wf(),
        ensures
            r == total_weight(snapshot(self@.users)),
    {
        let positions = self.get_all_active_stakes();
        let n: usize = positions.len();
        let mut sum: u128 = 0;
        let mut i: usize = 0;
        while i < n
            invariant
                n == positions@.len(),
                i <= n,
                sum == total_weight(positions@.take(i as int)),
                total_principal(positions@) <= u64::MAX,
            decreases n - i,
        {
            proof {
                assert(positions@.take(i + 1).drop_last() =~= positions@.take(i as int));
                lemma_total_principal_prefix(positions@, i + 1);
                lemma_total_principal_prefix(positions@, 0);
            }
            let s = positions[i].1;
            sum = sum + s.amount as u128 * s.lock_period.multiplier() as u128;
            i += 1;
        }
        assert(positions@.take(n as int) =~= positions@);
        sum
    }

    /// Number of active deposits in the pool.
    pub fn get_active_stakes_count(&self) -> (r: usize)
        ensures
            r == snapshot(self@.users).len(),
    {
        self.get_all_active_stakes().len()
    }

    /// All deposits of `user`, in the order in which they were made.
    pub fn get_user_stakes(&self, user: &Principal) -> (r: Vec<Stake>)
        ensures
            r@ == stakes_of(self@.users, user@),
    {
        let mut out: Vec<Stake> = Vec::new();
        match self.find_user(user) {
            None => {},
            Some(i) => {
                let m: usize = self.users[i].deposits.len();
                let mut k: usize = 0;
                while k < m
                    invariant
                        i < self.users@.len(),
                        m == self.users@[i as int].deposits@.len(),
                        k <= m,
                        out@ == self.users@[i as int].deposits@.take(k as int),
                    decreases m - k,
                {
                    out.push(self.users[i].deposits[k]);
                    k += 1;
                    assert(out@ =~= self.users@[i as int].deposits@.take(k as int));
                }
                assert(self.users@[i as int].deposits@.take(m as int)
                    =~= self.users@[i as int].deposits@);
            },
        }
        out
    }

    /// The active deposits of `user`, in the order in which they were made.
    pub fn get_active_user_stakes(&self, user: &Principal) -> (r: Vec<Stake>)
        ensures
            r@ == active_stakes(stakes_of(self@.users, user@)),
    {
        let all = self.get_user_stakes(user);
        let mut out: Vec<Stake> = Vec::new();
        let m: usize = all.len();
        let mut k: usize = 0;
        while k < m
            invariant
                m == all@.len(),
                k <= m,
                out@ == active_stakes(all@.take(k as int)),
            decreases m - k,
        {
            assert(all@.take(k + 1).drop_last() =~= all@.take(k as int));
            if all[k].is_active {
                out.push(all[k]);
            }
            k += 1;
        }
        assert(all@.take(m as int) =~= all@);
        out
    }

    /// The rewards credited to `user` so far.
    pub fn get_user_rewards(&self, user: &Principal) -> (r: u64)
        ensures
            r == rewards_of(self@.users, user@),
    {
        match self.find_user(user) {
            None => 0,
            Some(i) => self.users[i].rewards_earned,
        }
    }

    /// Shares of `total_amount` by user, in proportion to each user's
    /// total and rounded down. Users without a stake get no entry; an empty
    /// pool gives no entries.
    pub fn calculate_proportional_amount(&self, total_amount: u64) -> (r: Vec<(Principal, u64)>)
        requires
            self.wf(),
        ensures
            r@ == proportional(self@.users, total_amount, self@.total_staked),
            forall|k: int| 0 <= k < r@.len() ==> (#[trigger] r@[k]).1 <= total_amount,
    {
        let mut out: Vec<(Principal, u64)> = Vec::new();
        if self.total_staked == 0 {
            return out;
        }
        let n: usize = self.users.len();
        let total: u128 = self.total_staked as u128;
        let mut i: usize = 0;
        while i < n
            invariant
                n == self.users@.len(),
                i <= n,
                self.wf(),
                total == self@.total_staked,
                total > 0,
                out@ == proportional(
                    self@.users.take(i as int),
                    total_amount,
                    self@.total_staked,
                ),
                forall|k: int| 0 <= k < out@.len() ==> (#[trigger] out@[k]).1 <= total_amount,
            decreases n - i,
        {
            let staked: u64 = self.users[i].total_staked;
            proof {
                assert(self@.users.take(i + 1).drop_last() =~= self@.users.take(i as int));
                lemma_staked_sum_bounds(self@.users, i as int);
                lemma_share_bounds(staked as nat, total_amount as nat, total as nat);
                assert(staked as nat * total_amount as nat <= u64::MAX * u64::MAX)
                    by (nonlinear_arith);
            }
            if staked > 0 {
                let share: u128 = (staked as u128 * total_amount as u128) / total;
                out.push((self.users[i].principal, share as u64));
            }
            i += 1;
        }
        assert(self@.users.take(n as int) =~= self@.users);
        out
    }

    /// The deposit `stake_id` of `user`.
    pub fn get_stake_by_id(&self, user: &Principal, stake_id: u64) -> (r: Option<Stake>)
        ensures
            r == match find_stake(self@.users, user@, stake_id) {
                Some((_, stake)) => Some(stake),
                None => None::<Stake>,
            },
    {
        match self.find_stake_by_id(user, stake_id) {
            Some((_, stake)) => Some(stake),
            None => None,
        }
    }

    /// Seconds from `now` until the deposit unlocks; zero once it has.
    pub fn get_time_until_unlock(&self, user: &Principal, stake_id: u64, now: u64) -> (r: Option<
        u64,
    >)
        ensures
            r == match find_stake(self@.users, user@, stake_id) {
                Some((_, stake)) => Some(
                    if now >= stake.unlock_time {
                        0u64
                    } else {
                        (stake.unlock_time - now) as u64
                    },
                ),
                None => None::<u64>,
            },
    {
        match self.find_stake_by_id(user, stake_id) {
            Some((_, stake)) => {
                if now >= stake.unlock_time {
                    Some(0)
                } else {
                    Some(stake.unlock_time - now)
                }
            },
            None => None,
        }
    }

    /// What `user` holds: the active deposits, their sum, and the rewards
    /// credited so far.
    pub fn get_staking_info(&self, user: &Principal) -> (r: StakingInfo)
        requires
            self.wf(),
        ensures
            r.active_stakes@ == active_stakes(stakes_of(self@.users, user@)),
            r.total_staked == active_sum(stakes_of(self@.users, user@)),
            r.total_rewards_earned == rewards_of(self@.users, user@),
            r.pending_rewards == 0,
    {
        let active_stakes = self.get_active_user_stakes(user);
        let total_staked = match self.find_user(user) {
            None => 0,
            Some(i) => self.users[i].total_staked,
        };
        StakingInfo {
            total_staked,
            active_stakes,
            total_rewards_earned: self.get_user_rewards(user),
            pending_rewards: 0,
        }
    }

    /// Pool-wide figures, with the total recomputed from the deposits.
    pub fn get_pool_stats(&self) -> (r: PoolStats)
        requires
            self.wf(),
        ensures
            r.total_staked == staked_sum(self@.users),
            r.total_staked == self@.total_staked,
            r.total_rewards_distributed == self@.total_rewards_distributed,
            r.total_slashed == self@.total_slashed,
            r.total_stakers == self@.users.len(),
            r.active_stakes_count == snapshot(self@.users).len(),
    {
        PoolStats {
            total_staked: self.get_total_staked_amount(),
            total_rewards_distributed: self.total_rewards_distributed,
            total_slashed: self.total_slashed,
            total_stakers: self.users.len(),
            active_stakes_count: self.get_active_stakes_count(),
        }
    }
}

} // verus!
