//! Crediting reward shares to the deposits of their owners.

use crate::shares::shares_sum;
use crate::state::{
    floor_at, floor_ok, lemma_with_deposits, same_terms, with_deposits, State, StateView,
};
use crate::totals::{
    active_count, active_sum, first_active, lemma_active_count_prefix, lemma_active_count_some,
    lemma_active_sum_bounds, lemma_active_sum_update, lemma_first_active, lemma_staked_sum_bounds,
    lemma_user_index_same, user_index,
};
use crate::types::{Principal, Stake};
use vstd::prelude::*;

verus! {

/// What deposit `k` receives when every active deposit gets `per` and the
/// first active one, at `first`, gets `extra` on top.
pub open spec fn bonus_at(per: nat, extra: nat, first: int, k: int) -> nat {
    if k == first {
        per + extra
    } else {
        per
    }
}

/// The deposit after a credit of `bonus`; an inactive one receives nothing.
pub open spec fn credited(s: Stake, bonus: nat) -> Stake {
    if s.is_active {
        Stake { amount: (s.amount + bonus) as u64, ..s }
    } else {
        s
    }
}

/// A user's deposits after a reward of `share`: the share is split evenly
/// over the active deposits, and what the division leaves over goes to the
/// first of them.
pub open spec fn reward_deposits(stakes: Seq<Stake>, share: u64) -> Seq<Stake> {
    let n = active_count(stakes);
    let per = share as nat / n;
    let extra = share as nat % n;
    let first = first_active(stakes);
    Seq::new(stakes.len(), |k: int| credited(stakes[k], bonus_at(per, extra, first, k)))
}

/// The pool after one user has been credited `share`. Nothing changes for a
/// user the pool does not know or who has no active deposit, nor when the
/// pool-wide total would leave the 64-bit range.
pub open spec fn reward_one(st: StateView, principal: Seq<u8>, share: u64) -> StateView {
    let i = user_index(st.users, principal);
    if i >= st.users.len() || active_count(st.users[i].deposits) == 0 || st.total_staked + share
        > u64::MAX {
        st
    } else {
        StateView {
            users: with_deposits(st.users, i, reward_deposits(st.users[i].deposits, share)),
            total_staked: (st.total_staked + share) as u64,
            ..st
        }
    }
}

/// The pool after all credits of a distribution, applied in order.
pub open spec fn rewarded(st: StateView, distributions: Seq<(Principal, u64)>) -> StateView
    decreases distributions.len(),
{
    if distributions.len() == 0 {
        st
    } else {
        reward_one(
            rewarded(st, distributions.drop_last()),
            distributions.last().0@,
            distributions.last().1,
        )
    }
}

/// Credits `share` to the deposits of one user.
fn reward_stakes(deposits: &mut Vec<Stake>, share: u64)
    requires
        active_count(old(deposits)@) > 0,
        active_sum(old(deposits)@) + share <= u64::MAX,
        forall|k: int| 0 <= k < old(deposits)@.len() ==> floor_ok(#[trigger] old(deposits)@[k]),
    ensures
        forall|k: int| 0 <= k < old(deposits)@.len() ==> floor_ok(#[trigger] final(deposits)@[k]),
        final(deposits)@ == reward_deposits(old(deposits)@, share),
        active_sum(final(deposits)@) == active_sum(old(deposits)@) + share,
        final(deposits)@.len() == old(deposits)@.len(),
        forall|k: int|
            0 <= k < old(deposits)@.len() ==> same_terms(
                #[trigger] final(deposits)@[k],
                old(deposits)@[k],
            ),
{
    let ghost before = deposits@;
    let n: usize = deposits.len();
    let mut count: usize = 0;
    let mut j: usize = 0;
    while j < n
        invariant
            deposits@ == before,
            n == before.len(),
            j <= n,
            count == active_count(before.take(j as int)),
            count <= j,
        decreases n - j,
    {
        assert(before.take(j + 1).drop_last() =~= before.take(j as int));
        if deposits[j].is_active {
            count += 1;
        }
        j += 1;
    }
    assert(before.take(n as int) =~= before);
    let per: u64 = share / (count as u64);
    let extra: u64 = share % (count as u64);
    let ghost first = first_active(before);
    proof {
        lemma_first_active(before);
        lemma_active_count_some(before);
        vstd::arithmetic::div_mod::lemma_fundamental_div_mod(share as int, count as int);
        assert(active_count(before.take(0)) == 0);
        assert(per * active_count(before.take(0)) == 0) by (nonlinear_arith)
            requires
                active_count(before.take(0)) == 0,
        ;
    }
    let mut seen = false;
    let mut k: usize = 0;
    while k < n
        invariant
            n == before.len(),
            deposits@.len() == n,
            k <= n,
            count == active_count(before),
            count > 0,
            share == count * per + extra,
            per == share as nat / active_count(before),
            extra == share as nat % active_count(before),
            first == first_active(before),
            0 <= first < n,
            before[first].is_active,
            forall|a: int| 0 <= a < first ==> !(#[trigger] before[a]).is_active,
            seen == (first < k),
            forall|a: int|
                0 <= a < k ==> #[trigger] deposits@[a] == credited(
                    before[a],
                    bonus_at(per as nat, extra as nat, first, a),
                ),
            forall|a: int| k <= a < n ==> #[trigger] deposits@[a] == before[a],
            forall|a: int| 0 <= a < n ==> floor_ok(#[trigger] before[a]),
            forall|a: int| 0 <= a < n ==> floor_ok(#[trigger] deposits@[a]),
            active_sum(deposits@) == active_sum(before) + per * active_count(
                before.take(k as int),
            ) + if seen {
                extra as nat
            } else {
                0nat
            },
            active_sum(before) + share <= u64::MAX,
        decreases n - k,
    {
        let ghost current = deposits@;
        let ghost done = active_count(before.take(k as int));
        proof {
            assert(before.take(k + 1).drop_last() =~= before.take(k as int));
            lemma_active_count_prefix(before, k + 1);
            lemma_active_sum_bounds(current, k as int);
        }
        if deposits[k].is_active {
            assert(per <= count * per) by (nonlinear_arith)
                requires
                    count >= 1,
            ;
            let bonus: u64 = if seen {
                per
            } else {
                per + extra
            };
            proof {
                assert(per * (done + 1) == per * done + per) by (nonlinear_arith);
                assert(per * (done + 1) <= count * per) by (nonlinear_arith)
                    requires
                        done + 1 <= count,
                ;
            }
            let stake = deposits[k];
            let updated = Stake { amount: stake.amount + bonus, ..stake };
            deposits[k] = updated;
            seen = true;
            proof {
                assert(deposits@ =~= current.update(k as int, updated));
                lemma_active_sum_update(current, k as int, updated);
            }
        }
        k += 1;
    }
    proof {
        assert(before.take(n as int) =~= before);
        assert(per * count == count * per) by (nonlinear_arith);
        assert(deposits@ =~= reward_deposits(before, share));
    }
}

impl State {
    /// Credits `share` to `principal`: split evenly over the active
    /// deposits, the remainder to the first of them. Returns whether the
    /// credit was applied.
    pub fn apply_reward(&mut self, principal: &Principal, share: u64) -> (r: bool)
        requires
            old(self).wf(),
        ensures
            final(self).wf(),
            final(self)@ == reward_one(old(self)@, principal@, share),
            r == ({
                let i = user_index(old(self)@.users, principal@);
                i < old(self)@.users.len() && active_count(old(self)@.users[i].deposits) > 0
                    && old(self)@.total_staked + share <= u64::MAX
            }),
            r ==> final(self)@.total_staked == old(self)@.total_staked + share,
            user_index(final(self)@.users, principal@) == user_index(
                old(self)@.users,
                principal@,
            ),
            final(self)@.users.len() == old(self)@.users.len(),
    {
        let i = match self.find_user(principal) {
            Some(i) => i,
            None => {
                return false;
            },
        };
        if share > u64::MAX - self.total_staked {
            return false;
        }
        let n: usize = self.users[i].deposits.len();
        let mut any = false;
        let mut k: usize = 0;
        while k < n
            invariant
                i < self.users@.len(),
                n == self.users@[i as int].deposits@.len(),
                k <= n,
                any == (active_count(self.users@[i as int].deposits@.take(k as int)) > 0),
            decreases n - k,
        {
            assert(self.users@[i as int].deposits@.take(k + 1).drop_last()
                =~= self.users@[i as int].deposits@.take(k as int));
            if self.users[i].deposits[k].is_active {
                any = true;
            }
            k += 1;
        }
        assert(self.users@[i as int].deposits@.take(n as int) =~= self.users@[i as int].deposits@);
        if !any {
            return false;
        }
        let ghost before = self@;
        proof {
            lemma_staked_sum_bounds(before.users, i as int);
            assert forall|k: int| 0 <= k < before.users[i as int].deposits.len() implies floor_ok(
                #[trigger] before.users[i as int].deposits[k],
            ) by {
                assert(floor_at(before.users, i as int, k));
            }
        }
        reward_stakes(&mut self.users[i].deposits, share);
        self.users[i].total_staked = self.users[i].total_staked + share;
        self.total_staked = self.total_staked + share;
        proof {
            let deposits = reward_deposits(before.users[i as int].deposits, share);
            assert(self@.users =~= with_deposits(before.users, i as int, deposits));
            lemma_with_deposits(before, i as int, deposits);
            lemma_user_index_same(before.users, self@.users, principal@);
        }
        true
    }

    /// Credits every share of a distribution to its owner, in order. The
    /// pool-wide total grows by the shares that were applied, and so by no
    /// more than the sum of all shares.
    pub fn apply_rewards(&mut self, distributions: &Vec<(Principal, u64)>)
        requires
            old(self).wf(),
        ensures
            final(self).wf(),
            final(self)@ == rewarded(old(self)@, distributions@),
            old(self)@.total_staked <= final(self)@.total_staked <= old(self)@.total_staked
                + shares_sum(distributions@),
    {
        let n: usize = distributions.len();
        let mut j: usize = 0;
        while j < n
            invariant
                n == distributions@.len(),
                j <= n,
                self.wf(),
                self@ == rewarded(old(self)@, distributions@.take(j as int)),
                old(self)@.total_staked <= self@.total_staked <= old(self)@.total_staked
                    + shares_sum(distributions@.take(j as int)),
            decreases n - j,
        {
            assert(distributions@.take(j + 1).drop_last() =~= distributions@.take(j as int));
            let owner = distributions[j].0;
            let share = distributions[j].1;
            self.apply_reward(&owner, share);
            j += 1;
        }
        assert(distributions@.take(n as int) =~= distributions@);
    }
}

} // verus!
