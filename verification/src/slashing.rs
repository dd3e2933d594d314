//! Deducting slash shares from the deposits of their owners.

use crate::shares::shares_sum;
use crate::state::{
    floor_at, floor_ok, lemma_with_deposits, same_terms, with_deposits, State, StateView,
};
use crate::totals::{
    active_sum, lemma_active_sum_bounds, lemma_active_sum_update, lemma_staked_sum_bounds,
    user_index,
};
use crate::types::{Principal, Stake, MIN_DEPOSIT};
use vstd::prelude::*;

verus! {

/// What a deposit gives up when `left` is still to be deducted: as much as
/// it has, at most `left`, and nothing when it is inactive.
pub open spec fn cut(s: Stake, left: nat) -> nat {
    if !s.is_active {
        0
    } else if left < s.amount {
        left
    } else {
        s.amount as nat
    }
}

/// What of `share` is still to be deducted once the first `k` deposits have
/// given up their part.
pub open spec fn slash_left(stakes: Seq<Stake>, share: nat, k: nat) -> nat
    decreases k,
{
    if k == 0 || k > stakes.len() {
        share
    } else {
        let left = slash_left(stakes, share, (k - 1) as nat);
        (left - cut(stakes[k - 1], left)) as nat
    }
}

/// The deposit after giving up `c`; one that falls below the smallest
/// accepted deposit becomes inactive.
pub open spec fn slashed(s: Stake, c: nat) -> Stake {
    if c == 0 {
        s
    } else {
        Stake { amount: (s.amount - c) as u64, is_active: s.amount - c >= MIN_DEPOSIT, ..s }
    }
}

/// A user's deposits after a slash of `share`, deducted from the active
/// deposits in order until nothing is left to deduct.
pub open spec fn slash_deposits(stakes: Seq<Stake>, share: u64) -> Seq<Stake> {
    Seq::new(
        stakes.len(),
        |k: int| slashed(stakes[k], cut(stakes[k], slash_left(stakes, share as nat, k as nat))),
    )
}

/// What a slash of `share` actually deducts from a user's deposits.
pub open spec fn slash_taken(stakes: Seq<Stake>, share: u64) -> nat {
    (share - slash_left(stakes, share as nat, stakes.len())) as nat
}

/// The pool after one user has been slashed by `share`. A user the pool
/// does not know loses nothing. The totals fall by what leaves the active
/// deposits: the deducted amounts, and what remains in deposits that the
/// slash deactivates.
pub open spec fn slash_one(st: StateView, principal: Seq<u8>, share: u64) -> StateView {
    let i = user_index(st.users, principal);
    if i >= st.users.len() {
        st
    } else {
        let deposits = slash_deposits(st.users[i].deposits, share);
        StateView {
            users: with_deposits(st.users, i, deposits),
            total_staked: (st.total_staked - active_sum(st.users[i].deposits) + active_sum(
                deposits,
            )) as u64,
            ..st
        }
    }
}

/// What slashing one user by `share` actually deducts.
pub open spec fn slash_one_taken(st: StateView, principal: Seq<u8>, share: u64) -> nat {
    let i = user_index(st.users, principal);
    if i >= st.users.len() {
        0
    } else {
        slash_taken(st.users[i].deposits, share)
    }
}

/// The pool after all deductions of a distribution, applied in order.
pub open spec fn slashed_pool(st: StateView, distributions: Seq<(Principal, u64)>) -> StateView
    decreases distributions.len(),
{
    if distributions.len() == 0 {
        st
    } else {
        slash_one(
            slashed_pool(st, distributions.drop_last()),
            distributions.last().0@,
            distributions.last().1,
        )
    }
}

/// What all deductions of a distribution, applied in order, actually deduct.
pub open spec fn slashed_total(st: StateView, distributions: Seq<(Principal, u64)>) -> nat
    decreases distributions.len(),
{
    if distributions.len() == 0 {
        0
    } else {
        slashed_total(st, distributions.drop_last()) + slash_one_taken(
            slashed_pool(st, distributions.drop_last()),
            distributions.last().0@,
            distributions.last().1,
        )
    }
}

/// Deducts `share` from the deposits of one user. Returns what was deducted
/// and by how much the sum of the active deposits fell.
fn slash_stakes(deposits: &mut Vec<Stake>, share: u64) -> (r: (u64, u64))
    requires
        active_sum(old(deposits)@) <= u64::MAX,
        forall|k: int| 0 <= k < old(deposits)@.len() ==> floor_ok(#[trigger] old(deposits)@[k]),
    ensures
        forall|k: int| 0 <= k < old(deposits)@.len() ==> floor_ok(#[trigger] final(deposits)@[k]),
        final(deposits)@ == slash_deposits(old(deposits)@, share),
        r.0 == slash_taken(old(deposits)@, share),
        r.0 <= share,
        r.0 <= r.1,
        active_sum(final(deposits)@) + r.1 == active_sum(old(deposits)@),
        final(deposits)@.len() == old(deposits)@.len(),
        forall|k: int|
            0 <= k < old(deposits)@.len() ==> same_terms(
                #[trigger] final(deposits)@[k],
                old(deposits)@[k],
            ),
        forall|k: int|
            0 <= k < old(deposits)@.len() ==> (#[trigger] final(deposits)@[k]).amount <= old(
                deposits,
            )@[k].amount,
{
    let ghost before = deposits@;
    let n: usize = deposits.len();
    let mut remaining: u64 = share;
    let mut released: u64 = 0;
    let mut k: usize = 0;
    while k < n
        invariant
            n == before.len(),
            deposits@.len() == n,
            k <= n,
            remaining == slash_left(before, share as nat, k as nat),
            remaining <= share,
            share - remaining <= released,
            released + active_sum(deposits@) == active_sum(before),
            active_sum(before) <= u64::MAX,
            forall|a: int|
                0 <= a < k ==> #[trigger] deposits@[a] == slashed(
                    before[a],
                    cut(before[a], slash_left(before, share as nat, a as nat)),
                ),
            forall|a: int| k <= a < n ==> #[trigger] deposits@[a] == before[a],
            forall|a: int| 0 <= a < n ==> floor_ok(#[trigger] before[a]),
            forall|a: int| 0 <= a < n ==> floor_ok(#[trigger] deposits@[a]),
        decreases n - k,
    {
        let ghost current = deposits@;
        proof {
            lemma_active_sum_bounds(current, k as int);
        }
        let stake = deposits[k];
        if stake.is_active && remaining > 0 && stake.amount > 0 {
            let c: u64 = if remaining < stake.amount {
                remaining
            } else {
                stake.amount
            };
            let amount: u64 = stake.amount - c;
            let is_active = amount >= MIN_DEPOSIT;
            let updated = Stake { amount, is_active, ..stake };
            deposits[k] = updated;
            remaining = remaining - c;
            released = released + if is_active {
                c
            } else {
                stake.amount
            };
            proof {
                assert(deposits@ =~= current.update(k as int, updated));
                lemma_active_sum_update(current, k as int, updated);
            }
        }
        k += 1;
    }
    proof {
        assert(deposits@ =~= slash_deposits(before, share));
    }
    (share - remaining, released)
}

impl State {
    /// Deducts `share` from the active deposits of `principal`, in order,
    /// as far as they reach, and returns what was deducted.
    pub fn apply_slash_to(&mut self, principal: &Principal, share: u64) -> (r: u64)
        requires
            old(self).wf(),
        ensures
            final(self).wf(),
            final(self)@ == slash_one(old(self)@, principal@, share),
            r == slash_one_taken(old(self)@, principal@, share),
            r <= share,
            final(self)@.total_staked + r <= old(self)@.total_staked,
    {
        let i = match self.find_user(principal) {
            Some(i) => i,
            None => {
                return 0;
            },
        };
        let ghost before = self@;
        proof {
            lemma_staked_sum_bounds(before.users, i as int);
            assert forall|k: int| 0 <= k < before.users[i as int].deposits.len() implies floor_ok(
                #[trigger] before.users[i as int].deposits[k],
            ) by {
                assert(floor_at(before.users, i as int, k));
            }
        }
        let (taken, released) = slash_stakes(&mut self.users[i].deposits, share);
        self.users[i].total_staked = self.users[i].total_staked - released;
        self.total_staked = self.total_staked - released;
        proof {
            let deposits = slash_deposits(before.users[i as int].deposits, share);
            assert(self@.users =~= with_deposits(before.users, i as int, deposits));
            lemma_with_deposits(before, i as int, deposits);
        }
        taken
    }

    /// Deducts every share of a distribution from its owner, in order, and
    /// returns the sum of what was actually deducted: no more than was
    /// asked, and no more than the pool-wide total falls by.
    pub fn apply_slash(&mut self, distributions: &Vec<(Principal, u64)>) -> (r: u64)
        requires
            old(self).wf(),
        ensures
            final(self).wf(),
            final(self)@ == slashed_pool(old(self)@, distributions@),
            r == slashed_total(old(self)@, distributions@),
            r <= shares_sum(distributions@),
            final(self)@.total_staked + r <= old(self)@.total_staked,
    {
        let n: usize = distributions.len();
        let mut total: u64 = 0;
        let mut j: usize = 0;
        while j < n
            invariant
                n == distributions@.len(),
                j <= n,
                self.wf(),
                self@ == slashed_pool(old(self)@, distributions@.take(j as int)),
                total == slashed_total(old(self)@, distributions@.take(j as int)),
                total <= shares_sum(distributions@.take(j as int)),
                self@.total_staked + total <= old(self)@.total_staked,
            decreases n - j,
        {
            assert(distributions@.take(j + 1).drop_last() =~= distributions@.take(j as int));
            let owner = distributions[j].0;
            let share = distributions[j].1;
            let taken = self.apply_slash_to(&owner, share);
            total = total + taken;
            j += 1;
        }
        assert(distributions@.take(n as int) =~= distributions@);
        total
    }
}

} // verus!
