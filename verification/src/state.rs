//! The position store: every user's deposits, the pool-wide totals, and the
//! operations that change them. Nothing here waits on the ledger.

use crate::address::{principal_to_subaccount, sha256_digest, subaccount_tag};
use crate::totals::{
    active_amount, active_sum, lemma_active_sum_bounds, lemma_active_sum_push,
    lemma_active_sum_update, lemma_stake_index_is, lemma_staked_sum_bounds,
    lemma_staked_sum_push, lemma_staked_sum_update, lemma_user_index, lemma_user_index_is,
    stake_index, staked_sum, user_index,
};
use crate::types::{
    LockPeriod, Principal, Stake, StakingError, UserInfo, UserView, MAX_DEPOSIT, MIN_DEPOSIT,
};
use vstd::prelude::*;

verus! {

/// All that the pool records.
#[derive(Debug)]
pub struct State {
    /// The users, in the order in which they first deposited.
    pub users: Vec<UserInfo>,
    /// Cached sum of the amounts of all active deposits.
    pub total_staked: u64,
    /// Identifier that the next deposit gets.
    pub next_deposit_id: u64,
    pub total_rewards_distributed: u64,
    pub total_slashed: u64,
}

/// Mathematical model of a [`State`].
pub struct StateView {
    pub users: Seq<UserView>,
    pub total_staked: u64,
    pub next_deposit_id: u64,
    pub total_rewards_distributed: u64,
    pub total_slashed: u64,
}

/// The models of a sequence of users.
pub open spec fn users_view(users: Seq<UserInfo>) -> Seq<UserView> {
    users.map_values(|u: UserInfo| u@)
}

impl View for State {
    type V = StateView;

    open spec fn view(&self) -> StateView {
        StateView {
            users: users_view(self.users@),
            total_staked: self.total_staked,
            next_deposit_id: self.next_deposit_id,
            total_rewards_distributed: self.total_rewards_distributed,
            total_slashed: self.total_slashed,
        }
    }
}

/// No two users have the same identity.
pub open spec fn distinct_owners(users: Seq<UserView>) -> bool {
    forall|i: int, j: int|
        0 <= i < j < users.len() ==> (#[trigger] users[i]).principal@ != (
        #[trigger] users[j]).principal@
}

/// Every user's cached total is the sum of that user's active deposits.
pub open spec fn totals_cached(users: Seq<UserView>) -> bool {
    forall|i: int|
        0 <= i < users.len() ==> (#[trigger] users[i]).total_staked == active_sum(
            users[i].deposits,
        )
}

/// Whether `(a, b)` names deposit `b` of user `a`.
pub open spec fn is_slot(users: Seq<UserView>, a: int, b: int) -> bool {
    0 <= a < users.len() && 0 <= b < users[a].deposits.len()
}

/// Identifier of deposit `b` of user `a`.
pub open spec fn id_at(users: Seq<UserView>, a: int, b: int) -> u64 {
    users[a].deposits[b].id
}

/// Whether a deposit unlocks exactly one lock period after it was made.
pub open spec fn lock_exact(s: Stake) -> bool {
    s.unlock_time == s.deposit_time + s.lock_period.spec_seconds()
}

/// Whether deposit `b` of user `a` unlocks exactly one lock period after it
/// was made.
pub open spec fn lock_at(users: Seq<UserView>, a: int, b: int) -> bool {
    lock_exact(users[a].deposits[b])
}

/// Every deposit unlocks exactly one lock period after it was made.
pub open spec fn locks_exact(users: Seq<UserView>) -> bool {
    forall|a: int, b: int| is_slot(users, a, b) ==> #[trigger] lock_at(users, a, b)
}

/// Whether a deposit, if active, holds at least the smallest accepted
/// amount.
pub open spec fn floor_ok(s: Stake) -> bool {
    s.is_active ==> s.amount >= MIN_DEPOSIT
}

/// Whether deposit `b` of user `a`, if active, holds at least the smallest
/// accepted amount.
pub open spec fn floor_at(users: Seq<UserView>, a: int, b: int) -> bool {
    floor_ok(users[a].deposits[b])
}

/// Every active deposit holds at least the smallest accepted amount.
pub open spec fn floors_kept(users: Seq<UserView>) -> bool {
    forall|a: int, b: int| is_slot(users, a, b) ==> #[trigger] floor_at(users, a, b)
}

/// Whether two records describe the same deposit: all but the amount and
/// the activity agree.
pub open spec fn same_terms(s: Stake, t: Stake) -> bool {
    &&& s.id == t.id
    &&& s.lock_period == t.lock_period
    &&& s.deposit_time == t.deposit_time
    &&& s.unlock_time == t.unlock_time
    &&& s.subaccount == t.subaccount
}

/// Every identifier in use lies below `next`.
pub open spec fn ids_below(users: Seq<UserView>, next: u64) -> bool {
    forall|a: int, b: int| is_slot(users, a, b) ==> #[trigger] id_at(users, a, b) < next
}

/// No identifier is used twice.
pub open spec fn ids_distinct(users: Seq<UserView>) -> bool {
    forall|a: int, b: int, c: int, d: int|
        is_slot(users, a, b) && is_slot(users, c, d) && (a != c || b != d) ==> #[trigger] id_at(
            users,
            a,
            b,
        ) != #[trigger] id_at(users, c, d)
}

/// Both sequences hold the same deposits at the same places, up to amount
/// and activity.
pub open spec fn same_ids(before: Seq<UserView>, after: Seq<UserView>) -> bool {
    &&& before.len() == after.len()
    &&& forall|a: int|
        0 <= a < before.len() ==> (#[trigger] before[a]).deposits.len() == (
        #[trigger] after[a]).deposits.len()
    &&& forall|a: int, b: int|
        is_slot(before, a, b) ==> #[trigger] id_at(before, a, b) == #[trigger] id_at(after, a, b)
    &&& forall|a: int, b: int|
        is_slot(before, a, b) ==> #[trigger] lock_at(before, a, b) == #[trigger] lock_at(
            after,
            a,
            b,
        )
}

/// Identifiers stay fresh and unique, and locks exact, while the same
/// deposits stand at the same places.
pub proof fn lemma_same_ids(before: Seq<UserView>, after: Seq<UserView>, next: u64)
    requires
        same_ids(before, after),
        ids_below(before, next),
        ids_distinct(before),
        locks_exact(before),
    ensures
        ids_below(after, next),
        ids_distinct(after),
        locks_exact(after),
{
    assert forall|a: int, b: int| is_slot(after, a, b) implies #[trigger] lock_at(after, a, b) by {
        assert(before[a].deposits.len() == after[a].deposits.len());
        assert(is_slot(before, a, b));
        assert(lock_at(before, a, b) == lock_at(after, a, b));
    }
    assert forall|a: int, b: int| is_slot(after, a, b) implies #[trigger] id_at(after, a, b)
        < next by {
        assert(before[a].deposits.len() == after[a].deposits.len());
        assert(is_slot(before, a, b));
        assert(id_at(before, a, b) == id_at(after, a, b));
    }
    assert forall|a: int, b: int, c: int, d: int|
        is_slot(after, a, b) && is_slot(after, c, d) && (a != c || b != d) implies #[trigger] id_at(
        after,
        a,
        b,
    ) != #[trigger] id_at(after, c, d) by {
        assert(before[a].deposits.len() == after[a].deposits.len());
        assert(before[c].deposits.len() == after[c].deposits.len());
        assert(is_slot(before, a, b));
        assert(is_slot(before, c, d));
        assert(id_at(before, a, b) == id_at(after, a, b));
        assert(id_at(before, c, d) == id_at(after, c, d));
    }
}

/// Users stay distinct while identities stay where they are.
pub proof fn lemma_same_owners(before: Seq<UserView>, after: Seq<UserView>)
    requires
        before.len() == after.len(),
        forall|j: int|
            0 <= j < before.len() ==> (#[trigger] after[j]).principal == before[j].principal,
        distinct_owners(before),
    ensures
        distinct_owners(after),
{
    assert forall|a: int, b: int| 0 <= a < b < after.len() implies (
    #[trigger] after[a]).principal@ != (#[trigger] after[b]).principal@ by {
        assert(after[a].principal == before[a].principal);
        assert(after[b].principal == before[b].principal);
    }
}

impl StateView {
    /// What always holds of a pool: users are distinct, every cached total
    /// equals the sum it stands for, identifiers are fresh and unique, every
    /// deposit unlocks one lock period after it was made, and no active
    /// deposit is smaller than the smallest accepted one.
    pub open spec fn wf(self) -> bool {
        &&& distinct_owners(self.users)
        &&& totals_cached(self.users)
        &&& self.total_staked == staked_sum(self.users)
        &&& ids_below(self.users, self.next_deposit_id)
        &&& ids_distinct(self.users)
        &&& locks_exact(self.users)
        &&& floors_kept(self.users)
    }
}

/// The record of a user who has not deposited yet.
pub open spec fn new_user(principal: Principal, subaccount: Seq<u8>) -> UserView {
    UserView { principal, deposits: Seq::empty(), total_staked: 0, subaccount, rewards_earned: 0 }
}

/// The users, with a fresh record for `principal` under `subaccount` at the
/// end if there was none.
pub open spec fn with_user_at(users: Seq<UserView>, principal: Principal, subaccount: Seq<u8>)
    -> Seq<UserView> {
    if user_index(users, principal@) < users.len() {
        users
    } else {
        users.push(new_user(principal, subaccount))
    }
}

/// The users, with a fresh record for `principal` at the end if there was
/// none; its subaccount is the one derived from the principal.
pub open spec fn with_user(users: Seq<UserView>, principal: Principal) -> Seq<UserView> {
    with_user_at(users, principal, sha256_digest(subaccount_tag() + principal@))
}

/// The users after `principal` has received the deposit `stake`.
pub open spec fn with_stake(users: Seq<UserView>, principal: Principal, stake: Stake) -> Seq<
    UserView,
> {
    let all = with_user(users, principal);
    let i = user_index(users, principal@);
    all.update(
        i,
        UserView {
            deposits: all[i].deposits.push(stake),
            total_staked: (all[i].total_staked + stake.amount) as u64,
            ..all[i]
        },
    )
}

/// Why a deposit cannot be recorded, if it cannot.
pub open spec fn deposit_error(st: StateView, amount: u64, lock_period: LockPeriod, now: u64)
    -> Option<StakingError> {
    if amount < MIN_DEPOSIT || amount > MAX_DEPOSIT {
        Some(StakingError::InvalidAmount)
    } else if st.next_deposit_id == u64::MAX || st.total_staked + amount > u64::MAX || now
        + lock_period.spec_seconds() > u64::MAX {
        Some(StakingError::Overflow)
    } else {
        None
    }
}

/// The deposit of `stake_id` among those of `principal`, with its place.
pub open spec fn find_stake(users: Seq<UserView>, principal: Seq<u8>, stake_id: u64) -> Option<
    (int, Stake),
> {
    let i = user_index(users, principal);
    if i >= users.len() {
        None
    } else {
        let k = stake_index(users[i].deposits, stake_id);
        if k >= users[i].deposits.len() {
            None
        } else {
            Some((k, users[i].deposits[k]))
        }
    }
}

/// Whether the deposit may leave at time `now`, and if not, why.
pub open spec fn withdraw_check(
    users: Seq<UserView>,
    principal: Seq<u8>,
    deposit_id: u64,
    now: u64,
) -> Result<(), StakingError> {
    match find_stake(users, principal, deposit_id) {
        None => Err(StakingError::StakeNotFound),
        Some((_, stake)) => if !stake.is_active {
            Err(StakingError::StakeAlreadyWithdrawn)
        } else if now < stake.unlock_time {
            Err(StakingError::StakeStillLocked)
        } else {
            Ok(())
        },
    }
}

/// What marking a deposit withdrawn returns: its amount, or why it cannot
/// be marked.
pub open spec fn mark_result(users: Seq<UserView>, principal: Seq<u8>, deposit_id: u64) -> Result<
    u64,
    StakingError,
> {
    match find_stake(users, principal, deposit_id) {
        None => Err(StakingError::StakeNotFound),
        Some((_, stake)) => if !stake.is_active {
            Err(StakingError::StakeAlreadyWithdrawn)
        } else {
            Ok(stake.amount)
        },
    }
}

/// The pool after a deposit has been marked withdrawn: the deposit is
/// inactive and its amount has left the totals. A deposit that is missing
/// or inactive leaves the pool as it is.
pub open spec fn withdrawn(st: StateView, principal: Seq<u8>, deposit_id: u64) -> StateView {
    match find_stake(st.users, principal, deposit_id) {
        None => st,
        Some((k, stake)) => if !stake.is_active {
            st
        } else {
            StateView {
                users: with_replaced(
                    st.users,
                    user_index(st.users, principal),
                    k,
                    Stake { is_active: false, ..stake },
                ),
                total_staked: (st.total_staked - stake.amount) as u64,
                ..st
            }
        },
    }
}

/// The users after the deposits of user `i` have been replaced by `deposits`.
pub open spec fn with_deposits(users: Seq<UserView>, i: int, deposits: Seq<Stake>) -> Seq<
    UserView,
> {
    users.update(
        i,
        UserView { deposits, total_staked: active_sum(deposits) as u64, ..users[i] },
    )
}

/// Changing amounts and activity of one user's deposits keeps a pool sound
/// once the pool-wide total follows the change.
pub proof fn lemma_with_deposits(st: StateView, i: int, deposits: Seq<Stake>)
    requires
        st.wf(),
        0 <= i < st.users.len(),
        deposits.len() == st.users[i].deposits.len(),
        forall|k: int|
            0 <= k < deposits.len() ==> same_terms(#[trigger] deposits[k], st.users[i].deposits[k]),
        forall|k: int| 0 <= k < deposits.len() ==> floor_ok(#[trigger] deposits[k]),
        st.total_staked - active_sum(st.users[i].deposits) + active_sum(deposits) <= u64::MAX,
    ensures
        active_sum(st.users[i].deposits) <= st.total_staked,
        (StateView {
            users: with_deposits(st.users, i, deposits),
            total_staked: (st.total_staked - active_sum(st.users[i].deposits) + active_sum(
                deposits,
            )) as u64,
            ..st
        }).wf(),
{
    let users = st.users;
    let after = with_deposits(users, i, deposits);
    lemma_staked_sum_update(users, i, after[i]);
    lemma_staked_sum_bounds(users, i);
    assert(floors_kept(after)) by {
        assert forall|a: int, b: int| is_slot(after, a, b) implies #[trigger] floor_at(
            after,
            a,
            b,
        ) by {
            if a != i {
                assert(after[a] == users[a]);
                assert(floor_at(users, a, b));
            } else {
                assert(floor_ok(deposits[b]));
            }
        }
    }
    assert(same_ids(users, after)) by {
        assert forall|a: int, b: int| is_slot(users, a, b) implies id_at(users, a, b) == id_at(
            after,
            a,
            b,
        ) && lock_at(users, a, b) == lock_at(after, a, b) by {
            if a != i {
                assert(after[a] == users[a]);
            } else {
                assert(same_terms(after[a].deposits[b], users[a].deposits[b]));
            }
        }
    }
    lemma_same_ids(users, after, st.next_deposit_id);
    lemma_same_owners(users, after);
}

/// The users after deposit `k` of user `i` has been replaced by `stake`.
pub open spec fn with_replaced(users: Seq<UserView>, i: int, k: int, stake: Stake) -> Seq<
    UserView,
> {
    with_deposits(users, i, users[i].deposits.update(k, stake))
}

/// Replacing a deposit by a record of the same deposit that counts no more
/// than before keeps a pool sound once the pool-wide total follows.
pub proof fn lemma_with_replaced(st: StateView, i: int, k: int, stake: Stake)
    requires
        st.wf(),
        is_slot(st.users, i, k),
        same_terms(stake, st.users[i].deposits[k]),
        floor_ok(stake),
        active_amount(stake) <= active_amount(st.users[i].deposits[k]),
    ensures
        active_sum(st.users[i].deposits.update(k, stake)) + active_amount(
            st.users[i].deposits[k],
        ) == active_sum(st.users[i].deposits) + active_amount(stake),
        active_amount(st.users[i].deposits[k]) <= st.users[i].total_staked <= st.total_staked,
        (StateView {
            users: with_replaced(st.users, i, k, stake),
            total_staked: (st.total_staked - active_amount(st.users[i].deposits[k])
                + active_amount(stake)) as u64,
            ..st
        }).wf(),
{
    let before = st.users[i].deposits;
    let deposits = before.update(k, stake);
    lemma_active_sum_update(before, k, stake);
    lemma_active_sum_bounds(before, k);
    lemma_staked_sum_bounds(st.users, i);
    assert forall|j: int| 0 <= j < deposits.len() implies same_terms(
        #[trigger] deposits[j],
        before[j],
    ) && floor_ok(deposits[j]) by {
        assert(floor_at(st.users, i, j));
    }
    lemma_with_deposits(st, i, deposits);
}

/// A user the pool does not know yet, added at the end without deposits,
/// keeps the pool sound and is found at the place where it was added.
pub proof fn lemma_with_new_user(st: StateView, principal: Principal, subaccount: Seq<u8>)
    requires
        st.wf(),
        user_index(st.users, principal@) == st.users.len(),
    ensures
        (StateView { users: st.users.push(new_user(principal, subaccount)), ..st }).wf(),
        user_index(st.users.push(new_user(principal, subaccount)), principal@) == st.users.len(),
{
    let before = st.users;
    let after = before.push(new_user(principal, subaccount));
    lemma_user_index(before, principal@);
    lemma_user_index_is(after, principal@, before.len() as int);
    lemma_staked_sum_push(before, new_user(principal, subaccount));
    assert forall|a: int, b: int| is_slot(after, a, b) implies is_slot(before, a, b)
        && after[a] == before[a] by {}
    assert(ids_below(after, st.next_deposit_id)) by {
        assert forall|a: int, b: int| is_slot(after, a, b) implies #[trigger] id_at(after, a, b)
            < st.next_deposit_id by {
            assert(id_at(after, a, b) == id_at(before, a, b));
        }
    }
    assert(ids_distinct(after)) by {
        assert forall|a: int, b: int, c: int, d: int|
            is_slot(after, a, b) && is_slot(after, c, d) && (a != c || b != d) implies (
        #[trigger] id_at(after, a, b)) != #[trigger] id_at(after, c, d) by {
            assert(id_at(after, a, b) == id_at(before, a, b));
            assert(id_at(after, c, d) == id_at(before, c, d));
        }
    }
    assert(locks_exact(after)) by {
        assert forall|a: int, b: int| is_slot(after, a, b) implies #[trigger] lock_at(
            after,
            a,
            b,
        ) by {
            assert(lock_at(before, a, b));
        }
    }
    assert(floors_kept(after)) by {
        assert forall|a: int, b: int| is_slot(after, a, b) implies #[trigger] floor_at(
            after,
            a,
            b,
        ) by {
            assert(floor_at(before, a, b));
        }
    }
    assert(totals_cached(after)) by {
        assert forall|a: int| 0 <= a < after.len() implies (#[trigger] after[a]).total_staked
            == active_sum(after[a].deposits) by {
            if a < before.len() {
                assert(after[a] == before[a]);
            }
        }
    }
    assert(distinct_owners(after)) by {
        assert forall|a: int, b: int| 0 <= a < b < after.len() implies (
        #[trigger] after[a]).principal@ != (#[trigger] after[b]).principal@ by {
            assert(after[a] == before[a]);
            if b < before.len() {
                assert(after[b] == before[b]);
            }
        }
    }
}

/// The users after user `i` has been credited `amount` in the tally of
/// rewards, which stops at the largest 64-bit value.
pub open spec fn with_tally(users: Seq<UserView>, i: int, amount: u64) -> Seq<UserView> {
    users.update(
        i,
        UserView {
            rewards_earned: if users[i].rewards_earned + amount > u64::MAX {
                u64::MAX
            } else {
                (users[i].rewards_earned + amount) as u64
            },
            ..users[i]
        },
    )
}

/// The tally of rewards plays no part in the soundness of a pool.
pub proof fn lemma_with_tally(st: StateView, i: int, amount: u64)
    requires
        st.wf(),
        0 <= i < st.users.len(),
    ensures
        (StateView { users: with_tally(st.users, i, amount), ..st }).wf(),
{
    let users = st.users;
    let after = with_tally(users, i, amount);
    lemma_staked_sum_update(users, i, after[i]);
    assert(floors_kept(after)) by {
        assert forall|a: int, b: int| is_slot(after, a, b) implies #[trigger] floor_at(
            after,
            a,
            b,
        ) by {
            assert(after[a].deposits == users[a].deposits);
            assert(floor_at(users, a, b));
        }
    }
    assert(same_ids(users, after)) by {
        assert forall|a: int, b: int| is_slot(users, a, b) implies id_at(users, a, b) == id_at(
            after,
            a,
            b,
        ) && lock_at(users, a, b) == lock_at(after, a, b) by {
            if a != i {
                assert(after[a] == users[a]);
            } else {
                assert(same_terms(after[a].deposits[b], users[a].deposits[b]));
            }
        }
    }
    lemma_same_ids(users, after, st.next_deposit_id);
    assert(totals_cached(after)) by {
        assert forall|a: int| 0 <= a < after.len() implies (#[trigger] after[a]).total_staked
            == active_sum(after[a].deposits) by {
            if a != i {
                assert(after[a] == users[a]);
            }
        }
    }
    lemma_same_owners(users, after);
}

/// The users after `stake` has been added to the deposits of user `i`.
pub open spec fn with_pushed(users: Seq<UserView>, i: int, stake: Stake) -> Seq<UserView> {
    users.update(
        i,
        UserView {
            deposits: users[i].deposits.push(stake),
            total_staked: (users[i].total_staked + stake.amount) as u64,
            ..users[i]
        },
    )
}

/// Adding an active deposit under the next identifier keeps a pool sound.
pub proof fn lemma_with_pushed(st: StateView, i: int, stake: Stake)
    requires
        st.wf(),
        0 <= i < st.users.len(),
        stake.id == st.next_deposit_id,
        stake.is_active,
        lock_exact(stake),
        floor_ok(stake),
        st.next_deposit_id < u64::MAX,
        st.total_staked + stake.amount <= u64::MAX,
    ensures
        st.users[i].total_staked <= st.total_staked,
        (StateView {
            users: with_pushed(st.users, i, stake),
            total_staked: (st.total_staked + stake.amount) as u64,
            next_deposit_id: (st.next_deposit_id + 1) as u64,
            ..st
        }).wf(),
{
    let users = st.users;
    let after = with_pushed(users, i, stake);
    lemma_active_sum_push(users[i].deposits, stake);
    lemma_staked_sum_update(users, i, after[i]);
    lemma_staked_sum_bounds(users, i);
    assert forall|a: int, b: int| is_slot(after, a, b) implies (if a == i && b
        == users[i].deposits.len() {
        after[a].deposits[b] == stake
    } else {
        is_slot(users, a, b) && after[a].deposits[b] == users[a].deposits[b]
    }) by {
        if a != i {
            assert(after[a] == users[a]);
        }
    }
    assert(locks_exact(after)) by {
        assert forall|a: int, b: int| is_slot(after, a, b) implies #[trigger] lock_at(
            after,
            a,
            b,
        ) by {
            if !(a == i && b == users[i].deposits.len()) {
                assert(lock_at(users, a, b));
            }
        }
    }
    assert(floors_kept(after)) by {
        assert forall|a: int, b: int| is_slot(after, a, b) implies #[trigger] floor_at(
            after,
            a,
            b,
        ) by {
            if !(a == i && b == users[i].deposits.len()) {
                assert(floor_at(users, a, b));
            }
        }
    }
    assert(ids_below(after, (st.next_deposit_id + 1) as u64)) by {
        assert forall|a: int, b: int| is_slot(after, a, b) implies #[trigger] id_at(after, a, b)
            < st.next_deposit_id + 1 by {
            if !(a == i && b == users[i].deposits.len()) {
                assert(id_at(after, a, b) == id_at(users, a, b));
            }
        }
    }
    assert(ids_distinct(after)) by {
        assert forall|a: int, b: int, c: int, d: int|
            is_slot(after, a, b) && is_slot(after, c, d) && (a != c || b != d) implies #[trigger] id_at(
            after,
            a,
            b,
        ) != #[trigger] id_at(after, c, d) by {
            if !(a == i && b == users[i].deposits.len()) {
                assert(id_at(after, a, b) == id_at(users, a, b));
            }
            if !(c == i && d == users[i].deposits.len()) {
                assert(id_at(after, c, d) == id_at(users, c, d));
            }
        }
    }
    assert(totals_cached(after)) by {
        assert forall|a: int| 0 <= a < after.len() implies (#[trigger] after[a]).total_staked
            == active_sum(after[a].deposits) by {
            if a != i {
                assert(after[a] == users[a]);
            }
        }
    }
    lemma_same_owners(users, after);
}

impl Default for State {
    /// An empty pool.
    fn default() -> (r: State)
        ensures
            r.wf(),
            r@.users.len() == 0,
            r@.total_staked == 0,
            r@.next_deposit_id == 0,
            r@.total_rewards_distributed == 0,
            r@.total_slashed == 0,
    {
        State::new()
    }
}

impl State {
    /// What always holds of a pool.
    pub open spec fn wf(&self) -> bool {
        self@.wf()
    }

    /// An empty pool.
    pub fn new() -> (r: State)
        ensures
            r.wf(),
            r@.users.len() == 0,
            r@.total_staked == 0,
            r@.next_deposit_id == 0,
            r@.total_rewards_distributed == 0,
            r@.total_slashed == 0,
    {
        State {
            users: Vec::new(),
            total_staked: 0,
            next_deposit_id: 0,
            total_rewards_distributed: 0,
            total_slashed: 0,
        }
    }

    /// Place of the user with the given identity, if the pool knows it.
    pub fn find_user(&self, principal: &Principal) -> (r: Option<usize>)
        ensures
            match r {
                Some(i) => i < self@.users.len() && i == user_index(self@.users, principal@),
                None => user_index(self@.users, principal@) == self@.users.len(),
            },
    {
        let n: usize = self.users.len();
        let mut i: usize = 0;
        while i < n
            invariant
                n == self.users@.len(),
                i <= n,
                forall|j: int| 0 <= j < i ==> (#[trigger] self@.users[j]).principal@ != principal@,
            decreases n - i,
        {
            if self.users[i].principal.same(principal) {
                proof {
                    lemma_user_index_is(self@.users, principal@, i as int);
                }
                return Some(i);
            }
            i += 1;
        }
        proof {
            lemma_user_index_is(self@.users, principal@, n as int);
        }
        None
    }

    /// Place of the user with the given identity; a user the pool does not
    /// know yet is first added at the end, with no deposits and the
    /// subaccount derived from the principal.
    pub fn get_or_create_user(&mut self, principal: Principal) -> (r: usize)
        requires
            old(self).wf(),
        ensures
            final(self).wf(),
            r == user_index(old(self)@.users, principal@),
            r == user_index(final(self)@.users, principal@),
            r < final(self)@.users.len(),
            final(self)@ == (StateView {
                users: with_user(old(self)@.users, principal),
                ..old(self)@
            }),
    {
        match self.find_user(&principal) {
            Some(i) => i,
            None => {
                let subaccount = principal_to_subaccount(&principal);
                self.insert_user(principal, subaccount)
            },
        }
    }

    /// Place of the user with the given identity; a user the pool does not
    /// know yet is first added at the end, with no deposits and the given
    /// subaccount.
    pub fn insert_user(&mut self, principal: Principal, subaccount: [u8; 32]) -> (r: usize)
        requires
            old(self).wf(),
        ensures
            final(self).wf(),
            r == user_index(old(self)@.users, principal@),
            r == user_index(final(self)@.users, principal@),
            r < final(self)@.users.len(),
            final(self)@ == (StateView {
                users: with_user_at(old(self)@.users, principal, subaccount@),
                ..old(self)@
            }),
    {
        match self.find_user(&principal) {
            Some(i) => i,
            None => {
                let ghost before = self@.users;
                let i = self.users.len();
                self.users.push(
                    UserInfo {
                        principal,
                        deposits: Vec::new(),
                        total_staked: 0,
                        subaccount,
                        rewards_earned: 0,
                    },
                );
                proof {
                    assert(self@.users =~= before.push(new_user(principal, subaccount@)));
                    lemma_with_new_user(old(self)@, principal, subaccount@);
                }
                i
            },
        }
    }

    /// Records a deposit of `amount` made at time `now` (in seconds), to be
    /// collected at `subaccount`, and returns its identifier.
    ///
    /// The deposit unlocks exactly `lock_period` after `now`. Nothing changes
    /// when the deposit is refused.
    pub fn add_deposit(
        &mut self,
        principal: Principal,
        amount: u64,
        lock_period: LockPeriod,
        now: u64,
        subaccount: [u8; 32],
    ) -> (r: Result<u64, StakingError>)
        requires
            old(self).wf(),
        ensures
            final(self).wf(),
            match deposit_error(old(self)@, amount, lock_period, now) {
                Some(e) => r == Err::<u64, StakingError>(e) && final(self)@ == old(self)@,
                None => r == Ok::<u64, StakingError>(old(self)@.next_deposit_id) && final(self)@
                    == (StateView {
                    users: with_stake(
                        old(self)@.users,
                        principal,
                        Stake {
                            id: old(self)@.next_deposit_id,
                            amount,
                            lock_period,
                            deposit_time: now,
                            unlock_time: (now + lock_period.spec_seconds()) as u64,
                            subaccount,
                            is_active: true,
                            confirmed: false,
                        },
                    ),
                    total_staked: (old(self)@.total_staked + amount) as u64,
                    next_deposit_id: (old(self)@.next_deposit_id + 1) as u64,
                    ..old(self)@
                }),
            },
    {
        if amount < MIN_DEPOSIT || amount > MAX_DEPOSIT {
            return Err(StakingError::InvalidAmount);
        }
        let seconds = lock_period.to_seconds();
        if self.next_deposit_id == u64::MAX || amount > u64::MAX - self.total_staked || seconds
            > u64::MAX - now {
            return Err(StakingError::Overflow);
        }
        let id = self.next_deposit_id;
        let stake = Stake {
            id,
            amount,
            lock_period,
            deposit_time: now,
            unlock_time: now + seconds,
            subaccount,
            is_active: true,
            confirmed: false,
        };
        let i = self.get_or_create_user(principal);
        let ghost mid = self@;
        proof {
            lemma_with_pushed(mid, i as int, stake);
        }
        self.users[i].deposits.push(stake);
        self.users[i].total_staked = self.users[i].total_staked + amount;
        self.total_staked = self.total_staked + amount;
        self.next_deposit_id = id + 1;
        proof {
            assert(self@.users =~= with_pushed(mid.users, i as int, stake));
        }
        Ok(id)
    }

    /// The deposit `stake_id` of `user`, with its place among the user's
    /// deposits.
    pub fn find_stake_by_id(&self, user: &Principal, stake_id: u64) -> (r: Option<(usize, Stake)>)
        ensures
            match r {
                Some((k, stake)) => find_stake(self@.users, user@, stake_id) == Some(
                    (k as int, stake),
                ),
                None => find_stake(self@.users, user@, stake_id).is_none(),
            },
    {
        let i = match self.find_user(user) {
            Some(i) => i,
            None => {
                return None;
            },
        };
        let n: usize = self.users[i].deposits.len();
        let ghost stakes = self@.users[i as int].deposits;
        let mut k: usize = 0;
        while k < n
            invariant
                i < self.users@.len(),
                stakes == self@.users[i as int].deposits,
                stakes == self.users@[i as int].deposits@,
                i == user_index(self@.users, user@),
                n == stakes.len(),
                k <= n,
                forall|j: int| 0 <= j < k ==> (#[trigger] stakes[j]).id != stake_id,
            decreases n - k,
        {
            if self.users[i].deposits[k].id == stake_id {
                proof {
                    lemma_stake_index_is(stakes, stake_id, k as int);
                }
                return Some((k, self.users[i].deposits[k]));
            }
            k += 1;
        }
        proof {
            lemma_stake_index_is(stakes, stake_id, n as int);
        }
        None
    }

    /// Whether the deposit may leave at time `now` (in seconds).
    pub fn can_withdraw(&self, principal: &Principal, deposit_id: u64, now: u64) -> (r: Result<
        (),
        StakingError,
    >)
        ensures
            r == withdraw_check(self@.users, principal@, deposit_id, now),
    {
        match self.find_stake_by_id(principal, deposit_id) {
            None => Err(StakingError::StakeNotFound),
            Some((_, stake)) => {
                if !stake.is_active {
                    Err(StakingError::StakeAlreadyWithdrawn)
                } else if now < stake.unlock_time {
                    Err(StakingError::StakeStillLocked)
                } else {
                    Ok(())
                }
            },
        }
    }

    /// Marks the deposit as withdrawn and takes its current amount out of
    /// the totals; returns that amount.
    ///
    /// Fails, and changes nothing, when the deposit does not exist or is no
    /// longer active.
    pub fn mark_withdrawn(&mut self, principal: &Principal, deposit_id: u64) -> (r: Result<
        u64,
        StakingError,
    >)
        requires
            old(self).wf(),
        ensures
            final(self).wf(),
            r == mark_result(old(self)@.users, principal@, deposit_id),
            final(self)@ == withdrawn(old(self)@, principal@, deposit_id),
    {
        let (k, stake) = match self.find_stake_by_id(principal, deposit_id) {
            None => {
                return Err(StakingError::StakeNotFound);
            },
            Some(found) => found,
        };
        if !stake.is_active {
            return Err(StakingError::StakeAlreadyWithdrawn);
        }
        let i = match self.find_user(principal) {
            Some(i) => i,
            None => {
                return Err(StakingError::StakeNotFound);
            },
        };
        let ghost before = self@;
        proof {
            lemma_with_replaced(before, i as int, k as int, Stake { is_active: false, ..stake });
        }
        self.users[i].deposits[k].is_active = false;
        self.users[i].total_staked = self.users[i].total_staked - stake.amount;
        self.total_staked = self.total_staked - stake.amount;
        proof {
            assert(self@.users =~= with_replaced(
                before.users,
                i as int,
                k as int,
                Stake { is_active: false, ..stake },
            ));
        }
        Ok(stake.amount)
    }

    /// Adds `amount` to the tally of rewards of `user`, who is first added
    /// to the pool if unknown. The tally stops at the largest 64-bit value.
    pub fn add_user_reward(&mut self, user: Principal, amount: u64)
        requires
            old(self).wf(),
        ensures
            final(self).wf(),
            final(self)@ == (StateView {
                users: with_tally(
                    with_user(old(self)@.users, user),
                    user_index(old(self)@.users, user@),
                    amount,
                ),
                ..old(self)@
            }),
    {
        let i = self.get_or_create_user(user);
        let ghost mid = self@;
        proof {
            lemma_with_tally(mid, i as int, amount);
        }
        self.users[i].rewards_earned = self.users[i].rewards_earned.saturating_add(amount);
        proof {
            assert(self@.users =~= with_tally(mid.users, i as int, amount));
        }
    }
}

} // verus!
