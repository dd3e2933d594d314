//! Sums and searches over sequences of deposits and users, with the facts
//! that the store's operations rest on.

use crate::types::{Stake, UserView};
use vstd::prelude::*;

verus! {

/// Index of the first element that satisfies `p`, or the length if none does.
pub open spec fn first_index<T>(s: Seq<T>, p: spec_fn(T) -> bool) -> int
    decreases s.len(),
{
    if s.len() == 0 {
        0
    } else {
        let k = first_index(s.drop_last(), p);
        if k < s.len() - 1 {
            k
        } else if p(s.last()) {
            s.len() - 1
        } else {
            s.len() as int
        }
    }
}

/// The first index lies within the sequence or at its end; the element
/// there satisfies the predicate and no earlier one does.
pub proof fn lemma_first_index<T>(s: Seq<T>, p: spec_fn(T) -> bool)
    ensures
        0 <= first_index(s, p) <= s.len(),
        first_index(s, p) < s.len() ==> p(s[first_index(s, p)]),
        forall|j: int| 0 <= j < first_index(s, p) ==> !p(#[trigger] s[j]),
    decreases s.len(),
{
    if s.len() > 0 {
        lemma_first_index(s.drop_last(), p);
        let k = first_index(s.drop_last(), p);
        assert forall|j: int| 0 <= j < first_index(s, p) implies !p(#[trigger] s[j]) by {
            if j < s.len() - 1 {
                assert(s[j] == s.drop_last()[j]);
            }
        }
        if k < s.len() - 1 {
            assert(s[k] == s.drop_last()[k]);
        }
    }
}

/// An index whose element satisfies the predicate, with no earlier such
/// element, is the first index.
pub proof fn lemma_first_index_is<T>(s: Seq<T>, p: spec_fn(T) -> bool, k: int)
    requires
        0 <= k <= s.len(),
        k < s.len() ==> p(s[k]),
        forall|j: int| 0 <= j < k ==> !p(#[trigger] s[j]),
    ensures
        first_index(s, p) == k,
{
    lemma_first_index(s, p);
    let f = first_index(s, p);
    if f < k {
        assert(!p(s[f]));
    }
    if k < f {
        assert(!p(s[k]));
    }
}

/// Two sequences on which the predicate agrees place by place have the
/// same first index.
pub proof fn lemma_first_index_same<T>(s: Seq<T>, t: Seq<T>, p: spec_fn(T) -> bool)
    requires
        s.len() == t.len(),
        forall|j: int| 0 <= j < s.len() ==> p(#[trigger] s[j]) == p(t[j]),
    ensures
        first_index(s, p) == first_index(t, p),
{
    lemma_first_index(s, p);
    let k = first_index(s, p);
    assert forall|j: int| 0 <= j < k implies !p(#[trigger] t[j]) by {
        assert(!p(s[j]));
    }
    lemma_first_index_is(t, p, k);
}

/// The users with identity `p`.
pub open spec fn is_owner(p: Seq<u8>) -> spec_fn(UserView) -> bool {
    |u: UserView| u.principal@ == p
}

/// The deposits with identifier `id`.
pub open spec fn has_id(id: u64) -> spec_fn(Stake) -> bool {
    |s: Stake| s.id == id
}

/// The active deposits.
pub open spec fn is_active() -> spec_fn(Stake) -> bool {
    |s: Stake| s.is_active
}

/// Where the user with identity `p` stands, or the length if there is none.
pub open spec fn user_index(users: Seq<UserView>, p: Seq<u8>) -> int {
    first_index(users, is_owner(p))
}

/// Where the first deposit with identifier `id` stands, or the length.
pub open spec fn stake_index(stakes: Seq<Stake>, id: u64) -> int {
    first_index(stakes, has_id(id))
}

/// Where the first active deposit stands, or the length.
pub open spec fn first_active(stakes: Seq<Stake>) -> int {
    first_index(stakes, is_active())
}

/// Where a user is found, the identity matches, and it matches nowhere
/// before.
pub proof fn lemma_user_index(users: Seq<UserView>, p: Seq<u8>)
    ensures
        0 <= user_index(users, p) <= users.len(),
        user_index(users, p) < users.len() ==> users[user_index(users, p)].principal@ == p,
        forall|j: int| 0 <= j < user_index(users, p) ==> (#[trigger] users[j]).principal@ != p,
{
    lemma_first_index(users, is_owner(p));
}

/// The first place at which the identity matches is the place of the user.
pub proof fn lemma_user_index_is(users: Seq<UserView>, p: Seq<u8>, k: int)
    requires
        0 <= k <= users.len(),
        k < users.len() ==> users[k].principal@ == p,
        forall|j: int| 0 <= j < k ==> (#[trigger] users[j]).principal@ != p,
    ensures
        user_index(users, p) == k,
{
    lemma_first_index_is(users, is_owner(p), k);
}

/// Users keep their places while identities stay where they are.
pub proof fn lemma_user_index_same(before: Seq<UserView>, after: Seq<UserView>, p: Seq<u8>)
    requires
        before.len() == after.len(),
        forall|j: int|
            0 <= j < before.len() ==> (#[trigger] before[j]).principal == after[j].principal,
    ensures
        user_index(before, p) == user_index(after, p),
{
    lemma_first_index_same(before, after, is_owner(p));
}

/// Deposits keep their places while identifiers stay where they are.
pub proof fn lemma_stake_index_same(before: Seq<Stake>, after: Seq<Stake>, id: u64)
    requires
        before.len() == after.len(),
        forall|j: int| 0 <= j < before.len() ==> (#[trigger] before[j]).id == after[j].id,
    ensures
        stake_index(before, id) == stake_index(after, id),
{
    lemma_first_index_same(before, after, has_id(id));
}

/// Where a deposit is found, the identifier matches, and it matches
/// nowhere before.
pub proof fn lemma_stake_index(stakes: Seq<Stake>, id: u64)
    ensures
        0 <= stake_index(stakes, id) <= stakes.len(),
        stake_index(stakes, id) < stakes.len() ==> stakes[stake_index(stakes, id)].id == id,
        forall|j: int| 0 <= j < stake_index(stakes, id) ==> (#[trigger] stakes[j]).id != id,
{
    lemma_first_index(stakes, has_id(id));
}

/// The first place at which the identifier matches is the place of the
/// deposit.
pub proof fn lemma_stake_index_is(stakes: Seq<Stake>, id: u64, k: int)
    requires
        0 <= k <= stakes.len(),
        k < stakes.len() ==> stakes[k].id == id,
        forall|j: int| 0 <= j < k ==> (#[trigger] stakes[j]).id != id,
    ensures
        stake_index(stakes, id) == k,
{
    lemma_first_index_is(stakes, has_id(id), k);
}

/// The first active deposit is active, and none before it is.
pub proof fn lemma_first_active(stakes: Seq<Stake>)
    ensures
        0 <= first_active(stakes) <= stakes.len(),
        first_active(stakes) < stakes.len() ==> stakes[first_active(stakes)].is_active,
        forall|j: int| 0 <= j < first_active(stakes) ==> !(#[trigger] stakes[j]).is_active,
{
    lemma_first_index(stakes, is_active());
}

/// What a deposit counts towards the totals: its amount while active.
pub open spec fn active_amount(s: Stake) -> nat {
    if s.is_active {
        s.amount as nat
    } else {
        0
    }
}

/// Sum of the amounts of the active deposits.
pub open spec fn active_sum(stakes: Seq<Stake>) -> nat
    decreases stakes.len(),
{
    if stakes.len() == 0 {
        0
    } else {
        active_sum(stakes.drop_last()) + active_amount(stakes.last())
    }
}

/// Number of active deposits.
pub open spec fn active_count(stakes: Seq<Stake>) -> nat
    decreases stakes.len(),
{
    if stakes.len() == 0 {
        0
    } else {
        active_count(stakes.drop_last()) + if stakes.last().is_active { 1nat } else { 0nat }
    }
}

/// Sum, over all users, of the amounts of their active deposits.
pub open spec fn staked_sum(users: Seq<UserView>) -> nat
    decreases users.len(),
{
    if users.len() == 0 {
        0
    } else {
        staked_sum(users.drop_last()) + active_sum(users.last().deposits)
    }
}

/// A deposit added at the end adds what it counts to sum and count.
pub proof fn lemma_active_sum_push(stakes: Seq<Stake>, s: Stake)
    ensures
        active_sum(stakes.push(s)) == active_sum(stakes) + active_amount(s),
        active_count(stakes.push(s)) == active_count(stakes) + if s.is_active {
            1nat
        } else {
            0nat
        },
{
    assert(stakes.push(s).drop_last() =~= stakes);
}

/// Replacing a deposit changes the sum by the difference of what the two
/// count.
pub proof fn lemma_active_sum_update(stakes: Seq<Stake>, i: int, s: Stake)
    requires
        0 <= i < stakes.len(),
    ensures
        active_sum(stakes.update(i, s)) + active_amount(stakes[i]) == active_sum(stakes)
            + active_amount(s),
    decreases stakes.len(),
{
    let updated = stakes.update(i, s);
    if i == stakes.len() - 1 {
        assert(updated.drop_last() =~= stakes.drop_last());
    } else {
        lemma_active_sum_update(stakes.drop_last(), i, s);
        assert(updated.drop_last() =~= stakes.drop_last().update(i, s));
    }
}

/// No deposit counts more than the sum.
pub proof fn lemma_active_sum_bounds(stakes: Seq<Stake>, i: int)
    requires
        0 <= i < stakes.len(),
    ensures
        active_amount(stakes[i]) <= active_sum(stakes),
    decreases stakes.len(),
{
    if i < stakes.len() - 1 {
        lemma_active_sum_bounds(stakes.drop_last(), i);
    }
}

/// A prefix holds no more active deposits than the whole sequence.
pub proof fn lemma_active_count_prefix(stakes: Seq<Stake>, i: int)
    requires
        0 <= i <= stakes.len(),
    ensures
        active_count(stakes.take(i)) <= active_count(stakes),
    decreases stakes.len(),
{
    if i == stakes.len() {
        assert(stakes.take(i) =~= stakes);
    } else {
        lemma_active_count_prefix(stakes.drop_last(), i);
        assert(stakes.drop_last().take(i) =~= stakes.take(i));
    }
}

/// A sequence with an active deposit has a first one.
pub proof fn lemma_active_count_some(stakes: Seq<Stake>)
    ensures
        active_count(stakes) > 0 <==> first_active(stakes) < stakes.len(),
    decreases stakes.len(),
{
    lemma_first_active(stakes);
    if stakes.len() > 0 {
        lemma_active_count_some(stakes.drop_last());
        lemma_first_active(stakes.drop_last());
    }
}

/// A user added at the end adds the sum of their active deposits.
pub proof fn lemma_staked_sum_push(users: Seq<UserView>, u: UserView)
    ensures
        staked_sum(users.push(u)) == staked_sum(users) + active_sum(u.deposits),
{
    assert(users.push(u).drop_last() =~= users);
}

/// Replacing a user changes the sum by the difference of the sums of
/// their active deposits.
pub proof fn lemma_staked_sum_update(users: Seq<UserView>, i: int, u: UserView)
    requires
        0 <= i < users.len(),
    ensures
        staked_sum(users.update(i, u)) + active_sum(users[i].deposits) == staked_sum(users)
            + active_sum(u.deposits),
    decreases users.len(),
{
    let updated = users.update(i, u);
    if i == users.len() - 1 {
        assert(updated.drop_last() =~= users.drop_last());
    } else {
        lemma_staked_sum_update(users.drop_last(), i, u);
        assert(updated.drop_last() =~= users.drop_last().update(i, u));
    }
}

/// No user holds more than the pool.
pub proof fn lemma_staked_sum_bounds(users: Seq<UserView>, i: int)
    requires
        0 <= i < users.len(),
    ensures
        active_sum(users[i].deposits) <= staked_sum(users),
    decreases users.len(),
{
    if i < users.len() - 1 {
        lemma_staked_sum_bounds(users.drop_last(), i);
    }
}

} // verus!
