//! Proportional distribution of a pool-wide amount over a snapshot of
//! positions. Every share is rounded down; what rounding leaves over stays
//! with the pool.

use crate::types::{Principal, Stake, StakingError};
use vstd::prelude::*;

verus! {

/// Weight of a position in a reward round: its amount times the multiplier
/// of its lock tier, in thousandths.
pub open spec fn weight(s: Stake) -> nat {
    s.amount as nat * s.lock_period.spec_multiplier()
}

/// Sum of the weights of all positions of a snapshot.
pub open spec fn total_weight(positions: Seq<(Principal, Stake)>) -> nat
    decreases positions.len(),
{
    if positions.len() == 0 {
        0
    } else {
        total_weight(positions.drop_last()) + weight(positions.last().1)
    }
}

/// Sum of the amounts of all positions of a snapshot.
pub open spec fn total_principal(positions: Seq<(Principal, Stake)>) -> nat
    decreases positions.len(),
{
    if positions.len() == 0 {
        0
    } else {
        total_principal(positions.drop_last()) + positions.last().1.amount as nat
    }
}

/// Sum of the shares of a distribution.
pub open spec fn shares_sum(shares: Seq<(Principal, u64)>) -> nat
    decreases shares.len(),
{
    if shares.len() == 0 {
        0
    } else {
        shares_sum(shares.drop_last()) + shares.last().1 as nat
    }
}

/// Share of a position in a reward of `total_amount`.
pub open spec fn reward_share(s: Stake, total_amount: u64, total_weight: nat) -> nat {
    if total_weight == 0 {
        0
    } else {
        weight(s) * total_amount as nat / total_weight
    }
}

/// Share of a position in a slash of `total_amount`.
pub open spec fn slash_share(s: Stake, total_amount: u64, total_staked: nat) -> nat {
    if total_staked == 0 {
        0
    } else {
        s.amount as nat * total_amount as nat / total_staked
    }
}

/// The shares of a reward of `total_amount` over a snapshot.
pub open spec fn reward_shares(positions: Seq<(Principal, Stake)>, total_amount: u64) -> Seq<
    (Principal, u64),
> {
    Seq::new(
        positions.len(),
        |i: int|
            (
                positions[i].0,
                reward_share(positions[i].1, total_amount, total_weight(positions)) as u64,
            ),
    )
}

/// The shares of a slash of `total_amount` over a snapshot.
pub open spec fn slash_shares(positions: Seq<(Principal, Stake)>, total_amount: u64) -> Seq<
    (Principal, u64),
> {
    Seq::new(
        positions.len(),
        |i: int|
            (
                positions[i].0,
                slash_share(positions[i].1, total_amount, total_principal(positions)) as u64,
            ),
    )
}

/// A weight lies between one and two times the amount, in thousandths.
pub proof fn lemma_weight_bounds(s: Stake)
    ensures
        1000 * s.amount <= weight(s) <= 2000 * s.amount,
{
    let m = s.lock_period.spec_multiplier();
    assert(1000 * s.amount <= s.amount as nat * m <= 2000 * s.amount) by (nonlinear_arith)
        requires
            1000 <= m <= 2000,
    ;
}

/// Sums over a prefix stay within the sums over the whole snapshot, and
/// the total weight lies between one and two times the total amount.
pub proof fn lemma_total_principal_prefix(positions: Seq<(Principal, Stake)>, i: int)
    requires
        0 <= i <= positions.len(),
    ensures
        total_principal(positions.take(i)) <= total_principal(positions),
        total_weight(positions.take(i)) <= total_weight(positions),
        total_weight(positions) <= 2000 * total_principal(positions),
        1000 * total_principal(positions) <= total_weight(positions),
    decreases positions.len(),
{
    if positions.len() > 0 {
        lemma_weight_bounds(positions.last().1);
    }
    if positions.len() == 0 {
        assert(positions.take(i) =~= positions);
    } else if i == positions.len() {
        assert(positions.take(i) =~= positions);
        lemma_total_principal_prefix(positions.drop_last(), 0);
    } else {
        lemma_total_principal_prefix(positions.drop_last(), i);
        assert(positions.drop_last().take(i) =~= positions.take(i));
    }
}

/// No position outweighs the snapshot that holds it.
pub proof fn lemma_position_bounds(positions: Seq<(Principal, Stake)>, i: int)
    requires
        0 <= i < positions.len(),
    ensures
        positions[i].1.amount <= total_principal(positions),
        weight(positions[i].1) <= total_weight(positions),
    decreases positions.len(),
{
    if i < positions.len() - 1 {
        lemma_position_bounds(positions.drop_last(), i);
    }
}

/// A share of a part never exceeds the whole: `floor(w * t / d) <= t` when
/// `w <= d`, and the product with `d` stays below `w * t`.
pub proof fn lemma_share_bounds(w: nat, t: nat, d: nat)
    requires
        d > 0,
        w <= d,
    ensures
        w * t / d <= t,
        (w * t / d) * d <= w * t,
{
    let x = w * t;
    assert(x <= d * t) by (nonlinear_arith)
        requires
            x == w * t,
            w <= d,
    ;
    vstd::arithmetic::div_mod::lemma_fundamental_div_mod(x as int, d as int);
    vstd::arithmetic::div_mod::lemma_mod_bound(x as int, d as int);
    let q = x / d;
    assert(q * d <= x) by (nonlinear_arith)
        requires
            x == d * q + x % d,
            x % d >= 0,
    ;
    assert(q <= t) by (nonlinear_arith)
        requires
            q * d <= d * t,
            d > 0,
    ;
}

/// Splitting a product before dividing: with `x == q * d + r`,
/// `floor(x * m / d) == q * m + floor(r * m / d)`.
pub proof fn lemma_split_division(x: nat, m: nat, d: nat)
    requires
        d > 0,
    ensures
        x * m / d == (x / d) * m + (x % d) * m / d,
{
    let q = x / d;
    let r = x % d;
    let b = r * m;
    vstd::arithmetic::div_mod::lemma_fundamental_div_mod(x as int, d as int);
    vstd::arithmetic::div_mod::lemma_fundamental_div_mod(b as int, d as int);
    vstd::arithmetic::div_mod::lemma_mod_bound(b as int, d as int);
    let total = q * m + b / d;
    assert(x * m == total * d + b % d) by (nonlinear_arith)
        requires
            x == d * q + r,
            b == r * m,
            b == d * (b / d) + b % d,
            total == q * m + b / d,
    ;
    vstd::arithmetic::div_mod::lemma_fundamental_div_mod_converse(
        (x * m) as int,
        d as int,
        total as int,
        (b % d) as int,
    );
}

/// Shares of a reward of `total_amount` over a snapshot, one per position and
/// in the snapshot's order: `floor(weight * total_amount / total_weight)`.
///
/// Fails with `Overflow` when the amounts of the snapshot do not add up
/// within 64 bits, and with `NoEligiblePositions` when there is no weight to
/// share by. The shares never add up to more than `total_amount`.
pub fn compute_reward_shares(total_amount: u64, positions: &Vec<(Principal, Stake)>) -> (r: Result<
    Vec<(Principal, u64)>,
    StakingError,
>)
    ensures
        total_principal(positions@) > u64::MAX ==> r == Err::<Vec<(Principal, u64)>, StakingError>(
            StakingError::Overflow,
        ),
        total_principal(positions@) == 0 ==> r == Err::<Vec<(Principal, u64)>, StakingError>(
            StakingError::NoEligiblePositions,
        ),
        0 < total_principal(positions@) <= u64::MAX ==> r.is_ok(),
        r.is_ok() ==> {
            &&& r.unwrap()@ == reward_shares(positions@, total_amount)
            &&& r.unwrap()@.len() == positions@.len()
            &&& forall|i: int|
                0 <= i < positions@.len() ==> (#[trigger] r.unwrap()@[i]).0 == positions@[i].0
                    && r.unwrap()@[i].1 == reward_share(
                    positions@[i].1,
                    total_amount,
                    total_weight(positions@),
                )
            &&& shares_sum(r.unwrap()@) <= total_amount
        },
{
    let n: usize = positions.len();
    let mut sum: u128 = 0;
    let mut i: usize = 0;
    while i < n
        invariant
            n == positions@.len(),
            i <= n,
            sum == total_principal(positions@.take(i as int)),
            sum <= i * 0xffff_ffff_ffff_ffff,
        decreases n - i,
    {
        assert(positions@.take(i + 1).drop_last() =~= positions@.take(i as int));
        sum = sum + positions[i].1.amount as u128;
        i += 1;
    }
    assert(positions@.take(n as int) =~= positions@);
    if sum > u64::MAX as u128 {
        return Err(StakingError::Overflow);
    }
    proof {
        lemma_total_principal_prefix(positions@, 0);
    }
    if sum == 0 {
        return Err(StakingError::NoEligiblePositions);
    }
    let mut total: u128 = 0;
    i = 0;
    while i < n
        invariant
            n == positions@.len(),
            i <= n,
            total == total_weight(positions@.take(i as int)),
            total_principal(positions@) <= u64::MAX,
        decreases n - i,
    {
        proof {
            assert(positions@.take(i + 1).drop_last() =~= positions@.take(i as int));
            lemma_total_principal_prefix(positions@, i + 1);
            lemma_total_principal_prefix(positions@.take(i + 1), 0);
        }
        let s = positions[i].1;
        let w: u128 = s.amount as u128 * s.lock_period.multiplier() as u128;
        total = total + w;
        i += 1;
    }
    assert(positions@.take(n as int) =~= positions@);
    let mut out: Vec<(Principal, u64)> = Vec::new();
    i = 0;
    proof {
        assert(shares_sum(out@) * total == 0) by (nonlinear_arith)
            requires
                shares_sum(out@) == 0,
        ;
        assert(total_amount * total_weight(positions@.take(0)) >= 0) by (nonlinear_arith);
    }
    while i < n
        invariant
            n == positions@.len(),
            i <= n,
            total == total_weight(positions@),
            total > 0,
            total <= 2000 * u64::MAX,
            out@.len() == i,
            forall|k: int|
                0 <= k < i ==> (#[trigger] out@[k]).0 == positions@[k].0 && out@[k].1
                    == reward_share(positions@[k].1, total_amount, total_weight(positions@)),
            shares_sum(out@) * total <= total_amount * total_weight(positions@.take(i as int)),
        decreases n - i,
    {
        let owner = positions[i].0;
        let s = positions[i].1;
        let m: u128 = s.lock_period.multiplier() as u128;
        assert(s.amount as nat * total_amount as nat <= u64::MAX * u64::MAX) by (nonlinear_arith);
        let x: u128 = s.amount as u128 * total_amount as u128;
        let q: u128 = x / total;
        let rest: u128 = x % total;
        proof {
            lemma_position_bounds(positions@, i as int);
            lemma_split_division(x as nat, m as nat, total as nat);
            lemma_share_bounds(weight(s), total_amount as nat, total as nat);
            assert(weight(s) * total_amount as nat == x as nat * m as nat) by (nonlinear_arith)
                requires
                    weight(s) == s.amount as nat * m as nat,
                    x as nat == s.amount as nat * total_amount as nat,
            ;
            assert(rest * m <= 2000 * 2000 * u64::MAX) by (nonlinear_arith)
                requires
                    rest < total,
                    total <= 2000 * u64::MAX,
                    m <= 2000,
            ;
            assert(q * m <= x as nat * m as nat / total as nat);
        }
        let share: u128 = q * m + (rest * m) / total;
        let ghost before = out@;
        out.push((owner, share as u64));
        proof {
            assert(out@.drop_last() =~= before);
            assert(positions@.take(i + 1).drop_last() =~= positions@.take(i as int));
            assert((shares_sum(before) + share) * total <= total_amount * (total_weight(
                positions@.take(i as int),
            ) + weight(s))) by (nonlinear_arith)
                requires
                    shares_sum(before) * total <= total_amount * total_weight(
                        positions@.take(i as int),
                    ),
                    share * total <= weight(s) * total_amount,
            ;
        }
        i += 1;
    }
    proof {
        assert(positions@.take(n as int) =~= positions@);
        assert(shares_sum(out@) <= total_amount) by (nonlinear_arith)
            requires
                shares_sum(out@) * total <= total_amount * total,
                total > 0,
        ;
        assert(out@ =~= reward_shares(positions@, total_amount));
    }
    Ok(out)
}

/// Shares of a slash of `total_amount` over a snapshot, one per position and
/// in the snapshot's order: `floor(amount * total_amount / total_staked)`,
/// where `total_staked` is the sum of the snapshot's amounts.
///
/// Fails with `NoEligiblePositions` when that sum is zero. While the slash
/// does not exceed the sum, no share exceeds the amount of its position.
pub fn compute_slash_shares(total_amount: u64, positions: &Vec<(Principal, Stake)>) -> (r: Result<
    Vec<(Principal, u64)>,
    StakingError,
>)
    ensures
        total_principal(positions@) == 0 ==> r == Err::<Vec<(Principal, u64)>, StakingError>(
            StakingError::NoEligiblePositions,
        ),
        total_principal(positions@) > 0 ==> r.is_ok(),
        r.is_ok() ==> {
            &&& r.unwrap()@ == slash_shares(positions@, total_amount)
            &&& r.unwrap()@.len() == positions@.len()
            &&& forall|i: int|
                0 <= i < positions@.len() ==> (#[trigger] r.unwrap()@[i]).0 == positions@[i].0
                    && r.unwrap()@[i].1 == slash_share(
                    positions@[i].1,
                    total_amount,
                    total_principal(positions@),
                )
            &&& forall|i: int|
                0 <= i < positions@.len() && total_amount <= total_principal(positions@) ==> (
                #[trigger] r.unwrap()@[i]).1 <= positions@[i].1.amount
        },
{
    let n: usize = positions.len();
    let mut sum: u128 = 0;
    let mut i: usize = 0;
    while i < n
        invariant
            n == positions@.len(),
            i <= n,
            sum == total_principal(positions@.take(i as int)),
            sum <= i * 0xffff_ffff_ffff_ffff,
        decreases n - i,
    {
        assert(positions@.take(i + 1).drop_last() =~= positions@.take(i as int));
        sum = sum + positions[i].1.amount as u128;
        i += 1;
    }
    assert(positions@.take(n as int) =~= positions@);
    if sum == 0 {
        return Err(StakingError::NoEligiblePositions);
    }
    let mut out: Vec<(Principal, u64)> = Vec::new();
    i = 0;
    while i < n
        invariant
            n == positions@.len(),
            i <= n,
            sum == total_principal(positions@),
            sum > 0,
            out@.len() == i,
            forall|k: int|
                0 <= k < i ==> (#[trigger] out@[k]).0 == positions@[k].0 && out@[k].1
                    == slash_share(positions@[k].1, total_amount, total_principal(positions@)),
            forall|k: int|
                0 <= k < i && total_amount <= total_principal(positions@) ==> (
                #[trigger] out@[k]).1 <= positions@[k].1.amount,
        decreases n - i,
    {
        let owner = positions[i].0;
        let s = positions[i].1;
        proof {
            lemma_position_bounds(positions@, i as int);
            lemma_share_bounds(s.amount as nat, total_amount as nat, sum as nat);
            if total_amount <= sum {
                lemma_share_bounds(total_amount as nat, s.amount as nat, sum as nat);
                assert(s.amount as nat * total_amount as nat == total_amount as nat
                    * s.amount as nat) by (nonlinear_arith);
            }
            assert(s.amount as nat * total_amount as nat <= u64::MAX * u64::MAX)
                by (nonlinear_arith);
        }
        let share: u128 = (s.amount as u128 * total_amount as u128) / sum;
        out.push((owner, share as u64));
        i += 1;
    }
    assert(out@ =~= slash_shares(positions@, total_amount));
    Ok(out)
}

} // verus!
