//! Plain data shared by every part of the pool.

use vstd::prelude::*;

verus! {

/// Smallest accepted deposit, in token units.
pub const MIN_DEPOSIT: u64 = 100_000;

/// Largest accepted deposit, in token units.
pub const MAX_DEPOSIT: u64 = 100_000_000_000;

/// Fee the ledger charges on every transfer, in token units.
pub const TRANSFER_FEE: u64 = 10_000;

/// Longest byte string that identifies a caller.
pub const MAX_PRINCIPAL_LEN: usize = 29;

/// The identity of a caller: a byte string of at most 29 bytes.
///
/// Two principals denote the same caller exactly when their views agree.
#[derive(Clone, Copy, Debug, PartialEq, Eq)]
pub struct Principal {
    len: u8,
    bytes: [u8; 29],
}

impl View for Principal {
    type V = Seq<u8>;

    closed spec fn view(&self) -> Seq<u8> {
        if self.len <= 29 {
            self.bytes@.subrange(0, self.len as int)
        } else {
            self.bytes@
        }
    }
}

impl Principal {
    /// The bytes that identify nobody in particular.
    pub open spec fn anonymous_bytes() -> Seq<u8> {
        seq![4u8]
    }

    /// An identity never has more than 29 bytes.
    pub proof fn lemma_view_len(&self)
        ensures
            self@.len() <= 29,
    {
    }

    /// Builds the identity with the given bytes, if there are at most 29.
    pub fn try_from_slice(slice: &[u8]) -> (r: Option<Principal>)
        ensures
            slice@.len() <= 29 ==> r.is_some() && r.unwrap()@ == slice@,
            slice@.len() > 29 ==> r.is_none(),
    {
        let n: usize = slice.len();
        if n > MAX_PRINCIPAL_LEN {
            return None;
        }
        let mut bytes: [u8; 29] = [0u8; 29];
        let mut i: usize = 0;
        while i < n
            invariant
                n == slice@.len(),
                n <= 29,
                i <= n,
                forall|k: int| 0 <= k < i ==> bytes@[k] == slice@[k],
            decreases n - i,
        {
            bytes[i] = slice[i];
            i += 1;
        }
        let p = Principal { len: n as u8, bytes };
        assert(p@ =~= slice@);
        Some(p)
    }

    /// The anonymous caller.
    pub fn anonymous() -> (r: Principal)
        ensures
            r@ == Self::anonymous_bytes(),
    {
        let mut bytes: [u8; 29] = [0u8; 29];
        bytes[0] = 4;
        let p = Principal { len: 1, bytes };
        assert(p@ =~= seq![4u8]);
        p
    }

    /// Number of identifying bytes.
    pub fn len(&self) -> (r: usize)
        ensures
            r == self@.len(),
            r <= 29,
    {
        if self.len <= 29 {
            self.len as usize
        } else {
            29
        }
    }

    /// The identifying bytes, in order.
    pub fn to_bytes(&self) -> (r: Vec<u8>)
        ensures
            r@ == self@,
    {
        let n: usize = self.len();
        let mut out: Vec<u8> = Vec::new();
        let mut i: usize = 0;
        while i < n
            invariant
                n == self@.len(),
                n <= 29,
                i <= n,
                out@ == self@.subrange(0, i as int),
            decreases n - i,
        {
            out.push(self.bytes[i]);
            i += 1;
            assert(out@ =~= self@.subrange(0, i as int));
        }
        assert(out@ =~= self@);
        out
    }

    /// Whether both identities denote the same caller.
    pub fn same(&self, other: &Principal) -> (r: bool)
        ensures
            r == (self@ == other@),
    {
        let n: usize = self.len();
        if n != other.len() {
            return false;
        }
        let mut i: usize = 0;
        while i < n
            invariant
                n == self@.len(),
                n == other@.len(),
                n <= 29,
                i <= n,
                forall|k: int| 0 <= k < i ==> self@[k] == other@[k],
            decreases n - i,
        {
            if self.bytes[i] != other.bytes[i] {
                assert(self@[i as int] != other@[i as int]);
                return false;
            }
            i += 1;
        }
        assert(self@ =~= other@);
        true
    }

    /// Whether this is the anonymous caller.
    pub fn is_anonymous(&self) -> (r: bool)
        ensures
            r == (self@ == Self::anonymous_bytes()),
    {
        let r = self.len() == 1 && self.bytes[0] == 4;
        proof {
            if r {
                assert(self@ =~= seq![4u8]);
            } else if self@.len() == 1 {
                assert(self@[0] != seq![4u8][0]);
            }
        }
        r
    }
}

/// How long a deposit stays locked.
#[derive(Clone, Copy, Debug, PartialEq, Eq, Structural)]
pub enum LockPeriod {
    Days90,
    Days180,
    Days360,
}

impl LockPeriod {
    /// Length of the lock in seconds.
    pub open spec fn spec_seconds(&self) -> nat {
        match self {
            LockPeriod::Days90 => 7_776_000,
            LockPeriod::Days180 => 15_552_000,
            LockPeriod::Days360 => 31_104_000,
        }
    }

    /// Reward weight of the tier, in thousandths.
    pub open spec fn spec_multiplier(&self) -> nat {
        match self {
            LockPeriod::Days90 => 1000,
            LockPeriod::Days180 => 1500,
            LockPeriod::Days360 => 2000,
        }
    }

    /// Length of the lock in seconds.
    pub fn to_seconds(&self) -> (r: u64)
        ensures
            r == self.spec_seconds(),
    {
        match self {
            LockPeriod::Days90 => 90 * 24 * 60 * 60,
            LockPeriod::Days180 => 180 * 24 * 60 * 60,
            LockPeriod::Days360 => 360 * 24 * 60 * 60,
        }
    }

    /// Reward weight of the tier, in thousandths: 1.0, 1.5 and 2.0.
    pub fn multiplier(&self) -> (r: u64)
        ensures
            r == self.spec_multiplier(),
            1000 <= r <= 2000,
    {
        match self {
            LockPeriod::Days90 => 1000,
            LockPeriod::Days180 => 1500,
            LockPeriod::Days360 => 2000,
        }
    }
}

/// One deposit's accounting record.
#[derive(Clone, Copy, Debug, PartialEq, Eq)]
pub struct Stake {
    /// Identifier, assigned once and never reused.
    pub id: u64,
    /// Current claim in token units.
    pub amount: u64,
    pub lock_period: LockPeriod,
    /// Time of the deposit, in seconds.
    pub deposit_time: u64,
    /// First moment, in seconds, at which the deposit may leave.
    pub unlock_time: u64,
    /// Ledger subaccount that collects the funds of this deposit.
    pub subaccount: [u8; 32],
    /// False once withdrawn or deactivated by slashing.
    pub is_active: bool,
    /// True once the funds were seen at the collection account.
    pub confirmed: bool,
}

/// Everything the pool records about one caller.
#[derive(Debug)]
pub struct UserInfo {
    pub principal: Principal,
    pub deposits: Vec<Stake>,
    /// Cached sum of the amounts of the active deposits.
    pub total_staked: u64,
    /// Ledger subaccount derived from the principal alone.
    pub subaccount: [u8; 32],
    /// Rewards credited so far.
    pub rewards_earned: u64,
}

/// Mathematical model of a [`UserInfo`].
pub struct UserView {
    pub principal: Principal,
    pub deposits: Seq<Stake>,
    pub total_staked: u64,
    pub subaccount: Seq<u8>,
    pub rewards_earned: u64,
}

impl View for UserInfo {
    type V = UserView;

    open spec fn view(&self) -> UserView {
        UserView {
            principal: self.principal,
            deposits: self.deposits@,
            total_staked: self.total_staked,
            subaccount: self.subaccount@,
            rewards_earned: self.rewards_earned,
        }
    }
}

/// Why the ledger did not carry out a transfer.
#[derive(Clone, Copy, Debug, PartialEq, Eq, Structural)]
pub enum TransferFailure {
    /// The source account cannot cover amount and fee.
    InsufficientFundsAtSource,
    /// The ledger refused the transfer.
    TransferRejected,
    /// The ledger could not be reached, or its answer is unknown.
    LedgerUnavailable,
}

/// Every way an operation of the pool can fail.
#[derive(Clone, Copy, Debug, PartialEq, Eq, Structural)]
pub enum StakingError {
    InsufficientFunds,
    InvalidAmount,
    TransferFailed(TransferFailure),
    StakeNotFound,
    StakeStillLocked,
    StakeAlreadyWithdrawn,
    /// The funds of the deposit were confirmed before.
    AlreadyConfirmed,
    Unauthorized,
    InvalidReceiver,
    NoEligiblePositions,
    LedgerUnavailable,
    /// A counter or a total would leave the 64-bit range.
    Overflow,
}

/// Arguments of a deposit.
#[derive(Clone, Copy, Debug)]
pub struct DepositArgs {
    pub amount: u64,
    pub lock_period: LockPeriod,
}

/// Arguments of a withdrawal.
#[derive(Clone, Copy, Debug)]
pub struct WithdrawArgs {
    pub deposit_id: u64,
}

/// Arguments of a reward distribution.
#[derive(Clone, Copy, Debug)]
pub struct RewardPoolArgs {
    pub amount: u64,
}

/// Arguments of a slash.
#[derive(Clone, Copy, Debug)]
pub struct SlashPoolArgs {
    pub amount: u64,
    pub receiver: Principal,
}

/// What one caller holds in the pool.
#[derive(Debug)]
pub struct StakingInfo {
    pub total_staked: u64,
    pub active_stakes: Vec<Stake>,
    pub total_rewards_earned: u64,
    pub pending_rewards: u64,
}

/// Pool-wide figures.
#[derive(Clone, Copy, Debug)]
pub struct PoolStats {
    pub total_staked: u64,
    pub total_rewards_distributed: u64,
    pub total_slashed: u64,
    pub total_stakers: usize,
    pub active_stakes_count: usize,
}

} // verus!
