//! What the pool asks of the token ledger, and how it reads the answers.
//! The calls themselves are made elsewhere.

use crate::address::{account_identifier_bytes, get_account_identifier};
use crate::types::{Principal, TransferFailure, TRANSFER_FEE};
use vstd::prelude::*;

verus! {

/// Memo of a transfer that returns a deposit.
pub const MEMO_WITHDRAW: u64 = 0;

/// Memo of a transfer that pays a reward.
pub const MEMO_REWARD: u64 = 1;

/// Memo of a transfer that sweeps slashed funds.
pub const MEMO_SLASH: u64 = 2;

/// Thirty-two bytes, all equal to `b`.
pub open spec fn filled(b: u8) -> Seq<u8> {
    Seq::new(32, |i: int| b)
}

/// The subaccount that every principal has by default: all zeros.
pub fn default_subaccount() -> (r: [u8; 32])
    ensures
        r@ == filled(0),
{
    let r = [0u8; 32];
    assert(r@ =~= filled(0));
    r
}

/// The subaccount that holds the funds for rewards: all ones.
pub fn reward_subaccount() -> (r: [u8; 32])
    ensures
        r@ == filled(1),
{
    let r = [1u8; 32];
    assert(r@ =~= filled(1));
    r
}

/// How the ledger can refuse or fail a transfer.
#[derive(Clone, Copy, Debug, PartialEq, Eq, Structural)]
pub enum LedgerError {
    InsufficientFunds,
    TooOld,
    Rejected,
    Unavailable,
}

/// A transfer that the ledger is to carry out.
#[derive(Clone, Copy, Debug, PartialEq, Eq)]
pub struct TransferRequest {
    /// Subaccount of the pool that pays; `None` for its default account.
    pub from_subaccount: Option<[u8; 32]>,
    /// Account identifier of the receiver.
    pub to: [u8; 32],
    /// Amount that arrives, in token units.
    pub amount: u64,
    /// Fee that the ledger takes on top.
    pub fee: u64,
    pub memo: u64,
}

/// The failure that the pool reports for an answer of the ledger.
pub open spec fn spec_classify(e: LedgerError) -> TransferFailure {
    match e {
        LedgerError::InsufficientFunds => TransferFailure::InsufficientFundsAtSource,
        LedgerError::TooOld => TransferFailure::TransferRejected,
        LedgerError::Rejected => TransferFailure::TransferRejected,
        LedgerError::Unavailable => TransferFailure::LedgerUnavailable,
    }
}

/// The failure that the pool reports for an answer of the ledger.
pub fn classify(e: LedgerError) -> (r: TransferFailure)
    ensures
        r == spec_classify(e),
{
    match e {
        LedgerError::InsufficientFunds => TransferFailure::InsufficientFundsAtSource,
        LedgerError::TooOld => TransferFailure::TransferRejected,
        LedgerError::Rejected => TransferFailure::TransferRejected,
        LedgerError::Unavailable => TransferFailure::LedgerUnavailable,
    }
}

/// The request for a transfer of `amount`, which must exceed the fee: a
/// smaller amount is refused before the ledger is asked.
pub fn transfer_icp(from_subaccount: Option<[u8; 32]>, to: [u8; 32], amount: u64, memo: u64) -> (r:
    Result<TransferRequest, TransferFailure>)
    ensures
        r == if amount <= TRANSFER_FEE {
            Err::<TransferRequest, TransferFailure>(TransferFailure::InsufficientFundsAtSource)
        } else {
            Ok::<TransferRequest, TransferFailure>(
                TransferRequest { from_subaccount, to, amount, fee: TRANSFER_FEE, memo },
            )
        },
{
    if amount <= TRANSFER_FEE {
        Err(TransferFailure::InsufficientFundsAtSource)
    } else {
        Ok(TransferRequest { from_subaccount, to, amount, fee: TRANSFER_FEE, memo })
    }
}

/// The request that moves `amount`, less the fee, from a subaccount of the
/// pool to the default account of `to`. Refused when nothing would remain
/// above the fee.
pub fn transfer_from_subaccount(from_subaccount: [u8; 32], to: &Principal, amount: u64) -> (r:
    Result<TransferRequest, TransferFailure>)
    ensures
        amount <= 2 * TRANSFER_FEE ==> r == Err::<TransferRequest, TransferFailure>(
            TransferFailure::InsufficientFundsAtSource,
        ),
        amount > 2 * TRANSFER_FEE ==> r.is_ok() && r.unwrap().from_subaccount == Some(
            from_subaccount,
        ) && r.unwrap().to@ == account_identifier_bytes(to@, filled(0))
            && r.unwrap().amount == amount - TRANSFER_FEE && r.unwrap().fee == TRANSFER_FEE
            && r.unwrap().memo == MEMO_WITHDRAW,
{
    if amount <= 2 * TRANSFER_FEE {
        return Err(TransferFailure::InsufficientFundsAtSource);
    }
    let subaccount = default_subaccount();
    let account = get_account_identifier(to, &subaccount);
    transfer_icp(Some(from_subaccount), account, amount - TRANSFER_FEE, MEMO_WITHDRAW)
}

} // verus!
