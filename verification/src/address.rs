//! Derivation of ledger addresses from caller identities.

use crate::types::Principal;
use sha2::Digest;
use vstd::prelude::*;

verus! {

/// The SHA-256 digest of a byte string.
pub uninterp spec fn sha256_digest(data: Seq<u8>) -> Seq<u8>;

/// The ledger's account identifier for an owner and a subaccount.
pub uninterp spec fn account_identifier_bytes(owner: Seq<u8>, subaccount: Seq<u8>) -> Seq<u8>;

/// Calls `sha2::Sha256::digest`. Trusted: the result is the SHA-256 digest of
/// `data`, a function of the bytes alone.
#[verifier::external_body]
fn sha256(data: &Vec<u8>) -> (r: [u8; 32])
    ensures
        r@ == sha256_digest(data@),
{
    sha2::Sha256::digest(data.as_slice()).into()
}

/// Calls `ic_ledger_types::AccountIdentifier::new` on the principal with
/// bytes `owner`. Trusted: the 32 bytes of the identifier depend on the
/// owner's bytes and the subaccount alone. Longer owners are left out
/// because `candid::Principal::from_slice` does not accept them.
#[verifier::external_body]
fn ledger_account(owner: &Vec<u8>, subaccount: &[u8; 32]) -> (r: [u8; 32])
    requires
        owner@.len() <= 29,
    ensures
        r@ == account_identifier_bytes(owner@, subaccount@),
{
    let principal = candid::Principal::from_slice(owner.as_slice());
    let account = ic_ledger_types::AccountIdentifier::new(
        &principal,
        &ic_ledger_types::Subaccount(*subaccount),
    );
    let mut out = [0u8; 32];
    out.copy_from_slice(account.as_ref());
    out
}

/// The bytes of the text `subaccount:`, which mark a per-user address.
pub open spec fn subaccount_tag() -> Seq<u8> {
    seq![115u8, 117u8, 98u8, 97u8, 99u8, 99u8, 111u8, 117u8, 110u8, 116u8, 58u8]
}

/// The eight bytes of `n`, most significant first.
pub open spec fn be_bytes(n: u64) -> Seq<u8> {
    seq![
        ((n / 0x100_0000_0000_0000) % 256) as u8,
        ((n / 0x1_0000_0000_0000) % 256) as u8,
        ((n / 0x100_0000_0000) % 256) as u8,
        ((n / 0x1_0000_0000) % 256) as u8,
        ((n / 0x100_0000) % 256) as u8,
        ((n / 0x1_0000) % 256) as u8,
        ((n / 0x100) % 256) as u8,
        (n % 256) as u8,
    ]
}

/// The number whose eight bytes, most significant first, are `bytes`.
pub open spec fn be_value(bytes: Seq<u8>) -> nat {
    (bytes[0] as nat) * 0x100_0000_0000_0000 + (bytes[1] as nat) * 0x1_0000_0000_0000 + (
    bytes[2] as nat) * 0x100_0000_0000 + (bytes[3] as nat) * 0x1_0000_0000 + (bytes[4] as nat)
        * 0x100_0000 + (bytes[5] as nat) * 0x1_0000 + (bytes[6] as nat) * 0x100 + (bytes[7] as nat)
}

/// The nonce that the first eight of the given random bytes spell, most
/// significant first.
pub fn nonce_from_random(random_bytes: &Vec<u8>) -> (r: u64)
    requires
        random_bytes@.len() >= 8,
    ensures
        r == be_value(random_bytes@),
{
    let b0: u64 = random_bytes[0] as u64;
    let b1: u64 = random_bytes[1] as u64;
    let b2: u64 = random_bytes[2] as u64;
    let b3: u64 = random_bytes[3] as u64;
    let b4: u64 = random_bytes[4] as u64;
    let b5: u64 = random_bytes[5] as u64;
    let b6: u64 = random_bytes[6] as u64;
    let b7: u64 = random_bytes[7] as u64;
    b0 * 0x100_0000_0000_0000 + b1 * 0x1_0000_0000_0000 + b2 * 0x100_0000_0000 + b3
        * 0x1_0000_0000 + b4 * 0x100_0000 + b5 * 0x1_0000 + b6 * 0x100 + b7
}

/// The nonce to use when no random bytes can be had: the time plus the
/// first byte of the caller, wrapping around at the largest 64-bit value.
pub fn fallback_nonce(now: u64, caller: &Principal) -> (r: u64)
    ensures
        r == (now + if caller@.len() > 0 {
            caller@[0] as nat
        } else {
            0nat
        }) % 0x1_0000_0000_0000_0000,
{
    let bytes = caller.to_bytes();
    let first: u64 = if bytes.len() > 0 {
        bytes[0] as u64
    } else {
        0
    };
    now.wrapping_add(first)
}

/// The account that collects the deposit of `user` made under `nonce`.
pub fn get_account_identifier_for_deposit(canister: &Principal, user: &Principal, nonce: u64) -> (r:
    [u8; 32])
    ensures
        r@ == account_identifier_bytes(canister@, sha256_digest(user@ + be_bytes(nonce))),
{
    let subaccount = generate_subaccount(user, nonce);
    get_account_identifier(canister, &subaccount)
}

/// Appends the bytes of `owner` to `buf`.
fn push_principal(buf: &mut Vec<u8>, owner: &Principal)
    ensures
        final(buf)@ == old(buf)@ + owner@,
{
    let bytes = owner.to_bytes();
    let ghost before = buf@;
    let mut i: usize = 0;
    while i < bytes.len()
        invariant
            i <= bytes@.len(),
            buf@ == before + bytes@.subrange(0, i as int),
        decreases bytes@.len() - i,
    {
        buf.push(bytes[i]);
        i += 1;
        assert(buf@ =~= before + bytes@.subrange(0, i as int));
    }
    assert(buf@ =~= before + owner@);
}

/// The subaccount that belongs to a caller: the digest of the tag
/// `subaccount:` followed by the caller's bytes.
pub fn principal_to_subaccount(principal: &Principal) -> (r: [u8; 32])
    ensures
        r@ == sha256_digest(subaccount_tag() + principal@),
{
    let mut data: Vec<u8> = Vec::new();
    data.push(115);
    data.push(117);
    data.push(98);
    data.push(97);
    data.push(99);
    data.push(99);
    data.push(111);
    data.push(117);
    data.push(110);
    data.push(116);
    data.push(58);
    assert(data@ =~= subaccount_tag());
    push_principal(&mut data, principal);
    sha256(&data)
}

/// The collection subaccount of one deposit: the digest of the caller's
/// bytes followed by the nonce, most significant byte first.
pub fn generate_subaccount(user: &Principal, nonce: u64) -> (r: [u8; 32])
    ensures
        r@ == sha256_digest(user@ + be_bytes(nonce)),
{
    let mut data: Vec<u8> = Vec::new();
    push_principal(&mut data, user);
    let ghost head = data@;
    assert(head =~= user@);
    data.push(((nonce / 0x100_0000_0000_0000) % 256) as u8);
    data.push(((nonce / 0x1_0000_0000_0000) % 256) as u8);
    data.push(((nonce / 0x100_0000_0000) % 256) as u8);
    data.push(((nonce / 0x1_0000_0000) % 256) as u8);
    data.push(((nonce / 0x100_0000) % 256) as u8);
    data.push(((nonce / 0x1_0000) % 256) as u8);
    data.push(((nonce / 0x100) % 256) as u8);
    data.push((nonce % 256) as u8);
    assert(data@ =~= user@ + be_bytes(nonce));
    sha256(&data)
}

/// The ledger account of `owner` under `subaccount`.
pub fn get_account_identifier(owner: &Principal, subaccount: &[u8; 32]) -> (r: [u8; 32])
    ensures
        r@ == account_identifier_bytes(owner@, subaccount@),
{
    let bytes = owner.to_bytes();
    proof {
        owner.lemma_view_len();
    }
    ledger_account(&bytes, subaccount)
}

} // verus!
