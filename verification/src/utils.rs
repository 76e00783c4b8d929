//! Address validation and resolution.
//!
//! Bech32 address strings reach the faucet from callers and from the store's
//! address table. Decoding them is the ledger SDK's work; the library relies
//! on it through one wrapper and states everything else about an address over
//! the name of that wrapper's result.

use vstd::prelude::*;

verus! {

/// The account id a bech32 address string resolves to, as the id's fifteen
/// bytes widened to a `u128`, or `None` where the string is not a valid
/// bech32m account-id address. The result depends on the characters alone.
pub uninterp spec fn bech32_account_of(s: Seq<char>) -> Option<u128>;

/// Relies on `miden_objects::address::Address::from_bech32`: decodes a
/// bech32m string into a network id and an address; the only address kind
/// wraps an account id, which `u128::from` hands back as a plain value.
#[verifier::external_body]
pub(crate) fn resolve_bech32_account(address: &str) -> (r: Option<u128>)
    ensures
        r == bech32_account_of(address@),
{
    match miden_objects::address::Address::from_bech32(address) {
        Ok((_, miden_objects::address::Address::AccountId(addr))) => Some(u128::from(addr.id())),
        Ok(_) => None,
        Err(_) => None,
    }
}

/// Whether `bech32_string` is a well-formed network address. The sole
/// address kind is the account-id address, so this is exactly whether the
/// string resolves to an account id.
pub fn validate_address(bech32_string: &str) -> (ok: bool)
    ensures
        ok == (bech32_account_of(bech32_string@) is Some),
{
    resolve_bech32_account(bech32_string).is_some()
}

} // verus!
