//! The addresses of TIP-20 tokens.
use crate::primitives::Address;
use vstd::prelude::*;

verus! {

/// The first four of the twelve bytes that all TIP-20 token addresses start with. The other eight
/// are zero.
pub const TIP20_TOKEN_PREFIX: u32 = 0x20C0_0000;

/// The address starts with the bytes that all TIP-20 token addresses start with.
pub open spec fn tip20_prefixed(address: Address) -> bool {
    address.hi == TIP20_TOKEN_PREFIX && address.lo <= u64::MAX
}

/// Returns `true` if the address starts with the bytes that all TIP-20 token addresses start with.
pub fn is_tip20_prefix(address: &Address) -> (r: bool)
    ensures
        r == tip20_prefixed(*address),
{
    address.hi == TIP20_TOKEN_PREFIX && address.lo <= u64::MAX as u128
}

/// The token in which fees are paid where nothing else is chosen: the first TIP-20 token.
pub open spec fn spec_default_fee_token() -> Address {
    Address { hi: TIP20_TOKEN_PREFIX, lo: 0 }
}

/// Returns the token in which fees are paid where nothing else is chosen.
pub fn default_fee_token() -> (r: Address)
    ensures
        r == spec_default_fee_token(),
{
    Address { hi: TIP20_TOKEN_PREFIX, lo: 0 }
}

} // verus!
