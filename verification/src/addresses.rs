//! The fixed addresses of the system contracts.
use crate::primitives::Address;
use crate::tip20::tip20_prefixed;
use vstd::prelude::*;

verus! {

/// The addresses at which a chain has its system contracts.
#[derive(Debug, Clone, Copy, PartialEq, Eq, Structural)]
pub struct SystemAddresses {
    /// The registry of transfer policies.
    pub tip403_registry: Address,
    /// The fee manager.
    pub tip_fee_manager: Address,
    /// The exchange for stablecoins.
    pub stablecoin_dex: Address,
    /// The nonce manager.
    pub nonce: Address,
    /// The account keychain.
    pub account_keychain: Address,
    /// The first validator configuration.
    pub validator_config: Address,
    /// The second validator configuration.
    pub validator_config_v2: Address,
    /// The factory of TIP-20 tokens.
    pub tip20_factory: Address,
    /// The address registry.
    pub address_registry: Address,
    /// The signature verifier.
    pub signature_verifier: Address,
    /// The reserve of payment channels.
    pub tip20_channel_reserve: Address,
    /// The guard of receive policies.
    pub receive_policy_guard: Address,
}

impl SystemAddresses {
    /// All addresses.
    pub open spec fn all(self) -> Seq<Address> {
        seq![
            self.tip403_registry,
            self.tip_fee_manager,
            self.stablecoin_dex,
            self.nonce,
            self.account_keychain,
            self.validator_config,
            self.validator_config_v2,
            self.tip20_factory,
            self.address_registry,
            self.signature_verifier,
            self.tip20_channel_reserve,
            self.receive_policy_guard,
        ]
    }

    /// The addresses differ from one another, and none is that of a TIP-20 token.
    pub open spec fn distinct(self) -> bool {
        &&& self.all().no_duplicates()
        &&& forall|i: int| 0 <= i < self.all().len() ==> !tip20_prefixed(#[trigger] self.all()[i])
    }
}

} // verus!
