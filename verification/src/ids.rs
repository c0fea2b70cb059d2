//! Identifiers of nonce sequences and of the transactions in them.
use crate::ordered::OrdKey;
use crate::primitives::{two_256, Address, U256};
use vstd::prelude::*;

verus! {

/// Key for identifying a unique sender sequence in the two-dimensional nonce system: the sender
/// address together with its nonce key.
#[derive(Debug, Clone, Copy, PartialEq, Eq, PartialOrd, Ord, Hash, Structural)]
pub struct AASequenceId {
    /// The sender address.
    pub address: Address,
    /// The nonce key.
    pub nonce_key: U256,
}

impl AASequenceId {
    /// Creates a new instance with the address and nonce key.
    pub fn new(address: Address, nonce_key: U256) -> (r: Self)
        ensures
            r.address == address,
            r.nonce_key == nonce_key,
    {
        AASequenceId { address, nonce_key }
    }
}

impl OrdKey for AASequenceId {
    open spec fn ord(self) -> int {
        self.address.ord() * two_256() + self.nonce_key.ord()
    }

    proof fn ord_injective(self, other: Self) {
        self.address.ord_injective(other.address);
        self.nonce_key.ord_injective(other.nonce_key);
    }

    fn precedes(&self, other: &Self) -> (r: bool) {
        proof {
            if self.address.ord() == other.address.ord() {
                self.address.ord_injective(other.address);
            }
        }
        self.address.precedes(&other.address) || (self.address == other.address
            && self.nonce_key.precedes(&other.nonce_key))
    }
}

/// Unique identifier for an AA transaction: its sender, nonce key and nonce for that nonce key.
#[derive(Debug, Clone, Copy, PartialEq, Eq, PartialOrd, Ord, Hash, Structural)]
pub struct AA2dTransactionId {
    /// Uniquely identifies the account's nonce key sequence.
    pub seq_id: AASequenceId,
    /// The nonce in that sequence.
    pub nonce: u64,
}

impl AA2dTransactionId {
    /// Creates a new identifier.
    pub fn new(seq_id: AASequenceId, nonce: u64) -> (r: Self)
        ensures
            r == tx_id(seq_id, nonce),
    {
        AA2dTransactionId { seq_id, nonce }
    }

    /// Returns the next transaction in the sequence; the last nonce is followed by itself.
    pub fn unlocks(&self) -> (r: Self)
        ensures
            r.seq_id == self.seq_id,
            r.nonce == (if self.nonce < u64::MAX { self.nonce + 1 } else { u64::MAX as int }),
    {
        AA2dTransactionId { seq_id: self.seq_id, nonce: self.nonce.saturating_add(1) }
    }

    /// Returns the nonce key sequence of this transaction.
    pub fn seq_id(&self) -> (r: &AASequenceId)
        ensures
            *r == self.seq_id,
    {
        &self.seq_id
    }
}

/// The transaction of a sequence with the given nonce.
pub open spec fn tx_id(seq_id: AASequenceId, nonce: u64) -> AA2dTransactionId {
    AA2dTransactionId { seq_id, nonce }
}

impl OrdKey for AA2dTransactionId {
    open spec fn ord(self) -> int {
        self.seq_id.ord() * 0x1_0000_0000_0000_0000 + self.nonce
    }

    proof fn ord_injective(self, other: Self) {
        self.seq_id.ord_injective(other.seq_id);
    }

    fn precedes(&self, other: &Self) -> (r: bool) {
        proof {
            if self.seq_id.ord() == other.seq_id.ord() {
                self.seq_id.ord_injective(other.seq_id);
            }
        }
        self.seq_id.precedes(&other.seq_id) || (self.seq_id == other.seq_id && self.nonce
            < other.nonce)
    }
}

} // verus!
