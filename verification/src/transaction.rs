//! Pooled transactions.
use crate::ids::{tx_id, AA2dTransactionId, AASequenceId};
use crate::keychain::{KeyAuthorizationWitnessSubject, KeychainSubject};
use crate::primitives::{two_256, Address, TxHash, B256, U256};
use crate::tip20::{default_fee_token, spec_default_fee_token};
use vstd::prelude::*;

verus! {

/// The target of a call.
#[derive(Debug, Clone, Copy, PartialEq, Eq, Structural)]
pub enum TxKind {
    /// Creates a contract.
    Create,
    /// Calls an account.
    Call(Address),
}

/// One call of a transaction.
#[derive(Debug, Clone)]
pub struct Call {
    /// The target.
    pub to: TxKind,
    /// The value sent along.
    pub value: U256,
    /// The input data.
    pub input: Vec<u8>,
}

/// A keychain signature: the account it stands for and the key that was recovered from it, if the
/// recovery succeeded.
#[derive(Debug, Clone, Copy, PartialEq, Eq, Structural)]
pub struct KeychainSignature {
    /// The account that owns the key.
    pub user_address: Address,
    /// The recovered key.
    pub key_id: Option<Address>,
}

/// The recipients that a selector rule admits.
#[derive(Debug, Clone)]
pub struct SelectorRule {
    /// The recipients.
    pub recipients: Vec<Address>,
}

/// The selector rules of one call scope.
#[derive(Debug, Clone)]
pub struct CallScope {
    /// The selector rules.
    pub selector_rules: Vec<SelectorRule>,
}

/// A spending limit of a key for one token.
#[derive(Debug, Clone, Copy, PartialEq, Eq, Structural)]
pub struct TokenLimit {
    /// The token.
    pub token: Address,
    /// The limit.
    pub limit: U256,
}

/// An authorization of a new key carried by a transaction.
#[derive(Debug, Clone)]
pub struct KeyAuthorization {
    /// The witness that ties the authorization to an account, if any.
    pub witness: Option<B256>,
    /// The spending limits, if any.
    pub limits: Option<Vec<TokenLimit>>,
    /// The call scopes, if any.
    pub allowed_calls: Option<Vec<CallScope>>,
}

/// One account of an access list.
#[derive(Debug, Clone)]
pub struct AccessListItem {
    /// The account.
    pub address: Address,
    /// The storage keys of the account.
    pub storage_keys: Vec<B256>,
}

/// The part of a transaction that only account-abstraction transactions have.
#[derive(Debug, Clone)]
pub struct TempoTransaction {
    /// The nonce key. Zero is the protocol nonce; the largest key marks an expiring nonce.
    pub nonce_key: U256,
    /// Whether the nonce key has the prefix that is reserved for subblock transactions.
    pub has_subblock_prefix: bool,
    /// The calls.
    pub calls: Vec<Call>,
    /// The access list.
    pub access_list: Vec<AccessListItem>,
    /// The authorities of the authorization list, each if it could be recovered.
    pub tempo_authorization_list: Vec<Option<Address>>,
    /// The key authorization, if any.
    pub key_authorization: Option<KeyAuthorization>,
    /// The timestamp from which on the transaction is no longer valid.
    pub valid_before: Option<u64>,
    /// The timestamp before which the transaction is not yet valid.
    pub valid_after: Option<u64>,
    /// The keychain signature, if the transaction is signed by a keychain key.
    pub keychain_signature: Option<KeychainSignature>,
    /// The hash that identifies the transaction under expiring nonces.
    pub expiring_nonce_hash: B256,
}

impl TempoTransaction {
    /// The nonce key marks an expiring nonce.
    pub open spec fn spec_is_expiring_nonce(self) -> bool {
        self.nonce_key@ == two_256() - 1
    }

    /// Returns `true` if the nonce key marks an expiring nonce.
    pub fn is_expiring_nonce_tx(&self) -> (r: bool)
        ensures
            r == self.spec_is_expiring_nonce(),
    {
        self.nonce_key.is_max()
    }
}

/// A signed transaction together with what was derived from it by hashing and recovery.
#[derive(Debug, Clone)]
pub struct TempoTxEnvelope {
    /// The hash.
    pub hash: TxHash,
    /// The recovered signer.
    pub sender: Address,
    /// The transaction type.
    pub ty: u8,
    /// The chain that the transaction is for, if it names one.
    pub chain_id: Option<u64>,
    /// The nonce.
    pub nonce: u64,
    /// The gas limit.
    pub gas_limit: u64,
    /// The maximum fee per gas.
    pub max_fee_per_gas: u128,
    /// The maximum priority fee per gas, if the transaction sets one.
    pub max_priority_fee_per_gas: Option<u128>,
    /// The maximum fee per blob gas, if the transaction carries blobs.
    pub max_fee_per_blob_gas: Option<u128>,
    /// The value.
    pub value: U256,
    /// What the gas limit costs at the maximum fee, in the fee token.
    pub gas_spending: U256,
    /// The length of the encoded transaction.
    pub encoded_length: usize,
    /// Whether the fees of the transaction follow the base fee.
    pub is_dynamic_fee: bool,
    /// The target, of a transaction with a single call.
    pub kind: TxKind,
    /// The input data, of a transaction with a single call.
    pub input: Vec<u8>,
    /// Whether this is a system transaction.
    pub is_system_tx: bool,
    /// Whether this is a payment by the builder's criteria.
    pub is_payment: bool,
    /// The fee token that the transaction names, if any.
    pub fee_token: Option<Address>,
    /// The account that pays the fee, if it could be recovered.
    pub fee_payer: Option<Address>,
    /// The storage slot of the balance of the fee payer in a token.
    pub fee_payer_balance_slot: U256,
    /// The storage slot of the nonce of the sender and the nonce key.
    pub nonce_slot: U256,
    /// The storage slot that marks the expiring nonce hash as seen.
    pub expiring_nonce_seen_slot: U256,
    /// The account-abstraction part, if this is such a transaction.
    pub aa: Option<TempoTransaction>,
}

/// A transaction in the pool, with what is cached about it.
#[derive(Debug, Clone)]
pub struct TempoPooledTransaction {
    /// The transaction.
    pub inner: TempoTxEnvelope,
    /// What the transaction costs at most: gas and value.
    pub total_cost: U256,
    /// The expiry of the keychain key, once it has been looked up.
    pub key_expiry: Option<Option<u64>>,
    /// The fee token that validation resolved, once it has.
    pub resolved_fee_token: Option<Address>,
    /// The fee token and balance slot of the fee payer, once computed.
    pub fee_balance_slot: Option<Option<(Address, U256)>>,
}

impl TempoPooledTransaction {
    /// The nonce key, for an account-abstraction transaction.
    pub open spec fn spec_nonce_key(self) -> Option<U256> {
        match self.inner.aa {
            Some(aa) => Some(aa.nonce_key),
            None => None,
        }
    }

    /// The identifier, for an account-abstraction transaction.
    pub open spec fn spec_id(self) -> Option<AA2dTransactionId> {
        match self.inner.aa {
            Some(aa) => Some(
                tx_id(
                    (AASequenceId { address: self.inner.sender, nonce_key: aa.nonce_key }),
                    self.inner.nonce,
                ),
            ),
            None => None,
        }
    }

    /// The transaction uses an expiring nonce.
    pub open spec fn spec_is_expiring_nonce(self) -> bool {
        match self.inner.aa {
            Some(aa) => aa.spec_is_expiring_nonce(),
            None => false,
        }
    }

    /// The expiring nonce hash, for an account-abstraction transaction.
    pub open spec fn spec_expiring_nonce_hash(self) -> Option<B256> {
        match self.inner.aa {
            Some(aa) => Some(aa.expiring_nonce_hash),
            None => None,
        }
    }

    /// The transaction belongs into the pool for two-dimensional nonces.
    pub open spec fn spec_is_aa_2d(self) -> bool {
        match self.inner.aa {
            Some(aa) => aa.nonce_key@ != 0,
            None => false,
        }
    }

    /// The slot of the nonce, for an account-abstraction transaction.
    pub open spec fn spec_nonce_key_slot(self) -> Option<U256> {
        if self.inner.aa is Some {
            Some(self.inner.nonce_slot)
        } else {
            None
        }
    }

    /// The slot that marks the expiring nonce hash as seen, for an account-abstraction transaction.
    pub open spec fn spec_expiring_nonce_slot(self) -> Option<U256> {
        if self.inner.aa is Some {
            Some(self.inner.expiring_nonce_seen_slot)
        } else {
            None
        }
    }

    /// The cached cost is the gas and the value, capped at the largest word.
    pub open spec fn wf(self) -> bool {
        self.total_cost@ == capped_word(self.inner.gas_spending@ + self.inner.value@)
    }

    /// Creates a pooled transaction with nothing cached but its cost.
    pub fn new(transaction: TempoTxEnvelope) -> (r: Self)
        ensures
            r.wf(),
            r.inner == transaction,
            r.key_expiry is None,
            r.resolved_fee_token is None,
            r.fee_balance_slot is None,
    {
        let total_cost = transaction.gas_spending.saturating_add(&transaction.value);
        TempoPooledTransaction {
            inner: transaction,
            total_cost,
            key_expiry: None,
            resolved_fee_token: None,
            fee_balance_slot: None,
        }
    }

    /// Returns the cost of the transaction in the fee token.
    pub fn fee_token_cost(&self) -> (r: U256)
        ensures
            r@ == self.spec_fee_token_cost(),
            self.wf() ==> r@ == self.total_cost@ - self.inner.value@,
    {
        self.inner.gas_spending.saturating_add(&self.inner.value).minus(&self.inner.value)
    }

    /// The cost of the transaction in the fee token: the gas spending, as far as it leaves room
    /// for the value below the largest word.
    pub open spec fn spec_fee_token_cost(self) -> int {
        if self.inner.gas_spending@ + self.inner.value@ < two_256() {
            self.inner.gas_spending@
        } else {
            two_256() - 1 - self.inner.value@
        }
    }

    /// Returns a reference to the transaction.
    pub fn inner(&self) -> (r: &TempoTxEnvelope)
        ensures
            *r == self.inner,
    {
        &self.inner
    }

    /// Returns `true` for an account-abstraction transaction.
    pub fn is_aa(&self) -> (r: bool)
        ensures
            r == (self.inner.aa is Some),
    {
        self.inner.aa.is_some()
    }

    /// Returns the hash.
    pub fn hash(&self) -> (r: &TxHash)
        ensures
            *r == self.inner.hash,
    {
        &self.inner.hash
    }

    /// Returns the sender.
    pub fn sender(&self) -> (r: Address)
        ensures
            r == self.inner.sender,
    {
        self.inner.sender
    }

    /// Returns the nonce.
    pub fn nonce(&self) -> (r: u64)
        ensures
            r == self.inner.nonce,
    {
        self.inner.nonce
    }

    /// Returns the nonce key of an account-abstraction transaction.
    pub fn nonce_key(&self) -> (r: Option<U256>)
        ensures
            r == self.spec_nonce_key(),
    {
        match &self.inner.aa {
            Some(aa) => Some(aa.nonce_key),
            None => None,
        }
    }

    /// Returns the storage slot for the nonce key of this transaction.
    pub fn nonce_key_slot(&self) -> (r: Option<U256>)
        ensures
            r == self.spec_nonce_key_slot(),
    {
        match &self.inner.aa {
            Some(_) => Some(self.inner.nonce_slot),
            None => None,
        }
    }

    /// Returns whether this is a payment by the builder's criteria.
    pub fn is_payment(&self) -> (r: bool)
        ensures
            r == self.inner.is_payment,
    {
        self.inner.is_payment
    }

    /// Returns `true` if this transaction belongs into the pool for two-dimensional nonces: an
    /// account-abstraction transaction with a nonce key other than zero.
    pub fn is_aa_2d(&self) -> (r: bool)
        ensures
            r == self.spec_is_aa_2d(),
    {
        match &self.inner.aa {
            Some(aa) => !aa.nonce_key.is_zero(),
            None => false,
        }
    }

    /// Returns `true` if this is an expiring nonce transaction.
    pub fn is_expiring_nonce(&self) -> (r: bool)
        ensures
            r == self.spec_is_expiring_nonce(),
    {
        match &self.inner.aa {
            Some(aa) => aa.is_expiring_nonce_tx(),
            None => false,
        }
    }

    /// Returns the unique identifier of an account-abstraction transaction.
    pub fn aa_transaction_id(&self) -> (r: Option<AA2dTransactionId>)
        ensures
            r == self.spec_id(),
    {
        match &self.inner.aa {
            Some(aa) => {
                let seq_id = AASequenceId::new(self.inner.sender, aa.nonce_key);
                Some(AA2dTransactionId::new(seq_id, self.inner.nonce))
            },
            None => None,
        }
    }

    /// Returns the expiring nonce hash of an account-abstraction transaction.
    pub fn expiring_nonce_hash(&self) -> (r: Option<B256>)
        ensures
            r == self.spec_expiring_nonce_hash(),
    {
        match &self.inner.aa {
            Some(aa) => Some(aa.expiring_nonce_hash),
            None => None,
        }
    }

    /// Returns the slot that marks the expiring nonce hash as seen.
    pub fn expiring_nonce_slot(&self) -> (r: Option<U256>)
        ensures
            r == self.spec_expiring_nonce_slot(),
    {
        match &self.inner.aa {
            Some(_) => Some(self.inner.expiring_nonce_seen_slot),
            None => None,
        }
    }

    /// The token in which the fee is paid: the one that validation resolved, else the one that the
    /// transaction names, else the default.
    pub open spec fn spec_effective_fee_token(self) -> Address {
        match self.resolved_fee_token {
            Some(token) => token,
            None => match self.inner.fee_token {
                Some(token) => token,
                None => spec_default_fee_token(),
            },
        }
    }

    fn effective_fee_token(&self) -> (r: Address)
        ensures
            r == self.spec_effective_fee_token(),
    {
        match self.resolved_fee_token {
            Some(token) => token,
            None => match self.inner.fee_token {
                Some(token) => token,
                None => default_fee_token(),
            },
        }
    }

    /// The keychain identity: of an account-abstraction transaction with a keychain signature from
    /// which the key could be recovered.
    pub open spec fn spec_keychain_subject(self) -> Option<KeychainSubject> {
        match self.inner.aa {
            Some(aa) => match aa.keychain_signature {
                Some(signature) => match signature.key_id {
                    Some(key_id) => Some(
                        KeychainSubject {
                            account: signature.user_address,
                            key_id,
                            fee_token: self.spec_effective_fee_token(),
                        },
                    ),
                    None => None,
                },
                None => None,
            },
            None => None,
        }
    }

    /// Extracts the keychain subject from this transaction.
    ///
    /// Returns `None` if this is not an account-abstraction transaction, the signature is not a
    /// keychain signature, or the key cannot be recovered from the signature.
    pub fn keychain_subject(&self) -> (r: Option<KeychainSubject>)
        ensures
            r == self.spec_keychain_subject(),
    {
        match &self.inner.aa {
            Some(aa) => match aa.keychain_signature {
                Some(signature) => match signature.key_id {
                    Some(key_id) => Some(
                        KeychainSubject {
                            account: signature.user_address,
                            key_id,
                            fee_token: self.effective_fee_token(),
                        },
                    ),
                    None => None,
                },
                None => None,
            },
            None => None,
        }
    }

    /// The key-authorization witness that the transaction carries, with its sender.
    pub open spec fn spec_witness_subject(self) -> Option<KeyAuthorizationWitnessSubject> {
        match self.inner.aa {
            Some(aa) => match aa.key_authorization {
                Some(authorization) => match authorization.witness {
                    Some(witness) => Some(
                        KeyAuthorizationWitnessSubject { account: self.inner.sender, witness },
                    ),
                    None => None,
                },
                None => None,
            },
            None => None,
        }
    }

    /// Extracts the key-authorization witness carried by this transaction, if any.
    pub fn key_authorization_witness_subject(&self) -> (r: Option<KeyAuthorizationWitnessSubject>)
        ensures
            r == self.spec_witness_subject(),
    {
        match &self.inner.aa {
            Some(aa) => match &aa.key_authorization {
                Some(authorization) => match authorization.witness {
                    Some(witness) => Some(
                        KeyAuthorizationWitnessSubject { account: self.inner.sender, witness },
                    ),
                    None => None,
                },
                None => None,
            },
            None => None,
        }
    }

    /// Sets the expiry of the keychain key, or that there is none. Only the first call counts.
    pub fn set_key_expiry(&mut self, expiry: Option<u64>)
        ensures
            final(self).key_expiry == (match old(self).key_expiry {
                Some(first) => Some(first),
                None => Some(expiry),
            }),
            final(self).inner == old(self).inner,
            final(self).total_cost == old(self).total_cost,
            final(self).resolved_fee_token == old(self).resolved_fee_token,
            final(self).fee_balance_slot == old(self).fee_balance_slot,
    {
        if self.key_expiry.is_none() {
            self.key_expiry = Some(expiry);
        }
    }

    /// The expiry of the keychain key, if it was set and there is one.
    pub open spec fn spec_key_expiry(self) -> Option<u64> {
        match self.key_expiry {
            Some(expiry) => expiry,
            None => None,
        }
    }

    /// Returns the expiry of the keychain key, if it was set and there is one.
    pub fn key_expiry(&self) -> (r: Option<u64>)
        ensures
            r == self.spec_key_expiry(),
    {
        match self.key_expiry {
            Some(expiry) => expiry,
            None => None,
        }
    }

    /// Caches the fee token that validation resolved. Only the first call counts.
    pub fn set_resolved_fee_token(&mut self, fee_token: Address)
        ensures
            final(self).resolved_fee_token == (match old(self).resolved_fee_token {
                Some(first) => Some(first),
                None => Some(fee_token),
            }),
            final(self).inner == old(self).inner,
            final(self).total_cost == old(self).total_cost,
            final(self).key_expiry == old(self).key_expiry,
            final(self).fee_balance_slot == old(self).fee_balance_slot,
    {
        if self.resolved_fee_token.is_none() {
            self.resolved_fee_token = Some(fee_token);
        }
    }

    /// Returns the fee token that validation resolved, if it has.
    pub fn resolved_fee_token(&self) -> (r: Option<Address>)
        ensures
            r == self.resolved_fee_token,
    {
        self.resolved_fee_token
    }

    /// The fee token and the balance slot of the fee payer: as cached, or else as the transaction
    /// stands. There is none if the fee payer could not be recovered.
    pub open spec fn spec_fee_balance_slot(self) -> Option<(Address, U256)> {
        match self.fee_balance_slot {
            Some(cached) => cached,
            None => if self.inner.fee_payer is Some {
                Some((self.spec_effective_fee_token(), self.inner.fee_payer_balance_slot))
            } else {
                None
            },
        }
    }

    /// Returns the fee token and the balance slot of the fee payer. The first call settles them:
    /// later ones return the same, whatever fee token is resolved in between.
    pub fn fee_balance_slot(&mut self) -> (r: Option<(Address, U256)>)
        ensures
            r == old(self).spec_fee_balance_slot(),
            final(self).fee_balance_slot == Some(r),
            final(self).inner == old(self).inner,
            final(self).total_cost == old(self).total_cost,
            final(self).key_expiry == old(self).key_expiry,
            final(self).resolved_fee_token == old(self).resolved_fee_token,
    {
        let slot: Option<(Address, U256)> = self.current_fee_balance_slot();
        self.fee_balance_slot = Some(slot);
        slot
    }

    /// Returns the fee token and the balance slot of the fee payer of a transaction that is shared,
    /// so that nothing can be resolved for it any more.
    pub(crate) fn current_fee_balance_slot(&self) -> (r: Option<(Address, U256)>)
        ensures
            r == self.spec_fee_balance_slot(),
    {
        match self.fee_balance_slot {
            Some(cached) => cached,
            None => match self.inner.fee_payer {
                Some(_) => Some((self.effective_fee_token(), self.inner.fee_payer_balance_slot)),
                None => None,
            },
        }
    }

    /// Returns what the account is charged in the native currency, which is nothing: fees are paid
    /// in tokens.
    pub fn cost(&self) -> (r: U256)
        ensures
            r@ == 0,
    {
        U256::zero()
    }

    /// Returns the length of the encoded transaction.
    pub fn encoded_length(&self) -> (r: usize)
        ensures
            r == self.inner.encoded_length,
    {
        self.inner.encoded_length
    }

    /// Returns `true` unless this is an account-abstraction transaction with a nonce key of its
    /// own, whose nonce is not that of the account.
    pub fn requires_nonce_check(&self) -> (r: bool)
        ensures
            r == !self.spec_is_aa_2d(),
    {
        match &self.inner.aa {
            Some(aa) => aa.nonce_key.is_zero(),
            None => true,
        }
    }

    /// Takes the transaction out.
    pub fn into_consensus(self) -> (r: TempoTxEnvelope)
        ensures
            r == self.inner,
    {
        self.inner
    }

    /// Creates a pooled transaction from one that came from the network.
    pub fn from_pooled(transaction: TempoTxEnvelope) -> (r: Self)
        ensures
            r.wf(),
            r.inner == transaction,
            r.key_expiry is None,
            r.resolved_fee_token is None,
            r.fee_balance_slot is None,
    {
        TempoPooledTransaction::new(transaction)
    }

    /// Blobs are not supported: every transaction is refused as not being a blob transaction.
    pub fn validate_blob(&self) -> (r: Result<(), BlobTransactionValidationError>)
        ensures
            r == Err::<(), BlobTransactionValidationError>(
                BlobTransactionValidationError::NotBlobTransaction(self.inner.ty),
            ),
    {
        Err(BlobTransactionValidationError::NotBlobTransaction(self.inner.ty))
    }
}

/// Why the blobs of a transaction are refused.
#[derive(Debug, Clone, Copy, PartialEq, Eq, Structural)]
pub enum BlobTransactionValidationError {
    /// A transaction of this type has no blobs.
    NotBlobTransaction(u8),
}

/// Once validation resolved the fee token, the keychain identity is matched by that token.
pub proof fn law_subject_follows_resolved_token(tx: TempoPooledTransaction, token: Address)
    requires
        tx.resolved_fee_token == Some(token),
        tx.spec_keychain_subject() is Some,
    ensures
        tx.spec_keychain_subject()->0.fee_token == token,
{
}

/// A transaction skips the nonce check of its account exactly if it belongs into the pool for
/// two-dimensional nonces; one with an expiring nonce always does.
pub proof fn law_expiring_is_two_dimensional(tx: TempoPooledTransaction)
    ensures
        tx.spec_is_expiring_nonce() ==> tx.spec_is_aa_2d(),
{
}

/// An integer capped at the largest word.
pub open spec fn capped_word(n: int) -> int {
    if n < two_256() {
        n
    } else {
        two_256() - 1
    }
}

/// Where a transaction came from.
#[derive(Debug, Clone, Copy, PartialEq, Eq, Structural)]
pub enum TransactionOrigin {
    /// Submitted locally.
    Local,
    /// Received from the network.
    External,
    /// Submitted locally and not to be propagated.
    Private,
}

/// A transaction that passed validation.
#[derive(Debug, Clone)]
pub struct ValidPoolTransaction {
    /// The transaction.
    pub transaction: TempoPooledTransaction,
    /// Whether the transaction may be propagated.
    pub propagate: bool,
    /// Where the transaction came from.
    pub origin: TransactionOrigin,
}

impl ValidPoolTransaction {
    /// The hash.
    pub open spec fn spec_hash(self) -> TxHash {
        self.transaction.inner.hash
    }

    /// Returns the hash.
    pub fn hash(&self) -> (r: &TxHash)
        ensures
            *r == self.spec_hash(),
    {
        &self.transaction.inner.hash
    }

    /// Returns the sender.
    pub fn sender(&self) -> (r: Address)
        ensures
            r == self.transaction.inner.sender,
    {
        self.transaction.inner.sender
    }

    /// Returns the nonce.
    pub fn nonce(&self) -> (r: u64)
        ensures
            r == self.transaction.inner.nonce,
    {
        self.transaction.inner.nonce
    }
}

} // verus!
