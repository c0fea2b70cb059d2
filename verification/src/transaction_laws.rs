//! What is read off a transaction.
use crate::primitives::{two_256, Address};
use crate::tip20::{spec_default_fee_token, tip20_prefixed};
use crate::transaction::{TempoPooledTransaction, ValidPoolTransaction};
use vstd::prelude::*;

verus! {

/// A transaction is charged for its gas, less only what would not fit in a word together with its
/// value.
pub proof fn law_fee_is_the_gas(tx: TempoPooledTransaction)
    ensures
        0 <= tx.spec_fee_token_cost() <= tx.inner.gas_spending@,
        tx.spec_fee_token_cost() + tx.inner.value@ <= two_256() - 1,
        tx.spec_fee_token_cost() < tx.inner.gas_spending@ ==> tx.spec_fee_token_cost()
            + tx.inner.value@ == two_256() - 1,
        tx.wf() ==> tx.spec_fee_token_cost() == tx.total_cost@ - tx.inner.value@,
{
}

/// A transaction pays in the token that was resolved for it; before that in the one it names, and
/// in the first TIP-20 token if it names none.
pub proof fn law_paying_token(tx: TempoPooledTransaction)
    ensures
        tx.resolved_fee_token is Some ==> tx.spec_effective_fee_token()
            == tx.resolved_fee_token->0,
        tx.resolved_fee_token is None && tx.inner.fee_token is Some
            ==> tx.spec_effective_fee_token() == tx.inner.fee_token->0,
        tx.resolved_fee_token is None && tx.inner.fee_token is None
            ==> tx.spec_effective_fee_token() == (Address { hi: 0x20C0_0000, lo: 0 }),
{
}

/// The balance that pays for a transaction is that of its fee payer in the token that it pays in,
/// unknown without a fee payer. Once it was looked up it stays the same.
pub proof fn law_paying_balance(tx: TempoPooledTransaction)
    ensures
        tx.fee_balance_slot is Some ==> tx.spec_fee_balance_slot() == tx.fee_balance_slot->0,
        tx.fee_balance_slot is None && tx.inner.fee_payer is None ==> tx.spec_fee_balance_slot()
            is None,
        tx.fee_balance_slot is None && tx.inner.fee_payer is Some ==> tx.spec_fee_balance_slot()
            is Some && (tx.spec_fee_balance_slot()->0).0 == tx.spec_effective_fee_token() && (
        tx.spec_fee_balance_slot()->0).1 == tx.inner.fee_payer_balance_slot,
{
}

/// A transaction is identified by its sender, its nonce key and its nonce; only account-abstraction
/// transactions are.
pub proof fn law_identifier(tx: TempoPooledTransaction)
    ensures
        tx.spec_id() is Some <==> tx.inner.aa is Some,
        tx.inner.aa is Some ==> {
            &&& tx.spec_id()->0.seq_id.address == tx.inner.sender
            &&& tx.spec_id()->0.seq_id.nonce_key == tx.inner.aa->0.nonce_key
            &&& tx.spec_id()->0.nonce == tx.inner.nonce
        },
{
}

/// The nonce key zero is that of the account, the largest one marks a nonce that expires, and every
/// other one counts nonces of its own. Transactions of other types have the nonce of the account.
pub proof fn law_nonce_keys(tx: TempoPooledTransaction)
    ensures
        tx.spec_is_expiring_nonce() <==> tx.inner.aa is Some && tx.inner.aa->0.nonce_key@
            == two_256() - 1,
        tx.spec_is_aa_2d() <==> tx.inner.aa is Some && tx.inner.aa->0.nonce_key@ != 0,
        tx.inner.aa is Some ==> tx.spec_nonce_key() == Some(tx.inner.aa->0.nonce_key)
            && tx.spec_expiring_nonce_hash() == Some(tx.inner.aa->0.expiring_nonce_hash)
            && tx.spec_nonce_key_slot() == Some(tx.inner.nonce_slot)
            && tx.spec_expiring_nonce_slot() == Some(tx.inner.expiring_nonce_seen_slot),
        tx.inner.aa is None ==> tx.spec_nonce_key() is None && tx.spec_expiring_nonce_hash() is None
            && tx.spec_nonce_key_slot() is None && tx.spec_expiring_nonce_slot() is None,
{
}

/// A transaction is matched by a keychain key exactly if it is signed by one that could be
/// recovered: by the account and key of the signature, and by the token that it pays in.
pub proof fn law_keychain_identity(tx: TempoPooledTransaction)
    ensures
        tx.spec_keychain_subject() is Some <==> tx.inner.aa is Some
            && tx.inner.aa->0.keychain_signature is Some
            && tx.inner.aa->0.keychain_signature->0.key_id is Some,
        tx.spec_keychain_subject() is Some ==> {
            let signature = tx.inner.aa->0.keychain_signature->0;
            let subject = tx.spec_keychain_subject()->0;
            &&& subject.account == signature.user_address
            &&& subject.key_id == signature.key_id->0
            &&& subject.fee_token == tx.spec_effective_fee_token()
        },
{
}

/// A transaction is matched by the witness of a key authorization exactly if it carries one with a
/// witness: for its sender.
pub proof fn law_witness_identity(tx: TempoPooledTransaction)
    ensures
        tx.spec_witness_subject() is Some <==> tx.inner.aa is Some
            && tx.inner.aa->0.key_authorization is Some
            && tx.inner.aa->0.key_authorization->0.witness is Some,
        tx.spec_witness_subject() is Some ==> tx.spec_witness_subject()->0.account
            == tx.inner.sender && tx.spec_witness_subject()->0.witness
            == tx.inner.aa->0.key_authorization->0.witness->0,
{
}

/// The key expires when it was found to, if it was looked up and does.
pub proof fn law_key_expiry(tx: TempoPooledTransaction, t: u64)
    ensures
        tx.spec_key_expiry() == Some(t) <==> tx.key_expiry == Some(Some(t)),
        tx.spec_key_expiry() is None <==> tx.key_expiry is None || tx.key_expiry->0 is None,
{
}

/// An address is that of a TIP-20 token exactly if its first twelve bytes are those that all such
/// addresses start with; the first of them is the default fee token.
pub proof fn law_token_addresses(address: Address)
    ensures
        tip20_prefixed(address) <==> address.hi == 0x20C0_0000 && address.lo < 0x1_0000_0000_0000_0000,
        tip20_prefixed(spec_default_fee_token()),
        spec_default_fee_token() == (Address { hi: 0x20C0_0000, lo: 0 }),
{
}

/// The hash of a pooled transaction is that of the transaction.
pub proof fn law_hash(tx: ValidPoolTransaction)
    ensures
        tx.spec_hash() == tx.transaction.inner.hash,
{
}

} // verus!
