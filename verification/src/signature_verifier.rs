//! The precompile that verifies signatures.
//!
//! Parsing and recovering signatures and looking up keychain keys are done outside; what is found
//! is handed in with a decoded call.
use crate::abi::{
    address_word_and_bytes, be_value, decode_address_word_and_bytes, decode_word_and_bytes,
    encode_address, encode_bool, lemma_be_value_injective, selector_of, word_and_bytes, Selector,
};
use crate::hardfork::TempoHardfork;
use crate::ordered::OrdKey;
use crate::precompiles::{
    any_gates_out, charge_input_cost, check_selector, dispatched, finish_dispatch, output_of,
    spec_input_cost, state_gas_fits, DecodeError, Fatal, OutputModel, PrecompileHalt, PrecompileOutput,
    PrecompileStatus, SelectorSchedule, StorageCtx,
};
use crate::primitives::{Address, B256};
use vstd::prelude::*;
use vstd::slice::slice_subrange;

verus! {

/// Gas cost for secp256k1 signature verification.
pub const SECP256K1_VERIFY_GAS: u64 = 3_000;

/// Gas cost for P256 signature verification.
pub const P256_VERIFY_GAS: u64 = 8_000;

/// Gas cost for WebAuthn signature verification.
pub const WEBAUTHN_VERIFY_GAS: u64 = 8_000;

/// Maximum length of a WebAuthn signature, without its type.
pub const MAX_WEBAUTHN_SIGNATURE_LENGTH: usize = 2048;

/// Maximum valid call data size: the verification of a WebAuthn signature is the worst case. The
/// selector, four words, and the signature with its type, padded to a word.
pub const MAX_CALLDATA_LEN: usize = 2212;

/// Minimum length of the arguments of any call: a word, and the offset and the length of a byte
/// string.
pub const MIN_ARGUMENTS_LEN: usize = 96;

/// The selector of `recover(bytes32,bytes)`.
pub const RECOVER: Selector = 0x1904_5a25;

/// The selector of `verify(address,bytes32,bytes)`.
pub const VERIFY: Selector = 0x1a86_b550;

/// The selector of `verifyKeychain(address,bytes32,bytes)`.
pub const VERIFY_KEYCHAIN: Selector = 0x6c0c_731e;

/// The selector of `verifyKeychainAdmin(address,bytes32,bytes)`.
pub const VERIFY_KEYCHAIN_ADMIN: Selector = 0x5f6f_c5b7;

/// Type of a signature.
#[derive(Debug, Clone, Copy, PartialEq, Eq, Structural)]
pub enum SignatureType {
    /// On the curve secp256k1.
    Secp256k1,
    /// On the curve P256.
    P256,
    /// A WebAuthn assertion.
    WebAuthn,
}

impl SignatureType {
    /// The gas cost of verifying a signature of this type.
    pub open spec fn spec_verify_gas(self) -> u64 {
        match self {
            SignatureType::Secp256k1 => SECP256K1_VERIFY_GAS,
            SignatureType::P256 => P256_VERIFY_GAS,
            SignatureType::WebAuthn => WEBAUTHN_VERIFY_GAS,
        }
    }

    /// Returns the gas cost of verifying a signature of this type.
    pub fn verify_gas(&self) -> (r: u64)
        ensures
            r == self.spec_verify_gas(),
    {
        match self {
            SignatureType::Secp256k1 => SECP256K1_VERIFY_GAS,
            SignatureType::P256 => P256_VERIFY_GAS,
            SignatureType::WebAuthn => WEBAUTHN_VERIFY_GAS,
        }
    }
}

/// Why a precompile fails.
#[derive(Debug, Clone, Copy, PartialEq, Eq, Structural)]
pub enum TempoPrecompileError {
    /// The gas ran out.
    OutOfGas,
    /// The signature is malformed.
    InvalidFormat,
    /// The signature does not verify.
    InvalidSignature,
    /// The state could not be read.
    Fatal,
}

/// A well-formed signature: its type, and the signer if it verifies for the hash.
#[derive(Debug, Clone, Copy, PartialEq, Eq, Structural)]
pub struct PrimitiveSignature {
    /// The type.
    pub ty: SignatureType,
    /// The signer.
    pub signer: Option<Address>,
}

/// A well-formed keychain signature.
#[derive(Debug, Clone, Copy, PartialEq, Eq, Structural)]
pub struct KeychainSignature {
    /// The account that the key signs for.
    pub user_address: Address,
    /// Whether the signature is of the first version.
    pub is_legacy: bool,
    /// The signature of the key, if it is well-formed, for the hash that the key signs: that of the
    /// message and the account.
    pub inner: Option<PrimitiveSignature>,
}

/// Whether a key has the property in question.
#[derive(Debug, Clone, Copy, PartialEq, Eq, Structural)]
pub enum KeyAnswer {
    /// It has, or it has not.
    Known(bool),
    /// The gas ran out while the state was read.
    OutOfGas,
    /// The state could not be read.
    Fatal,
}

/// What the keychain tells of a key of an account.
#[derive(Debug, Clone, Copy, PartialEq, Eq, Structural)]
pub struct KeyLookup {
    /// Whether the key has the property in question.
    pub fits: KeyAnswer,
    /// The gas that reading the state took.
    pub gas: u64,
}

/// What is found out about the signature of a call.
#[derive(Debug, Clone, Copy, PartialEq, Eq, Structural)]
pub struct SignatureFindings {
    /// The signature read as one of a single key, if it is well-formed as such.
    pub primitive: Option<PrimitiveSignature>,
    /// The signature read as one of a keychain key, if it is well-formed as such.
    pub keychain: Option<KeychainSignature>,
    /// Whether the key is an active key of the account.
    pub is_active_key: KeyLookup,
    /// Whether the key is an admin key of the account.
    pub is_admin_key: KeyLookup,
}

/// A call of the signature verifier.
#[derive(Debug, Clone)]
pub enum SignatureVerifierCall {
    /// Recovers the signer of a hash.
    Recover {
        /// The hash.
        hash: B256,
        /// The signature.
        signature: Vec<u8>,
    },
    /// Checks the signer of a hash.
    Verify {
        /// The expected signer.
        signer: Address,
        /// The hash.
        hash: B256,
        /// The signature.
        signature: Vec<u8>,
    },
    /// Checks that a key of an account signed a hash.
    VerifyKeychain {
        /// The account.
        account: Address,
        /// The hash.
        hash: B256,
        /// The signature.
        signature: Vec<u8>,
    },
    /// Checks that an admin key of an account signed a hash.
    VerifyKeychainAdmin {
        /// The account.
        account: Address,
        /// The hash.
        hash: B256,
        /// The signature.
        signature: Vec<u8>,
    },
}

/// The signer, or why it cannot be recovered: the signature is malformed, the gas does not last for
/// the verification, or the signature does not verify.
pub open spec fn recovered(
    storage: StorageCtx,
    signature: Option<PrimitiveSignature>,
) -> Result<Address, TempoPrecompileError> {
    match signature {
        Some(signature) => if signature.ty.spec_verify_gas() > storage.gas_remaining {
            Err(TempoPrecompileError::OutOfGas)
        } else {
            match signature.signer {
                Some(signer) => Ok(signer),
                None => Err(TempoPrecompileError::InvalidSignature),
            }
        },
        None => Err(TempoPrecompileError::InvalidFormat),
    }
}

/// The context after the verification of a signature was paid for.
pub open spec fn after_recovery(
    storage: StorageCtx,
    signature: Option<PrimitiveSignature>,
) -> StorageCtx {
    match signature {
        Some(signature) => if signature.ty.spec_verify_gas() > storage.gas_remaining {
            storage
        } else {
            storage.charged(signature.ty.spec_verify_gas() as int)
        },
        None => storage,
    }
}

/// The signature of a keychain key, if it can be verified: not one of the first version.
pub open spec fn keychain_inner(signature: Option<KeychainSignature>) -> Option<
    PrimitiveSignature,
> {
    match signature {
        Some(signature) => if signature.is_legacy {
            None
        } else {
            signature.inner
        },
        None => None,
    }
}

/// The account and the key of a keychain signature, or why the key cannot be recovered.
pub open spec fn keychain_recovered(
    storage: StorageCtx,
    signature: Option<KeychainSignature>,
) -> Result<(Address, Address), TempoPrecompileError> {
    match recovered(storage, keychain_inner(signature)) {
        Ok(key) => Ok((signature->0.user_address, key)),
        Err(err) => Err(err),
    }
}

/// Whether a key has the property in question, if the gas lasts for the lookup.
pub open spec fn looked_up(storage: StorageCtx, lookup: KeyLookup) -> Result<
    bool,
    TempoPrecompileError,
> {
    if lookup.gas > storage.gas_remaining {
        Err(TempoPrecompileError::OutOfGas)
    } else {
        match lookup.fits {
            KeyAnswer::Known(fits) => Ok(fits),
            KeyAnswer::OutOfGas => Err(TempoPrecompileError::OutOfGas),
            KeyAnswer::Fatal => Err(TempoPrecompileError::Fatal),
        }
    }
}

/// The context after the lookup of a key was paid for.
pub open spec fn after_lookup(storage: StorageCtx, lookup: KeyLookup) -> StorageCtx {
    if lookup.gas > storage.gas_remaining {
        storage
    } else {
        storage.charged(lookup.gas as int)
    }
}

/// Whether a keychain signature is for the account, by a key with the property in question. The key
/// is looked up only if the signature is for the account.
pub open spec fn keychain_verified(
    storage: StorageCtx,
    account: Address,
    signature: Option<KeychainSignature>,
    lookup: KeyLookup,
) -> Result<bool, TempoPrecompileError> {
    match keychain_recovered(storage, signature) {
        Ok((user_address, _)) => if user_address == account {
            looked_up(after_recovery(storage, keychain_inner(signature)), lookup)
        } else {
            Ok(false)
        },
        Err(err) => Err(err),
    }
}

/// The context after a keychain signature was verified and, if it is for the account, its key was
/// looked up.
pub open spec fn after_keychain(
    storage: StorageCtx,
    account: Address,
    signature: Option<KeychainSignature>,
    lookup: KeyLookup,
) -> StorageCtx {
    let paid = after_recovery(storage, keychain_inner(signature));
    match keychain_recovered(storage, signature) {
        Ok((user_address, _)) => if user_address == account {
            after_lookup(paid, lookup)
        } else {
            paid
        },
        Err(_) => paid,
    }
}

/// The data that stands for an error: the selector of `InvalidFormat()` or `InvalidSignature()`.
pub open spec fn error_data(err: TempoPrecompileError) -> Seq<u8> {
    match err {
        TempoPrecompileError::InvalidFormat => seq![0x25u8, 0x7au8, 0xa2u8, 0x3bu8],
        TempoPrecompileError::InvalidSignature => seq![0x8bu8, 0xaau8, 0x57u8, 0x9fu8],
        TempoPrecompileError::OutOfGas | TempoPrecompileError::Fatal => Seq::empty(),
    }
}

fn encode_error(err: &TempoPrecompileError) -> (r: Vec<u8>)
    ensures
        r@ == error_data(*err),
{
    let r: Vec<u8> = match err {
        TempoPrecompileError::InvalidFormat => vec![0x25, 0x7a, 0xa2, 0x3b],
        TempoPrecompileError::InvalidSignature => vec![0x8b, 0xaa, 0x57, 0x9f],
        TempoPrecompileError::OutOfGas | TempoPrecompileError::Fatal => Vec::new(),
    };
    assert(r@ =~= error_data(*err));
    r
}

/// What a call comes to: its output, or that the state could not be read.
pub open spec fn answered(r: Result<PrecompileOutput, Fatal>) -> Result<OutputModel, Fatal> {
    match r {
        Ok(output) => Ok(output@),
        Err(err) => Err(err),
    }
}

/// What a handler comes to, before its gas is told: an output with the encoded value, a revert with
/// the encoded error, or a halt where the gas ran out; no output where the state could not be read.
pub open spec fn viewed(result: Result<Seq<u8>, TempoPrecompileError>) -> Result<
    OutputModel,
    Fatal,
> {
    match result {
        Ok(bytes) => Ok(output_of(PrecompileStatus::Success, bytes, 0, 0)),
        Err(TempoPrecompileError::OutOfGas) => Ok(
            output_of(PrecompileStatus::Halt(PrecompileHalt::OutOfGas), Seq::empty(), 0, 0),
        ),
        Err(TempoPrecompileError::Fatal) => Err(Fatal),
        Err(err) => Ok(output_of(PrecompileStatus::Revert, error_data(err), 0, 0)),
    }
}

/// Dispatches a read-only call, given its encoded result.
pub fn view_result(result: Result<Vec<u8>, TempoPrecompileError>) -> (r: Result<
    PrecompileOutput,
    Fatal,
>)
    ensures
        answered(r) == viewed(
            match result {
                Ok(bytes) => Ok(bytes@),
                Err(err) => Err(err),
            },
        ),
{
    match result {
        Ok(bytes) => Ok(PrecompileOutput::new(PrecompileStatus::Success, bytes, 0, 0)),
        Err(err) => match err {
            TempoPrecompileError::OutOfGas => {
                let empty: Vec<u8> = Vec::new();
                assert(empty@ =~= Seq::empty());
                Ok(
                    PrecompileOutput::new(
                        PrecompileStatus::Halt(PrecompileHalt::OutOfGas),
                        empty,
                        0,
                        0,
                    ),
                )
            },
            TempoPrecompileError::Fatal => Err(Fatal),
            err => Ok(PrecompileOutput::new(PrecompileStatus::Revert, encode_error(&err), 0, 0)),
        },
    }
}

/// The word that holds an integer.
pub open spec fn is_word_of(bytes: Seq<u8>, n: int) -> bool {
    bytes.len() == 32 && be_value(bytes) == n
}

/// What the caller gets of what a handler came to: an output with its gas told.
pub open spec fn finished(storage: StorageCtx, handled: Result<OutputModel, Fatal>) -> Result<
    OutputModel,
    Fatal,
> {
    match handled {
        Ok(output) => Ok(dispatched(storage, Ok(output))),
        Err(err) => Err(err),
    }
}

/// A call came to this if its result is this integer, encoded as a word, or this error.
pub open spec fn answers_with(
    answer: Result<OutputModel, Fatal>,
    result: Result<int, TempoPrecompileError>,
    storage: StorageCtx,
) -> bool {
    match result {
        Ok(n) => exists|bytes: Seq<u8>| #[trigger]
            is_word_of(bytes, n) && answer == finished(storage, viewed(Ok(bytes))),
        Err(err) => answer == finished(storage, viewed(Err(err))),
    }
}

/// The selectors that are introduced with T6.
pub open spec fn t6_added() -> Seq<Selector> {
    seq![VERIFY_KEYCHAIN, VERIFY_KEYCHAIN_ADMIN]
}

/// The selector is gated out: a keychain verification before T6.
pub open spec fn gated_before_t6(selector: Selector, spec: TempoHardfork) -> bool {
    (selector == VERIFY_KEYCHAIN || selector == VERIFY_KEYCHAIN_ADMIN) && spec.place()
        < TempoHardfork::T6.place()
}

/// A call as it was decoded.
pub enum CallModel {
    /// Recovers the signer of a hash.
    Recover(B256, Seq<u8>),
    /// Checks the signer of a hash.
    Verify(Address, B256, Seq<u8>),
    /// Checks that a key of an account signed a hash.
    VerifyKeychain(Address, B256, Seq<u8>),
    /// Checks that an admin key of an account signed a hash.
    VerifyKeychainAdmin(Address, B256, Seq<u8>),
}

impl View for SignatureVerifierCall {
    type V = CallModel;

    open spec fn view(&self) -> CallModel {
        match self {
            SignatureVerifierCall::Recover { hash, signature } => CallModel::Recover(
                *hash,
                signature@,
            ),
            SignatureVerifierCall::Verify { signer, hash, signature } => CallModel::Verify(
                *signer,
                *hash,
                signature@,
            ),
            SignatureVerifierCall::VerifyKeychain { account, hash, signature } => {
                CallModel::VerifyKeychain(*account, *hash, signature@)
            },
            SignatureVerifierCall::VerifyKeychainAdmin { account, hash, signature } => {
                CallModel::VerifyKeychainAdmin(*account, *hash, signature@)
            },
        }
    }
}

/// The call that call data with a selector stands for, given its arguments as the ABI reads them.
pub open spec fn call_by_selector(
    selector: Selector,
    hash_and_signature: Option<(B256, Seq<u8>)>,
    address_hash_and_signature: Option<(Address, B256, Seq<u8>)>,
) -> Result<CallModel, DecodeError> {
    if selector == RECOVER {
        match hash_and_signature {
            Some((hash, signature)) => Ok(CallModel::Recover(hash, signature)),
            None => Err(DecodeError::Malformed),
        }
    } else if selector == VERIFY || selector == VERIFY_KEYCHAIN || selector
        == VERIFY_KEYCHAIN_ADMIN {
        match address_hash_and_signature {
            Some((address, hash, signature)) => if selector == VERIFY {
                Ok(CallModel::Verify(address, hash, signature))
            } else if selector == VERIFY_KEYCHAIN {
                Ok(CallModel::VerifyKeychain(address, hash, signature))
            } else {
                Ok(CallModel::VerifyKeychainAdmin(address, hash, signature))
            },
            None => Err(DecodeError::Malformed),
        }
    } else {
        Err(DecodeError::UnknownSelector(selector))
    }
}

/// Returns the call that a selector stands for, given the arguments as the ABI reads them.
pub fn select_call(
    selector: Selector,
    hash_and_signature: Option<(B256, Vec<u8>)>,
    address_hash_and_signature: Option<(Address, B256, Vec<u8>)>,
) -> (r: Result<SignatureVerifierCall, DecodeError>)
    ensures
        match call_by_selector(
            selector,
            match hash_and_signature {
                Some((hash, signature)) => Some((hash, signature@)),
                None => None,
            },
            match address_hash_and_signature {
                Some((address, hash, signature)) => Some((address, hash, signature@)),
                None => None,
            },
        ) {
            Ok(call) => r is Ok && r->Ok_0@ == call,
            Err(err) => r == Err::<SignatureVerifierCall, DecodeError>(err),
        },
{
    if selector == RECOVER {
        match hash_and_signature {
            Some((hash, signature)) => Ok(SignatureVerifierCall::Recover { hash, signature }),
            None => Err(DecodeError::Malformed),
        }
    } else if selector == VERIFY || selector == VERIFY_KEYCHAIN || selector
        == VERIFY_KEYCHAIN_ADMIN {
        match address_hash_and_signature {
            Some((address, hash, signature)) => if selector == VERIFY {
                Ok(SignatureVerifierCall::Verify { signer: address, hash, signature })
            } else if selector == VERIFY_KEYCHAIN {
                Ok(SignatureVerifierCall::VerifyKeychain { account: address, hash, signature })
            } else {
                Ok(SignatureVerifierCall::VerifyKeychainAdmin { account: address, hash, signature })
            },
            None => Err(DecodeError::Malformed),
        }
    } else {
        Err(DecodeError::UnknownSelector(selector))
    }
}

/// The signature verifier.
#[derive(Debug, Clone)]
pub struct SignatureVerifier {
    /// The context it runs in.
    pub storage: StorageCtx,
    /// The code of its account.
    pub code: Vec<u8>,
}

/// What decoding a call comes to: how the call ends at once, or which call it is.
pub open spec fn decoded_call(calldata: Seq<u8>, storage: StorageCtx) -> Result<
    CallModel,
    OutputModel,
> {
    let cost = spec_input_cost(calldata.len() as int);
    let charged = storage.charged(cost);
    if cost > storage.gas_remaining {
        Err(storage.halted(PrecompileHalt::OutOfGas))
    } else if calldata.len() > MAX_CALLDATA_LEN {
        Err(charged.reverted(error_data(TempoPrecompileError::InvalidFormat)))
    } else {
        match selector_of(calldata) {
            None => if charged.spec.spec_is_t1() {
                Err(charged.reverted(Seq::empty()))
            } else {
                Err(charged.halted(crate::precompiles::missing_selector()))
            },
            Some(selector) => if gated_before_t6(selector, charged.spec) {
                Err(charged.reverted(crate::precompiles::unknown_selector_data(selector)))
            } else if calldata.len() < 4 + MIN_ARGUMENTS_LEN {
                Err(dispatched(charged, Err(DecodeError::Malformed)))
            } else {
                match call_by_selector(
                    selector,
                    word_and_bytes(calldata.skip(4)),
                    address_word_and_bytes(calldata.skip(4)),
                ) {
                    Ok(call) => Ok(call),
                    Err(err) => Err(dispatched(charged, Err(err))),
                }
            },
        }
    }
}

/// The context after the decoding of a call was paid for.
pub open spec fn after_decoding(calldata: Seq<u8>, storage: StorageCtx) -> StorageCtx {
    let cost = spec_input_cost(calldata.len() as int);
    if cost <= storage.gas_remaining {
        storage.charged(cost)
    } else {
        storage
    }
}

/// The result of a call as an integer, given what was found out about its signature.
pub open spec fn call_result(
    call: CallModel,
    findings: SignatureFindings,
    storage: StorageCtx,
) -> Result<int, TempoPrecompileError> {
    match call {
        CallModel::Recover(_, _) => match recovered(storage, findings.primitive) {
            Ok(signer) => Ok(signer.ord()),
            Err(err) => Err(err),
        },
        CallModel::Verify(signer, _, _) => match recovered(storage, findings.primitive) {
            Ok(found) => Ok(truth(found == signer)),
            Err(err) => Err(err),
        },
        CallModel::VerifyKeychain(account, _, _) => match keychain_verified(
            storage,
            account,
            findings.keychain,
            findings.is_active_key,
        ) {
            Ok(fits) => Ok(truth(fits)),
            Err(err) => Err(err),
        },
        CallModel::VerifyKeychainAdmin(account, _, _) => match keychain_verified(
            storage,
            account,
            findings.keychain,
            findings.is_admin_key,
        ) {
            Ok(fits) => Ok(truth(fits)),
            Err(err) => Err(err),
        },
    }
}

/// A truth value as an integer.
pub open spec fn truth(b: bool) -> int {
    if b {
        1
    } else {
        0
    }
}

/// A call can be answered: if it fails, the gas for state growth fits in an integer where it is
/// added to its reserve.
pub open spec fn can_answer(
    call: CallModel,
    findings: SignatureFindings,
    storage: StorageCtx,
) -> bool {
    storage.amsterdam_eip8037_enabled && call_result(call, findings, storage) is Err
        ==> state_gas_fits(storage)
}

/// The context after a call.
pub open spec fn after_call(
    call: CallModel,
    findings: SignatureFindings,
    storage: StorageCtx,
) -> StorageCtx {
    match call {
        CallModel::Recover(_, _) | CallModel::Verify(_, _, _) => after_recovery(
            storage,
            findings.primitive,
        ),
        CallModel::VerifyKeychain(account, _, _) => after_keychain(
            storage,
            account,
            findings.keychain,
            findings.is_active_key,
        ),
        CallModel::VerifyKeychainAdmin(account, _, _) => after_keychain(
            storage,
            account,
            findings.keychain,
            findings.is_admin_key,
        ),
    }
}

impl SignatureVerifier {
    /// Creates the verifier in a context, for an account without code.
    pub fn new(storage: StorageCtx) -> (r: Self)
        ensures
            r.storage == storage,
            r.code@.len() == 0,
    {
        SignatureVerifier { storage, code: Vec::new() }
    }

    /// Marks the account of the verifier as one with code, so that it is not taken for an empty
    /// one: with a single byte that is never executed.
    pub fn initialize(&mut self) -> (r: Result<(), TempoPrecompileError>)
        ensures
            r is Ok,
            final(self).code@ == seq![0xefu8],
            final(self).storage == old(self).storage,
    {
        self.code = vec![0xef];
        assert(self.code@ =~= seq![0xefu8]);
        Ok(())
    }

    /// Recovers the signer of a signature, after its verification was paid for.
    pub fn recover(&mut self, signature: Option<PrimitiveSignature>) -> (r: Result<
        Address,
        TempoPrecompileError,
    >)
        requires
            old(self).storage.wf(),
        ensures
            final(self).storage.wf(),
            r == recovered(old(self).storage, signature),
            final(self).storage == after_recovery(old(self).storage, signature),
            final(self).code == old(self).code,
    {
        let signature: PrimitiveSignature = match signature {
            Some(signature) => signature,
            None => {
                return Err(TempoPrecompileError::InvalidFormat);
            },
        };
        match self.storage.deduct_gas(signature.ty.verify_gas()) {
            Ok(()) => {},
            Err(_) => {
                return Err(TempoPrecompileError::OutOfGas);
            },
        }
        match signature.signer {
            Some(signer) => Ok(signer),
            None => Err(TempoPrecompileError::InvalidSignature),
        }
    }

    /// Recovers the account and the key of a keychain signature. One of the first version is
    /// refused as malformed.
    pub fn recover_keychain_key(&mut self, signature: Option<KeychainSignature>) -> (r: Result<
        (Address, Address),
        TempoPrecompileError,
    >)
        requires
            old(self).storage.wf(),
        ensures
            final(self).storage.wf(),
            r == keychain_recovered(old(self).storage, signature),
            final(self).storage == after_recovery(old(self).storage, keychain_inner(signature)),
            final(self).code == old(self).code,
    {
        let signature: KeychainSignature = match signature {
            Some(signature) => signature,
            None => {
                return Err(TempoPrecompileError::InvalidFormat);
            },
        };
        if signature.is_legacy {
            return Err(TempoPrecompileError::InvalidFormat);
        }
        match self.recover(signature.inner) {
            Ok(key) => Ok((signature.user_address, key)),
            Err(err) => Err(err),
        }
    }

    /// Takes the answer of the keychain about a key, after its lookup was paid for.
    fn look_up(&mut self, lookup: KeyLookup) -> (r: Result<bool, TempoPrecompileError>)
        requires
            old(self).storage.wf(),
        ensures
            final(self).storage.wf(),
            r == looked_up(old(self).storage, lookup),
            final(self).storage == after_lookup(old(self).storage, lookup),
            final(self).code == old(self).code,
    {
        match self.storage.deduct_gas(lookup.gas) {
            Ok(()) => match lookup.fits {
                KeyAnswer::Known(fits) => Ok(fits),
                KeyAnswer::OutOfGas => Err(TempoPrecompileError::OutOfGas),
                KeyAnswer::Fatal => Err(TempoPrecompileError::Fatal),
            },
            Err(_) => Err(TempoPrecompileError::OutOfGas),
        }
    }

    /// Checks that an active key of the account made a keychain signature.
    pub fn verify_keychain(
        &mut self,
        account: Address,
        signature: Option<KeychainSignature>,
        is_active_key: KeyLookup,
    ) -> (r: Result<bool, TempoPrecompileError>)
        requires
            old(self).storage.wf(),
        ensures
            final(self).storage.wf(),
            r == keychain_verified(old(self).storage, account, signature, is_active_key),
            final(self).storage == after_keychain(
                old(self).storage,
                account,
                signature,
                is_active_key,
            ),
            final(self).code == old(self).code,
    {
        match self.recover_keychain_key(signature) {
            Ok((user_address, _)) => if user_address == account {
                self.look_up(is_active_key)
            } else {
                Ok(false)
            },
            Err(err) => Err(err),
        }
    }

    /// Checks that an admin key of the account made a keychain signature.
    pub fn verify_keychain_admin(
        &mut self,
        account: Address,
        signature: Option<KeychainSignature>,
        is_admin_key: KeyLookup,
    ) -> (r: Result<bool, TempoPrecompileError>)
        requires
            old(self).storage.wf(),
        ensures
            final(self).storage.wf(),
            r == keychain_verified(old(self).storage, account, signature, is_admin_key),
            final(self).storage == after_keychain(
                old(self).storage,
                account,
                signature,
                is_admin_key,
            ),
            final(self).code == old(self).code,
    {
        match self.recover_keychain_key(signature) {
            Ok((user_address, _)) => if user_address == account {
                self.look_up(is_admin_key)
            } else {
                Ok(false)
            },
            Err(err) => Err(err),
        }
    }

    /// Starts a call: charges for the call data, checks its size and selector, and decodes it.
    pub fn decode_call(&mut self, calldata: &[u8]) -> (r: Result<
        SignatureVerifierCall,
        PrecompileOutput,
    >)
        requires
            old(self).storage.wf(),
        ensures
            final(self).storage.wf(),
            final(self).code == old(self).code,
            match decoded_call(calldata@, old(self).storage) {
                Ok(call) => r is Ok && r->Ok_0@ == call,
                Err(output) => r is Err && r->Err_0@ == output,
            },
            final(self).storage == after_decoding(calldata@, old(self).storage),
    {
        match charge_input_cost(&mut self.storage, calldata) {
            Some(output) => {
                return Err(output);
            },
            None => {},
        }
        if calldata.len() > MAX_CALLDATA_LEN {
            return Err(
                self.storage.revert_output(encode_error(&TempoPrecompileError::InvalidFormat)),
            );
        }
        let mut schedules: Vec<SelectorSchedule> = Vec::new();
        let added: Vec<Selector> = vec![VERIFY_KEYCHAIN, VERIFY_KEYCHAIN_ADMIN];
        assert(added@ =~= t6_added());
        schedules.push(SelectorSchedule::new(TempoHardfork::T6).with_added(added));
        proof {
            assert forall|selector: Selector| #[trigger] any_gates_out(
                schedules@,
                selector,
                self.storage.spec,
            ) == gated_before_t6(selector, self.storage.spec) by {
                let schedule = schedules@[0];
                assert(t6_added()[0] == VERIFY_KEYCHAIN && t6_added()[1] == VERIFY_KEYCHAIN_ADMIN);
                assert(schedule.added@ == t6_added());
                if gated_before_t6(selector, self.storage.spec) {
                    assert(schedule.gates_out(selector, self.storage.spec));
                }
            }
        }
        let selector: Selector = match check_selector(calldata, &schedules, &self.storage) {
            Ok(selector) => selector,
            Err(output) => {
                return Err(output);
            },
        };
        if calldata.len() < 4 + MIN_ARGUMENTS_LEN {
            return Err(finish_dispatch(&self.storage, Err(DecodeError::Malformed)));
        }
        let arguments = slice_subrange(calldata, 4, calldata.len());
        assert(arguments@ =~= calldata@.skip(4));
        let call = select_call(
            selector,
            decode_word_and_bytes(arguments),
            decode_address_word_and_bytes(arguments),
        );
        match call {
            Ok(call) => Ok(call),
            Err(err) => Err(finish_dispatch(&self.storage, Err(err))),
        }
    }

    /// Finishes a decoded call, given what was found out about its signature.
    pub fn answer_call(&mut self, call: &SignatureVerifierCall, findings: &SignatureFindings) -> (r:
        Result<PrecompileOutput, Fatal>)
        requires
            old(self).storage.wf(),
            can_answer(call@, *findings, old(self).storage),
        ensures
            final(self).storage == after_call(call@, *findings, old(self).storage),
            final(self).code == old(self).code,
            answers_with(
                answered(r),
                call_result(call@, *findings, old(self).storage),
                after_call(call@, *findings, old(self).storage),
            ),
    {
        let result: Result<Vec<u8>, TempoPrecompileError> = match call {
            SignatureVerifierCall::Recover { .. } => match self.recover(findings.primitive) {
                Ok(signer) => Ok(encode_address(signer)),
                Err(err) => Err(err),
            },
            SignatureVerifierCall::Verify { signer, .. } => match self.recover(
                findings.primitive,
            ) {
                Ok(found) => Ok(encode_bool(found == *signer)),
                Err(err) => Err(err),
            },
            SignatureVerifierCall::VerifyKeychain { account, .. } => match self.verify_keychain(
                *account,
                findings.keychain,
                findings.is_active_key,
            ) {
                Ok(fits) => Ok(encode_bool(fits)),
                Err(err) => Err(err),
            },
            SignatureVerifierCall::VerifyKeychainAdmin { account, .. } => {
                match self.verify_keychain_admin(
                    *account,
                    findings.keychain,
                    findings.is_admin_key,
                ) {
                    Ok(fits) => Ok(encode_bool(fits)),
                    Err(err) => Err(err),
                }
            },
        };
        let ghost value = call_result(call@, *findings, old(self).storage);
        assert(result matches Ok(bytes) ==> is_word_of(bytes@, value->Ok_0));
        match view_result(result) {
            Ok(output) => Ok(finish_dispatch(&self.storage, Ok(output))),
            Err(err) => Err(err),
        }
    }

    /// Runs a call. `find` is asked about the signature of a call that could be decoded.
    pub fn call<F: FnOnce(&SignatureVerifierCall) -> SignatureFindings>(
        &mut self,
        calldata: &[u8],
        find: F,
    ) -> (r: Result<PrecompileOutput, Fatal>)
        requires
            old(self).storage.wf(),
            forall|call: SignatureVerifierCall| #[trigger] find.requires((&call,)),
            forall|call: SignatureVerifierCall, findings: SignatureFindings| #[trigger]
                find.ensures((&call,), findings) && decoded_call(calldata@, old(self).storage) == Ok::<
                    CallModel,
                    OutputModel,
                >(call@) ==> can_answer(
                    call@,
                    findings,
                    after_decoding(calldata@, old(self).storage),
                ),
        ensures
            final(self).code == old(self).code,
            match decoded_call(calldata@, old(self).storage) {
                Err(output) => {
                    &&& answered(r) == Ok::<OutputModel, Fatal>(output)
                    &&& final(self).storage == after_decoding(calldata@, old(self).storage)
                },
                Ok(model) => exists|call: SignatureVerifierCall, findings: SignatureFindings|
                    {
                        &&& call@ == model
                        &&& #[trigger] find.ensures((&call,), findings)
                        &&& final(self).storage == after_call(
                            model,
                            findings,
                            after_decoding(calldata@, old(self).storage),
                        )
                        &&& answers_with(
                            answered(r),
                            call_result(
                                model,
                                findings,
                                after_decoding(calldata@, old(self).storage),
                            ),
                            final(self).storage,
                        )
                    },
            },
    {
        match self.decode_call(calldata) {
            Ok(call) => {
                let findings = find(&call);
                self.answer_call(&call, &findings)
            },
            Err(output) => Ok(output),
        }
    }
}

/// The maximum call data size is that of a verification with the longest WebAuthn signature: the
/// selector, four words, and the signature with its type, padded to a word.
pub proof fn law_max_calldata_len()
    ensures
        MAX_CALLDATA_LEN == 4 + 32 * 4 + crate::precompiles::words(
            MAX_WEBAUTHN_SIGNATURE_LENGTH + 1,
        ) * 32,
{
}

/// A call, what was found out about its signature and the context leave no choice about the answer.
pub proof fn law_one_answer(
    a: Result<OutputModel, Fatal>,
    b: Result<OutputModel, Fatal>,
    result: Result<int, TempoPrecompileError>,
    storage: StorageCtx,
)
    requires
        answers_with(a, result, storage),
        answers_with(b, result, storage),
    ensures
        a == b,
{
    match result {
        Ok(n) => {
            let x = choose|bytes: Seq<u8>| #[trigger]
                is_word_of(bytes, n) && a == finished(storage, viewed(Ok(bytes)));
            let y = choose|bytes: Seq<u8>| #[trigger]
                is_word_of(bytes, n) && b == finished(storage, viewed(Ok(bytes)));
            lemma_be_value_injective(x, y);
        },
        Err(_) => {},
    }
}

/// No signer is recovered without the verification being paid for, and nothing but the verification
/// is paid for.
pub proof fn law_verification_is_paid(storage: StorageCtx, signature: Option<PrimitiveSignature>)
    requires
        storage.wf(),
    ensures
        recovered(storage, signature) is Ok ==> after_recovery(storage, signature).spec_gas_used()
            == storage.spec_gas_used() + signature->0.ty.spec_verify_gas(),
        recovered(storage, signature) == Err::<Address, TempoPrecompileError>(
            TempoPrecompileError::OutOfGas,
        ) ==> after_recovery(storage, signature) == storage,
{
}

/// A keychain signature verifies only for the account it names, only by a key with the property in
/// question, and never if it is of the first version.
pub proof fn law_keychain_verifies_own_account_only(
    storage: StorageCtx,
    account: Address,
    signature: Option<KeychainSignature>,
    lookup: KeyLookup,
)
    requires
        keychain_verified(storage, account, signature, lookup) == Ok::<
            bool,
            TempoPrecompileError,
        >(true),
    ensures
        signature is Some,
        signature->0.user_address == account,
        !signature->0.is_legacy,
        lookup.fits == KeyAnswer::Known(true),
{
}

/// Before T6 the keychain verifications are unknown functions, whatever their arguments.
pub proof fn law_keychain_calls_are_gated(calldata: Seq<u8>, storage: StorageCtx)
    requires
        selector_of(calldata) is Some,
        gated_before_t6(selector_of(calldata)->0, storage.spec),
        calldata.len() <= MAX_CALLDATA_LEN,
        spec_input_cost(calldata.len() as int) <= storage.gas_remaining,
    ensures
        decoded_call(calldata, storage) == Err::<CallModel, OutputModel>(
            storage.charged(spec_input_cost(calldata.len() as int)).reverted(
                crate::precompiles::unknown_selector_data(selector_of(calldata)->0),
            ),
        ),
{
}

} // verus!
