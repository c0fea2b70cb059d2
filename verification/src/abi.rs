//! Reading call data and writing return data by the contract ABI.
use crate::ordered::OrdKey;
use crate::primitives::{Address, B256};
use alloy_sol_types::{sol_data, SolType};
use vstd::prelude::*;
use vstd::slice::slice_subrange;

verus! {

/// The first four bytes of call data, as a big-endian integer.
pub type Selector = u32;

/// The integer that bytes stand for in big-endian order.
pub open spec fn be_value(bytes: Seq<u8>) -> int
    decreases bytes.len(),
{
    if bytes.len() == 0 {
        0
    } else {
        be_value(bytes.drop_last()) * 256 + bytes.last()
    }
}

/// The address in the last twenty bytes of the word with index `i`.
pub open spec fn address_in_word(data: Seq<u8>, i: int) -> Address {
    Address {
        hi: be_value(data.subrange(32 * i + 12, 32 * i + 16)) as u32,
        lo: be_value(data.subrange(32 * i + 16, 32 * i + 32)) as u128,
    }
}

/// The selector of call data, if it is long enough to have one.
pub open spec fn selector_of(calldata: Seq<u8>) -> Option<Selector> {
    if calldata.len() >= 4 {
        Some(be_value(calldata.take(4)) as u32)
    } else {
        None
    }
}

/// Returns the selector of call data, if it is long enough to have one.
pub fn selector(calldata: &[u8]) -> (r: Option<Selector>)
    ensures
        r == selector_of(calldata@),
{
    if calldata.len() < 4 {
        return None;
    }
    proof {
        reveal_with_fuel(be_value, 5);
        let s = calldata@.take(4);
        assert(s.drop_last().drop_last().drop_last().drop_last() =~= Seq::empty());
        assert(s.last() == calldata@[3]);
        assert(s.drop_last().last() == calldata@[2]);
        assert(s.drop_last().drop_last().last() == calldata@[1]);
        assert(s.drop_last().drop_last().drop_last().last() == calldata@[0]);
    }
    let word: u32 = ((calldata[0] as u32 * 256 + calldata[1] as u32) * 256 + calldata[2] as u32)
        * 256 + calldata[3] as u32;
    Some(word)
}

/// `abi_decode_sequence` of `alloy_sol_types` for one address: it succeeds on at least one word,
/// takes the last twenty bytes of the first and ignores all others.
#[verifier::external_body]
fn decode_address(data: &[u8]) -> (r: Option<Address>)
    ensures
        r == (if data@.len() >= 32 {
            Some(address_in_word(data@, 0))
        } else {
            None
        }),
{
    let (a,) = <(sol_data::Address,) as SolType>::abi_decode_sequence(data).ok()?;
    let (hi, lo) = a.split_at(4);
    Some(Address {
        hi: u32::from_be_bytes(hi.try_into().ok()?),
        lo: u128::from_be_bytes(lo.try_into().ok()?),
    })
}

/// `abi_decode_sequence` of `alloy_sol_types` for two addresses and two 128-bit integers: it
/// succeeds on at least four words, and ignores all bytes that the values have no room for. What
/// comes back is the first address.
#[verifier::external_body]
fn decode_swap(data: &[u8]) -> (r: Option<Address>)
    ensures
        r == (if data@.len() >= 128 {
            Some(address_in_word(data@, 0))
        } else {
            None
        }),
{
    let (a, _, _, _) = <(
        sol_data::Address,
        sol_data::Address,
        sol_data::Uint<128>,
        sol_data::Uint<128>,
    ) as SolType>::abi_decode_sequence(data).ok()?;
    let (hi, lo) = a.split_at(4);
    Some(Address {
        hi: u32::from_be_bytes(hi.try_into().ok()?),
        lo: u128::from_be_bytes(lo.try_into().ok()?),
    })
}

/// The word with index `i`.
pub open spec fn word_in(data: Seq<u8>, i: int) -> B256 {
    B256 {
        hi: be_value(data.subrange(32 * i, 32 * i + 16)) as u128,
        lo: be_value(data.subrange(32 * i + 16, 32 * i + 32)) as u128,
    }
}

/// The length of the longest byte string that is decoded.
pub open spec fn longest_bytes() -> int {
    0x4000_0000
}

/// The byte string whose place the word with index `i` tells: there stands a word with its length,
/// and then its bytes. There is none if they do not all lie within the data, or if they are too
/// many.
pub open spec fn bytes_behind(data: Seq<u8>, i: int) -> Option<Seq<u8>> {
    let at = be_value(data.subrange(32 * i, 32 * i + 32));
    let length = be_value(data.subrange(at, at + 32));
    if at + 32 <= data.len() && at + 32 + length <= data.len() && length <= longest_bytes() {
        Some(data.subrange(at + 32, at + 32 + length))
    } else {
        None
    }
}

/// The arguments of a call that takes a 32-byte word and a byte string.
pub open spec fn word_and_bytes(data: Seq<u8>) -> Option<(B256, Seq<u8>)> {
    if data.len() >= 64 && bytes_behind(data, 1) is Some {
        Some((word_in(data, 0), bytes_behind(data, 1)->0))
    } else {
        None
    }
}

/// The arguments of a call that takes an address, a 32-byte word and a byte string.
pub open spec fn address_word_and_bytes(data: Seq<u8>) -> Option<(Address, B256, Seq<u8>)> {
    if data.len() >= 96 && bytes_behind(data, 2) is Some {
        Some((address_in_word(data, 0), word_in(data, 1), bytes_behind(data, 2)->0))
    } else {
        None
    }
}

/// `abi_decode_sequence` of `alloy_sol_types` for a 32-byte word and a byte string: it succeeds on
/// at least two words of which the second is the place of a byte string within the data, wherever
/// that is, of no more bytes than the memory that decoding may take. It ignores all other bytes.
#[verifier::external_body]
pub(crate) fn decode_word_and_bytes(data: &[u8]) -> (r: Option<(B256, Vec<u8>)>)
    ensures
        match r {
            Some((word, bytes)) => word_and_bytes(data@) == Some((word, bytes@)),
            None => word_and_bytes(data@) is None,
        },
{
    let (word, bytes) = <(sol_data::FixedBytes<32>, sol_data::Bytes) as SolType>::abi_decode_sequence(
        data,
    ).ok()?;
    let (hi, lo) = word.split_at(16);
    Some((
        B256 {
            hi: u128::from_be_bytes(hi.try_into().ok()?),
            lo: u128::from_be_bytes(lo.try_into().ok()?),
        },
        bytes.to_vec(),
    ))
}

/// `abi_decode_sequence` of `alloy_sol_types` for an address, a 32-byte word and a byte string: it
/// succeeds on at least three words of which the third is the place of a byte string within the
/// data, of no more bytes than the memory that decoding may take. It takes the last twenty bytes of
/// the first word, and ignores all other bytes.
#[verifier::external_body]
pub(crate) fn decode_address_word_and_bytes(data: &[u8]) -> (r: Option<(Address, B256, Vec<u8>)>)
    ensures
        match r {
            Some((address, word, bytes)) => address_word_and_bytes(data@) == Some(
                (address, word, bytes@),
            ),
            None => address_word_and_bytes(data@) is None,
        },
{
    let (a, word, bytes) = <(sol_data::Address, sol_data::FixedBytes<32>, sol_data::Bytes) as
        SolType>::abi_decode_sequence(data).ok()?;
    let (hi, lo) = a.split_at(4);
    let address = Address {
        hi: u32::from_be_bytes(hi.try_into().ok()?),
        lo: u128::from_be_bytes(lo.try_into().ok()?),
    };
    let (hi, lo) = word.split_at(16);
    let word = B256 {
        hi: u128::from_be_bytes(hi.try_into().ok()?),
        lo: u128::from_be_bytes(lo.try_into().ok()?),
    };
    Some((address, word, bytes.to_vec()))
}

/// `abi_encode` of `alloy_sol_types` for an address: one word that holds the address as a
/// big-endian integer.
#[verifier::external_body]
pub(crate) fn encode_address(address: Address) -> (r: Vec<u8>)
    ensures
        r@.len() == 32,
        be_value(r@) == address.ord(),
{
    let mut bytes = [0u8; 20];
    bytes[..4].copy_from_slice(&address.hi.to_be_bytes());
    bytes[4..].copy_from_slice(&address.lo.to_be_bytes());
    <sol_data::Address as SolType>::abi_encode(&alloy_primitives::Address::from(bytes))
}

/// `abi_encode` of `alloy_sol_types` for a boolean: one word that holds one or zero.
#[verifier::external_body]
pub(crate) fn encode_bool(value: bool) -> (r: Vec<u8>)
    ensures
        r@.len() == 32,
        be_value(r@) == (if value {
            1int
        } else {
            0int
        }),
{
    <sol_data::Bool as SolType>::abi_encode(&value)
}

/// Two byte strings of the same length that stand for the same integer are the same.
pub proof fn lemma_be_value_injective(a: Seq<u8>, b: Seq<u8>)
    requires
        a.len() == b.len(),
        be_value(a) == be_value(b),
    ensures
        a == b,
    decreases a.len(),
{
    if a.len() > 0 {
        assert(a.last() == b.last() && be_value(a.drop_last()) == be_value(b.drop_last()));
        lemma_be_value_injective(a.drop_last(), b.drop_last());
        assert(a =~= a.drop_last().push(a.last()));
        assert(b =~= b.drop_last().push(b.last()));
    } else {
        assert(a =~= b);
    }
}

/// The selector of `setUserToken(address)`.
pub const SET_USER_TOKEN: Selector = 0xe789_7444;

/// The selector of `swapExactAmountIn(address,address,uint128,uint128)`.
pub const SWAP_EXACT_AMOUNT_IN: Selector = 0xf885_6c0f;

/// The selector of `swapExactAmountOut(address,address,uint128,uint128)`.
pub const SWAP_EXACT_AMOUNT_OUT: Selector = 0xf012_2b75;

/// The selector of `transfer(address,uint256)`.
pub const TRANSFER: Selector = 0xa905_9cbb;

/// The selector of `transferWithMemo(address,uint256,bytes32)`.
pub const TRANSFER_WITH_MEMO: Selector = 0x9577_7d59;

/// The selector of `distributeReward(uint256)`.
pub const DISTRIBUTE_REWARD: Selector = 0x940a_4e45;

/// The first argument of a call, an address: if the selector is the given one and the arguments
/// fill so many words.
pub open spec fn first_address(calldata: Seq<u8>, selector: Selector, words: int) -> Option<
    Address,
> {
    if selector_of(calldata) == Some(selector) && calldata.len() >= 4 + 32 * words {
        Some(address_in_word(calldata.skip(4), 0))
    } else {
        None
    }
}

/// Returns the token that a call of `setUserToken` sets.
pub fn set_user_token_call(calldata: &[u8]) -> (r: Option<Address>)
    ensures
        r == first_address(calldata@, SET_USER_TOKEN, 1),
{
    match selector(calldata) {
        Some(selector) => {
            if selector == SET_USER_TOKEN {
                let arguments = slice_subrange(calldata, 4, calldata.len());
                assert(arguments@ =~= calldata@.skip(4));
                decode_address(arguments)
            } else {
                None
            }
        },
        None => None,
    }
}

/// Returns the token that a call of a swap function of the exchange takes from the caller: of
/// `swapExactAmountIn` or `swapExactAmountOut`, by the selector.
pub fn swap_call(calldata: &[u8], function: Selector) -> (r: Option<Address>)
    ensures
        r == first_address(calldata@, function, 4),
{
    match selector(calldata) {
        Some(selector) => {
            if selector == function {
                let arguments = slice_subrange(calldata, 4, calldata.len());
                assert(arguments@ =~= calldata@.skip(4));
                decode_swap(arguments)
            } else {
                None
            }
        },
        None => None,
    }
}

/// The selector is one of those of TIP-20 functions from which the fee token is inferred.
pub open spec fn infers_fee_token(selector: Selector) -> bool {
    selector == TRANSFER || selector == TRANSFER_WITH_MEMO || selector == DISTRIBUTE_REWARD
}

/// Returns true if the call data is for a TIP-20 function that should trigger fee token inference.
/// Only `transfer`, `transferWithMemo`, and `distributeReward` qualify.
pub fn is_tip20_fee_inference_call(input: &[u8]) -> (r: bool)
    ensures
        r == (selector_of(input@) matches Some(selector) && infers_fee_token(selector)),
{
    match selector(input) {
        Some(selector) => selector == TRANSFER || selector == TRANSFER_WITH_MEMO || selector
            == DISTRIBUTE_REWARD,
        None => false,
    }
}

} // verus!
