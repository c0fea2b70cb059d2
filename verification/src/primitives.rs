//! Addresses, hashes and 256-bit words.
use crate::ordered::OrdKey;
use vstd::prelude::*;

verus! {

/// Two to the power of 128.
pub open spec fn two_128() -> int {
    0x1_0000_0000_0000_0000_0000_0000_0000_0000int
}

/// Two to the power of 256.
pub open spec fn two_256() -> int {
    0x1_0000_0000_0000_0000_0000_0000_0000_0000_0000_0000_0000_0000_0000_0000_0000_0000int
}

/// A 20-byte account address: its first four bytes and its last sixteen.
#[derive(Debug, Clone, Copy, PartialEq, Eq, PartialOrd, Ord, Hash, Structural)]
pub struct Address {
    /// The first four bytes, as a big-endian integer.
    pub hi: u32,
    /// The last sixteen bytes, as a big-endian integer.
    pub lo: u128,
}

impl Address {
    /// The address of twenty zero bytes.
    pub fn zero() -> (r: Self)
        ensures
            r.ord() == 0,
    {
        Address { hi: 0, lo: 0 }
    }

    /// Returns `true` for the address of twenty zero bytes.
    pub fn is_zero(&self) -> (r: bool)
        ensures
            r == (self.ord() == 0),
    {
        self.hi == 0 && self.lo == 0
    }
}

impl OrdKey for Address {
    open spec fn ord(self) -> int {
        self.hi * two_128() + self.lo
    }

    proof fn ord_injective(self, other: Self) {
    }

    fn precedes(&self, other: &Self) -> (r: bool) {
        self.hi < other.hi || (self.hi == other.hi && self.lo < other.lo)
    }
}

/// A 32-byte hash: its first and its last sixteen bytes.
#[derive(Debug, Clone, Copy, PartialEq, Eq, PartialOrd, Ord, Hash, Structural)]
pub struct B256 {
    /// The first sixteen bytes, as a big-endian integer.
    pub hi: u128,
    /// The last sixteen bytes, as a big-endian integer.
    pub lo: u128,
}

impl OrdKey for B256 {
    open spec fn ord(self) -> int {
        self.hi * two_128() + self.lo
    }

    proof fn ord_injective(self, other: Self) {
    }

    fn precedes(&self, other: &Self) -> (r: bool) {
        self.hi < other.hi || (self.hi == other.hi && self.lo < other.lo)
    }
}

impl B256 {
    /// The hash of thirty-two zero bytes.
    pub fn zero() -> (r: Self)
        ensures
            r.ord() == 0,
    {
        B256 { hi: 0, lo: 0 }
    }

    /// Returns `true` for the hash of thirty-two zero bytes.
    pub fn is_zero(&self) -> (r: bool)
        ensures
            r == (self.ord() == 0),
    {
        self.hi == 0 && self.lo == 0
    }
}

/// The hash of a transaction.
pub type TxHash = B256;

/// An unsigned 256-bit integer: its high and its low 128 bits.
#[derive(Debug, Clone, Copy, PartialEq, Eq, PartialOrd, Ord, Hash, Structural)]
pub struct U256 {
    /// The high 128 bits.
    pub hi: u128,
    /// The low 128 bits.
    pub lo: u128,
}

impl OrdKey for U256 {
    open spec fn ord(self) -> int {
        self.hi * two_128() + self.lo
    }

    proof fn ord_injective(self, other: Self) {
    }

    fn precedes(&self, other: &Self) -> (r: bool) {
        self.hi < other.hi || (self.hi == other.hi && self.lo < other.lo)
    }
}

impl View for U256 {
    type V = int;

    /// The integer that the word holds.
    open spec fn view(&self) -> int {
        self.ord()
    }
}

/// The 256-bit word that holds an integer below two to the power of 256.
pub open spec fn word(n: int) -> U256 {
    U256 { hi: (n / two_128()) as u128, lo: (n % two_128()) as u128 }
}

/// A word holds the integer it is made from.
pub proof fn lemma_word(n: int)
    requires
        0 <= n < two_256(),
    ensures
        word(n)@ == n,
{
    assert(0 <= n / two_128() < two_128()) by (nonlinear_arith)
        requires
            0 <= n < two_256(),
            two_128() == 0x1_0000_0000_0000_0000_0000_0000_0000_0000int,
            two_256() == 0x1_0000_0000_0000_0000_0000_0000_0000_0000_0000_0000_0000_0000_0000_0000_0000_0000int,
    ;
}

impl U256 {
    /// Zero.
    pub fn zero() -> (r: Self)
        ensures
            r@ == 0,
    {
        U256 { hi: 0, lo: 0 }
    }

    /// The largest word.
    pub fn max_value() -> (r: Self)
        ensures
            r@ == two_256() - 1,
    {
        U256 { hi: u128::MAX, lo: u128::MAX }
    }

    /// The word that holds `n`.
    pub fn from_u64(n: u64) -> (r: Self)
        ensures
            r@ == n,
    {
        U256 { hi: 0, lo: n as u128 }
    }

    /// The word that holds `n`.
    pub fn from_u128(n: u128) -> (r: Self)
        ensures
            r@ == n,
    {
        U256 { hi: 0, lo: n }
    }

    /// Returns `true` for zero.
    pub fn is_zero(&self) -> (r: bool)
        ensures
            r == (self@ == 0),
    {
        self.hi == 0 && self.lo == 0
    }

    /// Returns `true` for the largest word.
    pub fn is_max(&self) -> (r: bool)
        ensures
            r == (self@ == two_256() - 1),
    {
        self.hi == u128::MAX && self.lo == u128::MAX
    }

    /// The word as a 64-bit integer, or the largest one if it does not fit.
    pub fn saturating_to(&self) -> (r: u64)
        ensures
            r == (if self@ <= u64::MAX { self@ } else { u64::MAX as int }),
    {
        if self.hi == 0 && self.lo <= u64::MAX as u128 {
            self.lo as u64
        } else {
            u64::MAX
        }
    }

    /// The sum, or the largest word if it does not fit.
    pub fn saturating_add(&self, other: &U256) -> (r: Self)
        ensures
            r@ == (if self@ + other@ < two_256() { self@ + other@ } else { two_256() - 1 }),
    {
        let room: u128 = u128::MAX - self.lo;
        let carries: bool = other.lo > room;
        let lo: u128 = if carries { other.lo - room - 1 } else { self.lo + other.lo };
        match self.hi.checked_add(other.hi) {
            Some(hi) => {
                if !carries {
                    U256 { hi, lo }
                } else if hi < u128::MAX {
                    U256 { hi: hi + 1, lo }
                } else {
                    U256 { hi: u128::MAX, lo: u128::MAX }
                }
            },
            None => U256 { hi: u128::MAX, lo: u128::MAX },
        }
    }

    /// The difference of a word and one that is not larger.
    pub fn minus(&self, other: &U256) -> (r: Self)
        requires
            other@ <= self@,
        ensures
            r@ == self@ - other@,
    {
        if other.lo <= self.lo {
            U256 { hi: self.hi - other.hi, lo: self.lo - other.lo }
        } else {
            U256 { hi: self.hi - other.hi - 1, lo: u128::MAX - (other.lo - self.lo) + 1 }
        }
    }

    /// The difference, or zero if `other` is larger.
    pub fn saturating_sub(&self, other: &U256) -> (r: Self)
        ensures
            r@ == (if other@ <= self@ { self@ - other@ } else { 0 }),
    {
        if self.precedes(other) {
            U256::zero()
        } else {
            self.minus(other)
        }
    }
}

} // verus!
