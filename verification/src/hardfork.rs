//! The hardforks of the chain, in the order of their activation.
use vstd::prelude::*;

verus! {

/// A hardfork. Each includes those before it.
#[derive(Debug, Clone, Copy, PartialEq, Eq, Structural)]
pub enum TempoHardfork {
    /// The first rules.
    Genesis,
    /// T0.
    T0,
    /// T1.
    T1,
    /// T1A.
    T1A,
    /// T1B.
    T1B,
    /// T1C.
    T1C,
    /// T2.
    T2,
    /// T3.
    T3,
    /// T4.
    T4,
    /// T5.
    T5,
    /// T6.
    T6,
    /// T7.
    T7,
}

impl TempoHardfork {
    /// The place of a hardfork in the order of activation.
    pub open spec fn place(self) -> int {
        match self {
            TempoHardfork::Genesis => 0,
            TempoHardfork::T0 => 1,
            TempoHardfork::T1 => 2,
            TempoHardfork::T1A => 3,
            TempoHardfork::T1B => 4,
            TempoHardfork::T1C => 5,
            TempoHardfork::T2 => 6,
            TempoHardfork::T3 => 7,
            TempoHardfork::T4 => 8,
            TempoHardfork::T5 => 9,
            TempoHardfork::T6 => 10,
            TempoHardfork::T7 => 11,
        }
    }

    fn index(&self) -> (r: u8)
        ensures
            r == self.place(),
    {
        match self {
            TempoHardfork::Genesis => 0,
            TempoHardfork::T0 => 1,
            TempoHardfork::T1 => 2,
            TempoHardfork::T1A => 3,
            TempoHardfork::T1B => 4,
            TempoHardfork::T1C => 5,
            TempoHardfork::T2 => 6,
            TempoHardfork::T3 => 7,
            TempoHardfork::T4 => 8,
            TempoHardfork::T5 => 9,
            TempoHardfork::T6 => 10,
            TempoHardfork::T7 => 11,
        }
    }

    /// Returns `true` if this hardfork includes `other`.
    pub fn includes(&self, other: TempoHardfork) -> (r: bool)
        ensures
            r == (other.place() <= self.place()),
    {
        other.index() <= self.index()
    }

    /// The hardfork includes T1.
    pub open spec fn spec_is_t1(self) -> bool {
        TempoHardfork::T1.place() <= self.place()
    }

    /// Returns `true` if this hardfork includes T1.
    pub fn is_t1(&self) -> (r: bool)
        ensures
            r == self.spec_is_t1(),
    {
        self.includes(TempoHardfork::T1)
    }
}

} // verus!
