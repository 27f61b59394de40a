//! Anchor-relative exchange rates keyed by currency code.
use crate::table::CodeTable;
use vstd::prelude::*;

verus! {

/// An exchange rate relative to the anchor currency, held as the bit pattern
/// of an IEEE-754 double so that it can be stored, copied and compared exactly.
#[derive(Clone, Copy, Debug, PartialEq, Eq, Structural)]
pub struct Rate {
    pub bits: u64,
}

/// Bit pattern of the double `1.0`: the rate of the anchor against itself.
pub const UNIT_RATE_BITS: u64 = 0x3FF0_0000_0000_0000;

impl Rate {
    /// The rate whose double has the bit pattern `bits`.
    pub fn from_bits(bits: u64) -> (r: Rate)
        ensures
            r.bits == bits,
    {
        Rate { bits }
    }

    /// The rate of the anchor currency against itself.
    pub open spec fn spec_unit() -> Rate {
        Rate { bits: UNIT_RATE_BITS }
    }

    /// The rate of the anchor currency against itself.
    #[verifier::when_used_as_spec(spec_unit)]
    pub fn unit() -> (r: Rate)
        ensures
            r == Rate::spec_unit(),
    {
        Rate { bits: UNIT_RATE_BITS }
    }
}

/// The rates of one provider or of one snapshot.
pub type RateTable = CodeTable<Rate>;

} // verus!
