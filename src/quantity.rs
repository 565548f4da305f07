use vstd::prelude::*;

verus! {

/// A physical magnitude written in decimal scientific form: `mantissa * 10^exponent`
/// in the unit that the holder of the value fixes (ohm, farad, henry, volt, ampere).
#[derive(Clone, Copy, Debug, PartialEq, Eq, Structural)]
pub struct Quantity {
    pub mantissa: i64,
    pub exponent: i32,
}

impl Quantity {
    pub fn new(mantissa: i64, exponent: i32) -> (r: Quantity)
        ensures
            r.mantissa == mantissa,
            r.exponent == exponent,
    {
        Quantity { mantissa, exponent }
    }
}

} // verus!
