//! A complex number whose real and imaginary parts live on the signal's
//! fixed-point scale.

use vstd::prelude::*;

verus! {

/// One frequency-domain component: real and imaginary part, fixed-point.
#[derive(Clone, Copy, PartialEq, Eq, Debug)]
pub struct Complex {
    pub re: i64,
    pub im: i64,
}

impl Complex {
    /// The additive zero.
    pub open spec fn zero_spec() -> Complex {
        Complex { re: 0, im: 0 }
    }

    /// Build the additive zero.
    pub fn zero() -> (r: Complex)
        ensures
            r == Complex::zero_spec(),
    {
        Complex { re: 0, im: 0 }
    }
}

} // verus!
