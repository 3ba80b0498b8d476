//! Complex samples: a pair of exact rational parts.

use crate::rat::{qeq, qzero, Rat};
use vstd::prelude::*;

verus! {

/// A complex number with exact rational real and imaginary parts.
#[derive(Clone, Copy, Debug, PartialEq, Eq, Structural)]
pub struct Cplx {
    pub re: Rat,
    pub im: Rat,
}

impl View for Cplx {
    type V = ((int, int), (int, int));

    open spec fn view(&self) -> ((int, int), (int, int)) {
        (self.re@, self.im@)
    }
}

impl Cplx {
    pub fn zero() -> (r: Cplx)
        ensures
            r@ == (qzero(), qzero()),
    {
        Cplx { re: Rat::zero(), im: Rat::zero() }
    }

    /// A real sample lifted to the complex plane.
    pub fn from_real(re: Rat) -> (r: Cplx)
        ensures
            r@ == (re@, qzero()),
    {
        Cplx { re, im: Rat::zero() }
    }

    pub fn new(re: Rat, im: Rat) -> (r: Cplx)
        ensures
            r@ == (re@, im@),
    {
        Cplx { re, im }
    }

    /// Exact value equality of both parts.
    pub fn eq_value(&self, other: &Cplx) -> (r: bool)
        ensures
            r == (qeq(self@.0, other@.0) && qeq(self@.1, other@.1)),
    {
        self.re.eq_value(&other.re) && self.im.eq_value(&other.im)
    }
}

} // verus!
