//! A complex number given by its magnitude and phase.
use vstd::prelude::*;

verus! {

/// The complex number `mag · e^(pha·i)`.
#[derive(Clone, Copy, Debug)]
pub struct ComplexPolar<T> {
    pub mag: T,
    pub pha: T,
}

} // verus!
