use vstd::prelude::*;

verus! {

/// Restricts [`crate::samples::Sample`] to the sample types this crate supports.
pub trait Sealed {}

impl Sealed for u8 {}

impl Sealed for u16 {}

} // verus!
