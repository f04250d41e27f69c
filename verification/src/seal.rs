use vstd::prelude::*;

verus! {

/// A trait that only this crate implements.
pub trait Sealed {}

} // verus!
