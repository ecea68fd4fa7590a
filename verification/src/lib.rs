//! A molecular-structure library: a line-oriented structure-text parser and a
//! group-tagged molecule model with bulk editing operations.
//!
//! Coordinates are carried as opaque 64-bit scalars (IEEE-754 bit patterns);
//! this library never computes on them, it only stores, moves and hands them
//! to caller-supplied transforms.

use vstd::prelude::*;
use vstd::std_specs::ops::AddSpec;

pub mod elements;
pub mod text;
pub mod molecule;
pub mod parse;

verus! {

/// Sums two values of any type with an addition operator, under that
/// operator's own precondition (for machine integers: no overflow).
pub fn add<T: core::ops::Add<Output = T>>(left: T, right: T) -> (r: T)
    requires
        left.add_req(right),
    ensures
        T::obeys_add_spec() ==> r == left.add_spec(right),
{
    left + right
}

} // verus!
