//! A HyperLogLog cardinality estimator whose register logic, range
//! classification and merge are verified.
use vstd::prelude::*;

pub mod bits;
pub mod estimate;
pub mod hll;
pub mod laws;

verus! {

} // verus!
