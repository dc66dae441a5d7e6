//! Reverse-mode automatic differentiation: the tape of recorded operations,
//! its operand/consumer adjacency and the backward sweep that turns it into
//! a chain-rule plan.
use vstd::prelude::*;

pub mod containers;
pub mod operation;
pub mod tape;
pub mod backward;
pub mod differentiator;

verus! {

} // verus!
