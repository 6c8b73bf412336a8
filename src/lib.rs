//! Vehicle routing by ruin and recreate: a problem model, a pipeline of hard
//! constraints, cheapest-insertion recreate, ruin operators, a ranked
//! population with acceptance and termination, and a checker of recorded
//! routing statistics against routing matrices.
use vstd::prelude::*;

pub mod checker;
pub mod constraint;
pub mod objective;
pub mod problem;
pub mod recreate;
pub mod refinement;
pub mod ruin;
pub mod solution;

pub use checker::check_routing;
pub use refinement::RefinementContext;

verus! {

} // verus!
