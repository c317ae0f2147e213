//! The validated simulation description that the engine is built from.

use vstd::prelude::*;

pub mod d1;

verus! {

/// A simulation description, by number of dimensions.
pub enum Simulation {
    /// A one-dimensional simulation.
    OneDimensional(d1::Simulation),
}

} // verus!
