//! Links between linear and rotational masses.
use vstd::prelude::*;

verus! {

/// A rigid link that ties a linear mass to a rotational one, by their indices.
#[derive(Debug, Clone, Copy)]
pub struct SolidLinearRotationalConstraint {
    pub linear_index: usize,
    pub rotational_index: usize,
}

} // verus!
