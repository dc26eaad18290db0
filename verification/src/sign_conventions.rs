//! The sign conventions of the simulation, in words.
use vstd::prelude::*;

verus! {

/// What a positive crank rotation is.
pub const POSITIVE_CRANK_ROTATION: &'static str = "increasing crank angle in radians";

/// What a positive piston displacement is.
pub const POSITIVE_PISTON_DISPLACEMENT: &'static str = "piston travel away from top dead center";

/// What a positive gas force is.
pub const POSITIVE_GAS_FORCE: &'static str = "force pushing piston away from top dead center";

/// What a positive gas torque is.
pub const POSITIVE_GAS_TORQUE: &'static str = "torque that increases positive crank speed";

/// What a positive load torque is.
pub const POSITIVE_LOAD_TORQUE: &'static str = "external torque that increases positive crank speed";

/// What the sign of a friction torque is.
pub const POSITIVE_FRICTION_TORQUE: &'static str = "friction torque has the opposite sign of crank speed";

} // verus!
