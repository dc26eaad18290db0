//! Kinds of simulation profile.
use vstd::prelude::*;

verus! {

/// Whether a profile is tuned for real-time use or for offline rendering.
#[derive(Debug, Clone, Copy, PartialEq, Eq, Structural)]
pub enum SimulationProfileKind {
    RealTime,
    Render,
}

} // verus!
