//! Descriptive data of an engine definition.
use vstd::prelude::*;

verus! {

/// The name and provenance of an engine definition.
#[derive(Debug, Clone, PartialEq)]
pub struct EngineMetadata {
    pub name: String,
    pub manufacturer: String,
    pub notes: String,
}

} // verus!
