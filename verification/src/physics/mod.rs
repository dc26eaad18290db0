//! Mechanical modelling primitives.
pub mod mechanical_linking;
