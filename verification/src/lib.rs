//! Verified core of an engine simulator's data handling.
pub mod catalog_order;
pub mod engine_config;
pub mod engine_loader;
pub mod engine_tui;
pub mod path_order;
pub mod path_text;
pub mod physics;
pub mod profiles;
pub mod render_args;
pub mod render_audio;
pub mod sign_conventions;
pub mod simulation;
pub mod single_cylinder;
pub mod telemetry;
pub mod test_harness;
pub mod tuning;
pub mod tuning_gui;
pub mod valve_lift_designer;
