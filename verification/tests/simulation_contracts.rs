use enginesim::profiles::SimulationProfileKind;
use enginesim::sign_conventions::{
    POSITIVE_CRANK_ROTATION, POSITIVE_GAS_FORCE, POSITIVE_GAS_TORQUE, POSITIVE_PISTON_DISPLACEMENT,
};
use enginesim::simulation::{EngineStepStage, ENGINE_STEP_ORDER};
use enginesim::single_cylinder::{
    external_transfer_index, EXHAUST_VALVE_EXTERNAL_ID, INTAKE_PLENUM_EXTERNAL_ID,
    INTAKE_VALVE_EXTERNAL_ID,
};
use enginesim::test_harness::{ProfileSelection, Spacing};

#[test]
fn engine_step_order_matches_design_order() {
    assert_eq!(
        ENGINE_STEP_ORDER,
        [
            EngineStepStage::CrankKinematics,
            EngineStepStage::Geometry,
            EngineStepStage::ValveState,
            EngineStepStage::BoundaryFlow,
            EngineStepStage::CombustionHeatSource,
            EngineStepStage::ChamberState,
            EngineStepStage::PressureForce,
            EngineStepStage::CrankTorque,
            EngineStepStage::CrankIntegration,
            EngineStepStage::Output,
        ]
    );
}

#[test]
fn engine_step_order_is_stable_contract() {
    assert_eq!(ENGINE_STEP_ORDER[0], EngineStepStage::CrankKinematics);
    assert_eq!(
        ENGINE_STEP_ORDER[ENGINE_STEP_ORDER.len() - 1],
        EngineStepStage::Output
    );
    assert_eq!(ENGINE_STEP_ORDER.len(), 10);
}

#[test]
fn sign_convention_text_is_available_for_test_failures_and_docs() {
    assert!(POSITIVE_CRANK_ROTATION.contains("crank angle"));
    assert!(POSITIVE_PISTON_DISPLACEMENT.contains("top dead center"));
    assert!(POSITIVE_GAS_FORCE.contains("piston"));
    assert!(POSITIVE_GAS_TORQUE.contains("crank speed"));
}

#[test]
fn external_boundaries_map_to_their_transfer_slots() {
    assert_eq!(external_transfer_index(INTAKE_PLENUM_EXTERNAL_ID), Some(0));
    assert_eq!(external_transfer_index(INTAKE_VALVE_EXTERNAL_ID), Some(1));
    assert_eq!(external_transfer_index(EXHAUST_VALVE_EXTERNAL_ID), Some(2));
    assert_eq!(external_transfer_index(3), None);
    assert_eq!(external_transfer_index(usize::MAX), None);
}

#[test]
fn harness_selections_default_to_real_time_and_linear() {
    assert_eq!(ProfileSelection::default(), ProfileSelection::RealTime);
    assert_eq!(Spacing::default(), Spacing::Linear);
    assert_ne!(SimulationProfileKind::RealTime, SimulationProfileKind::Render);
}
