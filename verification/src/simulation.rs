//! The order of the stages of one engine step.
use vstd::prelude::*;

verus! {

/// One stage of an engine step.
#[derive(Debug, Clone, Copy, PartialEq, Eq, Structural)]
pub enum EngineStepStage {
    CrankKinematics,
    Geometry,
    ValveState,
    BoundaryFlow,
    CombustionHeatSource,
    ChamberState,
    PressureForce,
    CrankTorque,
    CrankIntegration,
    Output,
}

/// The stages of one engine step, in the order they run.
pub const ENGINE_STEP_ORDER: [EngineStepStage; 10] = [
    EngineStepStage::CrankKinematics,
    EngineStepStage::Geometry,
    EngineStepStage::ValveState,
    EngineStepStage::BoundaryFlow,
    EngineStepStage::CombustionHeatSource,
    EngineStepStage::ChamberState,
    EngineStepStage::PressureForce,
    EngineStepStage::CrankTorque,
    EngineStepStage::CrankIntegration,
    EngineStepStage::Output,
];

/// An engine step runs every stage exactly once.
pub proof fn lemma_step_order_runs_each_stage_once()
    ensures
        ENGINE_STEP_ORDER@.len() == 10,
        ENGINE_STEP_ORDER@.no_duplicates(),
        forall|s: EngineStepStage| ENGINE_STEP_ORDER@.contains(s),
{
    let o = ENGINE_STEP_ORDER@;
    assert(o[0] == EngineStepStage::CrankKinematics);
    assert(o[1] == EngineStepStage::Geometry);
    assert(o[2] == EngineStepStage::ValveState);
    assert(o[3] == EngineStepStage::BoundaryFlow);
    assert(o[4] == EngineStepStage::CombustionHeatSource);
    assert(o[5] == EngineStepStage::ChamberState);
    assert(o[6] == EngineStepStage::PressureForce);
    assert(o[7] == EngineStepStage::CrankTorque);
    assert(o[8] == EngineStepStage::CrankIntegration);
    assert(o[9] == EngineStepStage::Output);
    assert forall|s: EngineStepStage| o.contains(s) by {
        match s {
            EngineStepStage::CrankKinematics => assert(o[0] == s),
            EngineStepStage::Geometry => assert(o[1] == s),
            EngineStepStage::ValveState => assert(o[2] == s),
            EngineStepStage::BoundaryFlow => assert(o[3] == s),
            EngineStepStage::CombustionHeatSource => assert(o[4] == s),
            EngineStepStage::ChamberState => assert(o[5] == s),
            EngineStepStage::PressureForce => assert(o[6] == s),
            EngineStepStage::CrankTorque => assert(o[7] == s),
            EngineStepStage::CrankIntegration => assert(o[8] == s),
            EngineStepStage::Output => assert(o[9] == s),
        }
    }
}

} // verus!
