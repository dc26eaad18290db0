//! Which transfer slot of the cylinder model each external pipe boundary uses.
use vstd::prelude::*;

verus! {

/// External boundary id of the intake plenum.
pub const INTAKE_PLENUM_EXTERNAL_ID: usize = 0;

/// External boundary id of the intake valve.
pub const INTAKE_VALVE_EXTERNAL_ID: usize = 1;

/// External boundary id of the exhaust valve.
pub const EXHAUST_VALVE_EXTERNAL_ID: usize = 2;

/// The transfer slot of an external boundary id, if it is one the cylinder knows.
pub open spec fn transfer_slot(external_id: int) -> Option<int> {
    if external_id == INTAKE_PLENUM_EXTERNAL_ID {
        Some(0)
    } else if external_id == INTAKE_VALVE_EXTERNAL_ID {
        Some(1)
    } else if external_id == EXHAUST_VALVE_EXTERNAL_ID {
        Some(2)
    } else {
        None
    }
}

/// The slot among the three boundary transfers that `external_id` fills.
pub fn external_transfer_index(external_id: usize) -> (r: Option<usize>)
    ensures
        match r {
            Some(k) => transfer_slot(external_id as int) == Some(k as int),
            None => transfer_slot(external_id as int) is None,
        },
{
    if external_id == INTAKE_PLENUM_EXTERNAL_ID {
        Some(0)
    } else if external_id == INTAKE_VALVE_EXTERNAL_ID {
        Some(1)
    } else if external_id == EXHAUST_VALVE_EXTERNAL_ID {
        Some(2)
    } else {
        None
    }
}

/// Each known boundary has a slot of its own among the three transfers.
pub proof fn lemma_transfer_slots_are_distinct(a: int, b: int)
    ensures
        transfer_slot(a) matches Some(k) ==> 0 <= k < 3,
        transfer_slot(a) is Some && transfer_slot(a) == transfer_slot(b) ==> a == b,
{
}

} // verus!
