//! `OcaDeviceManager`.
use vstd::prelude::*;

use crate::ocp1::classes::level;
use crate::ocp1::pdu::MemberId;

verus! {

/// Asks for the name that the user gave the device.
pub fn get_device_name() -> (r: MemberId)
    ensures
        r == (MemberId { def_level: 2, index: 5 }),
{
    MemberId::new(level::MANAGER, 5)
}

/// Asks for the model.
pub fn get_model_description() -> (r: MemberId)
    ensures
        r == (MemberId { def_level: 2, index: 3 }),
{
    MemberId::new(level::MANAGER, 3)
}

} // verus!
