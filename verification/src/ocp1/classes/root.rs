//! `OcaRoot`, implemented by every object on every device.
use vstd::prelude::*;

use crate::ocp1::classes::level;
use crate::ocp1::pdu::MemberId;

verus! {

/// Asks for an object's class.
pub fn get_class_identification() -> (r: MemberId)
    ensures
        r == (MemberId { def_level: 1, index: 1 }),
{
    MemberId::new(level::ROOT, 1)
}

/// Asks for an object's role.
pub fn get_role() -> (r: MemberId)
    ensures
        r == (MemberId { def_level: 1, index: 5 }),
{
    MemberId::new(level::ROOT, 5)
}

} // verus!
