//! Members of the single-value actuator and sensor classes: the property is index 1 at the
//! class's own level, with `Get` at method index 1 and `Set` at method index 2.
use vstd::prelude::*;

use crate::ocp1::pdu::MemberId;

verus! {

/// The value.
pub fn property(def_level: u16) -> (r: MemberId)
    ensures
        r == (MemberId { def_level, index: 1 }),
{
    MemberId::new(def_level, 1)
}

/// Reads the value.
pub fn get(def_level: u16) -> (r: MemberId)
    ensures
        r == (MemberId { def_level, index: 1 }),
{
    MemberId::new(def_level, 1)
}

/// Writes the value.
pub fn set(def_level: u16) -> (r: MemberId)
    ensures
        r == (MemberId { def_level, index: 2 }),
{
    MemberId::new(def_level, 2)
}

} // verus!
