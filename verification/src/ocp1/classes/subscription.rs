//! `OcaSubscriptionManager`.
use vstd::prelude::*;

use crate::ocp1::classes::level;
use crate::ocp1::pdu::MemberId;

verus! {

/// Asks for notifications.
pub fn add_subscription() -> (r: MemberId)
    ensures
        r == (MemberId { def_level: 3, index: 1 }),
{
    MemberId::new(level::SUBSCRIPTION_MANAGER, 1)
}

/// Asks for no more notifications.
pub fn remove_subscription() -> (r: MemberId)
    ensures
        r == (MemberId { def_level: 3, index: 2 }),
{
    MemberId::new(level::SUBSCRIPTION_MANAGER, 2)
}

} // verus!
