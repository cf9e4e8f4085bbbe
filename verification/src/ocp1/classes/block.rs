//! `OcaBlock`, the container class.
//!
//! AES70 revisions disagree on where `GetMembers` sits, so a caller tries the candidates in
//! order and takes the first that is not refused as an unknown method.
use vstd::prelude::*;

use crate::ocp1::classes::level;
use crate::ocp1::pdu::MemberId;

verus! {

/// The likeliest `GetMembers`.
pub fn get_members() -> (r: MemberId)
    ensures
        r == (MemberId { def_level: 3, index: 5 }),
{
    MemberId::new(level::BLOCK, 5)
}

/// What is tried in order when a block is enumerated.
pub open spec fn members_candidates() -> Seq<MemberId> {
    seq![
        MemberId { def_level: 3, index: 5 },
        MemberId { def_level: 3, index: 4 },
        MemberId { def_level: 3, index: 3 },
    ]
}

/// What is tried in order when a block is enumerated.
pub fn get_members_candidates() -> (r: [MemberId; 3])
    ensures
        r@ == members_candidates(),
{
    let r = [get_members(), MemberId::new(level::BLOCK, 4), MemberId::new(level::BLOCK, 3)];
    assert(r@ =~= members_candidates());
    r
}

} // verus!
