//! Network addresses as plain values.
use vstd::prelude::*;

verus! {

/// An IP address, as the number that its octets spell.
#[derive(Debug, Clone, Copy, PartialEq, Eq, Hash, Structural)]
pub enum IpAddress {
    V4(u32),
    V6(u128),
}

} // verus!
