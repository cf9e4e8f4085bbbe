//! The configured description of a device.
use vstd::prelude::*;

use crate::address::IpAddress;
use crate::text::text_eq;

verus! {

/// The number of preamp channels of a device family, where it is documented.
pub open spec fn known_channel_count(kind: Seq<char>) -> Option<u16> {
    if kind == "osc-x32"@ {
        Some(24)
    } else if kind == "osc-wing"@ {
        Some(8)
    } else if kind == "ah-tcp"@ {
        Some(64)
    } else if kind == "dlive-tcp"@ {
        Some(128)
    } else if kind == "yamaha-dm3"@ {
        Some(16)
    } else {
        None
    }
}

/// The number of preamp channels of a device family, `None` where none is documented: a device
/// of such a kind needs an explicit number rather than a guess.
pub fn default_channel_count(kind: &str) -> (r: Option<u16>)
    ensures
        r == known_channel_count(kind@),
{
    if text_eq(kind, "osc-x32") {
        Some(24)
    } else if text_eq(kind, "osc-wing") {
        Some(8)
    } else if text_eq(kind, "ah-tcp") {
        Some(64)
    } else if text_eq(kind, "dlive-tcp") {
        Some(128)
    } else if text_eq(kind, "yamaha-dm3") {
        Some(16)
    } else {
        None
    }
}

/// A device that the bridge knows about, real or virtual. `kind` is an open set: a plugin can
/// declare one that nothing here knows.
#[derive(Debug, Clone)]
pub struct DeviceConfig {
    pub id: String,
    pub kind: String,
    pub address: Option<IpAddress>,
    pub port: Option<u16>,
    pub is_virtual: bool,
    pub channels: Option<u16>,
}

impl DeviceConfig {
    /// The number of channels to use: the device's own where it is set, else its kind's.
    pub fn channel_count(&self) -> (r: Option<u16>)
        ensures
            r == (match self.channels {
                Some(n) => Some(n),
                None => known_channel_count(self.kind@),
            }),
    {
        match self.channels {
            Some(n) => Some(n),
            None => default_channel_count(self.kind.as_str()),
        }
    }
}

/// The families whose number of channels is documented; of any other kind none is known.
pub proof fn the_documented_families(kind: Seq<char>)
    ensures
        kind == "osc-x32"@ ==> known_channel_count(kind) == Some(24u16),
        kind == "osc-wing"@ ==> known_channel_count(kind) == Some(8u16),
        kind == "ah-tcp"@ ==> known_channel_count(kind) == Some(64u16),
        kind == "dlive-tcp"@ ==> known_channel_count(kind) == Some(128u16),
        kind == "yamaha-dm3"@ ==> known_channel_count(kind) == Some(16u16),
        known_channel_count(kind) is Some <==> kind == "osc-x32"@ || kind == "osc-wing"@ || kind
            == "ah-tcp"@ || kind == "dlive-tcp"@ || kind == "yamaha-dm3"@,
{
    reveal_strlit("osc-x32");
    reveal_strlit("osc-wing");
    reveal_strlit("ah-tcp");
    reveal_strlit("dlive-tcp");
    reveal_strlit("yamaha-dm3");
    assert("osc-x32"@.len() == 7 && "osc-wing"@.len() == 8 && "ah-tcp"@.len() == 6
        && "dlive-tcp"@.len() == 9 && "yamaha-dm3"@.len() == 10);
}

} // verus!
