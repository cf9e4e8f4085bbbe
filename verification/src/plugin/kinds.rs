//! The device plugins, what each of them declares, and what a configured device asks of them.
use vstd::prelude::*;

use crate::address::IpAddress;
use crate::ocp1::client::DEFAULT_OCP1_PORT;
use crate::plugin::abi::{RDeviceConfig, RPluginInfo};
use crate::text;

verus! {

/// The device plugins.
#[derive(Debug, Clone, Copy, PartialEq, Eq, Structural)]
pub enum Plugin {
    /// Allen & Heath dLive. A channel is a physical preamp socket.
    DliveTcp,
    /// Behringer Wing, the console's own eight preamps.
    OscWing,
    /// The X32 family: Behringer X32, Midas M32 and HD96.
    OscX32,
    /// Yamaha DM3 over OSC.
    YamahaDm3,
    /// Yamaha DM3 over SCP.
    YamahaDm3Scp,
    /// Sennheiser evolution wireless G3: one channel, IPv4 only, a fixed port.
    SennheiserEwg3,
    /// Focusrite RedNet over AES70. Its objects come from the device.
    RednetAes70,
}

impl Plugin {
    /// The kind of device that the plugin builds adapters for, which is also its name.
    pub open spec fn kind_text(self) -> Seq<char> {
        match self {
            Plugin::DliveTcp => "dlive-tcp"@,
            Plugin::OscWing => "osc-wing"@,
            Plugin::OscX32 => "osc-x32"@,
            Plugin::YamahaDm3 => "yamaha-dm3"@,
            Plugin::YamahaDm3Scp => "yamaha-dm3-scp"@,
            Plugin::SennheiserEwg3 => "sennheiser-ewg3"@,
            Plugin::RednetAes70 => "rednet-aes70"@,
        }
    }

    /// Whose devices they are.
    pub open spec fn vendor_text(self) -> Seq<char> {
        match self {
            Plugin::DliveTcp => "Allen & Heath"@,
            Plugin::OscWing => "Behringer"@,
            Plugin::OscX32 => "Behringer/Midas"@,
            Plugin::YamahaDm3 => "Yamaha"@,
            Plugin::YamahaDm3Scp => "Yamaha"@,
            Plugin::SennheiserEwg3 => "Sennheiser"@,
            Plugin::RednetAes70 => "Focusrite"@,
        }
    }

    /// The port to use where none is configured.
    pub open spec fn default_port(self) -> u16 {
        match self {
            Plugin::DliveTcp => 51325,
            Plugin::OscWing => 2223,
            Plugin::OscX32 => 10023,
            Plugin::YamahaDm3 => 49900,
            Plugin::YamahaDm3Scp => 49280,
            Plugin::SennheiserEwg3 => 8133,
            Plugin::RednetAes70 => DEFAULT_OCP1_PORT,
        }
    }

    /// The port to use where `configured` is what the configuration says. The G3's protocol is
    /// fixed to one port.
    pub open spec fn port(self, configured: Option<u16>) -> u16 {
        match configured {
            Some(p) => if self == Plugin::SennheiserEwg3 {
                self.default_port()
            } else {
                p
            },
            None => self.default_port(),
        }
    }

    /// The number of channels to present where `configured` is what the configuration says. An
    /// X32 has a fixed number, and an AES70 device describes itself.
    pub open spec fn channels(self, configured: Option<u16>) -> Option<u16> {
        match self {
            Plugin::RednetAes70 => None,
            Plugin::OscX32 => Some(24),
            _ => match configured {
                Some(n) => Some(n),
                None => Some(
                    match self {
                        Plugin::DliveTcp => 128u16,
                        Plugin::OscWing => 8u16,
                        Plugin::YamahaDm3 => 16u16,
                        Plugin::YamahaDm3Scp => 16u16,
                        _ => 1u16,
                    },
                ),
            },
        }
    }

    /// The kind of device that the plugin builds adapters for.
    pub fn kind(self) -> (r: &'static str)
        ensures
            r@ == self.kind_text(),
    {
        match self {
            Plugin::DliveTcp => "dlive-tcp",
            Plugin::OscWing => "osc-wing",
            Plugin::OscX32 => "osc-x32",
            Plugin::YamahaDm3 => "yamaha-dm3",
            Plugin::YamahaDm3Scp => "yamaha-dm3-scp",
            Plugin::SennheiserEwg3 => "sennheiser-ewg3",
            Plugin::RednetAes70 => "rednet-aes70",
        }
    }

    /// What the plugin declares about itself.
    pub fn plugin_info(self) -> (r: RPluginInfo)
        ensures
            r.name@ == self.kind_text(),
            r.vendor@ == self.vendor_text(),
            text::texts(r.supported_kinds@) == seq![self.kind_text()],
    {
        let vendor = match self {
            Plugin::DliveTcp => "Allen & Heath",
            Plugin::OscWing => "Behringer",
            Plugin::OscX32 => "Behringer/Midas",
            Plugin::YamahaDm3 => "Yamaha",
            Plugin::YamahaDm3Scp => "Yamaha",
            Plugin::SennheiserEwg3 => "Sennheiser",
            Plugin::RednetAes70 => "Focusrite",
        };
        let mut supported_kinds: Vec<String> = Vec::new();
        supported_kinds.push(self.kind().to_owned());
        assert(text::texts(supported_kinds@) =~= seq![self.kind_text()]);
        RPluginInfo {
            name: self.kind().to_owned(),
            vendor: vendor.to_owned(),
            supported_kinds,
        }
    }

    fn port_for(self, configured: Option<u16>) -> (r: u16)
        ensures
            r == self.port(configured),
    {
        let default: u16 = match self {
            Plugin::DliveTcp => 51325,
            Plugin::OscWing => 2223,
            Plugin::OscX32 => 10023,
            Plugin::YamahaDm3 => 49900,
            Plugin::YamahaDm3Scp => 49280,
            Plugin::SennheiserEwg3 => 8133,
            Plugin::RednetAes70 => DEFAULT_OCP1_PORT,
        };
        match configured {
            Some(p) => if self == Plugin::SennheiserEwg3 {
                default
            } else {
                p
            },
            None => default,
        }
    }

    fn channels_for(self, configured: Option<u16>) -> (r: Option<u16>)
        ensures
            r == self.channels(configured),
    {
        match self {
            Plugin::RednetAes70 => None,
            Plugin::OscX32 => Some(24),
            _ => match configured {
                Some(n) => Some(n),
                None => Some(
                    match self {
                        Plugin::DliveTcp => 128,
                        Plugin::OscWing => 8,
                        Plugin::YamahaDm3 => 16,
                        Plugin::YamahaDm3Scp => 16,
                        _ => 1,
                    },
                ),
            },
        }
    }
}

/// A device instance that a plugin is to build.
#[derive(Debug, Clone, PartialEq, Eq)]
pub struct AdapterPlan {
    pub id: String,
    pub address: IpAddress,
    pub port: u16,
    /// `None` where the device describes itself.
    pub channels: Option<u16>,
}

/// Why a device without an address cannot be built.
pub open spec fn needs_address(plugin: Plugin, id: Seq<char>) -> Seq<char> {
    "device '"@ + id + "': "@ + plugin.kind_text() + " requires an address"@
}

/// Why a device with an address that does not read as one cannot be built.
pub open spec fn bad_address(plugin: Plugin, id: Seq<char>, address: Seq<char>, why: Seq<char>) -> Seq<
    char,
> {
    if plugin == Plugin::SennheiserEwg3 {
        "device '"@ + id + "': invalid IPv4 address '"@ + address + "': "@ + why
    } else {
        "device '"@ + id + "': invalid address: "@ + why
    }
}

/// What a configured device asks of a plugin. `parsed` is what came of reading the configured
/// address, if there is one: the address, or why it is none.
pub fn create_adapter(
    plugin: Plugin,
    config: &RDeviceConfig,
    parsed: Result<IpAddress, String>,
) -> (r: Result<AdapterPlan, String>)
    ensures
        match (config.address, parsed) {
            (None, _) => r is Err && r->Err_0@ == needs_address(plugin, config.id@),
            (Some(address), Err(why)) => r is Err && r->Err_0@ == bad_address(
                plugin,
                config.id@,
                address@,
                why@,
            ),
            (Some(_), Ok(ip)) => r is Ok && r->Ok_0.id@ == config.id@ && r->Ok_0.address == ip
                && r->Ok_0.port == plugin.port(config.port) && r->Ok_0.channels == plugin.channels(
                config.channels,
            ),
        },
{
    let mut why: String = String::new();
    why.append("device '");
    why.append(config.id.as_str());
    match &config.address {
        None => {
            why.append("': ");
            why.append(plugin.kind());
            why.append(" requires an address");
            assert(why@ =~= needs_address(plugin, config.id@));
            Err(why)
        },
        Some(address) => match parsed {
            Err(e) => {
                if plugin == Plugin::SennheiserEwg3 {
                    why.append("': invalid IPv4 address '");
                    why.append(address.as_str());
                    why.append("': ");
                } else {
                    why.append("': invalid address: ");
                }
                why.append(e.as_str());
                assert(why@ =~= bad_address(plugin, config.id@, address@, e@));
                Err(why)
            },
            Ok(ip) => Ok(
                AdapterPlan {
                    id: config.id.clone(),
                    address: ip,
                    port: plugin.port_for(config.port),
                    channels: plugin.channels_for(config.channels),
                },
            ),
        },
    }
}

/// A configured port is used, and so is a configured number of channels, but where the device fixes
/// them: the G3 its port, the X32 its channels. A device that describes itself has no number.
pub proof fn the_configuration_goes_first(plugin: Plugin, port: u16, channels: u16)
    ensures
        plugin != Plugin::SennheiserEwg3 ==> plugin.port(Some(port)) == port,
        Plugin::SennheiserEwg3.port(Some(port)) == 8133,
        plugin != Plugin::OscX32 && plugin != Plugin::RednetAes70 ==> plugin.channels(
            Some(channels),
        ) == Some(channels),
        Plugin::OscX32.channels(Some(channels)) == Some(24u16),
        Plugin::RednetAes70.channels(Some(channels)) is None,
{
}

/// What is used where nothing is configured.
pub proof fn the_defaults(plugin: Plugin)
    ensures
        plugin.port(None) == (match plugin {
            Plugin::DliveTcp => 51325u16,
            Plugin::OscWing => 2223,
            Plugin::OscX32 => 10023,
            Plugin::YamahaDm3 => 49900,
            Plugin::YamahaDm3Scp => 49280,
            Plugin::SennheiserEwg3 => 8133,
            Plugin::RednetAes70 => DEFAULT_OCP1_PORT,
        }),
        plugin.channels(None) == (match plugin {
            Plugin::DliveTcp => Some(128u16),
            Plugin::OscWing => Some(8u16),
            Plugin::OscX32 => Some(24u16),
            Plugin::YamahaDm3 => Some(16u16),
            Plugin::YamahaDm3Scp => Some(16u16),
            Plugin::SennheiserEwg3 => Some(1u16),
            Plugin::RednetAes70 => None,
        }),
{
}

/// No two plugins build the same kind of device.
pub proof fn kinds_tell_plugins_apart(a: Plugin, b: Plugin)
    ensures
        a.kind_text() == b.kind_text() <==> a == b,
{
    reveal_strlit("dlive-tcp");
    reveal_strlit("osc-wing");
    reveal_strlit("osc-x32");
    reveal_strlit("yamaha-dm3");
    reveal_strlit("yamaha-dm3-scp");
    reveal_strlit("sennheiser-ewg3");
    reveal_strlit("rednet-aes70");
    assert("dlive-tcp"@[0] == 'd');
    assert("sennheiser-ewg3"@[0] == 's');
    assert("rednet-aes70"@[0] == 'r');
    assert("osc-wing"@[4] == 'w');
    assert("osc-x32"@[4] == 'x');
    assert("osc-wing"@[0] == 'o' && "osc-x32"@[0] == 'o');
    assert("yamaha-dm3"@[0] == 'y' && "yamaha-dm3-scp"@[0] == 'y');
    assert("yamaha-dm3"@.len() != "yamaha-dm3-scp"@.len());
}

/// The kinds of the plugins and whose devices they are for.
pub proof fn the_plugins(plugin: Plugin)
    ensures
        plugin.kind_text() == (match plugin {
            Plugin::DliveTcp => "dlive-tcp"@,
            Plugin::OscWing => "osc-wing"@,
            Plugin::OscX32 => "osc-x32"@,
            Plugin::YamahaDm3 => "yamaha-dm3"@,
            Plugin::YamahaDm3Scp => "yamaha-dm3-scp"@,
            Plugin::SennheiserEwg3 => "sennheiser-ewg3"@,
            Plugin::RednetAes70 => "rednet-aes70"@,
        }),
        plugin.vendor_text() == (match plugin {
            Plugin::DliveTcp => "Allen & Heath"@,
            Plugin::OscWing => "Behringer"@,
            Plugin::OscX32 => "Behringer/Midas"@,
            Plugin::YamahaDm3 => "Yamaha"@,
            Plugin::YamahaDm3Scp => "Yamaha"@,
            Plugin::SennheiserEwg3 => "Sennheiser"@,
            Plugin::RednetAes70 => "Focusrite"@,
        }),
        Plugin::RednetAes70.port(None) == 65000,
{
}

/// A refusal names the device, and what is wrong with its address.
pub proof fn a_refusal_names_the_device(
    plugin: Plugin,
    id: Seq<char>,
    address: Seq<char>,
    why: Seq<char>,
)
    ensures
        needs_address(plugin, id) == "device '"@ + id + "': "@ + plugin.kind_text()
            + " requires an address"@,
        plugin != Plugin::SennheiserEwg3 ==> bad_address(plugin, id, address, why) == "device '"@
            + id + "': invalid address: "@ + why,
        bad_address(Plugin::SennheiserEwg3, id, address, why) == "device '"@ + id
            + "': invalid IPv4 address '"@ + address + "': "@ + why,
{
}

} // verus!
