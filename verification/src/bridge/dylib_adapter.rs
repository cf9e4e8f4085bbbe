//! What the thread of a plugin's device instance does: which call a command leads to, what is
//! answered once the call came back, and what becomes of the events that the plugin queued.
use vstd::prelude::*;

use crate::address::IpAddress;
use crate::bridge::adapter::{AdapterError, AdapterErrorModel, DeviceInfo, DeviceInfoModel};
use crate::bridge::legacy_plugin_bridge;
use crate::bridge::legacy_shim;
use crate::oca::object::{OcaAddress, OcaEvent, OcaObjectDescriptor};
use crate::oca::ono::Ono;
use crate::oca::value::OcaValue;
use crate::plugin::abi::{OcaEventFfi, OcaObjectDescriptorFfi, OcaValueFfi, RDeviceInfo};

verus! {

/// What the host asks of a device instance.
#[derive(Debug, Clone, PartialEq)]
pub enum Command {
    Connect,
    Disconnect,
    Identify,
    GetObject(Ono),
    SetObject(Ono, OcaValue),
}

/// What ended a wait for the next command.
#[derive(Debug, Clone, PartialEq)]
pub enum Wake {
    Command(Command),
    /// None came in time.
    Timeout,
    /// None will come any more.
    Disconnected,
}

/// What the thread does next.
#[derive(Debug, Clone, PartialEq)]
pub enum Step {
    Connect,
    /// The last call: the thread ends with it.
    Disconnect,
    Identify,
    GetObject(u32),
    SetObject(u32, OcaValueFfi),
    /// Drain the plugin's events.
    Poll,
    Stop,
}

/// What the thread does next after a wait.
pub open spec fn step_after(wake: Wake) -> Step {
    match wake {
        Wake::Command(Command::Connect) => Step::Connect,
        Wake::Command(Command::Disconnect) => Step::Disconnect,
        Wake::Command(Command::Identify) => Step::Identify,
        Wake::Command(Command::GetObject(ono)) => Step::GetObject(ono.0),
        Wake::Command(Command::SetObject(ono, value)) => Step::SetObject(
            ono.0,
            <OcaValueFfi as vstd::std_specs::convert::FromSpec<OcaValue>>::from_spec(value),
        ),
        Wake::Timeout => Step::Poll,
        Wake::Disconnected => Step::Stop,
    }
}

/// What the thread does next after a wait.
pub fn next_step(wake: Wake) -> (r: Step)
    ensures
        r == step_after(wake),
{
    match wake {
        Wake::Command(Command::Connect) => Step::Connect,
        Wake::Command(Command::Disconnect) => Step::Disconnect,
        Wake::Command(Command::Identify) => Step::Identify,
        Wake::Command(Command::GetObject(ono)) => Step::GetObject(ono.0),
        Wake::Command(Command::SetObject(ono, value)) => Step::SetObject(ono.0, OcaValueFfi::from(value)),
        Wake::Timeout => Step::Poll,
        Wake::Disconnected => Step::Stop,
    }
}

/// Whether the thread waits for another command after a step.
pub fn goes_on(step: &Step) -> (r: bool)
    ensures
        r == !(step is Disconnect || step is Stop),
{
    match step {
        Step::Disconnect | Step::Stop => false,
        _ => true,
    }
}

/// The answer to a command to connect, or to disconnect, once the plugin has returned.
pub fn connection_reply(returned: Result<(), String>) -> (r: Result<(), AdapterError>)
    ensures
        match returned {
            Ok(_) => r is Ok,
            Err(e) => r is Err && r->Err_0@ == AdapterErrorModel::Connection(e@),
        },
{
    match returned {
        Ok(_) => Ok(()),
        Err(e) => Err(AdapterError::Connection(e)),
    }
}

/// The answer to a setting, once the plugin has returned.
pub fn set_reply(returned: Result<(), String>) -> (r: Result<(), AdapterError>)
    ensures
        match returned {
            Ok(_) => r is Ok,
            Err(e) => r is Err && r->Err_0@ == AdapterErrorModel::Protocol(e@),
        },
{
    match returned {
        Ok(_) => Ok(()),
        Err(e) => Err(AdapterError::Protocol(e)),
    }
}

/// The answer to a query of an object, once the plugin has returned.
pub fn value_reply(returned: Result<OcaValueFfi, String>) -> (r: Result<OcaValue, AdapterError>)
    ensures
        match returned {
            Ok(v) => r is Ok && r->Ok_0
                == <OcaValue as vstd::std_specs::convert::FromSpec<OcaValueFfi>>::from_spec(v),
            Err(e) => r is Err && r->Err_0@ == AdapterErrorModel::Protocol(e@),
        },
{
    match returned {
        Ok(v) => Ok(OcaValue::from(v)),
        Err(e) => Err(AdapterError::Protocol(e)),
    }
}

/// The failure of reading an address that a plugin gave.
pub open spec fn unparsable(why: Seq<char>) -> Seq<char> {
    "plugin returned an unparsable address: "@ + why
}

/// Who a plugin's device is, its address having been read, or `Err` with why it could not be.
pub fn from_ffi_device_info(
    info: RDeviceInfo,
    address: Result<IpAddress, String>,
) -> (r: Result<DeviceInfo, AdapterError>)
    ensures
        match address {
            Ok(a) => r is Ok && r->Ok_0@ == (DeviceInfoModel {
                vendor: info.vendor@,
                model: info.model@,
                address: a,
            }),
            Err(e) => r is Err && r->Err_0@ == AdapterErrorModel::Protocol(unparsable(e@)),
        },
{
    match address {
        Ok(address) => Ok(DeviceInfo { vendor: info.vendor, model: info.model, address }),
        Err(e) => {
            let mut why: String = "plugin returned an unparsable address: ".to_owned();
            why.append(e.as_str());
            Err(AdapterError::Protocol(why))
        },
    }
}

/// The answer to a query of the identity, once the plugin has returned and the address that it gave
/// has been read.
pub fn identity_reply(
    returned: Result<(RDeviceInfo, Result<IpAddress, String>), String>,
) -> (r: Result<DeviceInfo, AdapterError>)
    ensures
        match returned {
            Ok((info, Ok(a))) => r is Ok && r->Ok_0@ == (DeviceInfoModel {
                vendor: info.vendor@,
                model: info.model@,
                address: a,
            }),
            Ok((_, Err(e))) => r is Err && r->Err_0@ == AdapterErrorModel::Protocol(
                unparsable(e@),
            ),
            Err(e) => r is Err && r->Err_0@ == AdapterErrorModel::Protocol(e@),
        },
{
    match returned {
        Ok((info, address)) => from_ffi_device_info(info, address),
        Err(e) => Err(AdapterError::Protocol(e)),
    }
}

/// The objects that a plugin describes.
pub fn described_objects(described: Vec<OcaObjectDescriptorFfi>) -> (r: Vec<OcaObjectDescriptor>)
    ensures
        r@.map_values(|d: OcaObjectDescriptor| d@) == described@.map_values(
            |d: OcaObjectDescriptorFfi| legacy_plugin_bridge::crossed_descriptor(d),
        ),
{
    let ghost crossed = described@.map_values(
        |d: OcaObjectDescriptorFfi| legacy_plugin_bridge::crossed_descriptor(d),
    );
    let ghost all = described@;
    let mut out: Vec<OcaObjectDescriptor> = Vec::new();
    for d in it: described.into_iter()
        invariant
            it.seq() == all,
            out@.len() == it.index(),
            forall|j: int|
                0 <= j < out@.len() ==> (#[trigger] out@[j])@
                    == legacy_plugin_bridge::crossed_descriptor(all[j]),
    {
        out.push(OcaObjectDescriptor::from(d));
    }
    assert(out@.map_values(|d: OcaObjectDescriptor| d@) =~= crossed);
    out
}

/// The events to publish for those that a plugin had queued: all of them, in order, each under the
/// address of the object that it carries.
pub fn published_events(queued: Vec<OcaEventFfi>) -> (r: Vec<OcaEvent>)
    ensures
        legacy_shim::event_models(r@) == legacy_plugin_bridge::queued_events(queued@),
{
    let ghost all = queued@;
    let mut out: Vec<OcaEvent> = Vec::new();
    for e in it: queued.into_iter()
        invariant
            it.seq() == all,
            out@.len() == it.index(),
            forall|j: int|
                0 <= j < out@.len() ==> (#[trigger] out@[j])@
                    == legacy_plugin_bridge::queued_events(all)[j],
    {
        let (device_id, object) = e.into_object();
        let address = OcaAddress::new(device_id.as_str(), object.ono);
        out.push(OcaEvent { address, object });
    }
    assert(legacy_shim::event_models(out@) =~= legacy_plugin_bridge::queued_events(all));
    out
}

/// A command reaches the plugin with the object and the value that it names; without one the plugin's
/// events are drained, and the thread ends when none will come any more.
pub proof fn a_command_reaches_the_plugin(ono: Ono, value: OcaValue)
    ensures
        step_after(Wake::Command(Command::Connect)) == Step::Connect,
        step_after(Wake::Command(Command::Disconnect)) == Step::Disconnect,
        step_after(Wake::Command(Command::Identify)) == Step::Identify,
        step_after(Wake::Command(Command::GetObject(ono))) == Step::GetObject(ono.0),
        match step_after(Wake::Command(Command::SetObject(ono, value))) {
            Step::SetObject(n, v) => n == ono.0 && legacy_plugin_bridge::crossed_value(v) == value@,
            _ => false,
        },
        step_after(Wake::Timeout) == Step::Poll,
        step_after(Wake::Disconnected) == Step::Stop,
{
}

} // verus!
