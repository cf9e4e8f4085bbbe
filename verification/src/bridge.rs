//! What the bridge decides: which value goes to which device, and how the devices that know only
//! gain, phantom power and pad are presented as objects.
pub mod adapter;
pub mod channel_mapping;
pub mod channel_scheme;
pub mod device;
pub mod dylib_adapter;
pub mod legacy_plugin_bridge;
pub mod legacy_shim;
pub mod plugin_registry;
pub mod router;
pub mod types;
