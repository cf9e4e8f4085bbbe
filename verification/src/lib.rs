//! Control-plane bridging between audio devices that speak different protocols.
pub mod address;
pub mod allen_heath;
pub mod aphex;
pub mod bridge;
pub mod bytes;
pub mod config;
pub mod discovery;
pub mod float32;
pub mod idset;
pub mod mic;
pub mod oca;
pub mod ocp1;
pub mod osc;
pub mod plugin;
pub mod rednet;
pub mod text;
