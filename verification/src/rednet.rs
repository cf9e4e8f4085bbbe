//! Focusrite RedNet preamps over AES70: an AES70 device's own objects, presented in the bridge's
//! terms.
pub mod adapter;
pub mod roles;
