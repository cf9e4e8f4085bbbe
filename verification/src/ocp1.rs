//! A vendor-neutral AES70 (OCA) controller: the OCP.1 wire format and what is decided on it.
pub mod classes;
pub mod client;
pub mod enumerate;
pub mod error;
pub mod ono;
pub mod pdu;
pub mod value;
