//! The object model that every device family is bridged through: objects with a class, a role
//! and a value, in the vocabulary of AES70.
//!
//! Phantom power and pads are switches, antenna diversity is a string sensor, and no number is
//! wire-significant.
pub mod object;
pub mod ono;
pub mod value;
