//! Device plugins: what crosses the boundary to them, and what each of them declares.
pub mod abi;
pub mod kinds;
pub mod x32;
