//! Marshalling between dynamically typed host values and strongly typed
//! ABI tokens for remote contract calls: a pure, stateless, verified
//! conversion layer.

pub mod addr;
pub mod decode;
pub mod encode;
pub mod policy;
pub mod roundtrip;
pub mod types;
