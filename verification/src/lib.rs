//! The logic of a Modbus-to-MQTT bridge: the value codec that turns
//! register words into JSON, the configuration grammar that arrives over
//! MQTT, the topic filter language and routing table of the broker
//! multiplexer, the connection supervisor's lifecycle and backoff, the
//! per-register polling pipeline, and the Sungrow WiNet-S gateway's
//! response formats. The asynchronous runtime around it — sockets, serial
//! ports, the broker session — lives outside and feeds these functions
//! plain values.

use vstd::prelude::*;

pub mod codec;
pub mod config;
pub mod connector;
pub mod json;
pub mod monitor;
pub mod mux;
pub mod supervisor;
pub mod topic;
pub mod value;
pub mod winets;

verus! {

/// A 16-bit Modbus register word.
pub type Word = u16;

} // verus!
