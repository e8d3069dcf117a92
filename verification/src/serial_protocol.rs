//! Events exchanged with the serial-monitor subsystem over the bus.
//!
//! The serial monitor publishes [`SerialEvent`]s on its channel and
//! accepts [`SerialRequest`]s on its outbound channel. The monitor's
//! device I/O itself lives outside the library.

use vstd::prelude::*;

verus! {

/// What the serial monitor reports about the devices it watches.
#[derive(Debug, Clone, PartialEq, Eq)]
pub enum SerialEvent {
    Opened { path: String },
    Line { path: String, line: Vec<u8> },
    Closed { path: String },
}

/// A request to forward bytes to one watched device.
#[derive(Debug, Clone, PartialEq, Eq)]
pub enum SerialRequest {
    Data { path: String, data: Vec<u8> },
}

} // verus!
