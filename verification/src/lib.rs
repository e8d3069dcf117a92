//! DevConsole: a message bus for developer tooling.
//!
//! The crate holds the verified core of the system: the wire protocol
//! types, the broker state machine that routes events between sessions,
//! the client-side request/response correlator, and the packet-UART
//! framing codec used between peripherals and the broker tooling.
//! The surrounding I/O (sockets, tasks, serialisation) lives outside
//! the library and drives these state machines with plain values.

pub mod broker_laws;
pub mod channel;
pub mod client;
pub mod device_watcher;
pub mod escape;
pub mod id_manager;
pub mod pkt_uart;
pub mod protocol;
pub mod serial_monitor;
pub mod serial_protocol;
pub mod server;
