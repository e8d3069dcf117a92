//! Events reported by the serial-device watcher. The directory
//! scanning itself lives outside the library.

use vstd::prelude::*;

verus! {

/// What the device watcher reports to the monitor.
#[derive(Debug, Clone, PartialEq, Eq)]
pub enum Event {
    DeviceFound(String),
}

} // verus!
