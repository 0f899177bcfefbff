//! Event daemon core: binary record codecs for kernel power and input events,
//! a generic-netlink control-protocol message layer, a device catalog parser,
//! whitelist admission filters, and the multiplexing and dispatch decisions
//! that drive the daemon's event loop.

pub mod acpi;
pub mod args;
pub mod evdev;
pub mod event;
pub mod filter;
pub mod netlink;
pub mod text;

use vstd::prelude::*;

verus! {

/// Capacity of the `device_class` wire field, terminating zero byte included.
pub const DEVICE_CLASS_SIZE: usize = 20;

/// Capacity of the `bus_id` wire field, terminating zero byte included.
pub const BUS_ID_SIZE: usize = 16;

/// Size of one encoded power event record.
pub const ACPI_EVENT_SIZE: usize = 44;

/// The two fixed text fields and the two 32-bit integers together fill
/// exactly one 44-byte record.
pub proof fn lemma_acpi_event_size()
    ensures
        DEVICE_CLASS_SIZE + BUS_ID_SIZE + 4 + 4 == ACPI_EVENT_SIZE,
{
}

} // verus!
