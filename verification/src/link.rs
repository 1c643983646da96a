//! How the serial link to the radio module is set up and polled.

use vstd::prelude::*;

verus! {

/// Speed of the link, in bits per second.
pub const BAUD_RATE: u32 = 9600;

/// Milliseconds after which a read that brings nothing gives up.
pub const READ_TIMEOUT_MS: u64 = 10;

/// Milliseconds to pause between two polls of the link.
pub const POLL_INTERVAL_MS: u64 = 25;

/// Bytes that one read takes at most.
pub const READ_CAPACITY: usize = 300;

/// The USB vendor whose serial adapters carry the radio module.
pub const ADAPTER_VENDOR: u16 = 0x2341;

/// Whether a USB device with these vendor and product numbers is an adapter
/// that carries the radio module.
pub open spec fn is_adapter(vendor: u16, product: u16) -> bool {
    vendor == 0x2341 && (product == 0x0042 || product == 0x0043)
}

/// Tests whether a USB device with these vendor and product numbers is an
/// adapter that carries the radio module.
pub fn supported_adapter(vendor: u16, product: u16) -> (r: bool)
    ensures
        r == is_adapter(vendor, product),
{
    vendor == ADAPTER_VENDOR && (product == 0x0042 || product == 0x0043)
}

} // verus!
