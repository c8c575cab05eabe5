//! The fixed headers of the outer container format.
use vstd::prelude::*;

verus! {

/// The header in front of each frame.
pub struct EventHeader {
    pub event_id: u16,
    pub trigger_mask: u16,
    pub serial_number: u32,
    pub time_stamp: u32,
    pub event_size: u32,
}

/// The header in front of the sub-banks of a frame.
pub struct BankHeader {
    pub all_banks_size: u32,
    pub flags: u32,
}

/// A single byte, the padding marker of the container format.
pub struct Byte {
    pub all_banks_size: u8,
}

} // verus!
