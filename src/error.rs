//! Faults that stop the decoding of a sub-bank.
use vstd::prelude::*;

verus! {

/// A byte stream that does not follow the hardware's word protocol.
#[derive(Clone, Copy, Debug, PartialEq, Eq, Structural)]
pub enum DecodeError {
    /// The top two bits of a word are `10`.
    InvalidSignature,
    /// A data word carries a subheader other than filler, payload or extended timestamp.
    InvalidSubheader,
    /// A qdc payload word names an event type outside the four known ones.
    UnknownEventType,
    /// A module was configured with a channel count other than 16 or 32.
    InvalidChannelCount,
    /// A word needs an open event and there is none at the cursor.
    NoOpenEvent,
    /// The sub-bank's length is not a whole number of 32-bit words.
    PartialWord,
    /// A snapshot sub-bank holds fewer than its 32 values.
    ShortSnapshot,
}

} // verus!
