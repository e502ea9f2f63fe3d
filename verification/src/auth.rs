//! PIN slots and what a card says of them.

use crate::apdu::PinRetries;
use vstd::prelude::*;

verus! {

/// A cardholder PIN.
#[derive(Debug, Clone, Copy, PartialEq, Eq, Structural)]
pub enum PinSlot {
    /// Authentication PIN.
    Pin1,
    /// Signature PIN.
    Pin2,
}

/// What the card says of a PIN.
#[derive(Debug, Clone, Copy, PartialEq, Eq, Structural)]
pub enum PinStatus {
    /// Verified in the current session.
    Verified,
    /// Not verified, with attempts left.
    Remaining(PinRetries),
    /// Locked.
    Locked,
    /// The card does not tell.
    NoInfo,
    /// Any other status word.
    Other(u16),
}

} // verus!
