//! The seam between a batch signer and a front-end.
//!
//! The driver never prompts. It advances one document at a time and hands the
//! front-end one [`SigningStep`] to react to.

use crate::apdu::PinRetries;
use crate::auth::PinSlot;
use crate::pin::PinBytes;
use vstd::prelude::*;

verus! {

/// How far a batch has come.
#[derive(Debug, Clone, Copy, PartialEq, Eq, Structural)]
pub struct BatchProgress {
    /// Documents signed so far.
    pub signed: usize,
    /// Documents in the batch.
    pub total: usize,
}

impl BatchProgress {
    /// Documents not yet signed.
    pub fn remaining(self) -> (r: usize)
        ensures
            r == if self.signed <= self.total {
                self.total - self.signed
            } else {
                0
            },
    {
        if self.signed <= self.total {
            self.total - self.signed
        } else {
            0
        }
    }

    /// Whether every document is signed.
    pub fn is_complete(self) -> (r: bool)
        ensures
            r == (self.signed >= self.total),
    {
        self.signed >= self.total
    }
}

/// Why a PIN is asked for.
#[derive(Debug, Clone, Copy, PartialEq, Eq, Structural)]
pub enum PinPromptReason {
    /// No verified PIN is held.
    NotCached,
    /// The card rejected the PIN supplied last.
    PreviousAttemptRejectedByCard,
    /// The PIN supplied last was known to be rejected and did not reach the card.
    PreviousAttemptRefusedLocally,
}

/// What one step of a session comes to.
#[derive(Debug, Clone, Copy, PartialEq, Eq, Structural)]
pub enum SigningStep {
    /// One document was signed and there are more.
    Signed {
        /// Position after this signature.
        progress: BatchProgress,
    },
    /// Every document is signed.
    Finished {
        /// Final position.
        progress: BatchProgress,
    },
    /// A PIN is needed, and the card has a safe number of attempts left.
    NeedsPin {
        /// Which PIN.
        slot: PinSlot,
        /// Position.
        progress: BatchProgress,
        /// Attempts left.
        remaining: PinRetries,
        /// What to tell the user.
        reason: PinPromptReason,
    },
    /// Refused because one or two attempts are left.
    RefusedLowRetries {
        /// Which PIN.
        slot: PinSlot,
        /// Position.
        progress: BatchProgress,
        /// Attempts left.
        remaining: PinRetries,
    },
    /// The PIN is locked.
    Locked {
        /// Which PIN.
        slot: PinSlot,
        /// Position.
        progress: BatchProgress,
    },
}

impl SigningStep {
    /// The batch position of the step.
    pub fn progress(&self) -> (r: BatchProgress)
        ensures
            r == match *self {
                SigningStep::Signed { progress } => progress,
                SigningStep::Finished { progress } => progress,
                SigningStep::NeedsPin { progress, .. } => progress,
                SigningStep::RefusedLowRetries { progress, .. } => progress,
                SigningStep::Locked { progress, .. } => progress,
            },
    {
        match *self {
            SigningStep::Signed { progress } => progress,
            SigningStep::Finished { progress } => progress,
            SigningStep::NeedsPin { progress, .. } => progress,
            SigningStep::RefusedLowRetries { progress, .. } => progress,
            SigningStep::Locked { progress, .. } => progress,
        }
    }

    /// The PIN that the step is about, if any.
    pub fn pin_slot(&self) -> (r: Option<PinSlot>)
        ensures
            r == match *self {
                SigningStep::NeedsPin { slot, .. } => Some(slot),
                SigningStep::RefusedLowRetries { slot, .. } => Some(slot),
                SigningStep::Locked { slot, .. } => Some(slot),
                SigningStep::Signed { .. } => None,
                SigningStep::Finished { .. } => None,
            },
    {
        match *self {
            SigningStep::NeedsPin { slot, .. } => Some(slot),
            SigningStep::RefusedLowRetries { slot, .. } => Some(slot),
            SigningStep::Locked { slot, .. } => Some(slot),
            SigningStep::Signed { .. } | SigningStep::Finished { .. } => None,
        }
    }
}

/// What a front-end drives. None of the methods prompts.
pub trait SigningSession: Sized {
    /// Hard faults: card removed, transport error, malformed request.
    type Error;

    /// Do the safe work for the next document.
    fn advance(&mut self) -> Result<SigningStep, Self::Error>;

    /// Answer a request for a PIN and take the next step.
    fn supply_pin(&mut self, pin: PinBytes) -> Result<SigningStep, Self::Error>;

    /// Give up the remaining documents.
    fn cancel(self) -> BatchProgress;
}

/// What is left of a batch and what is signed make up the batch, and it is complete exactly
/// if nothing is left.
pub proof fn law_progress(p: BatchProgress, remaining: usize, complete: bool)
    requires
        call_ensures(BatchProgress::remaining, (p,), remaining),
        call_ensures(BatchProgress::is_complete, (p,), complete),
    ensures
        p.signed <= p.total ==> p.signed + remaining == p.total,
        p.signed > p.total ==> remaining == 0,
        complete <==> remaining == 0,
{
}

} // verus!
