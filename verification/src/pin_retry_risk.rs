//! How close a PIN is to its lock, and what may still be done with it.

use crate::apdu::PinRetries;
use crate::auth::PinStatus;
use std::cmp::Ordering;
use vstd::prelude::*;
use vstd::std_specs::cmp::PartialOrdSpec;

verus! {

/// Severity of the state of a retry counter that starts at five.
#[derive(Debug, Clone, Copy, PartialEq, Eq, Ord, Structural)]
pub enum PinRetryRisk {
    /// Five attempts remain.
    NormalOperatingConditions,
    /// Four attempts remain.
    DisturbanceDetected,
    /// Three attempts remain.
    SecurityIncidentDeclared,
    /// Two attempts remain.
    CriticalThreatLevel,
    /// One attempt remains.
    LockdownImminent,
    /// No attempt remains.
    DefencesFallen,
}

/// The severity of a number of attempts left, none above five.
pub open spec fn risk_of(attempts: int) -> Option<PinRetryRisk> {
    if attempts == 5 {
        Some(PinRetryRisk::NormalOperatingConditions)
    } else if attempts == 4 {
        Some(PinRetryRisk::DisturbanceDetected)
    } else if attempts == 3 {
        Some(PinRetryRisk::SecurityIncidentDeclared)
    } else if attempts == 2 {
        Some(PinRetryRisk::CriticalThreatLevel)
    } else if attempts == 1 {
        Some(PinRetryRisk::LockdownImminent)
    } else if attempts == 0 {
        Some(PinRetryRisk::DefencesFallen)
    } else {
        None
    }
}

impl PinRetryRisk {
    /// Number of attempts left.
    pub open spec fn attempts(self) -> int {
        match self {
            PinRetryRisk::NormalOperatingConditions => 5,
            PinRetryRisk::DisturbanceDetected => 4,
            PinRetryRisk::SecurityIncidentDeclared => 3,
            PinRetryRisk::CriticalThreatLevel => 2,
            PinRetryRisk::LockdownImminent => 1,
            PinRetryRisk::DefencesFallen => 0,
        }
    }

    /// Number of attempts left.
    pub fn attempts_left(self) -> (r: u8)
        ensures
            r == self.attempts(),
    {
        match self {
            PinRetryRisk::NormalOperatingConditions => 5,
            PinRetryRisk::DisturbanceDetected => 4,
            PinRetryRisk::SecurityIncidentDeclared => 3,
            PinRetryRisk::CriticalThreatLevel => 2,
            PinRetryRisk::LockdownImminent => 1,
            PinRetryRisk::DefencesFallen => 0,
        }
    }

    /// Classify a retry counter; `None` for a count above five.
    pub fn from_retries(retries: PinRetries) -> (r: Option<Self>)
        ensures
            r == risk_of(retries.count() as int),
    {
        match retries.get() {
            5 => Some(PinRetryRisk::NormalOperatingConditions),
            4 => Some(PinRetryRisk::DisturbanceDetected),
            3 => Some(PinRetryRisk::SecurityIncidentDeclared),
            2 => Some(PinRetryRisk::CriticalThreatLevel),
            1 => Some(PinRetryRisk::LockdownImminent),
            0 => Some(PinRetryRisk::DefencesFallen),
            _ => None,
        }
    }

    /// Whether a token interface may go on: not with one or two attempts left. A
    /// locked card has nothing left to protect.
    pub fn permits_pkcs11(self) -> (r: bool)
        ensures
            r == !(1 <= self.attempts() <= 2),
    {
        !matches!(self, PinRetryRisk::CriticalThreatLevel | PinRetryRisk::LockdownImminent)
    }

    /// Whether ordinary interfaces may go on: not with one or two attempts left.
    pub fn permits_consumer(self) -> (r: bool)
        ensures
            r == !(1 <= self.attempts() <= 2),
    {
        !matches!(self, PinRetryRisk::CriticalThreatLevel | PinRetryRisk::LockdownImminent)
    }

    /// Whether a PIN may be kept for reuse: only with all attempts left.
    pub fn permits_reusable_cache(self) -> (r: bool)
        ensures
            r == (self.attempts() == 5),
    {
        matches!(self, PinRetryRisk::NormalOperatingConditions)
    }

    /// Whether the signature service must stop: with one or two attempts left.
    pub fn requires_scs_shutdown(self) -> (r: bool)
        ensures
            r == (1 <= self.attempts() <= 2),
    {
        matches!(self, PinRetryRisk::CriticalThreatLevel | PinRetryRisk::LockdownImminent)
    }
}

impl PartialOrd for PinRetryRisk {
    fn partial_cmp(&self, other: &PinRetryRisk) -> (r: Option<Ordering>) {
        let here: u8 = self.attempts_left();
        let there: u8 = other.attempts_left();
        if there < here {
            Some(Ordering::Less)
        } else if here < there {
            Some(Ordering::Greater)
        } else {
            Some(Ordering::Equal)
        }
    }
}

impl vstd::std_specs::cmp::PartialOrdSpecImpl for PinRetryRisk {
    open spec fn obeys_partial_cmp_spec() -> bool {
        true
    }

    /// The fewer attempts are left, the higher the severity.
    open spec fn partial_cmp_spec(&self, other: &PinRetryRisk) -> Option<Ordering> {
        if other.attempts() < self.attempts() {
            Some(Ordering::Less)
        } else if self.attempts() < other.attempts() {
            Some(Ordering::Greater)
        } else {
            Some(Ordering::Equal)
        }
    }
}

/// The status permits an authentication: verified, or a known number of attempts left
/// that is not one or two.
pub open spec fn permits_authentication(pin1: PinStatus) -> bool {
    match pin1 {
        PinStatus::Verified => true,
        PinStatus::Remaining(retries) => retries.count() <= 5 && !(1 <= retries.count() <= 2),
        _ => false,
    }
}

/// Whether the state of PIN1 permits an authentication. Unknown, malformed and locked
/// states do not.
pub fn pin1_status_permits_consumer_authentication(pin1: PinStatus) -> (r: bool)
    ensures
        r == permits_authentication(pin1),
{
    match pin1 {
        PinStatus::Verified => true,
        PinStatus::Remaining(retries) => match PinRetryRisk::from_retries(retries) {
            Some(risk) => risk.permits_consumer(),
            None => false,
        },
        PinStatus::Locked | PinStatus::NoInfo | PinStatus::Other(_) => false,
    }
}

/// Whether PIN1 may be kept for reuse: exactly with five attempts left.
pub fn pin1_status_permits_reusable_cache(pin1: PinStatus) -> (r: bool)
    ensures
        r == (pin1 matches PinStatus::Remaining(retries) && retries.count() == 5),
{
    match pin1 {
        PinStatus::Remaining(retries) => match PinRetryRisk::from_retries(retries) {
            Some(risk) => risk.permits_reusable_cache(),
            None => false,
        },
        _ => false,
    }
}

/// The ladder is exact: every severity stands for one number of attempts, and every
/// number up to five has one.
pub proof fn law_risk_ladder(risk: PinRetryRisk, attempts: int)
    ensures
        risk_of(risk.attempts()) == Some(risk),
        0 <= attempts <= 5 <==> risk_of(attempts) is Some,
        risk_of(attempts) matches Some(r) ==> r.attempts() == attempts,
{
}

/// Fewer attempts left is a strictly higher severity.
pub proof fn law_severity_rises(a: int, b: int)
    requires
        0 <= a < b <= 5,
    ensures
        risk_of(a) is Some,
        risk_of(b) is Some,
        risk_of(a)->Some_0.partial_cmp_spec(&risk_of(b)->Some_0) == Some(Ordering::Greater),
        risk_of(b)->Some_0.partial_cmp_spec(&risk_of(a)->Some_0) == Some(Ordering::Less),
        risk_of(a) != risk_of(b),
{
}

/// Software never spends the next-to-last or the last attempt: where an
/// authentication is permitted and the counter was above zero, at least two attempts
/// are left after one more failure.
pub proof fn law_permitted_attempt_never_locks(retries: PinRetries)
    requires
        permits_authentication(PinStatus::Remaining(retries)),
        retries.count() > 0,
    ensures
        retries.count() - 1 >= 2,
{
}

/// The six severities stand for five attempts left down to none.
pub proof fn law_severities_in_numbers()
    ensures
        PinRetryRisk::NormalOperatingConditions.attempts() == 5,
        PinRetryRisk::DisturbanceDetected.attempts() == 4,
        PinRetryRisk::SecurityIncidentDeclared.attempts() == 3,
        PinRetryRisk::CriticalThreatLevel.attempts() == 2,
        PinRetryRisk::LockdownImminent.attempts() == 1,
        PinRetryRisk::DefencesFallen.attempts() == 0,
{
}

/// An authentication is permitted for a verified PIN, and where the card tells three, four
/// or five attempts left, or none; in no other state.
pub proof fn law_permitted_states(status: PinStatus)
    ensures
        permits_authentication(status) <==> {
            ||| status is Verified
            ||| status matches PinStatus::Remaining(retries) && (retries.count() == 0
                || retries.count() == 3 || retries.count() == 4 || retries.count() == 5)
        },
{
}

/// What each severity permits: with five attempts left a PIN may be kept for reuse; with two
/// or one neither the token interface nor ordinary ones go on, and the signature service
/// stops; in all other states they go on.
pub proof fn law_permissions(
    risk: PinRetryRisk,
    pkcs11: bool,
    consumer: bool,
    reusable: bool,
    shutdown: bool,
)
    requires
        call_ensures(PinRetryRisk::permits_pkcs11, (risk,), pkcs11),
        call_ensures(PinRetryRisk::permits_consumer, (risk,), consumer),
        call_ensures(PinRetryRisk::permits_reusable_cache, (risk,), reusable),
        call_ensures(PinRetryRisk::requires_scs_shutdown, (risk,), shutdown),
    ensures
        reusable <==> risk is NormalOperatingConditions,
        shutdown <==> risk is CriticalThreatLevel || risk is LockdownImminent,
        pkcs11 <==> !shutdown,
        consumer <==> !shutdown,
{
}

/// Only a PIN with all five attempts left may be kept for reuse.
pub proof fn law_reuse_takes_all_attempts(status: PinStatus, r: bool)
    requires
        call_ensures(pin1_status_permits_reusable_cache, (status,), r),
    ensures
        r <==> (status matches PinStatus::Remaining(retries) && retries.count() == 5),
        r ==> permits_authentication(status),
{
}

} // verus!
