//! What one operation on the cache makes of another.

use crate::auth::PinSlot;
use crate::identity::TokenSerial;
use crate::pin::PinBytes;
use crate::pin_cache::{checked_out_pin1, checked_out_pin2, law_lifetimes,
    law_recorded_rejection_is_known, CheckedOutPin1, CheckedOutPin2, Moment, Pin1Retention,
    PinSafetyCache, PreviouslyRejectedPin};
use vstd::prelude::*;

verus! {

/// A PIN1 that the card rejected is refused when it is offered again, and none is kept.
pub proof fn law_rejected_pin1_is_refused(
    before: &mut PinSafetyCache,
    after: &mut PinSafetyCache,
    serial: &TokenSerial,
    pin: &PinBytes,
    same_serial: TokenSerial,
    same_pin: PinBytes,
    retention: Pin1Retention,
    now: Moment,
    r: Result<(), PreviouslyRejectedPin>,
)
    requires
        call_ensures(PinSafetyCache::record_rejected, (before, serial, PinSlot::Pin1, pin), ()),
        call_ensures(
            PinSafetyCache::store_pin1_at,
            (after, same_serial, same_pin, retention, now),
            r,
        ),
        old(after)@ == final(before)@,
        same_serial@ == serial@ && same_pin@ == pin@,
    ensures
        r == Err::<(), PreviouslyRejectedPin>(PreviouslyRejectedPin { slot: PinSlot::Pin1 }),
        final(after)@.pin1 is None && final(after)@.pin2 is None,
{
    law_recorded_rejection_is_known(old(before)@, serial@, PinSlot::Pin1, pin@);
}

/// A PIN2 that the card rejected is refused when it is offered again, and none is kept.
pub proof fn law_rejected_pin2_is_refused(
    before: &mut PinSafetyCache,
    after: &mut PinSafetyCache,
    serial: &TokenSerial,
    pin: &PinBytes,
    same_serial: TokenSerial,
    same_pin: PinBytes,
    now: Moment,
    r: Result<(), PreviouslyRejectedPin>,
)
    requires
        call_ensures(PinSafetyCache::record_rejected, (before, serial, PinSlot::Pin2, pin), ()),
        call_ensures(PinSafetyCache::store_pin2_at, (after, same_serial, same_pin, now), r),
        old(after)@ == final(before)@,
        same_serial@ == serial@ && same_pin@ == pin@,
    ensures
        r == Err::<(), PreviouslyRejectedPin>(PreviouslyRejectedPin { slot: PinSlot::Pin2 }),
        final(after)@.pin1 is None && final(after)@.pin2 is None,
{
    law_recorded_rejection_is_known(old(before)@, serial@, PinSlot::Pin2, pin@);
}

/// A PIN1 that was stored is handed out for its card: for fifteen minutes, or thirty seconds
/// where it is for one use; then, and for another card, nothing is.
pub proof fn law_stored_pin1_is_handed_out(
    before: &mut PinSafetyCache,
    after: &mut PinSafetyCache,
    serial: TokenSerial,
    pin: PinBytes,
    retention: Pin1Retention,
    now: Moment,
    stored: Result<(), PreviouslyRejectedPin>,
    live: &TokenSerial,
    later: Moment,
    r: Option<CheckedOutPin1>,
)
    requires
        call_ensures(PinSafetyCache::store_pin1_at, (before, serial, pin, retention, now), stored),
        stored is Ok,
        call_ensures(PinSafetyCache::checkout_pin1_at, (after, live, later), r),
        old(after)@ == final(before)@,
    ensures
        r is Some <==> live@ == serial@ && 0 <= later.nanos - now.nanos < if retention
            == Pin1Retention::Reusable {
            900_000_000_000int
        } else {
            30_000_000_000int
        },
        r matches Some(c) ==> c@.pin == pin@,
        final(after)@.pin1 is None,
{
    law_lifetimes(old(before)@, serial@, pin@, now, live@, later);
    assert(checked_out_pin1(old(after)@, live@, later, r, final(after)@));
}

/// A PIN2 that was stored is handed out for its card for one minute; then, and for another
/// card, nothing is.
pub proof fn law_stored_pin2_is_handed_out(
    before: &mut PinSafetyCache,
    after: &mut PinSafetyCache,
    serial: TokenSerial,
    pin: PinBytes,
    now: Moment,
    stored: Result<(), PreviouslyRejectedPin>,
    live: &TokenSerial,
    later: Moment,
    r: Option<CheckedOutPin2>,
)
    requires
        call_ensures(PinSafetyCache::store_pin2_at, (before, serial, pin, now), stored),
        stored is Ok,
        call_ensures(PinSafetyCache::checkout_pin2_at, (after, live, later), r),
        old(after)@ == final(before)@,
    ensures
        r is Some <==> live@ == serial@ && 0 <= later.nanos - now.nanos < 60_000_000_000,
        r matches Some(c) ==> c@.pin == pin@,
        final(after)@.pin2 is None,
{
    law_lifetimes(old(before)@, serial@, pin@, now, live@, later);
    assert(checked_out_pin2(old(after)@, live@, later, r, final(after)@));
}

} // verus!
