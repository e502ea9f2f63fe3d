use refineid::auth::PinSlot;
use refineid::identity::TokenSerial;
use refineid::pin::PinBytes;
use refineid::pin_cache::{
    Moment, Pin1Retention, PinSafetyCache, PreviouslyRejectedPin, PIN1_CACHE_LIFETIME,
    PIN1_ONE_SHOT_LIFETIME, PIN2_CACHE_LIFETIME,
};

fn pin<const N: usize>(digits: &[u8; N]) -> PinBytes {
    PinBytes::from_array(*digits).expect("valid test PIN")
}

fn serial(value: &str) -> TokenSerial {
    TokenSerial::new(value.to_owned())
}

fn cache() -> PinSafetyCache {
    PinSafetyCache::with_fingerprint_key([0xA5_u8; 32])
}

fn start() -> Moment {
    Moment { nanos: 5_000_000_000 }
}

fn after(moment: Moment, nanos: u64) -> Moment {
    Moment { nanos: moment.nanos + i64::try_from(nanos).expect("a short time") }
}

fn from_millis(millis: u64) -> u64 {
    millis * 1_000_000
}

fn from_secs(secs: u64) -> u64 {
    secs * 1_000_000_000
}

fn from_mins(mins: u64) -> u64 {
    from_secs(mins * 60)
}

#[test]
fn positive_pin1_expires_at_its_lifetime() {
    let now = start();
    let card = serial("CARD-A-FULL-SERIAL");
    let mut cache = cache();
    cache
        .store_pin1_at(card.clone(), pin(b"1357"), Pin1Retention::Reusable, now)
        .expect("fresh PIN is accepted");
    let just_before_expiry = after(now, PIN1_CACHE_LIFETIME - from_millis(1));
    let checkout = cache
        .checkout_pin1_at(&card, just_before_expiry)
        .expect("entry remains live before the boundary");
    checkout.restore_after_success_at(&mut cache, now);
    assert!(
        cache
            .checkout_pin1_at(&card, after(now, PIN1_CACHE_LIFETIME))
            .is_none()
    );
}

#[test]
fn clearing_positive_preserves_negative_memory() {
    let mut cache = cache();
    let card = serial("CARD-A-FULL-SERIAL");
    let rejected = pin(b"1357");
    cache.record_rejected(&card, PinSlot::Pin1, &rejected);
    cache.clear_positive();
    assert!(cache.is_rejected(&card, PinSlot::Pin1, &rejected));
}

#[test]
fn rejection_is_bound_to_slot_and_value() {
    let mut cache = cache();
    let card = serial("CARD-A-FULL-SERIAL");
    let rejected = pin(b"135790");
    cache.record_rejected(&card, PinSlot::Pin2, &rejected);
    assert!(cache.is_rejected(&card, PinSlot::Pin2, &rejected));
    assert!(!cache.is_rejected(&card, PinSlot::Pin1, &rejected));
    assert!(!cache.is_rejected(&card, PinSlot::Pin2, &pin(b"246802")));
}

#[test]
fn rejected_pin1_cannot_reenter_positive_cache() {
    let mut cache = cache();
    let card = serial("CARD-A-FULL-SERIAL");
    let rejected = pin(b"1357");
    cache.record_rejected(&card, PinSlot::Pin1, &rejected);
    assert_eq!(
        cache.store_pin1(card, rejected),
        Err(PreviouslyRejectedPin {
            slot: PinSlot::Pin1
        })
    );
}

#[test]
fn serial_mismatch_destroys_positive_entry() {
    let now = start();
    let card_a = serial("CARD-A-FULL-SERIAL");
    let card_b = serial("CARD-B-FULL-SERIAL");
    let mut cache = cache();
    cache
        .store_pin1_at(card_a.clone(), pin(b"1357"), Pin1Retention::Reusable, now)
        .expect("fresh PIN is accepted");
    assert!(cache.checkout_pin1_at(&card_b, now).is_none());
    assert!(cache.checkout_pin1_at(&card_a, now).is_none());
}

#[test]
fn rejection_is_bound_to_full_serial() {
    let card_a = serial("CARD-A-FULL-SERIAL");
    let card_b = serial("CARD-B-FULL-SERIAL");
    let rejected = pin(b"1357");
    let mut cache = cache();
    cache.record_rejected(&card_a, PinSlot::Pin1, &rejected);
    assert!(cache.is_rejected(&card_a, PinSlot::Pin1, &rejected));
    assert!(!cache.is_rejected(&card_b, PinSlot::Pin1, &rejected));
}

#[test]
fn checkout_drop_does_not_restore_entry() {
    let now = start();
    let card = serial("CARD-A-FULL-SERIAL");
    let mut cache = cache();
    cache
        .store_pin1_at(card.clone(), pin(b"1357"), Pin1Retention::Reusable, now)
        .expect("fresh PIN is accepted");
    let checkout = cache
        .checkout_pin1_at(&card, now)
        .expect("entry can be checked out once");
    drop(checkout);
    assert!(cache.checkout_pin1_at(&card, now).is_none());
}

#[test]
fn one_shot_pin1_is_destroyed_after_successful_checkout() {
    let now = start();
    let card = serial("CARD-A-FULL-SERIAL");
    let mut cache = cache();
    cache
        .store_pin1_at(card.clone(), pin(b"1357"), Pin1Retention::OneShot, now)
        .expect("fresh PIN is accepted");
    let checkout = cache
        .checkout_pin1_at(&card, now)
        .expect("one-shot entry permits one checkout");
    checkout.restore_after_success_at(&mut cache, now);
    assert!(cache.checkout_pin1_at(&card, now).is_none());
}

#[test]
fn unused_one_shot_pin1_expires_after_thirty_seconds() {
    let now = start();
    let card = serial("CARD-A-FULL-SERIAL");
    let mut cache = cache();
    cache
        .store_pin1_at(card.clone(), pin(b"1357"), Pin1Retention::OneShot, now)
        .expect("fresh PIN is accepted");
    assert!(
        cache
            .checkout_pin1_at(&card, after(now, PIN1_ONE_SHOT_LIFETIME))
            .is_none()
    );
}

#[test]
fn successful_use_refreshes_idle_timeout() {
    let now = start();
    let card = serial("CARD-A-FULL-SERIAL");
    let mut cache = cache();
    cache
        .store_pin1_at(card.clone(), pin(b"1357"), Pin1Retention::Reusable, now)
        .expect("fresh PIN is accepted");
    let use_time = after(now, from_mins(4));
    let checkout = cache
        .checkout_pin1_at(&card, use_time)
        .expect("entry remains live at four minutes");
    checkout.restore_after_success_at(&mut cache, use_time);
    assert!(
        cache
            .checkout_pin1_at(&card, after(now, from_mins(8)))
            .is_some()
    );
}

#[test]
fn invalidation_prevents_checked_out_entry_resurrection() {
    let now = start();
    let card = serial("CARD-A-FULL-SERIAL");
    let mut cache = cache();
    cache
        .store_pin1_at(card.clone(), pin(b"1357"), Pin1Retention::Reusable, now)
        .expect("fresh PIN is accepted");
    let checkout = cache
        .checkout_pin1_at(&card, now)
        .expect("entry can be checked out");
    cache.clear_positive();
    checkout.restore_after_success_at(&mut cache, now);
    assert!(cache.checkout_pin1_at(&card, now).is_none());
}

#[test]
fn pin2_is_reusable_within_its_window_then_expires_from_entry() {
    let now = start();
    let card = serial("CARD-A-FULL-SERIAL");
    let mut cache = cache();
    cache
        .store_pin2_at(card.clone(), pin(b"135790"), now)
        .expect("fresh PIN2 is accepted");
    for offset_secs in [0_u64, 20, 40] {
        let at = after(now, from_secs(offset_secs));
        let checkout = cache
            .checkout_pin2_at(&card, at)
            .expect("PIN2 remains live inside the consent window");
        checkout.restore_after_success(&mut cache);
    }
    assert!(
        cache
            .checkout_pin2_at(&card, after(now, PIN2_CACHE_LIFETIME))
            .is_none()
    );
}

#[test]
fn pin2_window_is_not_extended_by_use() {
    let now = start();
    let card = serial("CARD-A-FULL-SERIAL");
    let mut cache = cache();
    cache
        .store_pin2_at(card.clone(), pin(b"135790"), now)
        .expect("fresh PIN2 is accepted");
    let late = after(now, PIN2_CACHE_LIFETIME - from_secs(1));
    let checkout = cache
        .checkout_pin2_at(&card, late)
        .expect("PIN2 live just before expiry");
    checkout.restore_after_success(&mut cache);
    assert!(
        cache
            .checkout_pin2_at(&card, after(now, PIN2_CACHE_LIFETIME))
            .is_none()
    );
}

#[test]
fn rejected_pin2_cannot_enter_positive_cache() {
    let mut cache = cache();
    let card = serial("CARD-A-FULL-SERIAL");
    let rejected = pin(b"135790");
    cache.record_rejected(&card, PinSlot::Pin2, &rejected);
    assert_eq!(
        cache.store_pin2(card, rejected),
        Err(PreviouslyRejectedPin {
            slot: PinSlot::Pin2
        })
    );
}

#[test]
fn pin2_serial_mismatch_destroys_positive_entry() {
    let now = start();
    let card_a = serial("CARD-A-FULL-SERIAL");
    let card_b = serial("CARD-B-FULL-SERIAL");
    let mut cache = cache();
    cache
        .store_pin2_at(card_a.clone(), pin(b"135790"), now)
        .expect("fresh PIN2 is accepted");
    assert!(cache.checkout_pin2_at(&card_b, now).is_none());
    assert!(cache.checkout_pin2_at(&card_a, now).is_none());
}

#[test]
fn clearing_pin2_prevents_checked_out_entry_resurrection() {
    let now = start();
    let card = serial("CARD-A-FULL-SERIAL");
    let mut cache = cache();
    cache
        .store_pin2_at(card.clone(), pin(b"135790"), now)
        .expect("fresh PIN2 is accepted");
    let checkout = cache
        .checkout_pin2_at(&card, now)
        .expect("entry can be checked out");
    cache.clear_positive_pin2();
    checkout.restore_after_success(&mut cache);
    assert!(cache.checkout_pin2_at(&card, now).is_none());
}

#[test]
fn pin1_event_does_not_disturb_a_cached_pin2() {
    let now = start();
    let card = serial("CARD-A-FULL-SERIAL");
    let mut cache = cache();
    cache
        .store_pin2_at(card.clone(), pin(b"135790"), now)
        .expect("fresh PIN2 is accepted");
    cache.clear_positive();
    let checkout = cache
        .checkout_pin2_at(&card, now)
        .expect("PIN2 is unaffected by a PIN1 event");
    checkout.restore_after_success(&mut cache);
    assert!(cache.checkout_pin2_at(&card, now).is_some());
}
