//! Protection of PIN retry counters within one process.
//!
//! A verified PIN1 is kept for fifteen minutes from its last use; a verified PIN2 for
//! one minute from its entry, however often it is used. A PIN that the card rejected
//! is refused from then on, so that the same value cannot cost another attempt. Of
//! rejected values only keyed fingerprints are kept.

use crate::auth::PinSlot;
use crate::bytes::{be4, push_all, same_bytes, u32_be};
use crate::crypto::secret::Secret;
use crate::crypto::symmetric::ct_equal;
use crate::identity::TokenSerial;
use crate::pin::PinBytes;
use crate::render::{dec, push_dec};
use crate::rng::{array, is_draw, Failure};
use hmac::{Hmac, KeyInit, Mac};
use sha2::Sha256;
use std::time::Instant;
use vstd::prelude::*;
use vstd::string::*;
use vstd::utf8::encode_utf8;

pub mod sequences;

verus! {

/// Nanoseconds that a PIN1 is kept after its last use: fifteen minutes.
pub const PIN1_CACHE_LIFETIME: u64 = 900_000_000_000;

/// Nanoseconds that a PIN1 for a single use is kept: thirty seconds.
pub const PIN1_ONE_SHOT_LIFETIME: u64 = 30_000_000_000;

/// Nanoseconds that a PIN2 is kept after its entry: one minute.
pub const PIN2_CACHE_LIFETIME: u64 = 60_000_000_000;

/// A point of the monotonic clock.
#[verifier::external_type_specification]
#[verifier::external_body]
pub struct ExInstant(Instant);

/// [`std::time::Instant::now`]. Nothing is said of the instant.
#[verifier::external_body]
fn current_instant() -> (r: Instant) {
    Instant::now()
}

/// [`std::time::Instant::elapsed`] in nanoseconds. Nothing is said of the number.
#[verifier::external_body]
fn nanoseconds_since(origin: &Instant) -> (r: u64) {
    u64::try_from(origin.elapsed().as_nanos()).unwrap_or(u64::MAX)
}

/// [`std::time::Instant::saturating_duration_since`] in nanoseconds: how long after
/// `earlier` the other instant is, nothing where it is not after it. Of the number it is
/// only said that no time lies between an instant and itself.
#[verifier::external_body]
fn nanoseconds_between(earlier: &Instant, later: &Instant) -> (r: u64)
    ensures
        *earlier == *later ==> r == 0,
{
    u64::try_from(later.saturating_duration_since(*earlier).as_nanos()).unwrap_or(u64::MAX)
}

/// Nanoseconds since the cache was made, below zero for what was before.
#[derive(Debug, Clone, Copy, PartialEq, Eq, Structural)]
pub struct Moment {
    /// The number of nanoseconds.
    pub nanos: i64,
}

/// Less than `lifetime` nanoseconds have passed from `since` to `now`, and `now` is not
/// earlier.
pub open spec fn within(since: Moment, now: Moment, lifetime: u64) -> bool {
    since.nanos <= now.nanos && now.nanos - since.nanos < lifetime
}

fn is_within(since: Moment, now: Moment, lifetime: u64) -> (r: bool)
    ensures
        r == within(since, now, lifetime),
{
    since.nanos <= now.nanos && (now.nanos as i128) - (since.nanos as i128) < lifetime as i128
}

/// How long and how often a kept PIN1 serves.
#[derive(Debug, Clone, Copy, PartialEq, Eq, Structural)]
pub enum Pin1Retention {
    /// Any number of uses.
    Reusable,
    /// One use.
    OneShot,
}

impl Pin1Retention {
    /// Nanoseconds that the PIN is kept.
    pub open spec fn limit(self) -> u64 {
        match self {
            Pin1Retention::Reusable => PIN1_CACHE_LIFETIME,
            Pin1Retention::OneShot => PIN1_ONE_SHOT_LIFETIME,
        }
    }

    /// Nanoseconds that the PIN is kept.
    pub fn lifetime(self) -> (r: u64)
        ensures
            r == self.limit(),
    {
        match self {
            Pin1Retention::Reusable => PIN1_CACHE_LIFETIME,
            Pin1Retention::OneShot => PIN1_ONE_SHOT_LIFETIME,
        }
    }
}

/// A PIN that the card rejected before was offered again.
#[derive(Debug, Clone, Copy, PartialEq, Eq, Structural)]
pub struct PreviouslyRejectedPin {
    /// The PIN it was offered for.
    pub slot: PinSlot,
}

impl PreviouslyRejectedPin {
    /// The diagnostic text of the error.
    pub fn message(&self) -> (r: String)
        ensures
            r@ == match self.slot {
                PinSlot::Pin1 => "PIN1"@,
                PinSlot::Pin2 => "PIN2"@,
            } + " was previously rejected by the card"@,
    {
        match self.slot {
            PinSlot::Pin1 => "PIN1".to_owned().concat(" was previously rejected by the card"),
            PinSlot::Pin2 => "PIN2".to_owned().concat(" was previously rejected by the card"),
        }
    }
}

/// A kept PIN1.
struct CachedPin1 {
    serial: TokenSerial,
    pin: PinBytes,
    last_successful_use: Moment,
    generation: u64,
    retention: Pin1Retention,
}

/// What a kept PIN1 holds.
#[verifier::ext_equal]
pub struct Pin1View {
    pub serial: Seq<char>,
    pub pin: Seq<u8>,
    pub last_use: Moment,
    pub generation: u64,
    pub retention: Pin1Retention,
}

impl CachedPin1 {
    spec fn model(&self) -> Pin1View {
        Pin1View {
            serial: self.serial@,
            pin: self.pin@,
            last_use: self.last_successful_use,
            generation: self.generation,
            retention: self.retention,
        }
    }
}

/// A kept PIN2.
struct CachedPin2 {
    serial: TokenSerial,
    pin: PinBytes,
    entered_at: Moment,
    generation: u64,
}

/// What a kept PIN2 holds.
#[verifier::ext_equal]
pub struct Pin2View {
    pub serial: Seq<char>,
    pub pin: Seq<u8>,
    pub entered_at: Moment,
    pub generation: u64,
}

impl CachedPin2 {
    spec fn model(&self) -> Pin2View {
        Pin2View {
            serial: self.serial@,
            pin: self.pin@,
            entered_at: self.entered_at,
            generation: self.generation,
        }
    }
}

/// A PIN1 taken out of the cache for one use. Dropping it destroys the PIN.
pub struct CheckedOutPin1 {
    entry: CachedPin1,
}

impl View for CheckedOutPin1 {
    type V = Pin1View;

    closed spec fn view(&self) -> Pin1View {
        self.entry.model()
    }
}

/// A PIN2 taken out of the cache for one use. Dropping it destroys the PIN.
pub struct CheckedOutPin2 {
    entry: CachedPin2,
    origin: Instant,
}

impl View for CheckedOutPin2 {
    type V = Pin2View;

    closed spec fn view(&self) -> Pin2View {
        self.entry.model()
    }
}

impl CheckedOutPin2 {
    /// The instant from which the cache it was taken out of counts.
    pub closed spec fn clock(&self) -> Instant {
        self.origin
    }
}

/// What the cache holds.
#[verifier::ext_equal]
pub struct CacheView {
    pub pin1: Option<Pin1View>,
    pub pin2: Option<Pin2View>,
    pub generation: u64,
    pub generation_pin2: u64,
    pub key: Seq<u8>,
    pub rejected_pin1: Seq<Seq<u8>>,
    pub rejected_pin2: Seq<Seq<u8>>,
    /// The instant from which the moments of the cache count.
    pub clock: Instant,
}

/// What [`hmac::Hmac`] over [`sha2::Sha256`] computes of bytes under a key.
pub uninterp spec fn hmac_sha256_of(key: Seq<u8>, data: Seq<u8>) -> Option<Seq<u8>>;

/// The view of an optional tag.
pub open spec fn tag_view(r: Option<[u8; 32]>) -> Option<Seq<u8>> {
    match r {
        Some(t) => Some(t@),
        None => None,
    }
}

/// [`hmac::Hmac`] over [`sha2::Sha256`] in one call, `None` where it takes no key of
/// this length.
#[verifier::external_body]
fn hmac_sha256(key: &[u8; 32], data: &[u8]) -> (r: Option<[u8; 32]>)
    ensures
        tag_view(r) == hmac_sha256_of(key@, data@),
{
    let mut mac = Hmac::<Sha256>::new_from_slice(key).ok()?;
    mac.update(data);
    Some(mac.finalize().into_bytes().into())
}

/// The byte that stands for a PIN slot in fingerprints.
pub open spec fn slot_tag(slot: PinSlot) -> u8 {
    match slot {
        PinSlot::Pin1 => 1,
        PinSlot::Pin2 => 2,
    }
}

/// What the fingerprint of a rejected PIN covers: the serial behind its length, the
/// slot, the number of digits and the digits.
pub open spec fn fingerprint_input(serial: Seq<char>, slot: PinSlot, pin: Seq<u8>) -> Seq<u8> {
    let text = encode_utf8(serial);
    be4(text.len() as int) + text + seq![slot_tag(slot), pin.len() as u8] + pin
}

/// What the fingerprint of a rejected PIN covers, `None` where the serial is longer
/// than its length field can tell.
pub fn fingerprint_message(serial: &TokenSerial, slot: PinSlot, pin: &PinBytes) -> (r: Option<
    Vec<u8>,
>)
    ensures
        r is Some <==> encode_utf8(serial@).len() <= u32::MAX,
        r matches Some(m) ==> m@ == fingerprint_input(serial@, slot, pin@),
{
    let text = serial.as_str().as_bytes();
    if text.len() > u32::MAX as usize {
        return None;
    }
    let tag: u8 = match slot {
        PinSlot::Pin1 => 1,
        PinSlot::Pin2 => 2,
    };
    let mut input = u32_be(text.len() as u32);
    push_all(&mut input, text);
    input.push(tag);
    input.push(pin.digit_count() as u8);
    push_all(&mut input, pin.as_bytes());
    assert(input@ =~= fingerprint_input(serial@, slot, pin@));
    Some(input)
}

/// Thirty-two zero bytes.
pub open spec fn zero_mark() -> Seq<u8> {
    Seq::new(32, |i: int| 0u8)
}

/// The fingerprint of a rejected PIN. Where none can be computed all PINs share one.
pub open spec fn fingerprint_of(key: Seq<u8>, serial: Seq<char>, slot: PinSlot, pin: Seq<u8>) -> Seq<
    u8,
> {
    if encode_utf8(serial).len() > u32::MAX {
        zero_mark()
    } else {
        match hmac_sha256_of(key, fingerprint_input(serial, slot, pin)) {
            Some(mark) => mark,
            None => zero_mark(),
        }
    }
}

impl CacheView {
    /// A kept PIN belongs to the present generation of its slot.
    pub open spec fn consistent(self) -> bool {
        &&& self.pin1 matches Some(e) ==> e.generation == self.generation
        &&& self.pin2 matches Some(e) ==> e.generation == self.generation_pin2
    }

    /// The fingerprints of the PINs that were rejected for a slot.
    pub open spec fn rejected(self, slot: PinSlot) -> Seq<Seq<u8>> {
        match slot {
            PinSlot::Pin1 => self.rejected_pin1,
            PinSlot::Pin2 => self.rejected_pin2,
        }
    }

    /// The PIN is known to be rejected.
    pub open spec fn knows_rejected(self, serial: Seq<char>, slot: PinSlot, pin: Seq<u8>) -> bool {
        self.rejected(slot).contains(fingerprint_of(self.key, serial, slot, pin))
    }

    /// The cache without its PIN1.
    pub open spec fn without_pin1(self) -> CacheView {
        CacheView {
            pin1: None,
            generation: ((self.generation + 1) % 0x1_0000_0000_0000_0000) as u64,
            ..self
        }
    }

    /// The cache without its PIN2.
    pub open spec fn without_pin2(self) -> CacheView {
        CacheView {
            pin2: None,
            generation_pin2: ((self.generation_pin2 + 1) % 0x1_0000_0000_0000_0000) as u64,
            ..self
        }
    }

    /// The cache with a PIN1 in place of what it held.
    pub open spec fn with_pin1(
        self,
        serial: Seq<char>,
        pin: Seq<u8>,
        retention: Pin1Retention,
        now: Moment,
    ) -> CacheView {
        let cleared = self.without_pin1();
        CacheView {
            pin1: Some(
                Pin1View { serial, pin, last_use: now, generation: cleared.generation, retention },
            ),
            ..cleared
        }
    }

    /// The cache with a PIN2 in place of what it held.
    pub open spec fn with_pin2(self, serial: Seq<char>, pin: Seq<u8>, now: Moment) -> CacheView {
        let cleared = self.without_pin2();
        CacheView {
            pin2: Some(
                Pin2View { serial, pin, entered_at: now, generation: cleared.generation_pin2 },
            ),
            ..cleared
        }
    }

    /// The PIN1 is there and has not expired.
    pub open spec fn pin1_live(self, now: Moment) -> bool {
        self.pin1 matches Some(e) && within(e.last_use, now, e.retention.limit())
    }

    /// The PIN2 is there and has not expired.
    pub open spec fn pin2_live(self, now: Moment) -> bool {
        self.pin2 matches Some(e) && within(e.entered_at, now, PIN2_CACHE_LIFETIME)
    }

    /// PIN1 is handed out at `now` for the card with this serial.
    pub open spec fn serves_pin1(self, serial: Seq<char>, now: Moment) -> bool {
        self.pin1_live(now) && self.pin1->Some_0.serial == serial
    }

    /// PIN2 is handed out at `now` for the card with this serial.
    pub open spec fn serves_pin2(self, serial: Seq<char>, now: Moment) -> bool {
        self.pin2_live(now) && self.pin2->Some_0.serial == serial
    }

    /// The cache after PIN1 was asked for: without it, whether it was handed out or
    /// destroyed.
    pub open spec fn after_checkout_pin1(self, serial: Seq<char>, now: Moment) -> CacheView {
        if self.serves_pin1(serial, now) {
            CacheView { pin1: None, ..self }
        } else {
            self.without_pin1()
        }
    }

    /// The cache after PIN2 was asked for: without it, whether it was handed out or
    /// destroyed.
    pub open spec fn after_checkout_pin2(self, serial: Seq<char>, now: Moment) -> CacheView {
        if self.serves_pin2(serial, now) {
            CacheView { pin2: None, ..self }
        } else {
            self.without_pin2()
        }
    }

    /// The cache after it was asked whether it keeps a PIN1: an expired one is destroyed.
    pub open spec fn after_look_pin1(self, now: Moment) -> CacheView {
        if self.pin1_live(now) {
            self
        } else {
            self.without_pin1()
        }
    }

    /// The cache after it was asked whether it keeps a PIN2: an expired one is destroyed.
    pub open spec fn after_look_pin2(self, now: Moment) -> CacheView {
        if self.pin2_live(now) {
            self
        } else {
            CacheView { pin2: None, ..self }
        }
    }

    /// The cache after a PIN1 that was taken out is given back.
    pub open spec fn restored_pin1(self, entry: Pin1View, now: Moment) -> CacheView {
        if entry.retention == Pin1Retention::OneShot || self.generation != entry.generation
            || self.pin1 is Some {
            self
        } else {
            CacheView { pin1: Some(Pin1View { last_use: now, ..entry }), ..self }
        }
    }

    /// The cache after a PIN2 that was taken out is given back.
    pub open spec fn restored_pin2(self, entry: Pin2View) -> CacheView {
        if self.generation_pin2 != entry.generation || self.pin2 is Some {
            self
        } else {
            CacheView { pin2: Some(entry), ..self }
        }
    }

    /// The cache after a PIN2 that was taken out of another cache is given back: the
    /// moment of its entry is moved from the other clock to this one, which counts from
    /// `ahead` nanoseconds before and `behind` nanoseconds after the other. A moment too
    /// far away for the clock is not taken.
    pub open spec fn restored_moved(self, entry: Pin2View, ahead: u64, behind: u64) -> CacheView {
        let nanos = entry.entered_at.nanos + ahead - behind;
        if i64::MIN <= nanos <= i64::MAX {
            self.restored_pin2(Pin2View { entered_at: Moment { nanos: nanos as i64 }, ..entry })
        } else {
            self
        }
    }

    /// The cache with one more fingerprint of a rejected PIN, unless it has it.
    pub open spec fn with_mark(self, slot: PinSlot, mark: Seq<u8>) -> CacheView {
        if self.rejected(slot).contains(mark) {
            self
        } else {
            match slot {
                PinSlot::Pin1 => CacheView {
                    rejected_pin1: self.rejected_pin1.push(mark),
                    ..self
                },
                PinSlot::Pin2 => CacheView {
                    rejected_pin2: self.rejected_pin2.push(mark),
                    ..self
                },
            }
        }
    }

    /// The cache with one more rejected PIN, and without the kept ones.
    pub open spec fn with_rejected(self, serial: Seq<char>, slot: PinSlot, pin: Seq<u8>) -> CacheView {
        self.without_pin1().without_pin2().with_mark(
            slot,
            fingerprint_of(self.key, serial, slot, pin),
        )
    }
}

/// The kept PINs, and the generation of each slot: a number that every invalidation
/// changes.
struct KeptPins {
    pin1: Option<CachedPin1>,
    pin2: Option<CachedPin2>,
    generation: u64,
    generation_pin2: u64,
}

impl KeptPins {
    /// Each kept PIN belongs to the present generation of its slot.
    #[verifier::type_invariant]
    spec fn generations_agree(&self) -> bool {
        &&& self.pin1 matches Some(e) ==> e.generation == self.generation
        &&& self.pin2 matches Some(e) ==> e.generation == self.generation_pin2
    }

    fn none() -> (r: Self)
        ensures
            r.pin1 is None,
            r.pin2 is None,
            r.generation == 0,
            r.generation_pin2 == 0,
    {
        KeptPins { pin1: None, pin2: None, generation: 0, generation_pin2: 0 }
    }

    /// Part with PIN1.
    fn split_pin1(self) -> (r: (Self, Option<CachedPin1>))
        ensures
            r.1 == self.pin1,
            r.0.pin1 is None,
            r.0.pin2 == self.pin2,
            r.0.generation == self.generation,
            r.0.generation_pin2 == self.generation_pin2,
    {
        proof {
            use_type_invariant(&self);
        }
        let pin1 = self.pin1;
        let rest = KeptPins {
            pin1: None,
            pin2: self.pin2,
            generation: self.generation,
            generation_pin2: self.generation_pin2,
        };
        (rest, pin1)
    }

    /// Part with PIN2.
    fn split_pin2(self) -> (r: (Self, Option<CachedPin2>))
        ensures
            r.1 == self.pin2,
            r.0.pin2 is None,
            r.0.pin1 == self.pin1,
            r.0.generation == self.generation,
            r.0.generation_pin2 == self.generation_pin2,
    {
        proof {
            use_type_invariant(&self);
        }
        let pin2 = self.pin2;
        let rest = KeptPins {
            pin1: self.pin1,
            pin2: None,
            generation: self.generation,
            generation_pin2: self.generation_pin2,
        };
        (rest, pin2)
    }
}

/// The cache of verified PINs and of the fingerprints of rejected ones.
pub struct PinSafetyCache {
    kept: KeptPins,
    fingerprint_key: Secret<32>,
    rejected_pin1: Vec<Secret<32>>,
    rejected_pin2: Vec<Secret<32>>,
    origin: Instant,
}

/// The views of fingerprints.
spec fn mark_views(marks: Seq<Secret<32>>) -> Seq<Seq<u8>> {
    Seq::new(marks.len(), |i: int| marks[i]@)
}

impl View for PinSafetyCache {
    type V = CacheView;

    closed spec fn view(&self) -> CacheView {
        CacheView {
            pin1: match self.kept.pin1 {
                Some(e) => Some(e.model()),
                None => None,
            },
            pin2: match self.kept.pin2 {
                Some(e) => Some(e.model()),
                None => None,
            },
            generation: self.kept.generation,
            generation_pin2: self.kept.generation_pin2,
            key: self.fingerprint_key@,
            rejected_pin1: mark_views(self.rejected_pin1@),
            rejected_pin2: mark_views(self.rejected_pin2@),
            clock: self.origin,
        }
    }
}

/// A cache that holds nothing.
pub open spec fn empty_cache(key: Seq<u8>, clock: Instant) -> CacheView {
    CacheView {
        pin1: None,
        pin2: None,
        generation: 0,
        generation_pin2: 0,
        key,
        rejected_pin1: Seq::empty(),
        rejected_pin2: Seq::empty(),
        clock,
    }
}

fn contains_mark(marks: &Vec<Secret<32>>, mark: &[u8; 32]) -> (r: bool)
    ensures
        r == mark_views(marks@).contains(mark@),
{
    let ghost views = mark_views(marks@);
    let mut i: usize = 0;
    while i < marks.len()
        invariant
            i <= marks@.len(),
            views == mark_views(marks@),
            forall|j: int| 0 <= j < i ==> #[trigger] views[j] != mark@,
        decreases marks@.len() - i,
    {
        assert(views[i as int] == marks@[i as int]@);
        if ct_equal(marks[i].as_bytes().as_slice(), mark.as_slice()) {
            return true;
        }
        i += 1;
    }
    false
}

impl PinSafetyCache {
    /// An empty cache whose fingerprints are keyed with `key`.
    pub fn with_fingerprint_key(key: [u8; 32]) -> (r: Self)
        ensures
            r@ == empty_cache(key@, r@.clock),
    {
        let r = PinSafetyCache {
            kept: KeptPins::none(),
            fingerprint_key: Secret::new(key),
            rejected_pin1: Vec::new(),
            rejected_pin2: Vec::new(),
            origin: current_instant(),
        };
        assert(r@ =~= empty_cache(key@, r@.clock));
        r
    }

    /// An empty cache whose key is one random draw. It fails only where the draw did,
    /// with the error of the draw.
    pub fn new() -> (r: Result<Self, Failure>)
        ensures
            exists|draw: Result<[u8; 32], Failure>| #[trigger]
                is_draw(draw) && match draw {
                    Ok(key) => r matches Ok(c) && c@ == empty_cache(key@, c@.clock),
                    Err(e) => r == Err::<Self, Failure>(e),
                },
    {
        let draw = array::<32>();
        assert(is_draw(draw));
        match draw {
            Ok(key) => Ok(PinSafetyCache::with_fingerprint_key(key)),
            Err(e) => Err(e),
        }
    }

    /// The present moment by the clock of the cache. Of the moment it is only said that it
    /// is not before the cache was made.
    pub fn now(&self) -> (r: Moment)
        ensures
            r.nanos >= 0,
    {
        let nanos: u64 = nanoseconds_since(&self.origin);
        if nanos <= i64::MAX as u64 {
            Moment { nanos: nanos as i64 }
        } else {
            Moment { nanos: i64::MAX }
        }
    }

    /// Whether a fingerprint is among those of the PINs that were rejected for a slot.
    pub fn has_mark(&self, slot: PinSlot, mark: &[u8; 32]) -> (r: bool)
        ensures
            r == self@.rejected(slot).contains(mark@),
    {
        match slot {
            PinSlot::Pin1 => contains_mark(&self.rejected_pin1, mark),
            PinSlot::Pin2 => contains_mark(&self.rejected_pin2, mark),
        }
    }

    /// Add a fingerprint to those of the PINs that were rejected for a slot, unless it
    /// is among them.
    pub fn add_mark(&mut self, slot: PinSlot, mark: [u8; 32])
        ensures
            final(self)@ == old(self)@.with_mark(slot, mark@),
            final(self)@.consistent(),
    {
        proof {
            use_type_invariant(&self.kept);
        }
        if self.has_mark(slot, &mark) {
            return;
        }
        match slot {
            PinSlot::Pin1 => {
                let ghost before = self.rejected_pin1@;
                self.rejected_pin1.push(Secret::new(mark));
                assert(mark_views(self.rejected_pin1@) =~= mark_views(before).push(mark@));
            },
            PinSlot::Pin2 => {
                let ghost before = self.rejected_pin2@;
                self.rejected_pin2.push(Secret::new(mark));
                assert(mark_views(self.rejected_pin2@) =~= mark_views(before).push(mark@));
            },
        }
    }

    fn fingerprint(&self, serial: &TokenSerial, slot: PinSlot, pin: &PinBytes) -> (r: [u8; 32])
        ensures
            r@ == fingerprint_of(self@.key, serial@, slot, pin@),
    {
        let none: [u8; 32] = [0; 32];
        assert(none@ =~= zero_mark());
        match fingerprint_message(serial, slot, pin) {
            Some(input) => match hmac_sha256(self.fingerprint_key.as_bytes(), input.as_slice()) {
                Some(mark) => mark,
                None => none,
            },
            None => none,
        }
    }

    /// Whether the card has rejected a PIN for a slot.
    pub fn is_rejected(&self, serial: &TokenSerial, slot: PinSlot, pin: &PinBytes) -> (r: bool)
        ensures
            r == self@.knows_rejected(serial@, slot, pin@),
    {
        let candidate: [u8; 32] = self.fingerprint(serial, slot, pin);
        self.has_mark(slot, &candidate)
    }

    /// Destroy the kept PIN1. What was taken out before cannot come back.
    pub fn clear_positive(&mut self)
        ensures
            final(self)@ == old(self)@.without_pin1(),
            final(self)@.consistent(),
    {
        proof {
            use_type_invariant(&self.kept);
        }
        self.kept.pin1 = None;
        self.kept.generation = self.kept.generation.wrapping_add(1);
    }

    /// Destroy the kept PIN2. What was taken out before cannot come back.
    pub fn clear_positive_pin2(&mut self)
        ensures
            final(self)@ == old(self)@.without_pin2(),
            final(self)@.consistent(),
    {
        proof {
            use_type_invariant(&self.kept);
        }
        self.kept.pin2 = None;
        self.kept.generation_pin2 = self.kept.generation_pin2.wrapping_add(1);
    }

    /// Remember a PIN that the card rejected, and destroy the kept ones.
    pub fn record_rejected(&mut self, serial: &TokenSerial, slot: PinSlot, pin: &PinBytes)
        ensures
            final(self)@ == old(self)@.with_rejected(serial@, slot, pin@),
            final(self)@.consistent(),
    {
        proof {
            use_type_invariant(&self.kept);
        }
        self.clear_positive();
        self.clear_positive_pin2();
        let mark: [u8; 32] = self.fingerprint(serial, slot, pin);
        self.add_mark(slot, mark);
    }

    /// Keep a verified PIN1 as of `now`, unless it is known to be rejected.
    pub fn store_pin1_at(
        &mut self,
        serial: TokenSerial,
        pin: PinBytes,
        retention: Pin1Retention,
        now: Moment,
    ) -> (r: Result<(), PreviouslyRejectedPin>)
        ensures
            if old(self)@.knows_rejected(serial@, PinSlot::Pin1, pin@) {
                r == Err::<(), PreviouslyRejectedPin>(
                    PreviouslyRejectedPin { slot: PinSlot::Pin1 },
                ) && final(self)@ == old(self)@
            } else {
                r is Ok && final(self)@ == old(self)@.with_pin1(serial@, pin@, retention, now)
            },
            final(self)@.consistent(),
    {
        proof {
            use_type_invariant(&self.kept);
        }
        if self.is_rejected(&serial, PinSlot::Pin1, &pin) {
            return Err(PreviouslyRejectedPin { slot: PinSlot::Pin1 });
        }
        self.clear_positive();
        let generation: u64 = self.kept.generation;
        self.kept.pin1 = Some(
            CachedPin1 { serial, pin, last_successful_use: now, generation, retention },
        );
        Ok(())
    }

    /// Keep a verified PIN1 for fifteen minutes from its last use.
    pub fn store_pin1(&mut self, serial: TokenSerial, pin: PinBytes) -> (r: Result<
        (),
        PreviouslyRejectedPin,
    >)
        ensures
            if old(self)@.knows_rejected(serial@, PinSlot::Pin1, pin@) {
                r == Err::<(), PreviouslyRejectedPin>(
                    PreviouslyRejectedPin { slot: PinSlot::Pin1 },
                ) && final(self)@ == old(self)@
            } else {
                r is Ok && exists|now: Moment| #[trigger]
                    is_now(*old(self), now) && final(self)@ == old(self)@.with_pin1(
                        serial@,
                        pin@,
                        Pin1Retention::Reusable,
                        now,
                    )
            },
            final(self)@.consistent(),
    {
        proof {
            use_type_invariant(&self.kept);
        }
        let now = self.now();
        assert(is_now(*self, now));
        self.store_pin1_at(serial, pin, Pin1Retention::Reusable, now)
    }

    /// Keep a verified PIN1 for one use within thirty seconds.
    pub fn stage_pin1_once(&mut self, serial: TokenSerial, pin: PinBytes) -> (r: Result<
        (),
        PreviouslyRejectedPin,
    >)
        ensures
            if old(self)@.knows_rejected(serial@, PinSlot::Pin1, pin@) {
                r == Err::<(), PreviouslyRejectedPin>(
                    PreviouslyRejectedPin { slot: PinSlot::Pin1 },
                ) && final(self)@ == old(self)@
            } else {
                r is Ok && exists|now: Moment| #[trigger]
                    is_now(*old(self), now) && final(self)@ == old(self)@.with_pin1(
                        serial@,
                        pin@,
                        Pin1Retention::OneShot,
                        now,
                    )
            },
            final(self)@.consistent(),
    {
        proof {
            use_type_invariant(&self.kept);
        }
        let now = self.now();
        assert(is_now(*self, now));
        self.store_pin1_at(serial, pin, Pin1Retention::OneShot, now)
    }

    /// Take PIN1 out as of `now` for the card whose serial was just read. A PIN of
    /// another card, or an expired one, is destroyed.
    pub fn checkout_pin1_at(&mut self, live_serial: &TokenSerial, now: Moment) -> (r: Option<
        CheckedOutPin1,
    >)
        ensures
            checked_out_pin1(old(self)@, live_serial@, now, r, final(self)@),
            final(self)@.consistent(),
    {
        proof {
            use_type_invariant(&self.kept);
        }
        let live = match &self.kept.pin1 {
            Some(entry) => same_text(&entry.serial, live_serial) && is_within(
                entry.last_successful_use,
                now,
                entry.retention.lifetime(),
            ),
            None => false,
        };
        if !live {
            self.clear_positive();
            return None;
        }
        let mut before = KeptPins::none();
        core::mem::swap(&mut self.kept, &mut before);
        let (rest, pin1) = before.split_pin1();
        self.kept = rest;
        match pin1 {
            Some(entry) => Some(CheckedOutPin1 { entry }),
            None => None,
        }
    }

    /// Take PIN1 out for the card whose serial was just read.
    pub fn checkout_pin1(&mut self, live_serial: &TokenSerial) -> (r: Option<CheckedOutPin1>)
        ensures
            exists|now: Moment| #[trigger]
                is_now(*old(self), now) && checked_out_pin1(
                    old(self)@,
                    live_serial@,
                    now,
                    r,
                    final(self)@,
                ),
            final(self)@.consistent(),
    {
        proof {
            use_type_invariant(&self.kept);
        }
        let now = self.now();
        assert(is_now(*self, now));
        self.checkout_pin1_at(live_serial, now)
    }

    /// Whether a PIN1 that has not expired by `now` is kept; one that has is destroyed.
    pub fn has_positive_pin1_at(&mut self, now: Moment) -> (r: bool)
        ensures
            r == old(self)@.pin1_live(now),
            final(self)@ == old(self)@.after_look_pin1(now),
            final(self)@.consistent(),
    {
        proof {
            use_type_invariant(&self.kept);
        }
        let live = match &self.kept.pin1 {
            Some(entry) => is_within(entry.last_successful_use, now, entry.retention.lifetime()),
            None => false,
        };
        if !live {
            self.clear_positive();
        }
        live
    }

    /// Whether a PIN1 that has not expired is kept.
    pub fn has_positive_pin1(&mut self) -> (r: bool)
        ensures
            exists|now: Moment| #[trigger]
                is_now(*old(self), now) && r == old(self)@.pin1_live(now) && final(self)@
                    == old(self)@.after_look_pin1(now),
            final(self)@.consistent(),
    {
        proof {
            use_type_invariant(&self.kept);
        }
        let now = self.now();
        assert(is_now(*self, now));
        self.has_positive_pin1_at(now)
    }

    /// Keep a verified PIN2 as of `now`, unless it is known to be rejected.
    pub fn store_pin2_at(&mut self, serial: TokenSerial, pin: PinBytes, now: Moment) -> (r: Result<
        (),
        PreviouslyRejectedPin,
    >)
        ensures
            if old(self)@.knows_rejected(serial@, PinSlot::Pin2, pin@) {
                r == Err::<(), PreviouslyRejectedPin>(
                    PreviouslyRejectedPin { slot: PinSlot::Pin2 },
                ) && final(self)@ == old(self)@
            } else {
                r is Ok && final(self)@ == old(self)@.with_pin2(serial@, pin@, now)
            },
            final(self)@.consistent(),
    {
        proof {
            use_type_invariant(&self.kept);
        }
        if self.is_rejected(&serial, PinSlot::Pin2, &pin) {
            return Err(PreviouslyRejectedPin { slot: PinSlot::Pin2 });
        }
        self.clear_positive_pin2();
        let generation: u64 = self.kept.generation_pin2;
        self.kept.pin2 = Some(CachedPin2 { serial, pin, entered_at: now, generation });
        Ok(())
    }

    /// Keep a verified PIN2 for one minute from its entry.
    pub fn store_pin2(&mut self, serial: TokenSerial, pin: PinBytes) -> (r: Result<
        (),
        PreviouslyRejectedPin,
    >)
        ensures
            if old(self)@.knows_rejected(serial@, PinSlot::Pin2, pin@) {
                r == Err::<(), PreviouslyRejectedPin>(
                    PreviouslyRejectedPin { slot: PinSlot::Pin2 },
                ) && final(self)@ == old(self)@
            } else {
                r is Ok && exists|now: Moment| #[trigger]
                    is_now(*old(self), now) && final(self)@ == old(self)@.with_pin2(
                        serial@,
                        pin@,
                        now,
                    )
            },
            final(self)@.consistent(),
    {
        proof {
            use_type_invariant(&self.kept);
        }
        let now = self.now();
        assert(is_now(*self, now));
        self.store_pin2_at(serial, pin, now)
    }

    /// Take PIN2 out as of `now` for the card whose serial was just read. A PIN of
    /// another card, or an expired one, is destroyed.
    pub fn checkout_pin2_at(&mut self, live_serial: &TokenSerial, now: Moment) -> (r: Option<
        CheckedOutPin2,
    >)
        ensures
            checked_out_pin2(old(self)@, live_serial@, now, r, final(self)@),
            final(self)@.consistent(),
    {
        proof {
            use_type_invariant(&self.kept);
        }
        let live = match &self.kept.pin2 {
            Some(entry) => same_text(&entry.serial, live_serial) && is_within(
                entry.entered_at,
                now,
                PIN2_CACHE_LIFETIME,
            ),
            None => false,
        };
        if !live {
            self.clear_positive_pin2();
            return None;
        }
        let mut before = KeptPins::none();
        core::mem::swap(&mut self.kept, &mut before);
        let (rest, pin2) = before.split_pin2();
        self.kept = rest;
        match pin2 {
            Some(entry) => Some(CheckedOutPin2 { entry, origin: self.origin }),
            None => None,
        }
    }

    /// Take PIN2 out for the card whose serial was just read.
    pub fn checkout_pin2(&mut self, live_serial: &TokenSerial) -> (r: Option<CheckedOutPin2>)
        ensures
            exists|now: Moment| #[trigger]
                is_now(*old(self), now) && checked_out_pin2(
                    old(self)@,
                    live_serial@,
                    now,
                    r,
                    final(self)@,
                ),
            final(self)@.consistent(),
    {
        proof {
            use_type_invariant(&self.kept);
        }
        let now = self.now();
        assert(is_now(*self, now));
        self.checkout_pin2_at(live_serial, now)
    }

    /// Whether a PIN2 that has not expired by `now` is kept; one that has is destroyed.
    pub fn has_positive_pin2_at(&mut self, now: Moment) -> (r: bool)
        ensures
            r == old(self)@.pin2_live(now),
            final(self)@ == old(self)@.after_look_pin2(now),
            final(self)@.consistent(),
    {
        proof {
            use_type_invariant(&self.kept);
        }
        let live = match &self.kept.pin2 {
            Some(entry) => is_within(entry.entered_at, now, PIN2_CACHE_LIFETIME),
            None => false,
        };
        if !live {
            self.kept.pin2 = None;
        }
        live
    }

    /// Whether a PIN2 that has not expired is kept.
    pub fn has_positive_pin2(&mut self) -> (r: bool)
        ensures
            exists|now: Moment| #[trigger]
                is_now(*old(self), now) && r == old(self)@.pin2_live(now) && final(self)@
                    == old(self)@.after_look_pin2(now),
            final(self)@.consistent(),
    {
        proof {
            use_type_invariant(&self.kept);
        }
        let now = self.now();
        assert(is_now(*self, now));
        self.has_positive_pin2_at(now)
    }
}

/// The other instant was found to be `ahead` nanoseconds after `clock`, and `behind`
/// nanoseconds before it.
pub closed spec fn measured(clock: Instant, other: Instant, ahead: u64, behind: u64) -> bool {
    &&& call_ensures(nanoseconds_between, (&clock, &other), ahead)
    &&& call_ensures(nanoseconds_between, (&other, &clock), behind)
}

/// `now` is what the clock of the cache read.
pub open spec fn is_now(cache: PinSafetyCache, now: Moment) -> bool {
    call_ensures(PinSafetyCache::now, (&cache,), now)
}

/// A truth value in words.
pub open spec fn truth(b: bool) -> Seq<char> {
    if b {
        "true"@
    } else {
        "false"@
    }
}

fn truth_text(b: bool) -> (r: &'static str)
    ensures
        r@ == truth(b),
{
    if b {
        "true"
    } else {
        "false"
    }
}

impl PinSafetyCache {
    /// A rendering for traces, which shows no PIN and no fingerprint.
    pub fn debug_text(&self) -> (r: String)
        ensures
            r@ == "PinSafetyCache { positive_pin1: "@ + truth(self@.pin1 is Some)
                + ", positive_pin2: "@ + truth(self@.pin2 is Some) + ", generation: "@ + dec(
                self@.generation as nat,
            ) + ", generation_pin2: "@ + dec(self@.generation_pin2 as nat)
                + ", rejected_pin1_count: "@ + dec(self@.rejected_pin1.len())
                + ", rejected_pin2_count: "@ + dec(self@.rejected_pin2.len()) + ", .. }"@,
    {
        let mut out = "PinSafetyCache { positive_pin1: ".to_owned();
        out.append(truth_text(self.kept.pin1.is_some()));
        out.append(", positive_pin2: ");
        out.append(truth_text(self.kept.pin2.is_some()));
        out.append(", generation: ");
        push_dec(&mut out, self.kept.generation as u128);
        out.append(", generation_pin2: ");
        push_dec(&mut out, self.kept.generation_pin2 as u128);
        out.append(", rejected_pin1_count: ");
        push_dec(&mut out, self.rejected_pin1.len() as u128);
        out.append(", rejected_pin2_count: ");
        push_dec(&mut out, self.rejected_pin2.len() as u128);
        out.append(", .. }");
        out
    }
}

/// `after` and `r` are what taking PIN1 out of `before` gives.
pub open spec fn checked_out_pin1(
    before: CacheView,
    serial: Seq<char>,
    now: Moment,
    r: Option<CheckedOutPin1>,
    after: CacheView,
) -> bool {
    &&& after == before.after_checkout_pin1(serial, now)
    &&& r is Some <==> before.serves_pin1(serial, now)
    &&& r matches Some(c) ==> c@ == before.pin1->Some_0 && c@.generation == after.generation
}

/// `after` and `r` are what taking PIN2 out of `before` gives.
pub open spec fn checked_out_pin2(
    before: CacheView,
    serial: Seq<char>,
    now: Moment,
    r: Option<CheckedOutPin2>,
    after: CacheView,
) -> bool {
    &&& after == before.after_checkout_pin2(serial, now)
    &&& r is Some <==> before.serves_pin2(serial, now)
    &&& r matches Some(c) ==> c@ == before.pin2->Some_0 && c@.generation == after.generation_pin2
        && c.clock() == before.clock
}

fn same_text(a: &TokenSerial, b: &TokenSerial) -> (r: bool)
    ensures
        r == (a@ == b@),
{
    proof {
        if encode_utf8(a@) == encode_utf8(b@) {
            crate::bytes::lemma_utf8_injective(a@, b@);
        }
    }
    same_bytes(a.as_str().as_bytes(), b.as_str().as_bytes())
}

impl CheckedOutPin1 {
    /// Borrow the PIN for its one use.
    pub fn pin(&self) -> (r: &PinBytes)
        ensures
            r@ == self@.pin,
    {
        &self.entry.pin
    }

    /// Give the PIN back after the card accepted it at `now`. A PIN for one use is
    /// destroyed, and so is one that was invalidated meanwhile.
    pub fn restore_after_success_at(self, cache: &mut PinSafetyCache, now: Moment)
        ensures
            final(cache)@ == old(cache)@.restored_pin1(self@, now),
            final(cache)@.consistent(),
    {
        proof {
            use_type_invariant(&cache.kept);
        }
        let mut entry = self.entry;
        if matches!(entry.retention, Pin1Retention::OneShot) {
            return;
        }
        if cache.kept.generation != entry.generation || cache.kept.pin1.is_some() {
            return;
        }
        entry.last_successful_use = now;
        cache.kept.pin1 = Some(entry);
    }

    /// Give the PIN back after the card accepted it.
    pub fn restore_after_success(self, cache: &mut PinSafetyCache)
        ensures
            exists|now: Moment| #[trigger]
                is_now(*old(cache), now) && final(cache)@ == old(cache)@.restored_pin1(self@, now),
            final(cache)@.consistent(),
    {
        let now = cache.now();
        assert(is_now(*cache, now));
        self.restore_after_success_at(cache, now);
    }
}

impl CheckedOutPin2 {
    /// Borrow the PIN for its one use.
    pub fn pin(&self) -> (r: &PinBytes)
        ensures
            r@ == self@.pin,
    {
        &self.entry.pin
    }

    /// Give the PIN back after the card accepted it. Its deadline stays, also in another
    /// cache than the one it was taken out of, which counts from another instant.
    pub fn restore_after_success(self, cache: &mut PinSafetyCache)
        ensures
            self.clock() == old(cache)@.clock ==> final(cache)@ == old(cache)@.restored_pin2(self@),
            exists|ahead: u64, behind: u64| #[trigger]
                measured(old(cache)@.clock, self.clock(), ahead, behind) && final(cache)@ == old(
                    cache,
                )@.restored_moved(self@, ahead, behind),
            final(cache)@.consistent(),
    {
        let ahead: u64 = nanoseconds_between(&cache.origin, &self.origin);
        let behind: u64 = nanoseconds_between(&self.origin, &cache.origin);
        assert(measured(cache@.clock, self.clock(), ahead, behind));
        self.restore_moved(cache, ahead, behind);
    }

    /// Give the PIN back to a cache whose clock counts from `ahead` nanoseconds before, or
    /// from `behind` nanoseconds after, the instant from which the PIN's own counts.
    pub fn restore_moved(self, cache: &mut PinSafetyCache, ahead: u64, behind: u64)
        ensures
            final(cache)@ == old(cache)@.restored_moved(self@, ahead, behind),
            final(cache)@.consistent(),
    {
        proof {
            use_type_invariant(&cache.kept);
        }
        let mut entry = self.entry;
        let nanos: i128 = entry.entered_at.nanos as i128 + ahead as i128 - behind as i128;
        if nanos < i64::MIN as i128 || nanos > i64::MAX as i128 {
            return;
        }
        if cache.kept.generation_pin2 != entry.generation || cache.kept.pin2.is_some() {
            return;
        }
        entry.entered_at = Moment { nanos: nanos as i64 };
        cache.kept.pin2 = Some(entry);
    }
}

/// What can be done to a cache.
pub enum CacheStep {
    /// PIN1 is destroyed.
    ClearPin1,
    /// PIN2 is destroyed.
    ClearPin2,
    /// The card rejected a PIN.
    Reject(Seq<char>, PinSlot, Seq<u8>),
    /// A PIN1 is offered for keeping.
    StorePin1(Seq<char>, Seq<u8>, Pin1Retention, Moment),
    /// A PIN2 is offered for keeping.
    StorePin2(Seq<char>, Seq<u8>, Moment),
    /// PIN1 is asked for.
    CheckoutPin1(Seq<char>, Moment),
    /// PIN2 is asked for.
    CheckoutPin2(Seq<char>, Moment),
    /// It is asked whether a PIN1 is kept.
    LookPin1(Moment),
    /// It is asked whether a PIN2 is kept.
    LookPin2(Moment),
    /// A PIN1 is given back.
    RestorePin1(Pin1View, Moment),
    /// A PIN2 is given back.
    RestorePin2(Pin2View),
}

impl CacheStep {
    /// The step is about PIN1, or about both.
    pub open spec fn touches_pin1(self) -> bool {
        self is ClearPin1 || self is Reject || self is StorePin1 || self is CheckoutPin1
            || self is LookPin1 || self is RestorePin1
    }

    /// The step changes what is kept of PIN2, or both.
    pub open spec fn touches_pin2(self) -> bool {
        self is ClearPin2 || self is Reject || self is StorePin2 || self is CheckoutPin2
            || self is RestorePin2
    }
}

impl CacheView {
    /// The cache after one step.
    #[verifier::opaque]
    pub open spec fn step(self, step: CacheStep) -> CacheView {
        match step {
            CacheStep::ClearPin1 => self.without_pin1(),
            CacheStep::ClearPin2 => self.without_pin2(),
            CacheStep::Reject(serial, slot, pin) => self.with_rejected(serial, slot, pin),
            CacheStep::StorePin1(serial, pin, retention, now) => {
                if self.knows_rejected(serial, PinSlot::Pin1, pin) {
                    self
                } else {
                    self.with_pin1(serial, pin, retention, now)
                }
            },
            CacheStep::StorePin2(serial, pin, now) => {
                if self.knows_rejected(serial, PinSlot::Pin2, pin) {
                    self
                } else {
                    self.with_pin2(serial, pin, now)
                }
            },
            CacheStep::CheckoutPin1(serial, now) => self.after_checkout_pin1(serial, now),
            CacheStep::CheckoutPin2(serial, now) => self.after_checkout_pin2(serial, now),
            CacheStep::LookPin1(now) => self.after_look_pin1(now),
            CacheStep::LookPin2(now) => self.after_look_pin2(now),
            CacheStep::RestorePin1(entry, now) => self.restored_pin1(entry, now),
            CacheStep::RestorePin2(entry) => self.restored_pin2(entry),
        }
    }

    /// The cache after some steps.
    pub open spec fn run(self, steps: Seq<CacheStep>) -> CacheView
        decreases steps.len(),
    {
        if steps.len() == 0 {
            self
        } else {
            self.run(steps.drop_last()).step(steps.last())
        }
    }

    /// The step invalidates what is kept or taken out of PIN1: PIN1 is destroyed or
    /// replaced, or a PIN was rejected.
    #[verifier::opaque]
    pub open spec fn invalidates_pin1(self, step: CacheStep) -> bool {
        match step {
            CacheStep::ClearPin1 => true,
            CacheStep::Reject(_, _, _) => true,
            CacheStep::StorePin1(serial, pin, _, _) => !self.knows_rejected(
                serial,
                PinSlot::Pin1,
                pin,
            ),
            CacheStep::CheckoutPin1(serial, now) => !self.serves_pin1(serial, now),
            CacheStep::LookPin1(now) => !self.pin1_live(now),
            _ => false,
        }
    }

    /// The step invalidates what is kept or taken out of PIN2: PIN2 is destroyed or
    /// replaced, or a PIN was rejected.
    #[verifier::opaque]
    pub open spec fn invalidates_pin2(self, step: CacheStep) -> bool {
        match step {
            CacheStep::ClearPin2 => true,
            CacheStep::Reject(_, _, _) => true,
            CacheStep::StorePin2(serial, pin, _) => !self.knows_rejected(
                serial,
                PinSlot::Pin2,
                pin,
            ),
            CacheStep::CheckoutPin2(serial, now) => !self.serves_pin2(serial, now),
            _ => false,
        }
    }

    /// How many of the steps invalidate PIN1.
    pub open spec fn invalidations_pin1(self, steps: Seq<CacheStep>) -> nat
        decreases steps.len(),
    {
        if steps.len() == 0 {
            0
        } else {
            let before = steps.drop_last();
            self.invalidations_pin1(before) + if self.run(before).invalidates_pin1(steps.last()) {
                1nat
            } else {
                0nat
            }
        }
    }

    /// How many of the steps invalidate PIN2.
    pub open spec fn invalidations_pin2(self, steps: Seq<CacheStep>) -> nat
        decreases steps.len(),
    {
        if steps.len() == 0 {
            0
        } else {
            let before = steps.drop_last();
            self.invalidations_pin2(before) + if self.run(before).invalidates_pin2(steps.last()) {
                1nat
            } else {
                0nat
            }
        }
    }
}

/// A kept PIN belongs to the present generation of its slot, whatever is done to a cache.
pub proof fn law_consistency_is_kept(cache: CacheView, steps: Seq<CacheStep>)
    requires
        cache.consistent(),
    ensures
        cache.run(steps).consistent(),
    decreases steps.len(),
{
    reveal(CacheView::step);
    if steps.len() > 0 {
        law_consistency_is_kept(cache, steps.drop_last());
    }
}

/// The generation that follows `generation` after `n` invalidations.
pub open spec fn generation_after(generation: u64, n: nat) -> int {
    (generation + n) % 0x1_0000_0000_0000_0000
}

proof fn lemma_step_generations(cache: CacheView, step: CacheStep)
    ensures
        cache.step(step).generation == generation_after(
            cache.generation,
            if cache.invalidates_pin1(step) {
                1nat
            } else {
                0nat
            },
        ),
        cache.step(step).generation_pin2 == generation_after(
            cache.generation_pin2,
            if cache.invalidates_pin2(step) {
                1nat
            } else {
                0nat
            },
        ),
{
    reveal(CacheView::step);
    reveal(CacheView::invalidates_pin1);
    reveal(CacheView::invalidates_pin2);
}

proof fn lemma_generation_pin1(cache: CacheView, steps: Seq<CacheStep>)
    ensures
        cache.run(steps).generation == generation_after(
            cache.generation,
            cache.invalidations_pin1(steps),
        ),
    decreases steps.len(),
{
    if steps.len() > 0 {
        lemma_generation_pin1(cache, steps.drop_last());
        lemma_step_generations(cache.run(steps.drop_last()), steps.last());
    }
}

proof fn lemma_generation_pin2(cache: CacheView, steps: Seq<CacheStep>)
    ensures
        cache.run(steps).generation_pin2 == generation_after(
            cache.generation_pin2,
            cache.invalidations_pin2(steps),
        ),
    decreases steps.len(),
{
    if steps.len() > 0 {
        lemma_generation_pin2(cache, steps.drop_last());
        lemma_step_generations(cache.run(steps.drop_last()), steps.last());
    }
}

/// Rejections are remembered until the process ends: nothing that can be done to a
/// cache makes it forget one.
pub proof fn law_rejection_is_permanent(
    cache: CacheView,
    steps: Seq<CacheStep>,
    serial: Seq<char>,
    slot: PinSlot,
    pin: Seq<u8>,
)
    requires
        cache.knows_rejected(serial, slot, pin),
    ensures
        cache.run(steps).knows_rejected(serial, slot, pin),
        cache.run(steps).key == cache.key,
    decreases steps.len(),
{
    reveal(CacheView::step);
    if steps.len() > 0 {
        law_rejection_is_permanent(cache, steps.drop_last(), serial, slot, pin);
        let before = cache.run(steps.drop_last());
        let after = before.step(steps.last());
        let mark = fingerprint_of(before.key, serial, slot, pin);
        let i = choose|i: int|
            0 <= i < before.rejected(slot).len() && before.rejected(slot)[i] == mark;
        assert(after.rejected(slot)[i] == mark);
    }
}

/// A PIN that the card rejected is known to be rejected from then on, for that card and
/// slot, and no PIN is left in the cache. To record it once more changes nothing that is
/// known of any PIN.
pub proof fn law_recorded_rejection_is_known(
    cache: CacheView,
    serial: Seq<char>,
    slot: PinSlot,
    pin: Seq<u8>,
)
    ensures
        ({
            let once = cache.with_rejected(serial, slot, pin);
            let twice = once.with_rejected(serial, slot, pin);
            &&& once.knows_rejected(serial, slot, pin)
            &&& once.pin1 is None && once.pin2 is None
            &&& forall|s: Seq<char>, k: PinSlot, p: Seq<u8>|
                twice.knows_rejected(s, k, p) == #[trigger] once.knows_rejected(s, k, p)
        }),
{
    let once = cache.with_rejected(serial, slot, pin);
    let mark = fingerprint_of(cache.key, serial, slot, pin);
    if !cache.rejected(slot).contains(mark) {
        assert(once.rejected(slot).last() == mark);
    }
}

/// Invalidation wins over a PIN1 that was taken out: once PIN1 was destroyed or replaced,
/// or a PIN was rejected, giving it back leaves the cache as it is. Generations repeat
/// after so many invalidations as a `u64` can count.
pub proof fn law_invalidation_wins_pin1(
    cache: CacheView,
    serial: Seq<char>,
    at: Moment,
    steps: Seq<CacheStep>,
    now: Moment,
)
    requires
        cache.consistent(),
        cache.serves_pin1(serial, at),
        0 < cache.after_checkout_pin1(serial, at).invalidations_pin1(steps)
            < 0x1_0000_0000_0000_0000,
    ensures
        ({
            let later = cache.after_checkout_pin1(serial, at).run(steps);
            later.restored_pin1(cache.pin1->Some_0, now) == later
        }),
{
    lemma_generation_pin1(cache.after_checkout_pin1(serial, at), steps);
}

/// Invalidation wins over a PIN2 that was taken out: once PIN2 was destroyed or replaced,
/// or a PIN was rejected, giving it back leaves the cache as it is. Generations repeat
/// after so many invalidations as a `u64` can count.
pub proof fn law_invalidation_wins_pin2(
    cache: CacheView,
    serial: Seq<char>,
    at: Moment,
    steps: Seq<CacheStep>,
)
    requires
        cache.consistent(),
        cache.serves_pin2(serial, at),
        0 < cache.after_checkout_pin2(serial, at).invalidations_pin2(steps)
            < 0x1_0000_0000_0000_0000,
    ensures
        ({
            let later = cache.after_checkout_pin2(serial, at).run(steps);
            later.restored_pin2(cache.pin2->Some_0) == later
        }),
{
    lemma_generation_pin2(cache.after_checkout_pin2(serial, at), steps);
}

proof fn lemma_reject_counts(cache: CacheView, steps: Seq<CacheStep>, i: int)
    requires
        0 <= i < steps.len(),
        steps[i] is Reject,
    ensures
        cache.invalidations_pin1(steps) > 0,
        cache.invalidations_pin2(steps) > 0,
    decreases steps.len(),
{
    reveal(CacheView::invalidates_pin1);
    reveal(CacheView::invalidates_pin2);
    if i < steps.len() - 1 {
        lemma_reject_counts(cache, steps.drop_last(), i);
    }
}

/// A rejection bars what was taken out before it: neither PIN can be given back, whatever
/// else was done in between.
pub proof fn law_rejection_bars_return(
    cache: CacheView,
    serial: Seq<char>,
    at: Moment,
    steps: Seq<CacheStep>,
    i: int,
    now: Moment,
)
    requires
        cache.consistent(),
        0 <= i < steps.len() < 0x1_0000_0000_0000_0000,
        steps[i] is Reject,
    ensures
        ({
            let later = cache.after_checkout_pin1(serial, at).run(steps);
            cache.serves_pin1(serial, at) ==> later.restored_pin1(cache.pin1->Some_0, now) == later
        }),
        ({
            let later = cache.after_checkout_pin2(serial, at).run(steps);
            cache.serves_pin2(serial, at) ==> later.restored_pin2(cache.pin2->Some_0) == later
        }),
{
    if cache.serves_pin1(serial, at) {
        let taken = cache.after_checkout_pin1(serial, at);
        lemma_reject_counts(taken, steps, i);
        lemma_counts(taken, steps);
        law_invalidation_wins_pin1(cache, serial, at, steps, now);
    }
    if cache.serves_pin2(serial, at) {
        let taken = cache.after_checkout_pin2(serial, at);
        lemma_reject_counts(taken, steps, i);
        lemma_counts(taken, steps);
        law_invalidation_wins_pin2(cache, serial, at, steps);
    }
}

proof fn lemma_counts(cache: CacheView, steps: Seq<CacheStep>)
    ensures
        cache.invalidations_pin1(steps) <= steps.len(),
        cache.invalidations_pin2(steps) <= steps.len(),
    decreases steps.len(),
{
    if steps.len() > 0 {
        lemma_counts(cache, steps.drop_last());
    }
}

proof fn lemma_pin1_untouched(cache: CacheView, steps: Seq<CacheStep>)
    requires
        forall|i: int| 0 <= i < steps.len() ==> !(#[trigger] steps[i]).touches_pin1(),
    ensures
        cache.run(steps).pin1 == cache.pin1,
        cache.run(steps).generation == cache.generation,
    decreases steps.len(),
{
    reveal(CacheView::step);
    if steps.len() > 0 {
        assert(!steps.last().touches_pin1());
        assert forall|i: int| 0 <= i < steps.drop_last().len() implies !(
        #[trigger] steps.drop_last()[i]).touches_pin1() by {
            assert(steps.drop_last()[i] == steps[i]);
        }
        lemma_pin1_untouched(cache, steps.drop_last());
    }
}

proof fn lemma_pin2_untouched(cache: CacheView, steps: Seq<CacheStep>)
    requires
        cache.pin2 is None,
        forall|i: int| 0 <= i < steps.len() ==> !(#[trigger] steps[i]).touches_pin2(),
    ensures
        cache.run(steps).pin2 is None,
        cache.run(steps).generation_pin2 == cache.generation_pin2,
    decreases steps.len(),
{
    reveal(CacheView::step);
    if steps.len() > 0 {
        assert(!steps.last().touches_pin2());
        assert forall|i: int| 0 <= i < steps.drop_last().len() implies !(
        #[trigger] steps.drop_last()[i]).touches_pin2() by {
            assert(steps.drop_last()[i] == steps[i]);
        }
        lemma_pin2_untouched(cache, steps.drop_last());
    }
}

/// The window of a PIN2 runs from its entry. Taken out and given back, with nothing done
/// to PIN2 in between, it is the same entry with the same deadline, so use does not extend
/// the window however often it happens.
pub proof fn law_pin2_window_is_fixed(
    cache: CacheView,
    serial: Seq<char>,
    at: Moment,
    steps: Seq<CacheStep>,
)
    requires
        cache.consistent(),
        cache.serves_pin2(serial, at),
        forall|i: int| 0 <= i < steps.len() ==> !(#[trigger] steps[i]).touches_pin2(),
    ensures
        ({
            let entry = cache.pin2->Some_0;
            let back = cache.after_checkout_pin2(serial, at).run(steps).restored_pin2(entry);
            &&& back.pin2 == Some(entry)
            &&& forall|later: Moment| #[trigger]
                back.serves_pin2(serial, later) <==> within(
                    entry.entered_at,
                    later,
                    PIN2_CACHE_LIFETIME,
                )
        }),
{
    lemma_pin2_untouched(cache.after_checkout_pin2(serial, at), steps);
}

/// Use refreshes a reusable PIN1: taken out and given back at `now`, with nothing done to
/// PIN1 in between, it is handed out for another fifteen minutes from there. A PIN1 for
/// one use does not come back.
pub proof fn law_pin1_use(
    cache: CacheView,
    serial: Seq<char>,
    at: Moment,
    steps: Seq<CacheStep>,
    now: Moment,
)
    requires
        cache.consistent(),
        cache.serves_pin1(serial, at),
        forall|i: int| 0 <= i < steps.len() ==> !(#[trigger] steps[i]).touches_pin1(),
    ensures
        ({
            let entry = cache.pin1->Some_0;
            let back = cache.after_checkout_pin1(serial, at).run(steps).restored_pin1(entry, now);
            if entry.retention == Pin1Retention::OneShot {
                back.pin1 is None
            } else {
                &&& back.pin1 == Some(Pin1View { last_use: now, ..entry })
                &&& forall|later: Moment| #[trigger]
                    back.serves_pin1(serial, later) <==> within(now, later, PIN1_CACHE_LIFETIME)
            }
        }),
{
    lemma_pin1_untouched(cache.after_checkout_pin1(serial, at), steps);
}

/// The two PINs do not disturb each other: destroying one leaves the other.
pub proof fn law_pins_are_independent(cache: CacheView)
    ensures
        cache.without_pin1().pin2 == cache.pin2,
        cache.without_pin1().generation_pin2 == cache.generation_pin2,
        cache.without_pin2().pin1 == cache.pin1,
        cache.without_pin2().generation == cache.generation,
{
}

/// A PIN that was stored is handed out for its own card alone: a reusable PIN1 for fifteen
/// minutes, a PIN1 for one use for thirty seconds, a PIN2 for one minute.
pub proof fn law_lifetimes(
    cache: CacheView,
    serial: Seq<char>,
    pin: Seq<u8>,
    now: Moment,
    asked: Seq<char>,
    later: Moment,
)
    ensures
        ({
            let kept = cache.with_pin1(serial, pin, Pin1Retention::Reusable, now);
            &&& kept.serves_pin1(asked, later) <==> asked == serial && 0 <= later.nanos - now.nanos
                < 15 * 60 * 1_000_000_000
            &&& kept.pin1->Some_0.pin == pin
        }),
        ({
            let kept = cache.with_pin1(serial, pin, Pin1Retention::OneShot, now);
            &&& kept.serves_pin1(asked, later) <==> asked == serial && 0 <= later.nanos - now.nanos
                < 30 * 1_000_000_000
            &&& kept.pin1->Some_0.pin == pin
        }),
        ({
            let kept = cache.with_pin2(serial, pin, now);
            &&& kept.serves_pin2(asked, later) <==> asked == serial && 0 <= later.nanos - now.nanos
                < 60 * 1_000_000_000
            &&& kept.pin2->Some_0.pin == pin
        }),
{
}

/// Storing one PIN leaves the other, and no storing, taking out or giving back changes what
/// is known of rejected PINs.
pub proof fn law_storing_leaves_the_rest(
    cache: CacheView,
    serial: Seq<char>,
    pin: Seq<u8>,
    retention: Pin1Retention,
    now: Moment,
    first: Pin1View,
    second: Pin2View,
)
    ensures
        cache.with_pin1(serial, pin, retention, now).pin2 == cache.pin2,
        cache.with_pin2(serial, pin, now).pin1 == cache.pin1,
        forall|slot: PinSlot|
            {
                &&& cache.with_pin1(serial, pin, retention, now).rejected(slot)
                    == #[trigger] cache.rejected(slot)
                &&& cache.with_pin2(serial, pin, now).rejected(slot) == cache.rejected(slot)
                &&& cache.after_checkout_pin1(serial, now).rejected(slot) == cache.rejected(slot)
                &&& cache.after_checkout_pin2(serial, now).rejected(slot) == cache.rejected(slot)
                &&& cache.restored_pin1(first, now).rejected(slot) == cache.rejected(slot)
                &&& cache.restored_pin2(second).rejected(slot) == cache.rejected(slot)
            },
{
}

/// Whatever was asked for is no longer in the cache. A PIN that is handed out leaves the
/// generation of its slot as it was, so that it can come back; one that is destroyed moves
/// it on.
pub proof fn law_checkout_empties_the_slot(cache: CacheView, serial: Seq<char>, now: Moment)
    ensures
        cache.after_checkout_pin1(serial, now).pin1 is None,
        cache.after_checkout_pin2(serial, now).pin2 is None,
        cache.serves_pin1(serial, now) <==> cache.after_checkout_pin1(serial, now).generation
            == cache.generation,
        cache.serves_pin2(serial, now) <==> cache.after_checkout_pin2(serial, now).generation_pin2
            == cache.generation_pin2,
        cache.after_checkout_pin1(serial, now).pin2 == cache.pin2,
        cache.after_checkout_pin2(serial, now).pin1 == cache.pin1,
        !cache.after_look_pin1(now).pin1_live(now) ==> cache.after_look_pin1(now).pin1 is None,
        cache.pin1_live(now) ==> cache.after_look_pin1(now) == cache,
        !cache.after_look_pin2(now).pin2_live(now) ==> cache.after_look_pin2(now).pin2 is None,
        cache.pin2_live(now) ==> cache.after_look_pin2(now) == cache,
{
}

/// Recording a rejection makes known the PINs of that slot with the same fingerprint, and no
/// others.
pub proof fn law_recording_adds_one(
    cache: CacheView,
    serial: Seq<char>,
    slot: PinSlot,
    pin: Seq<u8>,
    other_serial: Seq<char>,
    other_slot: PinSlot,
    other_pin: Seq<u8>,
)
    ensures
        cache.with_rejected(serial, slot, pin).knows_rejected(other_serial, other_slot, other_pin)
            <==> {
            ||| cache.knows_rejected(other_serial, other_slot, other_pin)
            ||| other_slot == slot && fingerprint_of(cache.key, serial, slot, pin)
                == fingerprint_of(cache.key, other_serial, other_slot, other_pin)
        },
{
    let mark = fingerprint_of(cache.key, serial, slot, pin);
    let other = fingerprint_of(cache.key, other_serial, other_slot, other_pin);
    let before = cache.rejected(other_slot);
    let after = cache.with_rejected(serial, slot, pin).rejected(other_slot);
    if before.contains(other) {
        let i = choose|i: int| 0 <= i < before.len() && before[i] == other;
        assert(after[i] == other);
    }
    if after.contains(other) && !before.contains(other) {
        let i = choose|i: int| 0 <= i < after.len() && after[i] == other;
        if i < before.len() {
            assert(before[i] == other);
        }
    }
    if other_slot == slot && mark == other && !before.contains(mark) {
        assert(after.last() == mark);
    }
}

/// The fingerprint covers the length of the serial in four bytes, the serial, the number of
/// the slot, the number of digits and the digits.
pub proof fn law_fingerprint_in_bytes(key: Seq<u8>, serial: Seq<char>, slot: PinSlot, pin: Seq<u8>)
    requires
        encode_utf8(serial).len() <= u32::MAX,
    ensures
        ({
            let text = encode_utf8(serial);
            let n = text.len() as int;
            let message = seq![
                (n / 0x100_0000) as u8,
                (n / 0x1_0000 % 256) as u8,
                (n / 0x100 % 256) as u8,
                (n % 256) as u8,
            ] + text + seq![
                match slot {
                    PinSlot::Pin1 => 1u8,
                    PinSlot::Pin2 => 2u8,
                },
                pin.len() as u8,
            ] + pin;
            &&& fingerprint_input(serial, slot, pin) == message
            &&& hmac_sha256_of(key, message) matches Some(mark) ==> fingerprint_of(
                key,
                serial,
                slot,
                pin,
            ) == mark
        }),
{
    let n = encode_utf8(serial).len() as int;
    assert(be4(n) =~= seq![
        (n / 0x100_0000) as u8,
        (n / 0x1_0000 % 256) as u8,
        (n / 0x100 % 256) as u8,
        (n % 256) as u8,
    ]);
}

/// Different PINs, slots and cards have different messages under their fingerprints.
pub proof fn law_fingerprint_input_is_unambiguous(
    serial: Seq<char>,
    slot: PinSlot,
    pin: Seq<u8>,
    other_serial: Seq<char>,
    other_slot: PinSlot,
    other_pin: Seq<u8>,
)
    requires
        encode_utf8(serial).len() <= u32::MAX,
        encode_utf8(other_serial).len() <= u32::MAX,
        fingerprint_input(serial, slot, pin) == fingerprint_input(
            other_serial,
            other_slot,
            other_pin,
        ),
    ensures
        serial == other_serial && slot == other_slot && pin == other_pin,
{
    let text = encode_utf8(serial);
    let other = encode_utf8(other_serial);
    let n = text.len() as int;
    let m = other.len() as int;
    let tail = seq![slot_tag(slot), pin.len() as u8];
    let other_tail = seq![slot_tag(other_slot), other_pin.len() as u8];
    lemma_parts_of_input(be4(n), text, tail, pin);
    lemma_parts_of_input(be4(m), other, other_tail, other_pin);
    assert(be4(n) == be4(m));
    lemma_four_bytes_tell(n, m);
    crate::bytes::lemma_utf8_injective(serial, other_serial);
    assert(tail[0] == other_tail[0]);
}

proof fn lemma_parts_of_input(head: Seq<u8>, text: Seq<u8>, tail: Seq<u8>, pin: Seq<u8>)
    requires
        head.len() == 4,
        tail.len() == 2,
    ensures
        ({
            let all = head + text + tail + pin;
            let n = text.len() as int;
            &&& all.subrange(0, 4) == head
            &&& all.subrange(4, 4 + n) == text
            &&& all.subrange(4 + n, 6 + n) == tail
            &&& all.subrange(6 + n, all.len() as int) == pin
        }),
{
    let all = head + text + tail + pin;
    let n = text.len() as int;
    assert(all.subrange(0, 4) =~= head);
    assert(all.subrange(4, 4 + n) =~= text);
    assert(all.subrange(4 + n, 6 + n) =~= tail);
    assert(all.subrange(6 + n, all.len() as int) =~= pin);
}

proof fn lemma_four_bytes_tell(n: int, m: int)
    requires
        0 <= n <= u32::MAX,
        0 <= m <= u32::MAX,
        be4(n) == be4(m),
    ensures
        n == m,
{
    let a = be4(n);
    let b = be4(m);
    assert(a[0] == b[0] && a[1] == b[1] && a[2] == b[2] && a[3] == b[3]);
    assert(n == a[0] * 0x100_0000 + a[1] * 0x1_0000 + a[2] * 256 + a[3]) by {
        lemma_spelled_out(n);
    }
    assert(m == b[0] * 0x100_0000 + b[1] * 0x1_0000 + b[2] * 256 + b[3]) by {
        lemma_spelled_out(m);
    }
}

proof fn lemma_spelled_out(n: int)
    requires
        0 <= n <= u32::MAX,
    ensures
        ({
            let a = be4(n);
            n == a[0] * 0x100_0000 + a[1] * 0x1_0000 + a[2] * 256 + a[3]
        }),
{
    assert(0 <= n / 0x100_0000 < 256);
    assert(n / 0x100_0000 == n / 0x1_0000 / 256);
    assert(n / 0x1_0000 == n / 256 / 256);
}

/// A PIN2 that moves to another clock keeps its age: it was entered as long before `later`
/// as it was by its own clock, which is `ahead` nanoseconds ahead or `behind` behind.
pub proof fn law_moved_pin2_keeps_its_age(
    cache: CacheView,
    entry: Pin2View,
    ahead: u64,
    behind: u64,
    later: Moment,
)
    requires
        cache.pin2 is None,
        cache.generation_pin2 == entry.generation,
        i64::MIN <= entry.entered_at.nanos + ahead - behind <= i64::MAX,
    ensures
        cache.restored_moved(entry, ahead, behind).serves_pin2(entry.serial, later) <==> 0
            <= later.nanos - ahead + behind - entry.entered_at.nanos < 60 * 1_000_000_000,
        cache.restored_moved(entry, ahead, behind).pin2->Some_0.pin == entry.pin,
{
}

/// Taking a PIN out hands over the one that was stored, while it lives and for its card, and
/// leaves none behind, whether it was handed over or not.
pub proof fn law_stored_pin_is_handed_over(
    before: CacheView,
    serial: Seq<char>,
    now: Moment,
    first: Option<CheckedOutPin1>,
    second: Option<CheckedOutPin2>,
    after: CacheView,
)
    ensures
        checked_out_pin1(before, serial, now, first, after) ==> {
            &&& after.pin1 is None
            &&& first is Some <==> (before.pin1 matches Some(e) && e.serial == serial
                && e.last_use.nanos <= now.nanos && now.nanos - e.last_use.nanos
                < e.retention.limit())
            &&& first matches Some(c) ==> c@.pin == before.pin1->Some_0.pin
        },
        checked_out_pin2(before, serial, now, second, after) ==> {
            &&& after.pin2 is None
            &&& second is Some <==> (before.pin2 matches Some(e) && e.serial == serial
                && e.entered_at.nanos <= now.nanos && now.nanos - e.entered_at.nanos
                < 60_000_000_000)
            &&& second matches Some(c) ==> c@.pin == before.pin2->Some_0.pin
        },
{
}

/// A new cache keeps no PIN and knows none to be rejected.
pub proof fn law_new_cache_is_empty(
    key: Seq<u8>,
    clock: Instant,
    serial: Seq<char>,
    slot: PinSlot,
    pin: Seq<u8>,
    now: Moment,
)
    ensures
        !empty_cache(key, clock).knows_rejected(serial, slot, pin),
        !empty_cache(key, clock).serves_pin1(serial, now),
        !empty_cache(key, clock).serves_pin2(serial, now),
        empty_cache(key, clock).consistent(),
        empty_cache(key, clock).key == key,
{
}

} // verus!
