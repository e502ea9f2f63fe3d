use hmac::{Hmac, KeyInit, Mac};
use refineid::apdu::{Aid, AidError, PinRetries, StatusWord};
use refineid::atr::{Atr, AtrError};
use refineid::auth::PinSlot;
use refineid::ber::tlv;
use refineid::crypto::symmetric::Aes256Key;
use refineid::identity::TokenSerial;
use refineid::pace::{PaceSession, Ssc};
use refineid::pin::{PinBytes, PinRoleError};
use refineid::pin_retry_risk::PinRetryRisk;
use refineid::pin_cache::{
    fingerprint_message, Moment, Pin1Retention, PinSafetyCache, PreviouslyRejectedPin,
};
use refineid::secure_messaging::{
    cipher_blocks, seal_command, ReplyParts, SmError, SmTransport,
};
use refineid::signing_session::{BatchProgress, PinPromptReason, SigningStep};
use refineid::reader::IfdVersion;
use refineid::text::{Host, HostError, Path, Query, Scheme, Uri, UriCharError, UriError};
use refineid::transport::{
    CardTransport, CommandApdu, ResponseApdu, TransportDispatchError, TransportErrorExt,
    TransportErrorKind, TransportOutcome,
};
use sha2::Sha256;

fn pin(digits: &[u8]) -> PinBytes {
    PinBytes::new(digits.to_vec()).expect("valid code")
}

fn serial(text: &str) -> TokenSerial {
    TokenSerial::new(text.to_owned())
}

#[test]
fn pin_errors_have_texts() {
    assert_eq!(PinRoleError::Empty.message(), "PIN code cannot be empty");
    assert_eq!(
        PinBytes::new(vec![0x31; 3]).err().expect("short").message(),
        "PIN code wrong length: expected 4-12 digits"
    );
    assert_eq!(
        PinRoleError::WrongLength { expected_min: 7, expected_max: 7, got: 8 }.message(),
        "PIN code wrong length: expected exactly 7 digits"
    );
    assert_eq!(
        PinBytes::new(b"12 4".to_vec()).err().expect("space").message(),
        "PIN code must be ASCII digits only; non-digit at offset 2"
    );
}

#[test]
fn fingerprints_are_keyed_marks_over_card_slot_and_digits() {
    let mut cache = PinSafetyCache::with_fingerprint_key([7; 32]);
    cache.record_rejected(&serial("AB"), PinSlot::Pin2, &pin(b"123456"));
    let message = fingerprint_message(&serial("AB"), PinSlot::Pin2, &pin(b"123456")).expect("short");
    assert_eq!(message, b"\x00\x00\x00\x02AB\x02\x06123456".to_vec());
    let mut mac = Hmac::<Sha256>::new_from_slice(&[7; 32]).expect("any key length");
    mac.update(&message);
    let mark: [u8; 32] = mac.finalize().into_bytes().into();
    assert!(cache.has_mark(PinSlot::Pin2, &mark));
    assert!(!cache.has_mark(PinSlot::Pin1, &mark));
    cache.add_mark(PinSlot::Pin1, mark);
    assert!(cache.has_mark(PinSlot::Pin1, &mark));
}

#[test]
fn rejections_outlive_everything_else() {
    let now = Moment { nanos: 0 };
    let card = serial("CARD");
    let mut cache = PinSafetyCache::with_fingerprint_key([1; 32]);
    cache.record_rejected(&card, PinSlot::Pin1, &pin(b"1111"));
    cache
        .store_pin1_at(card.clone(), pin(b"2222"), Pin1Retention::Reusable, now)
        .expect("another value");
    cache.store_pin2_at(card.clone(), pin(b"333333"), now).expect("fresh");
    let taken = cache.checkout_pin1_at(&card, now).expect("live");
    assert_eq!(taken.pin().as_bytes(), b"2222");
    taken.restore_after_success_at(&mut cache, now);
    cache.record_rejected(&card, PinSlot::Pin2, &pin(b"444444"));
    cache.clear_positive();
    cache.clear_positive_pin2();
    assert!(cache.is_rejected(&card, PinSlot::Pin1, &pin(b"1111")));
    assert!(cache.is_rejected(&card, PinSlot::Pin2, &pin(b"444444")));
    assert_eq!(
        cache.debug_text(),
        "PinSafetyCache { positive_pin1: false, positive_pin2: false, generation: 4, \
         generation_pin2: 4, rejected_pin1_count: 1, rejected_pin2_count: 1, .. }"
    );
    assert_eq!(
        PreviouslyRejectedPin { slot: PinSlot::Pin2 }.message(),
        "PIN2 was previously rejected by the card"
    );
}

#[test]
fn the_running_clock_keeps_fresh_pins() {
    let mut cache = PinSafetyCache::new().expect("random bytes");
    assert!(!cache.has_positive_pin1());
    cache.store_pin1(serial("A"), pin(b"1234")).expect("fresh");
    assert!(cache.has_positive_pin1());
    let taken = cache.checkout_pin1(&serial("A")).expect("live");
    taken.restore_after_success(&mut cache);
    assert!(cache.has_positive_pin1());
    cache.stage_pin1_once(serial("A"), pin(b"1234")).expect("fresh");
    let taken = cache.checkout_pin1(&serial("A")).expect("live");
    taken.restore_after_success(&mut cache);
    assert!(!cache.has_positive_pin1());
    cache.store_pin2(serial("A"), pin(b"123456")).expect("fresh");
    assert!(cache.has_positive_pin2());
    let taken = cache.checkout_pin2(&serial("A")).expect("live");
    assert_eq!(taken.pin().as_bytes(), b"123456");
    taken.restore_after_success(&mut cache);
    assert!(cache.has_positive_pin2());
    assert!(cache.checkout_pin2(&serial("B")).is_none());
    assert!(!cache.has_positive_pin2());
}

#[test]
fn expired_pins_are_destroyed_when_looked_for() {
    let mut cache = PinSafetyCache::with_fingerprint_key([2; 32]);
    let entered = Moment { nanos: 10 };
    cache.store_pin2_at(serial("A"), pin(b"123456"), entered).expect("fresh");
    assert!(!cache.has_positive_pin2_at(Moment { nanos: 9 }));
    assert!(cache.checkout_pin2_at(&serial("A"), entered).is_none());
    cache
        .store_pin1_at(serial("A"), pin(b"1234"), Pin1Retention::OneShot, entered)
        .expect("fresh");
    assert!(cache.has_positive_pin1_at(Moment { nanos: 30_000_000_009 }));
    assert!(!cache.has_positive_pin1_at(Moment { nanos: 30_000_000_010 }));
}

#[test]
fn counters_carry_and_wrap() {
    let mut ssc = Ssc::from_bytes([0xFF; 16]);
    ssc.increment();
    assert_eq!(ssc, Ssc::initial());
    let mut bytes = [0_u8; 16];
    bytes[15] = 0xFF;
    bytes[14] = 0xFF;
    let mut ssc = Ssc::from_bytes(bytes);
    ssc.increment();
    assert_eq!(&ssc.as_bytes()[12..], &[0x00, 0x01, 0x00, 0x00]);
}

struct Echo {
    reply: Result<TransportOutcome, String>,
}

impl CardTransport for Echo {
    type Error = String;

    fn transmit_outcome(&mut self, _: &CommandApdu) -> Result<TransportOutcome, Self::Error> {
        match &self.reply {
            Ok(TransportOutcome::Response(r)) => Ok(TransportOutcome::Response(r.clone())),
            Ok(_) => Ok(TransportOutcome::NoCard),
            Err(e) => Err(e.clone()),
        }
    }

    fn atr(&self) -> Result<Atr, AtrError> {
        Atr::new(&[0x3B, 0x00])
    }
}

fn session() -> PaceSession {
    PaceSession {
        k_enc: Aes256Key::from_bytes([1; 32]).expect("not zero"),
        k_mac: Aes256Key::from_bytes([2; 32]).expect("not zero"),
        ssc: Ssc::initial(),
    }
}

fn answered(body: &[u8], sw1: u8, sw2: u8) -> Echo {
    Echo { reply: Ok(TransportOutcome::Response(ResponseApdu { body: body.to_vec(), sw1, sw2 })) }
}

#[test]
fn commands_that_cannot_be_wrapped() {
    let mut sm = SmTransport::new(answered(&[], 0x90, 0x00), session());
    assert!(matches!(
        sm.wrap(&[0x00, 0xA4, 0x00]),
        Err(SmError::Malformed("APDU shorter than 4-byte header"))
    ));
    assert!(matches!(
        sm.wrap(&[0x00, 0xA4, 0x00, 0x00, 0x05, 0x01]),
        Err(SmError::Malformed("APDU does not match a short-form case"))
    ));
    assert_eq!(sm.ssc(), Ssc::initial());
    let mut long = vec![0x00, 0x20, 0x00, 0x00, 0xFF];
    long.extend_from_slice(&[0; 255]);
    assert!(matches!(sm.wrap(&long), Err(SmError::CommandTooLong)));
    assert_ne!(sm.ssc(), Ssc::initial());
    assert_eq!(sm.atr().expect("answer to reset").to_wire_bytes(), vec![0x3B, 0x00]);
}

#[test]
fn bare_replies_and_outcomes_pass_through_protection() {
    let command = CommandApdu::from_slice(&[0x00, 0xA4, 0x00, 0x0C]);
    let mut sm = SmTransport::new(answered(&[], 0x69, 0x88), session());
    assert_eq!(
        sm.transmit_outcome(&command).expect("bare reply"),
        TransportOutcome::Response(ResponseApdu { body: vec![], sw1: 0x69, sw2: 0x88 })
    );
    let mut sm = SmTransport::new(Echo { reply: Ok(TransportOutcome::NoCard) }, session());
    assert_eq!(sm.transmit_outcome(&command).expect("outcome"), TransportOutcome::NoCard);
    let mut sm = SmTransport::new(Echo { reply: Err("gone".to_owned()) }, session());
    let err = sm.transmit_outcome(&command).expect_err("fault");
    assert_eq!(err.kind(), TransportErrorKind::Backend);
    assert_eq!(err.message("gone"), "SM transport: gone");
    let mut sm = SmTransport::new(answered(&[0x99], 0x90, 0x00), session());
    let err = sm.transmit_outcome(&command).expect_err("broken reply");
    assert_eq!(err.kind(), TransportErrorKind::ProtocolDesync);
    sm.rekey(
        Aes256Key::from_bytes([3; 32]).expect("not zero"),
        Aes256Key::from_bytes([4; 32]).expect("not zero"),
    );
    assert_eq!(sm.ssc(), Ssc::initial());
    sm.replace_session(session());
    sm.inner_mut().reply = Ok(TransportOutcome::NoCard);
    assert!(sm.inner().reply.is_ok());
    assert!(sm.into_inner().reply.is_ok());
}

#[test]
fn reply_parts_have_shapes() {
    let fault = |bytes: &[u8]| match ReplyParts::read::<()>(bytes) {
        Err(SmError::Malformed(what)) => what,
        _ => "",
    };
    assert_eq!(fault(&[0x99, 0x05]), "BER parse failed");
    assert_eq!(fault(&tlv(0x8E, &[0; 8])), "no DO99");
    assert_eq!(fault(&tlv(0x99, &[0x90, 0x00])), "no DO8E");
    assert_eq!(fault(&[tlv(0x99, &[0x90]), tlv(0x8E, &[0; 8])].concat()), "DO99 not 2 bytes");
    assert_eq!(fault(&[tlv(0x99, &[0x90, 0]), tlv(0x8E, &[0; 7])].concat()), "DO8E not 8 bytes");
    let reply = [tlv(0x99, &[0x62, 0x82]), tlv(0x8E, &[5; 8]), tlv(0x99, &[0x90, 0x00])].concat();
    let parts = ReplyParts::read::<()>(&reply).expect("whole");
    assert_eq!(parts.status, &[0x90, 0x00]);
    assert_eq!(parts.content(), tlv(0x99, &[0x90, 0x00]));
    assert!(matches!(cipher_blocks::<()>(&[]), Err(SmError::Malformed("DO87 empty"))));
    assert!(matches!(
        cipher_blocks::<()>(&[0x02]),
        Err(SmError::Malformed("DO87 missing 0x01 indicator"))
    ));
    assert!(matches!(
        cipher_blocks::<()>(&[0x01, 0x00]),
        Err(SmError::Malformed("DO87 cipher not whole blocks"))
    ));
    assert_eq!(cipher_blocks::<()>(&[0x01]).expect("no block"), &[] as &[u8]);
    assert_eq!(
        seal_command::<()>(&[0x0C, 0xB0, 0x00, 0x00], vec![0x97, 0x01, 0x10], &[9; 8]).expect("fits"),
        vec![
            0x0C, 0xB0, 0x00, 0x00, 0x0D, 0x97, 0x01, 0x10, 0x8E, 0x08, 9, 9, 9, 9, 9, 9, 9, 9, 0x00,
        ]
    );
}

#[test]
fn batches_count() {
    let progress = BatchProgress { signed: 7, total: 20 };
    assert_eq!(progress.remaining(), 13);
    assert!(!progress.is_complete());
    assert!(BatchProgress { signed: 20, total: 20 }.is_complete());
    assert_eq!(BatchProgress { signed: 3, total: 2 }.remaining(), 0);
    let step = SigningStep::NeedsPin {
        slot: PinSlot::Pin2,
        progress,
        remaining: PinRetries::from_nibble(3).expect("nibble"),
        reason: PinPromptReason::NotCached,
    };
    assert_eq!(step.progress(), progress);
    assert_eq!(step.pin_slot(), Some(PinSlot::Pin2));
    assert_eq!(SigningStep::Finished { progress }.pin_slot(), None);
}

#[test]
fn status_words_and_identifiers() {
    assert_eq!(StatusWord::from_bytes(0x6A, 0x82), StatusWord::FileNotFound);
    assert_eq!(StatusWord::from_bytes(0x63, 0xC3).as_u16(), 0x63C3);
    assert!(PinRetries::from_nibble(16).is_none());
    assert_eq!(Aid::from_slice(&[0; 4]), Err(AidError::Length { got: 4 }));
    assert!(Aid::from_slice(&[0; 16]).is_ok());
    assert_eq!(Atr::new(&[0x3B]).expect_err("short"), AtrError::Length { got: 1 });
    assert_eq!(
        Atr::new(&[0x00, 0x00]).expect_err("convention"),
        AtrError::InitialCharacter { byte: 0x00 }
    );
}

#[test]
fn reader_versions_are_four_bytes() {
    assert!(IfdVersion::from_attribute(&[1, 2, 3]).is_none());
    assert!(IfdVersion::from_attribute(&[1, 2, 3, 4]).is_some());
}

#[test]
fn outcomes_have_texts() {
    let response = ResponseApdu { body: vec![1, 2], sw1: 0x90, sw2: 0x00 };
    assert_eq!(
        TransportOutcome::Response(response).message(),
        "response SW=0x9000 body=2B"
    );
    assert_eq!(TransportOutcome::NoCard.message(), "no card present");
    let err: TransportDispatchError<String> =
        TransportDispatchError::Outcome(TransportOutcome::ReaderRemoved);
    assert_eq!(err.kind(), TransportErrorKind::ReaderRemoved);
    assert_eq!("text".to_owned().kind(), TransportErrorKind::Backend);
}

#[test]
fn addresses_fail_component_by_component() {
    let fault = |text: &str| Uri::parse(text.to_owned()).expect_err("no address");
    assert_eq!(fault("gopher://x/"), UriError::Scheme);
    assert_eq!(fault("http:///path"), UriError::Host(HostError::Empty));
    assert!(matches!(fault("http://h/a b"), UriError::Path(UriCharError::IllegalByte { .. })));
    assert!(matches!(fault("http://h/?a b"), UriError::Query(UriCharError::IllegalByte { .. })));
    assert_eq!(Scheme::Https.default_port(), 443);
    assert_eq!(Host::parse("EXAMPLE.test".to_owned()).expect("host").to_text(), "example.test");
    assert_eq!(Path::parse(String::new()).expect("path").to_text(), "/");
    assert!(Query::parse(String::new()).expect("query").is_empty());
}

#[test]
fn the_longest_address_may_grow_when_rendered() {
    let mut text = "http://h?".to_owned();
    while text.len() < 8000 {
        text.push('a');
    }
    let once = Uri::parse(text).expect("as long as allowed");
    assert_eq!(once.to_text().len(), 8001);
    assert!(matches!(Uri::parse(once.to_text()), Err(UriError::TooLong { len: 8001 })));
}

#[test]
fn absolute_locations_replace_the_base_in_any_case() {
    let base = Uri::parse("https://sp.example.test/app/login".to_owned()).expect("base");
    let joined = |location: &str| base.join(location.to_owned()).expect("resolves").to_text();
    assert_eq!(joined("HTTPS://other.example.test/x"), "https://other.example.test/x");
    assert_eq!(joined("Http://other.example.test/"), "http://other.example.test/");
    assert_eq!(joined("httpsx"), "https://sp.example.test/app/httpsx");
}

#[test]
fn pin2_keeps_its_deadline_in_another_cache() {
    let mut first = PinSafetyCache::with_fingerprint_key([1; 32]);
    let mut second = PinSafetyCache::with_fingerprint_key([2; 32]);
    let entered = Moment { nanos: 100 };
    first.store_pin2_at(serial("A"), pin(b"123456"), entered).expect("fresh");
    second.store_pin2_at(serial("A"), pin(b"123456"), entered).expect("fresh");
    second.checkout_pin2_at(&serial("A"), entered).expect("live");
    let taken = first.checkout_pin2_at(&serial("A"), entered).expect("live");
    taken.restore_moved(&mut second, 0, 150);
    assert!(second.has_positive_pin2_at(Moment { nanos: 59_999_999_949 }));
    assert!(!second.has_positive_pin2_at(Moment { nanos: 59_999_999_950 }));
}

#[test]
fn pin2_of_an_older_cache_expires_in_time() {
    let mut older = PinSafetyCache::with_fingerprint_key([1; 32]);
    let mut newer = PinSafetyCache::with_fingerprint_key([2; 32]);
    older.store_pin2_at(serial("A"), pin(b"123456"), Moment { nanos: -60_000_000_000 }).expect("kept");
    newer.clear_positive_pin2();
    let taken = older.checkout_pin2_at(&serial("A"), Moment { nanos: -1 }).expect("live");
    taken.restore_after_success(&mut newer);
    assert!(!newer.has_positive_pin2());
    older.store_pin2(serial("A"), pin(b"123456")).expect("kept");
    newer.clear_positive_pin2();
    let taken = older.checkout_pin2(&serial("A")).expect("live");
    taken.restore_after_success(&mut newer);
    assert!(newer.has_positive_pin2());
}

#[test]
fn rejections_and_stores_bar_what_was_taken_out() {
    let now = Moment { nanos: 0 };
    let card = serial("A");
    let mut cache = PinSafetyCache::with_fingerprint_key([1; 32]);
    cache.store_pin1_at(card.clone(), pin(b"1111"), Pin1Retention::Reusable, now).expect("fresh");
    cache.store_pin2_at(card.clone(), pin(b"111111"), now).expect("fresh");
    let one = cache.checkout_pin1_at(&card, now).expect("live");
    let two = cache.checkout_pin2_at(&card, now).expect("live");
    cache.record_rejected(&card, PinSlot::Pin1, &pin(b"9999"));
    one.restore_after_success_at(&mut cache, now);
    two.restore_after_success(&mut cache);
    assert!(!cache.has_positive_pin1_at(now));
    assert!(!cache.has_positive_pin2_at(now));
    cache.store_pin1_at(card.clone(), pin(b"1111"), Pin1Retention::Reusable, now).expect("fresh");
    let one = cache.checkout_pin1_at(&card, now).expect("live");
    cache.store_pin1_at(card.clone(), pin(b"2222"), Pin1Retention::Reusable, now).expect("fresh");
    one.restore_after_success_at(&mut cache, now);
    let kept = cache.checkout_pin1_at(&card, now).expect("live");
    assert_eq!(kept.pin().as_bytes(), b"2222");
}

#[test]
fn the_longest_field_that_can_be_protected() {
    let command = |n: u8, le: bool| {
        let mut v = vec![0x00, 0x20, 0x00, 0x00, n];
        v.extend_from_slice(&vec![0; usize::from(n)]);
        if le {
            v.push(0x00);
        }
        v
    };
    let mut sm = SmTransport::new(answered(&[], 0x90, 0x00), session());
    assert_eq!(sm.wrap(&command(239, false)).expect("fits").len(), 6 + 4 + 240 + 10);
    assert!(matches!(sm.wrap(&command(240, false)), Err(SmError::CommandTooLong)));
    assert_eq!(sm.wrap(&command(223, true)).expect("fits").len(), 6 + 4 + 224 + 3 + 10);
    assert!(matches!(sm.wrap(&command(224, true)), Err(SmError::CommandTooLong)));
}

#[test]
fn severities_are_ordered() {
    let risk = |n: u8| {
        PinRetryRisk::from_retries(PinRetries::from_nibble(n).expect("nibble")).expect("at most five")
    };
    for a in 0..5 {
        for b in a + 1..6 {
            assert!(risk(a) > risk(b));
            assert_eq!(risk(a).cmp(&risk(b)), std::cmp::Ordering::Greater);
        }
    }
    assert_eq!(risk(3).attempts_left(), 3);
}
