use refineid::atr::{Atr, AtrError, MINIMAL_DIRECT_ATR};
use refineid::backend::{
    resolve_reader, ReaderAccessCap, ReaderBackend, ReaderFilter, ReaderId, ReaderInfo,
    ReaderPickError,
};
use refineid::ber::tlv;
use refineid::pkcs15::{
    classify_card_generation, classify_card_generation_by_issuance, der_object_total_length,
    enumerate_contactless_readers, enumerate_fineid_readers, pick_contactless_reader,
    pick_fineid_reader, CardGeneration, CertSlot, Fci, FineidReaderPicker, Pkcs15Error, Pkcs15Ops,
    TokenInfo,
};
use refineid::transport::{
    CardTransport, CommandApdu, ResponseApdu, TransportDispatchError, TransportOutcome,
};
use refineid::trust_roots::{RootCertificates, RootStore};
use refineid::x509::{DateTime, Name};

#[derive(Clone)]
struct Card {
    script: Vec<(Vec<u8>, ResponseApdu)>,
    cursor: usize,
}

impl Card {
    fn new(script: Vec<(Vec<u8>, ResponseApdu)>) -> Self {
        Card { script, cursor: 0 }
    }
}

impl CardTransport for Card {
    type Error = String;

    fn transmit_outcome(&mut self, apdu: &CommandApdu) -> Result<TransportOutcome, Self::Error> {
        let Some((expected, response)) = self.script.get(self.cursor) else {
            return Err(format!("script exhausted at step {}", self.cursor));
        };
        if expected != apdu.as_bytes() {
            return Err(format!("step {}: unexpected command", self.cursor));
        }
        self.cursor += 1;
        Ok(TransportOutcome::Response(response.clone()))
    }

    fn atr(&self) -> Result<Atr, AtrError> {
        Atr::new(&MINIMAL_DIRECT_ATR)
    }
}

fn ok(body: &[u8]) -> ResponseApdu {
    ResponseApdu { body: body.to_vec(), sw1: 0x90, sw2: 0x00 }
}

fn sw(word: u16) -> ResponseApdu {
    let [sw1, sw2] = word.to_be_bytes();
    ResponseApdu { body: vec![], sw1, sw2 }
}

fn select_app() -> Vec<u8> {
    vec![
        0x00, 0xA4, 0x04, 0x0C, 0x0C, 0xA0, 0x00, 0x00, 0x00, 0x63, 0x50, 0x4B, 0x43, 0x53, 0x2D,
        0x31, 0x35,
    ]
}

fn select(p1: u8, fid: [u8; 2]) -> Vec<u8> {
    vec![0x00, 0xA4, p1, 0x0C, 0x02, fid[0], fid[1]]
}

fn read(offset: u16, le: u8) -> Vec<u8> {
    let [hi, lo] = offset.to_be_bytes();
    vec![0x00, 0xB0, hi, lo, le]
}

const OBJECT: [u8; 4] = [0x30, 0x02, 0x05, 0x00];

#[test]
fn slots_are_reached_on_their_own_paths() {
    let mut card = Card::new(vec![
        (select(0x00, [0x3F, 0x00]), ok(&[])),
        (select(0x01, [0x50, 0x16]), ok(&[])),
        (select(0x02, [0x43, 0x32]), ok(&[])),
        (read(0, 0x80), ok(&OBJECT)),
    ]);
    let der = card.read_certificate(CertSlot::Signature).expect("reads");
    assert_eq!(der.as_bytes(), &OBJECT);

    let mut card = Card::new(vec![
        (select(0x00, [0x3F, 0x00]), sw(0x6A82)),
        (select(0x04, [0x3F, 0x00]), ok(&[])),
        (select(0x02, [0x43, 0x34]), ok(&[])),
        (read(0, 0x80), ok(&OBJECT)),
    ]);
    assert_eq!(card.read_certificate(CertSlot::RootCa).expect("reads").as_bytes(), &OBJECT);
}

#[test]
fn a_missing_directory_ends_the_walk() {
    let mut card = Card::new(vec![
        (select(0x00, [0x3F, 0x00]), ok(&[])),
        (select(0x01, [0x50, 0x16]), sw(0x6A86)),
        (vec![0x00, 0xA4, 0x00, 0x00, 0x02, 0x50, 0x16], sw(0x6A82)),
    ]);
    let err = card.read_certificate(CertSlot::SignatureAlt).expect_err("missing");
    assert!(matches!(err, Pkcs15Error::Sw(0x6A82)));
    assert_eq!(err.message(""), "PKCS#15: card returned SW=0x6A82");
    assert_eq!(card.cursor, 3);
}

#[test]
fn slot_facts() {
    assert_eq!(CertSlot::IssuingCaEcc.fid(), [0x43, 0x36]);
    assert_eq!(CertSlot::AuthenticationAlt.label(), "authentication, alt slot (EF.4333)");
    assert!(!CertSlot::Authentication.requires_mf_traversal());
    for slot in [
        CertSlot::Signature,
        CertSlot::AuthenticationAlt,
        CertSlot::RootCa,
        CertSlot::SignatureAlt,
        CertSlot::IssuingCaEcc,
    ] {
        assert!(slot.requires_mf_traversal());
    }
    assert_eq!(CertSlot::all().len(), 5);
    assert_eq!(CertSlot::all()[3], CertSlot::RootCa);
}

#[test]
fn object_reads_fail_where_the_object_is_broken() {
    let fault = |replies: Vec<(Vec<u8>, ResponseApdu)>| {
        Card::new(replies).read_binary_der_object("file").expect_err("broken")
    };
    assert!(matches!(fault(vec![(read(0, 0x80), ok(&[]))]), Pkcs15Error::Empty));
    assert!(matches!(
        fault(vec![(read(0, 0x80), ok(&[0x30, 0x80]))]),
        Pkcs15Error::InvalidData("file")
    ));
    assert!(matches!(
        fault(vec![(read(0, 0x80), ok(&[0x30, 0x05, 0x00]))]),
        Pkcs15Error::InvalidData("file")
    ));
    assert!(matches!(
        fault(vec![(read(0, 0x80), ok(&[0x00; 0x81]))]),
        Pkcs15Error::InvalidData("file")
    ));
    assert!(matches!(
        fault(vec![(read(0, 0x80), ok(&[0x30, 0x82, 0x40, 0x00]))]),
        Pkcs15Error::TooLarge
    ));
    assert!(matches!(fault(vec![(read(0, 0x80), sw(0x6982))]), Pkcs15Error::Sw(0x6982)));
    let mut long = vec![0x30, 0x81, 0x90];
    long.resize(0x80, 0);
    assert!(matches!(
        fault(vec![(read(0, 0x80), ok(&long)), (read(0x80, 0x13), ok(&[]))]),
        Pkcs15Error::InvalidData("file")
    ));
    assert_eq!(Pkcs15Error::<()>::InvalidData("file").message(""), "PKCS#15: malformed file");
    assert_eq!(Pkcs15Error::<()>::TooLarge.message(""), "PKCS#15: cert exceeds 16384 bytes");
    assert_eq!(Pkcs15Error::<()>::Empty.message(""), "PKCS#15: read returned no bytes");
}

#[test]
fn end_of_file_may_end_an_object() {
    let mut card = Card::new(vec![(
        read(0, 0x80),
        ResponseApdu { body: OBJECT.to_vec(), sw1: 0x62, sw2: 0x82 },
    )]);
    assert_eq!(card.read_binary_der_object("file").expect("whole"), OBJECT);
}

#[test]
fn reads_to_the_end_have_bounds() {
    let err = Card::new(vec![]).read_binary_to_end(Some(0)).expect_err("nothing to read");
    assert!(matches!(err, Pkcs15Error::Empty));
    let err = Card::new(vec![(read(0, 0x80), ok(&[]))]).read_binary_to_end(None).expect_err("empty");
    assert!(matches!(err, Pkcs15Error::Empty));
    let err = Card::new(vec![(read(0, 0x80), ok(&vec![0; 0x4001]))])
        .read_binary_to_end(None)
        .expect_err("too much");
    assert!(matches!(err, Pkcs15Error::TooLarge));
    let err = Card::new(vec![]).read_binary_to_end(None).expect_err("transport");
    assert!(matches!(err, Pkcs15Error::Transport(TransportDispatchError::Error(_))));
}

#[test]
fn object_lengths() {
    assert_eq!(der_object_total_length(&[0x30]), Ok(None));
    assert_eq!(der_object_total_length(&[0x30, 0x7F]), Ok(Some(0x81)));
    assert_eq!(der_object_total_length(&[0x30, 0x81]), Ok(None));
    assert_eq!(der_object_total_length(&[0x30, 0x81, 0x90]), Ok(Some(0x93)));
    assert_eq!(der_object_total_length(&[0x30, 0x82, 0x01, 0x00]), Ok(Some(0x104)));
    assert_eq!(der_object_total_length(&[0x30, 0x83, 0x01, 0x00, 0x00]), Err(()));
    assert_eq!(der_object_total_length(&[0x30, 0x80]), Err(()));
}

fn token_info(strings: &[(u8, &[u8])]) -> Vec<u8> {
    let mut body = tlv(0x02, &[0x01]);
    body.extend_from_slice(&tlv(0x04, &[0xAB, 0x0C]));
    for (tag, text) in strings {
        body.extend_from_slice(&tlv(*tag, text));
    }
    tlv(0x30, &body)
}

#[test]
fn token_information_is_parsed() {
    let info = TokenInfo::parse(&token_info(&[(0x0C, b"DVV"), (0x80, b"FINEID")])).expect("parses");
    assert_eq!(info.version, Some(1));
    assert_eq!(info.serial_number_hex.expect("serial").as_str(), "ab0c");
    assert_eq!(info.manufacturer_id.as_deref(), Some("DVV"));
    assert_eq!(info.label.as_deref(), Some("FINEID"));

    let info = TokenInfo::parse(&token_info(&[(0x13, b"A"), (0x0C, b"B"), (0x0C, b"C")]))
        .expect("parses");
    assert_eq!(info.manufacturer_id.as_deref(), Some("A"));
    assert_eq!(info.label.as_deref(), Some("B"));

    let info = TokenInfo::parse(&token_info(&[(0x0C, &[0x44, 0xFF])])).expect("parses");
    assert_eq!(info.manufacturer_id.as_deref(), Some("D\u{FFFD}"));

    let info = TokenInfo::parse(&tlv(0x30, &tlv(0x04, &[1]))).expect("parses");
    assert_eq!(info.version, None);
    assert!(info.serial_number_hex.is_none());
    assert!(TokenInfo::parse(&tlv(0x31, &[])).is_err());
}

#[test]
fn broken_token_information_is_named() {
    let mut card = Card::new(vec![
        (select_app(), ok(&[])),
        (select(0x02, [0x50, 0x32]), ok(&[])),
        (read(0, 0x80), ok(&[0x31, 0x00])),
    ]);
    let err = card.read_token_info().expect_err("no SEQUENCE");
    assert!(matches!(err, Pkcs15Error::InvalidData("EF.TokenInfo")));
}

#[test]
fn file_sizes_of_unknown_templates() {
    assert_eq!(Fci::new(vec![0x6F, 0x02, 0x82, 0x00]).parse_file_size(), None);
    assert_eq!(Fci::new(vec![]).parse_file_size(), None);
    assert_eq!(Fci::new(vec![0x62, 0x02, 0x81, 0x00]).as_bytes(), &[0x62, 0x02, 0x81, 0x00]);
    assert_eq!(Fci::new(vec![0x62, 0x02, 0x81, 0x00]).parse_file_size(), Some(0));
}

fn name_with_cn(cn: &str) -> Vec<u8> {
    let mut atv = tlv(0x06, &[0x55, 0x04, 0x03]);
    atv.extend_from_slice(&tlv(0x0C, cn.as_bytes()));
    tlv(0x30, &tlv(0x31, &tlv(0x30, &atv)))
}

#[test]
fn generations_by_issuer() {
    let classify = |cn: &str| {
        let der = name_with_cn(cn);
        classify_card_generation(Name::from_validated(&der))
    };
    assert_eq!(classify("DVV Citizen Certificates - G4R"), CardGeneration::Older);
    assert_eq!(classify("DVV Citizen Certificates - G4E"), CardGeneration::Newer);
    assert_eq!(classify("DVV Citizen Certificates - G5E"), CardGeneration::Newer);
    assert_eq!(classify("DVV Citizen Certificates - G2E"), CardGeneration::Unknown);
    assert_eq!(classify("DVV Citizen Certificates - G3R"), CardGeneration::Older);
    assert_eq!(classify("DVV Citizen Certificates - G3E"), CardGeneration::Newer);
    assert_eq!(classify("G4"), CardGeneration::Unknown);
    assert_eq!(classify("G4 CENTER"), CardGeneration::Unknown);
    assert_eq!(classify("G4R"), CardGeneration::Unknown);
    assert_eq!(classify("CA - G4R "), CardGeneration::Unknown);
    assert_eq!(classify("CA - g4R"), CardGeneration::Unknown);
    assert_eq!(classify_card_generation(Name::from_validated(&[0x30, 0x00])), CardGeneration::Unknown);
}

#[test]
fn generations_by_issuance() {
    let on = |y: u16, m: u8, d: u8| {
        classify_card_generation_by_issuance(DateTime::new(y, m, d, 0, 0, 0).expect("valid"))
    };
    assert_eq!(on(2026, 1, 12), CardGeneration::Older);
    assert_eq!(on(2026, 1, 13), CardGeneration::Newer);
    assert_eq!(on(2025, 12, 31), CardGeneration::Older);
    assert_eq!(on(2026, 2, 1), CardGeneration::Newer);
    assert_eq!(CardGeneration::Older.activation_pin_length(), Some(8));
    assert_eq!(CardGeneration::Newer.activation_pin_length(), Some(7));
    assert_eq!(CardGeneration::Unknown.activation_pin_length(), None);
}

struct Shelf {
    readers: Result<Vec<(&'static str, bool, Vec<(Vec<u8>, ResponseApdu)>)>, ()>,
}

impl ReaderBackend for Shelf {
    type Transport = Card;
    type Error = ();

    fn enumerate(&self) -> Result<Vec<ReaderInfo>, ()> {
        match &self.readers {
            Ok(readers) => Ok(readers
                .iter()
                .map(|(name, card_present, _)| ReaderInfo {
                    id: ReaderId::new((*name).to_owned()),
                    card_present: *card_present,
                })
                .collect()),
            Err(()) => Err(()),
        }
    }

    fn open_exclusive(&self, reader: &ReaderId, _: ReaderAccessCap) -> Result<Card, ()> {
        let Ok(readers) = &self.readers else {
            return Err(());
        };
        readers
            .iter()
            .find(|(name, _, _)| *name == reader.as_str())
            .map(|(_, _, script)| Card::new(script.clone()))
            .ok_or(())
    }
}

fn fineid_script(serial: &[u8]) -> Vec<(Vec<u8>, ResponseApdu)> {
    let mut body = tlv(0x02, &[0x00]);
    body.extend_from_slice(&tlv(0x04, serial));
    vec![
        (select_app(), ok(&[])),
        (select(0x02, [0x50, 0x32]), ok(&[])),
        (read(0, 0x80), ok(&tlv(0x30, &body))),
        (select_app(), ok(&[])),
        (select(0x02, [0x43, 0x31]), sw(0x6A82)),
        (select(0x00, [0x43, 0x31]), sw(0x6A82)),
    ]
}

#[test]
fn the_one_fineid_card_is_picked() {
    let shelf = Shelf {
        readers: Ok(vec![
            ("Empty", false, vec![]),
            ("Token", true, vec![]),
            ("Reader A", true, fineid_script(&[0x12, 0x34])),
        ]),
    };
    let pick = pick_fineid_reader(&shelf, None).expect("one card");
    assert_eq!(pick.reader_id.as_str(), "Reader A");
    assert_eq!(pick.identity.surname, None);
    let listed = enumerate_fineid_readers(&shelf, None).expect("lists");
    assert_eq!(listed.len(), 1);
    let none = enumerate_fineid_readers(&shelf, Some(&ReaderFilter::new("Token"))).expect("lists");
    assert!(none.is_empty());
}

#[test]
fn picking_is_never_a_guess() {
    let two = Shelf {
        readers: Ok(vec![
            ("Reader A", true, fineid_script(&[1])),
            ("Reader B", true, fineid_script(&[2])),
        ]),
    };
    match two.pick_fineid_reader(None) {
        Err(ReaderPickError::MultipleReadersNoFilter { available }) => {
            assert_eq!(available, ["Reader A", "Reader B"]);
        }
        other => panic!("unexpected {other:?}"),
    }
    match two.pick_fineid_reader(Some(&ReaderFilter::new("Reader"))) {
        Err(ReaderPickError::AmbiguousFilter { filter, matched }) => {
            assert_eq!(filter, "Reader");
            assert_eq!(matched.len(), 2);
        }
        other => panic!("unexpected {other:?}"),
    }
    match two.pick_fineid_reader(Some(&ReaderFilter::new("C"))) {
        Err(ReaderPickError::NoMatchingReader { filter, available }) => {
            assert_eq!(filter, "C");
            assert_eq!(available, ["Reader A", "Reader B"]);
        }
        other => panic!("unexpected {other:?}"),
    }
    let pick = two.pick_fineid_reader(Some(&ReaderFilter::new("B"))).expect("one matches");
    assert!(pick.identity.first_name.is_none() && pick.identity.peuin.is_none());
}

#[test]
fn picks_without_candidates() {
    let broken = Shelf { readers: Err(()) };
    assert!(matches!(pick_fineid_reader(&broken, None), Err(ReaderPickError::NoReaders)));
    assert!(matches!(enumerate_fineid_readers(&broken, None), Err(ReaderPickError::NoReaders)));
    let bare = Shelf { readers: Ok(vec![]) };
    assert!(matches!(pick_contactless_reader(&bare, None), Err(ReaderPickError::NoReaders)));
    assert!(matches!(enumerate_contactless_readers(&bare, None), Err(ReaderPickError::NoReaders)));
    assert!(enumerate_fineid_readers(&bare, None).expect("no reader is no error").is_empty());
    let empty = Shelf { readers: Ok(vec![("Reader", false, vec![])]) };
    assert!(matches!(pick_fineid_reader(&empty, None), Err(ReaderPickError::NoCardPresent)));
    let token = Shelf { readers: Ok(vec![("Reader", true, vec![])]) };
    assert!(matches!(
        pick_fineid_reader(&token, None),
        Err(ReaderPickError::NoFineidCard { available }) if available == ["Reader"]
    ));
    assert!(enumerate_contactless_readers(&token, None).expect("lists").is_empty());
}

#[test]
fn filters_decide_between_candidates() {
    let candidates = vec![ReaderId::new("one".to_owned()), ReaderId::new("other".to_owned())];
    assert_eq!(resolve_reader(&candidates, Some(&ReaderFilter::new("one"))), Ok(0));
    assert_eq!(resolve_reader(&candidates, Some(&ReaderFilter::new("the"))), Ok(1));
}

#[test]
fn roots_are_read_once() {
    let root = [0x30, 0x01, 0x01];
    let mut card = Card::new(vec![
        (select(0x00, [0x3F, 0x00]), ok(&[])),
        (select(0x02, [0x43, 0x34]), ok(&[])),
        (read(0, 0x80), ok(&root)),
        (select(0x00, [0x3F, 0x00]), ok(&[])),
        (select(0x02, [0x43, 0x36]), sw(0x6A82)),
        (select(0x00, [0x43, 0x36]), sw(0x6A82)),
    ]);
    let mut store = RootStore::new();
    assert!(store.active_root_certificates().is_none());
    let roots = store.fetch_and_cache_from_card(&mut card).expect("one certificate");
    assert_eq!(roots.certs(), vec![&root[..]]);
    assert_eq!(card.cursor, 6);
    assert!(store.fetch_and_cache_from_card(&mut card).is_some());
    assert_eq!(card.cursor, 6);
    assert_eq!(
        store.set_root_certificates(RootCertificates::default()),
        Err("already initialized")
    );
    let mut other = RootStore::new();
    assert_eq!(other.set_root_certificates(RootCertificates::new(Some(vec![1]), None)), Ok(()));
    let mut silent = Card::new(vec![]);
    assert!(RootStore::new().fetch_and_cache_from_card(&mut silent).is_none());
}

#[test]
fn bundles_have_exact_bytes() {
    let roots = RootCertificates::new(Some(vec![0xAA]), None).with_extra_cas(vec![vec![0xBB, 0xCC]]);
    assert_eq!(
        roots.to_pkcs7_bundle(),
        vec![
            0x30, 0x28, 0x06, 0x09, 0x2A, 0x86, 0x48, 0x86, 0xF7, 0x0D, 0x01, 0x07, 0x02, 0xA0,
            0x1B, 0x30, 0x19, 0x02, 0x01, 0x01, 0x31, 0x00, 0x30, 0x0B, 0x06, 0x09, 0x2A, 0x86,
            0x48, 0x86, 0xF7, 0x0D, 0x01, 0x07, 0x01, 0xA0, 0x03, 0xAA, 0xBB, 0xCC, 0x31, 0x00,
        ]
    );
}

#[test]
fn selections_fall_back_once() {
    let mut card = Card::new(vec![
        (vec![0x00, 0xA4, 0x00, 0x0C, 0x02, 0x3F, 0x00], sw(0x6A86)),
        (vec![0x00, 0xA4, 0x04, 0x0C, 0x02, 0x3F, 0x00], ok(&[])),
        (vec![0x00, 0xA4, 0x01, 0x0C, 0x02, 0x50, 0x16], sw(0x6A86)),
        (vec![0x00, 0xA4, 0x00, 0x00, 0x02, 0x50, 0x16], sw(0x6A82)),
    ]);
    card.select_mf().expect("second form");
    assert!(matches!(card.select_child_df([0x50, 0x16]), Err(Pkcs15Error::Sw(0x6A82))));
    assert_eq!(card.cursor, 4);
    let mut card = Card::new(vec![
        (vec![0x00, 0xA4, 0x01, 0x0C, 0x02, 0x50, 0x16], sw(0x6A82)),
        (vec![0x00, 0xA4, 0x00, 0x00, 0x02, 0x50, 0x16], ok(&[0x6F, 0x00])),
    ]);
    card.select_child_df([0x50, 0x16]).expect("second form");
    assert_eq!(card.cursor, 2);
}

#[test]
fn outcomes_are_responses_or_not() {
    let outcome = TransportOutcome::Response(ok(&[5]));
    assert_eq!(outcome.into_response(), Ok(ok(&[5])));
    assert_eq!(TransportOutcome::NoCard.into_response(), Err(TransportOutcome::NoCard));
}
