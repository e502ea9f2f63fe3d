use refineid::atr::{Atr, AtrError, MINIMAL_DIRECT_ATR};
use refineid::backend::{
    ReaderAccessCap, ReaderBackend, ReaderFilter, ReaderId, ReaderInfo, ReaderPickError,
};
use refineid::pkcs15::{
    pick_contactless_reader, CertSlot, Fci, Pkcs15Error, Pkcs15Ops, EF_AUTH_CERT_FID, PKCS15_AID,
};
use refineid::render::hex_text;
use refineid::transport::{CardTransport, CommandApdu, ResponseApdu, TransportOutcome};

fn hex(text: &str) -> Vec<u8> {
    text.as_bytes()
        .chunks(2)
        .map(|pair| {
            u8::from_str_radix(std::str::from_utf8(pair).expect("ASCII"), 16).expect("hex digits")
        })
        .collect()
}

struct ScriptedTransport {
    script: Vec<(Vec<u8>, ResponseApdu)>,
    cursor: usize,
}

impl ScriptedTransport {
    fn new(script: Vec<(Vec<u8>, ResponseApdu)>) -> Self {
        Self { script, cursor: 0 }
    }
}

impl CardTransport for ScriptedTransport {
    type Error = String;
    fn transmit_outcome(
        &mut self,
        apdu: &CommandApdu,
    ) -> Result<TransportOutcome, Self::Error> {
        let (expected, response) = self
            .script
            .get(self.cursor)
            .ok_or_else(|| format!("script exhausted at step {}", self.cursor))?;
        if expected != apdu.as_bytes() {
            return Err(format!(
                "step {}: expected {} got {}",
                self.cursor,
                hex_text(expected),
                hex_text(apdu.as_bytes())
            ));
        }
        self.cursor += 1;
        Ok(TransportOutcome::Response(response.clone()))
    }
    fn atr(&self) -> Result<Atr, AtrError> {
        Atr::new(&MINIMAL_DIRECT_ATR)
    }
}

fn ok(body: &[u8]) -> ResponseApdu {
    ResponseApdu {
        body: body.to_vec(),
        sw1: 0x90,
        sw2: 0x00,
    }
}

#[test]
fn pkcs15_aid_is_ascii_pkcs_15_with_prefix() {
    assert_eq!(&PKCS15_AID[5..], b"PKCS-15");
    assert_eq!(PKCS15_AID.len(), 12);
}

#[test]
fn select_pkcs15_application_apdu_layout() {
    let mut tx = ScriptedTransport::new(vec![(
        vec![
            0x00, 0xA4, 0x04, 0x0C, 0x0C, 0xA0, 0x00, 0x00, 0x00, 0x63, 0x50, 0x4B, 0x43, 0x53,
            0x2D, 0x31, 0x35,
        ],
        ok(&[]),
    )]);
    tx.select_pkcs15_application().expect("selects");
}

#[test]
fn select_ef_apdu_layout() {
    let mut tx = ScriptedTransport::new(vec![(
        vec![0x00, 0xA4, 0x02, 0x0C, 0x02, 0x43, 0x31],
        ok(&[]),
    )]);
    tx.select_ef(EF_AUTH_CERT_FID).expect("selects");
}

#[test]
fn select_ef_falls_back_to_any_file_by_id() {
    let mut tx = ScriptedTransport::new(vec![
        (
            vec![0x00, 0xA4, 0x02, 0x0C, 0x02, 0x43, 0x31],
            ResponseApdu {
                body: Vec::new(),
                sw1: 0x6A,
                sw2: 0x82,
            },
        ),
        (vec![0x00, 0xA4, 0x00, 0x0C, 0x02, 0x43, 0x31], ok(&[])),
    ]);
    tx.select_ef(EF_AUTH_CERT_FID)
        .expect("fallback selection succeeds");
}

#[test]
fn parse_fci_file_size_finds_80_do() {
    let fci = Fci::new(hex("62088002068082020011"));
    assert_eq!(fci.parse_file_size(), Some(0x0680));

    let fci = Fci::new(
        hex("6f18810206f8820101830243318a01058c0303ff009c0303ff00"),
    );
    assert_eq!(fci.parse_file_size(), Some(1784));

    assert_eq!(
        Fci::new(hex("80020100")).parse_file_size(),
        None
    );
}

#[test]
fn read_binary_concatenates_until_short_response() {
    let chunk_a = vec![0xAA; 0x80];
    let chunk_b = vec![0xBB; 0x80];
    let chunk_c = vec![0xCC; 0x40];

    let mut tx = ScriptedTransport::new(vec![
        (vec![0x00, 0xB0, 0x00, 0x00, 0x80], ok(&chunk_a)),
        (vec![0x00, 0xB0, 0x00, 0x80, 0x80], ok(&chunk_b)),
        (vec![0x00, 0xB0, 0x01, 0x00, 0x80], ok(&chunk_c)),
    ]);
    let out = tx.read_binary_to_end(None).expect("reads");
    assert_eq!(out.len(), 0x80 + 0x80 + 0x40);
    assert_eq!(&out[..0x80], &chunk_a[..]);
    assert_eq!(&out[0x80..0x100], &chunk_b[..]);
    assert_eq!(&out[0x100..], &chunk_c[..]);
}

#[test]
fn read_binary_with_known_size_uses_exact_le_for_tail() {
    let chunk_a = vec![0xAA; 0x80];
    let chunk_b = vec![0xBB; 0x80];
    let chunk_c = vec![0xCC; 0x18]; // 24-byte tail
    let mut tx = ScriptedTransport::new(vec![
        (vec![0x00, 0xB0, 0x00, 0x00, 0x80], ok(&chunk_a)),
        (vec![0x00, 0xB0, 0x00, 0x80, 0x80], ok(&chunk_b)),
        (vec![0x00, 0xB0, 0x01, 0x00, 0x18], ok(&chunk_c)),
    ]);
    let out = tx
        .read_binary_to_end(Some(0x80 + 0x80 + 0x18))
        .expect("reads");
    assert_eq!(out.len(), 0x80 + 0x80 + 0x18);
}

#[test]
fn read_der_object_discards_padding_from_first_chunk() {
    let expected = [0x30, 0x02, 0x05, 0x00];
    let mut padded = vec![0_u8; 0x80];
    padded[..expected.len()].copy_from_slice(&expected);
    let mut tx =
        ScriptedTransport::new(vec![(vec![0x00, 0xB0, 0x00, 0x00, 0x80], ok(&padded))]);

    let out = tx
        .read_binary_der_object("test object")
        .expect("reads one object");
    assert_eq!(out, expected);
}

#[test]
fn read_der_object_pins_the_final_chunk_to_declared_length() {
    let mut object = vec![0x30, 0x82, 0x01, 0x00];
    object.extend(core::iter::repeat_n(0xA5, 0x100));
    let mut tx = ScriptedTransport::new(vec![
        (vec![0x00, 0xB0, 0x00, 0x00, 0x80], ok(&object[..0x80])),
        (vec![0x00, 0xB0, 0x00, 0x80, 0x80], ok(&object[0x80..0x100])),
        (vec![0x00, 0xB0, 0x01, 0x00, 0x04], ok(&object[0x100..])),
    ]);

    let out = tx
        .read_binary_der_object("test object")
        .expect("reads one object");
    assert_eq!(out, object);
}

#[test]
fn read_binary_handles_eof_marker() {
    let chunk_a = vec![0xAA; 0x80];
    let chunk_b = vec![0xBB; 0x10];
    let mut tx = ScriptedTransport::new(vec![
        (vec![0x00, 0xB0, 0x00, 0x00, 0x80], ok(&chunk_a)),
        (
            vec![0x00, 0xB0, 0x00, 0x80, 0x80],
            ResponseApdu {
                body: chunk_b,
                sw1: 0x62,
                sw2: 0x82,
            },
        ),
    ]);
    let out = tx.read_binary_to_end(None).expect("reads");
    assert_eq!(out.len(), 0x80 + 0x10);
}

#[test]
fn read_binary_propagates_card_error() {
    let mut tx = ScriptedTransport::new(vec![(
        vec![0x00, 0xB0, 0x00, 0x00, 0x80],
        ResponseApdu {
            body: vec![],
            sw1: 0x6A,
            sw2: 0x82,
        },
    )]);
    let err = tx
        .read_binary_to_end(None)
        .expect_err("card error status aborts the read");
    assert!(matches!(err, Pkcs15Error::Sw(0x6A82)));
}

#[test]
fn read_authentication_certificate_drives_full_sequence() {
    let cert = vec![0x30_u8, 0x02, 0x05, 0x00];
    let mut tx = ScriptedTransport::new(vec![
        (
            vec![
                0x00, 0xA4, 0x04, 0x0C, 0x0C, 0xA0, 0x00, 0x00, 0x00, 0x63, 0x50, 0x4B, 0x43,
                0x53, 0x2D, 0x31, 0x35,
            ],
            ok(&[]),
        ),
        (vec![0x00, 0xA4, 0x02, 0x0C, 0x02, 0x43, 0x31], ok(&[])),
        (vec![0x00, 0xB0, 0x00, 0x00, 0x80], ok(&cert)),
    ]);
    let der = tx
        .read_certificate(CertSlot::Authentication)
        .expect("reads cert");
    assert_eq!(der.as_bytes(), cert.as_slice());
}


type ReaderScript = Vec<(Vec<u8>, ResponseApdu)>;

struct ScriptedBackend {
    readers: Vec<(ReaderInfo, ReaderScript)>,
}

impl ReaderBackend for ScriptedBackend {
    type Transport = ScriptedTransport;
    type Error = String;

    fn enumerate(&self) -> Result<Vec<ReaderInfo>, Self::Error> {
        Ok(self.readers.iter().map(|(info, _)| info.clone()).collect())
    }

    fn open_exclusive(
        &self,
        reader: &ReaderId,
        _access: ReaderAccessCap,
    ) -> Result<Self::Transport, Self::Error> {
        self.readers
            .iter()
            .find(|(info, _)| info.id == *reader)
            .map(|(_, script)| ScriptedTransport::new(script.clone()))
            .ok_or_else(|| format!("no script for reader {}", reader.as_str()))
    }
}

fn sw_only(sw1: u8, sw2: u8) -> ResponseApdu {
    ResponseApdu {
        body: Vec::new(),
        sw1,
        sw2,
    }
}

fn present(name: &str) -> ReaderInfo {
    ReaderInfo {
        id: ReaderId::new(name.to_owned()),
        card_present: true,
    }
}

fn card_access_script() -> ReaderScript {
    let body = hex("31283012060a04007f000702020402040201020201103012060a04007f00070202040604020102020110");
    vec![
        (vec![0x00, 0xA4, 0x00, 0x0C, 0x02, 0x3F, 0x00], ok(&[])),
        (vec![0x00, 0xA4, 0x02, 0x0C, 0x02, 0x01, 0x1C], ok(&[])),
        (vec![0x00, 0xB0, 0x00, 0x00, 0x80], ok(&body)),
    ]
}

fn refusing_script() -> ReaderScript {
    vec![
        (
            vec![0x00, 0xA4, 0x00, 0x0C, 0x02, 0x3F, 0x00],
            sw_only(0x6A, 0x82),
        ),
        (
            vec![0x00, 0xA4, 0x04, 0x0C, 0x02, 0x3F, 0x00],
            sw_only(0x6A, 0x82),
        ),
    ]
}

#[test]
fn contactless_pick_selects_the_card_access_server() {
    let backend = ScriptedBackend {
        readers: vec![
            (present("Dual Reader SAM"), refusing_script()),
            (present("Dual Reader PICC"), card_access_script()),
        ],
    };
    let id = pick_contactless_reader(&backend, None).expect("picks the PICC reader");
    assert_eq!(id.as_str(), "Dual Reader PICC");
}

#[test]
fn contactless_pick_without_servers_is_no_fineid_card() {
    let backend = ScriptedBackend {
        readers: vec![(present("Dual Reader SAM"), refusing_script())],
    };
    assert!(matches!(
        pick_contactless_reader(&backend, None),
        Err(ReaderPickError::NoFineidCard { available }) if available == ["Dual Reader SAM"]
    ));
}

#[test]
fn contactless_pick_ambiguity_follows_the_contact_rules() {
    let backend = ScriptedBackend {
        readers: vec![
            (present("Reader A PICC"), card_access_script()),
            (present("Reader B PICC"), card_access_script()),
        ],
    };
    assert!(matches!(
        pick_contactless_reader(&backend, None),
        Err(ReaderPickError::MultipleReadersNoFilter { available }) if available.len() == 2
    ));
    let filter = ReaderFilter::new("B PICC");
    let id =
        pick_contactless_reader(&backend, Some(&filter)).expect("filter disambiguates");
    assert_eq!(id.as_str(), "Reader B PICC");
}
