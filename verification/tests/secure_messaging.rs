use refineid::atr::{Atr, AtrError, MINIMAL_DIRECT_ATR};
use refineid::ber;
use refineid::crypto::symmetric::{
    aes256_cbc_encrypt_no_padding, aes256_cmac_truncated, aes256_ecb_encrypt_block, Aes256Key,
};
use refineid::pace::{PaceSession, Ssc};
use refineid::secure_messaging::{
    decode_short_apdu, iso7816_4_pad, iso7816_4_unpad, SmError, SmTransport, DO87_PADDING_INDICATOR,
    TAG_DO87, TAG_DO8E, TAG_DO99,
};
use refineid::transport::{CardTransport, CommandApdu, ResponseApdu, TransportOutcome};

#[test]
fn iso7816_4_pad_round_trips() {
    let cases: &[&[u8]] = &[
        b"",
        b"a",
        b"abcdef",
        b"0123456789abcdef",  // exact block - pad still adds a full new block
        b"0123456789abcdef0", // 17 bytes
    ];
    for &c in cases {
        let p = iso7816_4_pad(c);
        assert!(
            p.len() % 16 == 0,
            "padded length must be a multiple of 16"
        );
        assert!(p.len() > c.len(), "padding always adds at least one byte");
        assert_eq!(iso7816_4_unpad(&p), c.to_vec());
    }
}

#[test]
fn ssc_increments_by_one_with_rollover() {
    fn ssc_for(value: u16) -> Ssc {
        let mut bytes = [0_u8; 16];
        let [hi, lo] = value.to_be_bytes();
        *bytes.last_mut().expect("16-byte SSC is non-empty") = lo;
        let second_last = bytes.len().saturating_sub(2);
        if let Some(slot) = bytes.get_mut(second_last) {
            *slot = hi;
        }
        Ssc::from_bytes(bytes)
    }

    let mut sm = SmTransport::new(
        NullTransport,
        PaceSession {
            k_enc: Aes256Key::from_bytes([1_u8; 32]).expect("non-zero test key"),
            k_mac: Aes256Key::from_bytes([1_u8; 32]).expect("non-zero test key"),
            ssc: Ssc::initial(),
        },
    );

    sm.increment_ssc();
    assert_eq!(sm.ssc(), ssc_for(1));

    for _ in 1..=u16::from(u8::MAX) {
        sm.increment_ssc();
    }
    assert_eq!(sm.ssc(), ssc_for(u16::from(u8::MAX) + 1));
}

#[test]
fn decode_short_apdu_all_four_cases() {
    assert_eq!(
        decode_short_apdu(&[0, 0xA4, 0, 0]),
        Some((&[][..], None))
    );
    assert_eq!(
        decode_short_apdu(&[0, 0xB0, 0, 0, 0x10]),
        Some((&[][..], Some(0x10)))
    );
    assert_eq!(
        decode_short_apdu(&[0, 0x20, 0, 0, 4, 1, 2, 3, 4]),
        Some((&[1_u8, 2, 3, 4][..], None))
    );
    assert_eq!(
        decode_short_apdu(&[0, 0x20, 0, 0, 4, 1, 2, 3, 4, 0]),
        Some((&[1_u8, 2, 3, 4][..], Some(0)))
    );
}

#[test]
fn wrap_unwrap_round_trip_with_shared_keys() {
    let k_enc = [0x42_u8; 32];
    let k_mac = [0x77_u8; 32];

    let pcd_session = PaceSession {
        k_enc: Aes256Key::from_bytes(k_enc).expect("non-zero test key"),
        k_mac: Aes256Key::from_bytes(k_mac).expect("non-zero test key"),
        ssc: Ssc::initial(),
    };
    let card_session = PaceSession {
        k_enc: Aes256Key::from_bytes(k_enc).expect("non-zero test key"),
        k_mac: Aes256Key::from_bytes(k_mac).expect("non-zero test key"),
        ssc: Ssc::initial(),
    };

    let plain: &[u8] = &[0x00, 0xA4, 0x02, 0x0C, 0x02, 0x43, 0x31];
    let mut pcd = SmTransport::new(NullTransport, pcd_session);
    let wrapped = pcd.wrap(plain).expect("wrap ok");


    let mut card = SmTransport::new(NullTransport, card_session);
    card.increment_ssc(); // matches PCD's command-side bump

    card.increment_ssc(); // response-side SSC bump
    let payload = b"\xDE\xAD\xBE\xEF";
    let padded = iso7816_4_pad(payload);
    let iv = aes256_ecb_encrypt_block(&k_enc, card.ssc().as_bytes());
    let cipher = aes256_cbc_encrypt_no_padding(&k_enc, &iv, &padded)
        .expect("iso7816_4_pad guarantees block alignment");
    let mut do87_value = Vec::with_capacity(1 + cipher.len());
    do87_value.push(0x01);
    do87_value.extend_from_slice(cipher.as_slice());
    let do_cipher = ber::tlv(TAG_DO87, &do87_value);
    let do_status = ber::tlv(TAG_DO99, &[0x90, 0x00]);

    let mut mac_input = Vec::new();
    mac_input.extend_from_slice(card.ssc().as_bytes());
    mac_input.extend_from_slice(&do_cipher);
    mac_input.extend_from_slice(&do_status);
    let mac_input = iso7816_4_pad(&mac_input);
    let tag = aes256_cmac_truncated(&k_mac, &mac_input);
    let do_mac = ber::tlv(TAG_DO8E, &tag);

    let mut response = Vec::new();
    response.extend_from_slice(&do_cipher);
    response.extend_from_slice(&do_status);
    response.extend_from_slice(&do_mac);

    let (body, sw) = pcd.unwrap(&response).expect("unwrap ok");
    assert_eq!(sw, 0x9000);
    assert_eq!(body, payload);

    assert_eq!(pcd.ssc(), card.ssc());

    assert_eq!(wrapped[0], 0x0C); // 0x00 | 0x0C
    assert_eq!(wrapped[1], 0xA4);
    assert_eq!(wrapped[2], 0x02);
    assert_eq!(wrapped[3], 0x0C);
}

#[test]
fn protected_body_is_unwrapped_despite_outer_warning() {
    let k_enc = [0x42_u8; 32];
    let k_mac = [0x77_u8; 32];
    let payload = [0xAA_u8, 0xBB];

    let mut card = SmTransport::new(
        NullTransport,
        PaceSession {
            k_enc: Aes256Key::from_bytes(k_enc).expect("non-zero test key"),
            k_mac: Aes256Key::from_bytes(k_mac).expect("non-zero test key"),
            ssc: Ssc::initial(),
        },
    );
    card.increment_ssc();
    card.increment_ssc();

    let padded = iso7816_4_pad(&payload);
    let iv = aes256_ecb_encrypt_block(&k_enc, card.ssc().as_bytes());
    let cipher = aes256_cbc_encrypt_no_padding(&k_enc, &iv, &padded)
        .expect("padded payload is block-aligned");
    let mut do87_value = Vec::with_capacity(1_usize.saturating_add(cipher.len()));
    do87_value.push(DO87_PADDING_INDICATOR);
    do87_value.extend_from_slice(cipher.as_slice());
    let cryptogram_object = ber::tlv(TAG_DO87, &do87_value);
    let status_object = ber::tlv(TAG_DO99, &[0x62, 0x82]);

    let mut mac_input = Vec::new();
    mac_input.extend_from_slice(card.ssc().as_bytes());
    mac_input.extend_from_slice(&cryptogram_object);
    mac_input.extend_from_slice(&status_object);
    let mac_input = iso7816_4_pad(&mac_input);
    let tag = aes256_cmac_truncated(&k_mac, &mac_input);
    let mac_object = ber::tlv(TAG_DO8E, &tag);

    let mut protected_body = Vec::new();
    protected_body.extend_from_slice(&cryptogram_object);
    protected_body.extend_from_slice(&status_object);
    protected_body.extend_from_slice(&mac_object);

    let inner = FixedResponseTransport {
        response: Some(ResponseApdu {
            body: protected_body,
            sw1: 0x62,
            sw2: 0x82,
        }),
    };
    let mut pcd = SmTransport::new(
        inner,
        PaceSession {
            k_enc: Aes256Key::from_bytes(k_enc).expect("non-zero test key"),
            k_mac: Aes256Key::from_bytes(k_mac).expect("non-zero test key"),
            ssc: Ssc::initial(),
        },
    );
    let outcome = pcd
        .transmit_outcome(&CommandApdu::from_slice(&[0x00, 0xB0, 0x00, 0x00, 0x02]))
        .expect("protected warning response is accepted");
    assert_eq!(
        outcome,
        TransportOutcome::Response(ResponseApdu {
            body: payload.to_vec(),
            sw1: 0x62,
            sw2: 0x82,
        })
    );
    assert_eq!(pcd.ssc(), card.ssc());
}

#[test]
fn unwrap_rejects_mac_mismatch() {
    let k_enc = [0x42_u8; 32];
    let k_mac = [0x77_u8; 32];
    let session = PaceSession {
        k_enc: Aes256Key::from_bytes(k_enc).expect("non-zero test key"),
        k_mac: Aes256Key::from_bytes(k_mac).expect("non-zero test key"),
        ssc: Ssc::initial(),
    };
    let mut pcd = SmTransport::new(NullTransport, session);
    let mut do87_value = vec![0x01];
    do87_value.extend_from_slice(&[0_u8; 16]);
    let do_cipher = ber::tlv(TAG_DO87, &do87_value);
    let do_status = ber::tlv(TAG_DO99, &[0x90, 0x00]);
    let bogus_tag = [0_u8; 8];
    let do_mac = ber::tlv(TAG_DO8E, &bogus_tag);
    let mut response = Vec::new();
    response.extend_from_slice(&do_cipher);
    response.extend_from_slice(&do_status);
    response.extend_from_slice(&do_mac);
    let err = pcd
        .unwrap(&response)
        .expect_err("bogus DO8E MAC is rejected");
    assert!(matches!(err, SmError::MacMismatch));
}

struct NullTransport;
impl CardTransport for NullTransport {
    type Error = String;
    fn transmit_outcome(&mut self, _: &CommandApdu) -> Result<TransportOutcome, Self::Error> {
        unreachable!("NullTransport is for direct wrap/unwrap testing")
    }
    fn atr(&self) -> Result<Atr, AtrError> {
        Atr::new(&MINIMAL_DIRECT_ATR)
    }
}

struct FixedResponseTransport {
    response: Option<ResponseApdu>,
}

impl CardTransport for FixedResponseTransport {
    type Error = String;

    fn transmit_outcome(&mut self, _: &CommandApdu) -> Result<TransportOutcome, Self::Error> {
        self.response
            .take()
            .map(TransportOutcome::Response)
            .ok_or_else(|| "fixed response already consumed".to_owned())
    }

    fn atr(&self) -> Result<Atr, AtrError> {
        Atr::new(&MINIMAL_DIRECT_ATR)
    }
}
