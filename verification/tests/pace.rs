use crypto_bigint::{NonZero, Odd, U384};
use refineid::atr::{Atr, AtrError, MINIMAL_DIRECT_ATR};
use refineid::ber;
use refineid::can::Can;
use refineid::crypto::brainpool_p384::{AffinePoint, Scalar, ORDER};
use refineid::crypto::symmetric::{
    aes256_cbc_encrypt_no_padding, aes256_cmac_truncated, kdf_aes256, KdfParam,
};
use refineid::oid::known::PACE_ECDH_GM_AES_CBC_CMAC_256;
use refineid::pace::{
    agree_on_key, authentication_template, encode_auth_token, fingerprint, get_encrypted_nonce, map_nonce,
    random_scalar_mod_n, run_pace_step_5,
    run_pace_with_can, scalar_from_nonce, search_scalar, wrap_general_authenticate, CurveArithmetic, PaceError,
    PaceMidwayState, PaceSession, Ssc, PASSWORD_REF_CAN,
};
use refineid::render::hex_text;
use refineid::transport::{CardTransport, CommandApdu, ResponseApdu, TransportOutcome};

fn hex48(text: &str) -> [u8; 48] {
    let mut out = [0_u8; 48];
    for (i, slot) in out.iter_mut().enumerate() {
        *slot = u8::from_str_radix(&text[2 * i..2 * i + 2], 16).expect("hex digits");
    }
    out
}

fn point(x: &str, y: &str) -> AffinePoint {
    AffinePoint { coords: Some((hex48(x), hex48(y))) }
}

const CARD_SCALAR: &str = "00000000000000000000000000000000\
     00000000000000000000000000000001\
     23456789ABCDEF0123456789ABCDEF01";

const TERMINAL_SCALAR: &str = "00000000000000000000000000000000\
     0000000000000000000000000000FEDC\
     BA9876543210FEDCBA9876543210FEDC";

/// The multiple of the generator by [`CARD_SCALAR`].
fn card_point() -> AffinePoint {
    point(
        "8988E02DDF9AC022BF6F525BFA4A56CF976CF8E9E5A0DF3D8385FBBA3FF88AD8D045C609ABAF2032A75056F4A06FFA45",
        "45D29400EB658D0722A8B739EDB9B7954B82A6A3095EB7BC992ED31A3ACF6F94AB2BBC98E55D4FEF24985470CF311E38",
    )
}

/// The multiple of the generator by [`TERMINAL_SCALAR`].
fn terminal_point() -> AffinePoint {
    point(
        "57D7A6498BD5CD64C2D9AD69AF9C348C025C03D049EC1EE15CBEF9071D00728314FA9CF3E2BA9176AD76D42722DF6918",
        "001C6FFAAC8FF91610A25CCACA508263E755ED9DA63A1769DE40E56D7F39D2062D2B44810AAD0EB0A95D1C1C977718AA",
    )
}

/// The multiple of the generator by both scalars.
fn shared_point() -> AffinePoint {
    point(
        "00F56DD72AF8A7E75A35867A2FE752908F068DC14F688662316440BA23AC078867811150BBDD9B84253835C12FDBBE4F",
        "1019319517389B5860D34232FE05C2B2273874629C29E30AE017F4426A62B5158E9C331F85F9D6E88B1D488BB7F0F748",
    )
}

const FIELD_PRIME: &str = "8CB91E82A3386D280F5D6F7E50E641DF152F7109ED5456B412B1DA197FB71123\
     ACD3A729901D1A71874700133107EC53";

const CURVE_A: &str = "7BC382C63D8C150C3C72080ACE05AFA0C2BEA28E4FB22787139165EFBA91F90F\
     8AA5814A503AD4EB04A8C7DD22CE2826";

const CURVE_B: &str = "04A8C7DD22CE28268B39B55416F0447C2FB77DE107DCD2A62E880EA53EEB62D5\
     7CB4390295DBC9943AB78696FA504C11";

/// Affine arithmetic on brainpoolP384r1.
struct Brainpool {
    prime: NonZero<U384>,
    odd_prime: Odd<U384>,
    a: U384,
    b: U384,
}

impl Brainpool {
    fn new() -> Self {
        let prime = U384::from_be_hex(FIELD_PRIME);
        Brainpool {
            prime: NonZero::new(prime).into_option().expect("not zero"),
            odd_prime: Odd::new(prime).into_option().expect("odd"),
            a: U384::from_be_hex(CURVE_A),
            b: U384::from_be_hex(CURVE_B),
        }
    }

    fn product(&self, a: &U384, b: &U384) -> U384 {
        a.mul_mod(b, &self.prime)
    }

    fn coordinates(p: &AffinePoint) -> Option<(U384, U384)> {
        p.coords.map(|(x, y)| (U384::from_be_slice(&x), U384::from_be_slice(&y)))
    }

    fn add(&self, a: &AffinePoint, b: &AffinePoint) -> AffinePoint {
        let p = &self.prime;
        let (Some((x1, y1)), Some((x2, y2))) = (Self::coordinates(a), Self::coordinates(b)) else {
            return if a.coords.is_none() { *b } else { *a };
        };
        let (rise, run) = if x1 != x2 {
            (y2.sub_mod(&y1, p), x2.sub_mod(&x1, p))
        } else if y1 == y2 && y1 != U384::ZERO {
            let square = self.product(&x1, &x1);
            let three = square.add_mod(&square, p).add_mod(&square, p);
            (three.add_mod(&self.a, p), y1.add_mod(&y1, p))
        } else {
            return AffinePoint { coords: None };
        };
        let inverse = run.invert_odd_mod(&self.odd_prime).into_option().expect("not zero");
        let slope = self.product(&rise, &inverse);
        let x = self.product(&slope, &slope).sub_mod(&x1, p).sub_mod(&x2, p);
        let y = self.product(&slope, &x1.sub_mod(&x, p)).sub_mod(&y1, p);
        let bytes = |n: U384| {
            let mut out = [0_u8; 48];
            out.copy_from_slice(n.to_be_bytes().as_ref());
            out
        };
        AffinePoint { coords: Some((bytes(x), bytes(y))) }
    }
}

impl CurveArithmetic for Brainpool {
    fn scalar_mul(&self, base: &AffinePoint, scalar: &[u8; 48]) -> AffinePoint {
        let mut out = AffinePoint { coords: None };
        for byte in scalar {
            for bit in (0..8).rev() {
                out = self.add(&out, &out);
                if byte >> bit & 1 == 1 {
                    out = self.add(&out, base);
                }
            }
        }
        out
    }

    fn sum(&self, a: &AffinePoint, b: &AffinePoint) -> AffinePoint {
        self.add(a, b)
    }

    fn on_curve(&self, candidate: &AffinePoint) -> bool {
        let p = &self.prime;
        match Self::coordinates(candidate) {
            None => false,
            Some((x, y)) => {
                let cube = self.product(&self.product(&x, &x), &x);
                let right = cube.add_mod(&self.product(&self.a, &x), p).add_mod(&self.b, p);
                self.product(&y, &y) == right
            }
        }
    }
}

fn scalar(text: &str) -> Scalar {
    Scalar::from_be_bytes(hex48(text)).expect("fixture scalar is in range")
}

/// A card that takes its part in the handshake.
struct HonestCard {
    curve: Brainpool,
    nonce: [u8; 16],
    cryptogram: Vec<u8>,
    terminal_points: Vec<AffinePoint>,
    own_points: Vec<AffinePoint>,
    mapped: AffinePoint,
    keys: Option<([u8; 32], [u8; 32])>,
    round: usize,
}

impl HonestCard {
    fn new(can: &[u8], nonce: [u8; 16]) -> Self {
        let key = kdf_aes256(can, KdfParam::Password);
        let cryptogram =
            aes256_cbc_encrypt_no_padding(key.as_bytes(), &[0; 16], &nonce).expect("one block");
        HonestCard {
            curve: Brainpool::new(),
            nonce,
            cryptogram,
            terminal_points: vec![],
            own_points: vec![],
            mapped: AffinePoint::generator(),
            keys: None,
            round: 0,
        }
    }

    fn answer_point(&mut self, command: &[u8], request: u8, reply: u8) -> Vec<u8> {
        assert_eq!(command[7], request);
        let theirs = AffinePoint::decode_uncompressed(&command[9..106]).expect("a point");
        assert!(self.curve.on_curve(&theirs));
        let ours = self.curve.scalar_mul(&self.mapped, &hex48(CARD_SCALAR));
        let shared = self.curve.scalar_mul(&theirs, &hex48(CARD_SCALAR));
        self.terminal_points.push(theirs);
        self.own_points.push(ours);
        if request == 0x81 {
            let mut lifted = [0_u8; 48];
            lifted[32..].copy_from_slice(&self.nonce);
            let nonce_point = self.curve.scalar_mul(&AffinePoint::generator(), &lifted);
            self.mapped = self.curve.sum(&nonce_point, &shared);
        } else {
            let (x, _) = shared.coords.expect("not infinity");
            self.keys = Some((
                *kdf_aes256(&x, KdfParam::Encryption).as_bytes(),
                *kdf_aes256(&x, KdfParam::Mac).as_bytes(),
            ));
        }
        ber::tlv(0x7C, &ber::tlv(reply, &ours.encode_uncompressed().expect("encodes")))
    }

    fn token(&self, over: &AffinePoint) -> [u8; 8] {
        let (_, mac) = self.keys.expect("agreed");
        aes256_cmac_truncated(&mac, &encode_auth_token(over).expect("encodes"))
    }
}

impl CardTransport for HonestCard {
    type Error = String;

    fn transmit_outcome(&mut self, apdu: &CommandApdu) -> Result<TransportOutcome, Self::Error> {
        let command = apdu.as_bytes();
        self.round += 1;
        let body = match self.round {
            1 => vec![],
            2 => ber::tlv(0x7C, &ber::tlv(0x80, &self.cryptogram)),
            3 => self.answer_point(command, 0x81, 0x82),
            4 => self.answer_point(command, 0x83, 0x84),
            _ => {
                let expected = self.token(&self.own_points[1]);
                assert_eq!(&command[9..17], &expected);
                ber::tlv(0x7C, &ber::tlv(0x86, &self.token(&self.terminal_points[1])))
            }
        };
        Ok(TransportOutcome::Response(ok(body)))
    }

    fn atr(&self) -> Result<Atr, AtrError> {
        Atr::new(&MINIMAL_DIRECT_ATR)
    }
}

struct StepFiveMock {
    expected: Vec<u8>,
    response: ResponseApdu,
    called: bool,
}

impl CardTransport for StepFiveMock {
    type Error = String;

    fn transmit_outcome(&mut self, apdu: &CommandApdu) -> Result<TransportOutcome, Self::Error> {
        if self.called {
            return Err("StepFiveMock: called twice".into());
        }
        if apdu.as_bytes() != self.expected {
            return Err(format!(
                "StepFiveMock: expected {} but got {}",
                hex_text(&self.expected),
                hex_text(apdu.as_bytes()),
            ));
        }
        self.called = true;
        Ok(TransportOutcome::Response(self.response.clone()))
    }

    fn atr(&self) -> Result<Atr, AtrError> {
        Atr::new(&MINIMAL_DIRECT_ATR)
    }
}

struct Scripted {
    steps: Vec<(Vec<u8>, ResponseApdu)>,
    cursor: usize,
}

impl CardTransport for Scripted {
    type Error = String;

    fn transmit_outcome(&mut self, apdu: &CommandApdu) -> Result<TransportOutcome, Self::Error> {
        let (expected, response) = self.steps.get(self.cursor).ok_or("script exhausted".to_owned())?;
        assert_eq!(apdu.as_bytes(), expected.as_slice(), "step {}", self.cursor);
        self.cursor += 1;
        Ok(TransportOutcome::Response(response.clone()))
    }

    fn atr(&self) -> Result<Atr, AtrError> {
        Atr::new(&MINIMAL_DIRECT_ATR)
    }
}

fn ok(body: Vec<u8>) -> ResponseApdu {
    ResponseApdu { body, sw1: 0x90, sw2: 0x00 }
}

fn midway() -> PaceMidwayState {
    PaceMidwayState {
        mapped_g: AffinePoint::generator(),
        v_picc: card_point(),
        u_pcd: scalar(TERMINAL_SCALAR),
        u_pcd_pub: terminal_point(),
    }
}

#[test]
fn pace_oid_length() {
    assert_eq!(PACE_ECDH_GM_AES_CBC_CMAC_256.len(), 10);
}

#[test]
fn mse_set_at_payload_layout() {
    let data = authentication_template(PASSWORD_REF_CAN);
    assert_eq!(hex_text(&data), "800a04007f00070202040204830102840110");
}

#[test]
fn random_scalar_in_range() {
    let mut zero = [0_u8; 48];
    assert!(Scalar::from_be_bytes(zero).is_none());
    zero[47] = 1;
    assert!(Scalar::from_be_bytes(zero).is_some());
    assert!(Scalar::from_be_bytes(ORDER).is_none());
    let mut last = ORDER;
    last[47] -= 1;
    assert!(Scalar::from_be_bytes(last).is_some());
    assert!(Scalar::from_be_bytes([0xFF; 48]).is_none());
    for _ in 0..16 {
        let scalar = random_scalar_mod_n::<String>()
            .map_err(|e| e.message("no random bytes"))
            .expect("one draw of many is in range");
        assert_ne!(scalar.as_bytes(), &[0_u8; 48]);
        assert!(scalar.as_bytes().as_slice() < ORDER.as_slice());
    }
    assert!(search_scalar(0).expect("nothing is drawn").is_none());
    assert!(search_scalar(256).expect("random bytes").is_some());
    let none: PaceError<String> = PaceError::NoScalar;
    assert_eq!(none.message(""), "PACE random: no scalar in range");
}

#[test]
fn scalar_from_nonce_zero_pad_be() {
    let nonce: [u8; 16] = core::array::from_fn(|i| u8::try_from(i + 1).unwrap_or(0));
    let bytes = scalar_from_nonce(&nonce);
    assert!(bytes[..32].iter().all(|&b| b == 0));
    assert_eq!(&bytes[32..], &nonce[..]);
}

#[test]
fn auth_token_input_layout() {
    let g = AffinePoint::generator();
    let token = encode_auth_token(&g).expect("generator encodes");

    assert_eq!(&token[0..2], &[0x7F, 0x49]);
    assert_eq!(token[2], 0x6F);
    assert_eq!(token.len(), 3 + 111);

    assert_eq!(token[3], 0x06);
    assert_eq!(token[4], 0x0A);
    assert_eq!(&token[5..15], PACE_ECDH_GM_AES_CBC_CMAC_256.as_slice());

    assert_eq!(token[15], 0x86);
    assert_eq!(token[16], 0x61);
    assert_eq!(token[17], 0x04);
    let expected_pt = g.encode_uncompressed().expect("generator is not infinity");
    assert_eq!(&token[17..114], expected_pt.as_slice());
}

#[test]
fn infinity_has_no_token() {
    assert!(encode_auth_token(&AffinePoint { coords: None }).is_none());
}

#[test]
fn points_decode_what_they_encode() {
    let bytes = card_point().encode_uncompressed().expect("encodes");
    assert_eq!(bytes.len(), 97);
    assert_eq!(AffinePoint::decode_uncompressed(&bytes), Some(card_point()));
    assert_eq!(AffinePoint::decode_uncompressed(&bytes[..96]), None);
    let mut compressed = bytes.clone();
    compressed[0] = 0x02;
    assert_eq!(AffinePoint::decode_uncompressed(&compressed), None);
}

#[test]
fn step_5_round_trip_against_synthetic_peer() {
    let curve = Brainpool::new();
    let g = AffinePoint::generator();
    let v_picc = curve.scalar_mul(&g, &hex48(CARD_SCALAR));
    let u_pcd_pub = curve.scalar_mul(&g, &hex48(TERMINAL_SCALAR));
    let k_card = curve.scalar_mul(&u_pcd_pub, &hex48(CARD_SCALAR));
    let k_pcd = curve.scalar_mul(&v_picc, &hex48(TERMINAL_SCALAR));
    assert_eq!(k_card.coords, k_pcd.coords);
    assert_eq!((v_picc, u_pcd_pub, k_card), (card_point(), terminal_point(), shared_point()));

    let (k_x, _) = k_card.coords.expect("shared point is not infinity");
    let k_mac_card = kdf_aes256(&k_x, KdfParam::Mac);
    let token_for_us = encode_auth_token(&terminal_point()).expect("terminal point encodes");
    let t_picc = aes256_cmac_truncated(k_mac_card.as_bytes(), &token_for_us);
    let token_for_card = encode_auth_token(&card_point()).expect("card point encodes");
    let t_pcd_expected =
        aes256_cmac_truncated(kdf_aes256(&k_x, KdfParam::Mac).as_bytes(), &token_for_card);

    let request_payload = ber::tlv(0x7C, &ber::tlv(0x85, &t_pcd_expected));
    let request_apdu = wrap_general_authenticate(false, &request_payload);
    let response_body = ber::tlv(0x7C, &ber::tlv(0x86, &t_picc));

    let mut tx = StepFiveMock { expected: request_apdu, response: ok(response_body), called: false };
    let session = run_pace_step_5(&mut tx, &Brainpool::new(), midway()).expect("step 5 succeeds");
    assert!(tx.called);
    assert_eq!(session.ssc, Ssc::initial());
    assert_eq!(session.k_enc.as_bytes(), kdf_aes256(&k_x, KdfParam::Encryption).as_bytes());
    assert_eq!(session.k_mac.as_bytes(), kdf_aes256(&k_x, KdfParam::Mac).as_bytes());
}

#[test]
fn step_5_rejects_bad_card_tag() {
    let (k_x, _) = shared_point().coords.expect("shared point is not infinity");
    let k_mac = kdf_aes256(&k_x, KdfParam::Mac);
    let token_card = encode_auth_token(&card_point()).expect("card point encodes");
    let t_pcd = aes256_cmac_truncated(k_mac.as_bytes(), &token_card);
    let request = wrap_general_authenticate(false, &ber::tlv(0x7C, &ber::tlv(0x85, &t_pcd)));

    let mut bad_tag = [0_u8; 8];
    bad_tag[0] = 0xFF;
    let response_body = ber::tlv(0x7C, &ber::tlv(0x86, &bad_tag));

    let mut tx = StepFiveMock { expected: request, response: ok(response_body), called: false };
    let err = run_pace_step_5(&mut tx, &Brainpool::new(), midway())
        .err()
        .expect("flipped T_PICC bit fails the tag check");
    assert!(matches!(err, PaceError::AuthMismatch));
}

#[test]
fn step_5_rejects_a_short_card_tag() {
    let (k_x, _) = shared_point().coords.expect("shared point is not infinity");
    let k_mac = kdf_aes256(&k_x, KdfParam::Mac);
    let token_card = encode_auth_token(&card_point()).expect("card point encodes");
    let t_pcd = aes256_cmac_truncated(k_mac.as_bytes(), &token_card);
    let request = wrap_general_authenticate(false, &ber::tlv(0x7C, &ber::tlv(0x85, &t_pcd)));
    let body = ber::tlv(0x7C, &ber::tlv(0x86, &[0_u8; 7]));
    let mut tx = StepFiveMock { expected: request, response: ok(body), called: false };
    let err = run_pace_step_5(&mut tx, &Brainpool::new(), midway()).err().expect("seven bytes are refused");
    assert!(matches!(err, PaceError::UnexpectedResponse("card auth tag wrong length")));
}

#[test]
fn nonce_is_decrypted_under_the_access_number() {
    let can = Can::new(*b"123456").expect("six digits");
    let nonce: [u8; 16] = *b"0123456789abcdef";
    let key = kdf_aes256(b"123456", KdfParam::Password);
    let z = aes256_cbc_encrypt_no_padding(key.as_bytes(), &[0; 16], &nonce).expect("one block");
    let body = ber::tlv(0x7C, &ber::tlv(0x80, &z));
    let mut tx = Scripted {
        steps: vec![(vec![0x10, 0x86, 0x00, 0x00, 0x02, 0x7C, 0x00, 0x00], ok(body))],
        cursor: 0,
    };
    let decrypted = get_encrypted_nonce(&mut tx, &can).expect("nonce round succeeds");
    assert_eq!(decrypted, nonce);
}

#[test]
fn nonce_of_another_length_is_refused() {
    let can = Can::new(*b"123456").expect("six digits");
    let body = ber::tlv(0x7C, &ber::tlv(0x80, &[0_u8; 15]));
    let mut tx = Scripted {
        steps: vec![(vec![0x10, 0x86, 0x00, 0x00, 0x02, 0x7C, 0x00, 0x00], ok(body))],
        cursor: 0,
    };
    let err = get_encrypted_nonce(&mut tx, &can).expect_err("fifteen bytes are refused");
    assert!(matches!(err, PaceError::UnexpectedResponse("encrypted nonce wrong length")));
}

#[test]
fn whole_handshake_opens_a_session() {
    let can = Can::new(*b"123456").expect("six digits");
    let mut card = HonestCard::new(b"123456", [7; 16]);
    let session: PaceSession = run_pace_with_can(&mut card, &Brainpool::new(), &can)
        .map_err(|e| e.message("cause"))
        .expect("opens");
    assert_eq!(card.round, 5);
    let (enc, mac) = card.keys.expect("agreed");
    assert_eq!(session.k_enc.as_bytes(), &enc);
    assert_eq!(session.k_mac.as_bytes(), &mac);
    assert_ne!(card.terminal_points[0], card.terminal_points[1]);
    assert!(session.to_text().starts_with("PaceSession { k_enc: \""));
    assert!(session.to_text().ends_with("ssc: \"00000000000000000000000000000000\" }"));
}

#[test]
fn every_handshake_has_scalars_of_its_own() {
    let can = Can::new(*b"123456").expect("six digits");
    let mut first = HonestCard::new(b"123456", [7; 16]);
    let mut second = HonestCard::new(b"123456", [7; 16]);
    assert!(run_pace_with_can(&mut first, &Brainpool::new(), &can).is_ok());
    assert!(run_pace_with_can(&mut second, &Brainpool::new(), &can).is_ok());
    assert_ne!(first.terminal_points[0], second.terminal_points[0]);
    assert_ne!(first.keys, second.keys);
}

#[test]
fn nonce_mapping_with_given_scalars() {
    let curve = Brainpool::new();
    let terminal = terminal_point().encode_uncompressed().expect("encodes");
    let card = card_point().encode_uncompressed().expect("encodes");
    let mut tx = Scripted {
        steps: vec![(
            wrap_general_authenticate(true, &ber::tlv(0x7C, &ber::tlv(0x81, &terminal))),
            ok(ber::tlv(0x7C, &ber::tlv(0x82, &card))),
        )],
        cursor: 0,
    };
    let mut one = [0_u8; 16];
    one[15] = 1;
    let mapped = map_nonce(&mut tx, &curve, &one, scalar(TERMINAL_SCALAR))
        .map_err(|e| e.message(""))
        .expect("maps");
    assert_eq!(mapped, curve.sum(&AffinePoint::generator(), &shared_point()));
}

#[test]
fn key_agreement_with_given_scalars() {
    let terminal = terminal_point().encode_uncompressed().expect("encodes");
    let card = card_point().encode_uncompressed().expect("encodes");
    let command = wrap_general_authenticate(true, &ber::tlv(0x7C, &ber::tlv(0x83, &terminal)));
    let mut tx = Scripted {
        steps: vec![
            (command.clone(), ok(ber::tlv(0x7C, &ber::tlv(0x84, &card)))),
            (command, ok(ber::tlv(0x7C, &ber::tlv(0x84, &[&[0x04][..], &[1; 96]].concat())))),
        ],
        cursor: 0,
    };
    let g = AffinePoint::generator();
    let state = agree_on_key(&mut tx, &Brainpool::new(), g, scalar(TERMINAL_SCALAR))
        .map_err(|e| e.message(""))
        .expect("agrees");
    assert_eq!(state.mapped_g, g);
    assert_eq!(state.v_picc, card_point());
    assert_eq!(state.u_pcd_pub, terminal_point());
    assert_eq!(state.u_pcd.as_bytes(), &hex48(TERMINAL_SCALAR));
    let err = agree_on_key(&mut tx, &Brainpool::new(), g, scalar(TERMINAL_SCALAR))
        .err()
        .expect("off the curve");
    assert!(matches!(err, PaceError::InvalidPoint));
    let infinity = AffinePoint { coords: None };
    let err = agree_on_key(&mut tx, &Brainpool::new(), infinity, scalar(TERMINAL_SCALAR))
        .err()
        .expect("no point");
    assert!(matches!(err, PaceError::InvalidPoint));
}

#[test]
fn refused_announcement_ends_the_handshake() {
    let can = Can::new(*b"123456").expect("six digits");
    let mut announce = vec![0x00, 0x22, 0xC1, 0xA4, 0x12];
    announce.extend_from_slice(&authentication_template(PASSWORD_REF_CAN));
    let mut tx = Scripted {
        steps: vec![(announce, ResponseApdu { body: vec![], sw1: 0x6A, sw2: 0x88 })],
        cursor: 0,
    };
    let err = run_pace_with_can(&mut tx, &Brainpool::new(), &can).err().expect("refused");
    assert!(matches!(err, PaceError::Sw("MSE:Set AT", 0x6A88)));
    assert_eq!(err.message(""), "PACE MSE:Set AT: card returned SW=0x6A88");
}

#[test]
fn a_wrongly_encoded_point_is_refused() {
    let terminal = terminal_point().encode_uncompressed().expect("encodes");
    let mut tx = Scripted {
        steps: vec![(
            wrap_general_authenticate(true, &ber::tlv(0x7C, &ber::tlv(0x81, &terminal))),
            ok(ber::tlv(0x7C, &ber::tlv(0x82, &[0x02, 0x01]))),
        )],
        cursor: 0,
    };
    let err = map_nonce(&mut tx, &Brainpool::new(), &[7; 16], scalar(TERMINAL_SCALAR))
        .err()
        .expect("refused");
    assert!(matches!(err, PaceError::InvalidPoint));
}

#[test]
fn a_reply_that_is_no_data_object_is_refused() {
    let can = Can::new(*b"123456").expect("six digits");
    let mut tx = Scripted {
        steps: vec![(
            vec![0x10, 0x86, 0x00, 0x00, 0x02, 0x7C, 0x00, 0x00],
            ok(vec![0x7C, 0x05, 0x00]),
        )],
        cursor: 0,
    };
    let err = get_encrypted_nonce(&mut tx, &can).expect_err("truncated");
    assert!(matches!(err, PaceError::Ber(ber::BerError::Truncated)));
}

#[test]
fn access_numbers_are_six_digits() {
    assert!(Can::new(*b"12345a").is_none());
    assert_eq!(Can::new(*b"000000").expect("digits").as_bytes(), b"000000");
}

#[test]
fn fingerprints_show_both_ends() {
    assert_eq!(fingerprint(&[1, 2, 3, 4, 5, 6, 7, 8, 9]), "01020304...06070809");
    assert_eq!(fingerprint(&[0xAB]), "ab...ab");
}
