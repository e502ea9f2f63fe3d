use refineid::atr::{Atr, AtrError, MINIMAL_DIRECT_ATR};
use refineid::crypto::container::{Ciphertext, RsaPkcs1};
use refineid::crypto::digest::{Sha1, Sha224, Sha256, Sha384, Sha512};
use refineid::sign::commands::{SignatureAlgRef, HashAlgorithm, SignatureAlgorithm};
use refineid::sign::{KeyRef, SignError, SignOps};
use refineid::transport::{
    CardTransport, CommandApdu, ResponseApdu, TransportDispatchError, TransportOutcome,
};

struct Card {
    script: Vec<(Vec<u8>, Result<TransportOutcome, String>)>,
    sent: usize,
}

impl Card {
    fn new(script: Vec<(Vec<u8>, Result<TransportOutcome, String>)>) -> Self {
        Card { script, sent: 0 }
    }
}

impl CardTransport for Card {
    type Error = String;

    fn transmit_outcome(&mut self, apdu: &CommandApdu) -> Result<TransportOutcome, Self::Error> {
        assert!(self.sent < self.script.len(), "unexpected command");
        let (expected, reply) = &self.script[self.sent];
        assert_eq!(apdu.as_bytes(), expected.as_slice(), "command {}", self.sent);
        self.sent += 1;
        match reply {
            Ok(TransportOutcome::Response(r)) => Ok(TransportOutcome::Response(r.clone())),
            Ok(_) => Ok(TransportOutcome::CardReset),
            Err(e) => Err(e.clone()),
        }
    }

    fn atr(&self) -> Result<Atr, AtrError> {
        Atr::new(&MINIMAL_DIRECT_ATR)
    }
}

fn reply(sw: u16, body: &[u8]) -> Result<TransportOutcome, String> {
    let [sw1, sw2] = sw.to_be_bytes();
    Ok(TransportOutcome::Response(ResponseApdu { body: body.to_vec(), sw1, sw2 }))
}

fn short(data: &[u8]) -> Vec<u8> {
    let mut v = vec![0x00, 0x2A, 0x9E, 0x9A, u8::try_from(data.len()).expect("short")];
    v.extend_from_slice(data);
    v.push(0x00);
    v
}

fn chained(data: &[u8]) -> Vec<u8> {
    let mut v = vec![0x10, 0x2A, 0x9E, 0x9A, u8::try_from(data.len()).expect("short")];
    v.extend_from_slice(data);
    v
}

fn extended(data: &[u8]) -> Vec<u8> {
    let mut v = vec![0x00, 0x2A, 0x9E, 0x9A, 0x00];
    v.extend_from_slice(&u16::try_from(data.len()).expect("fits").to_be_bytes());
    v.extend_from_slice(data);
    v.extend_from_slice(&[0x00, 0x00]);
    v
}

#[test]
fn short_block_goes_out_at_once() {
    let data = [0x5A; 255];
    let mut card = Card::new(vec![(short(&data), reply(0x9000, &[1, 2, 3]))]);
    let signature = card.pso_cds_with_data::<RsaPkcs1>(&data).expect("signs");
    assert_eq!(signature.as_bytes(), &[1, 2, 3]);
}

#[test]
fn short_block_failure_is_labelled() {
    let data = [0x5A; 4];
    let mut card = Card::new(vec![(short(&data), reply(0x6982, &[]))]);
    let err = card.pso_cds_with_data::<RsaPkcs1>(&data).expect_err("refused");
    assert!(matches!(err, SignError::Sw("PSO:CDS data", 0x6982)));
    assert_eq!(err.message(""), "sign PSO:CDS data: card returned SW=0x6982");
}

#[test]
fn long_block_goes_out_in_halves() {
    let data: Vec<u8> = (0..384_u32).map(|i| (i % 251) as u8).collect();
    let mut card = Card::new(vec![
        (chained(&data[..192]), reply(0x9000, &[])),
        (short(&data[192..]), reply(0x9000, &[4, 5])),
    ]);
    assert_eq!(card.pso_cds_with_data::<RsaPkcs1>(&data).expect("signs").as_bytes(), &[4, 5]);
    assert_eq!(card.sent, 2);
}

#[test]
fn failures_of_halves_are_labelled() {
    let data = [0x11; 301];
    let mut card = Card::new(vec![(chained(&data[..150]), reply(0x6985, &[]))]);
    let err = card.pso_cds_with_data::<RsaPkcs1>(&data).expect_err("refused");
    assert!(matches!(err, SignError::Sw("PSO:CDS chunk 1/2", 0x6985)));
    let mut card = Card::new(vec![
        (chained(&data[..150]), reply(0x9000, &[])),
        (short(&data[150..]), reply(0x6A80, &[])),
    ]);
    let err = card.pso_cds_with_data::<RsaPkcs1>(&data).expect_err("refused");
    assert!(matches!(err, SignError::Sw("PSO:CDS chunk 2/2", 0x6A80)));
}

#[test]
fn blocks_whose_halves_do_not_fit_are_refused() {
    let data = vec![0x22; 510];
    let mut card = Card::new(vec![
        (chained(&data[..255]), reply(0x9000, &[])),
        (short(&data[255..]), reply(0x9000, &[6])),
    ]);
    assert_eq!(card.pso_cds_with_data::<RsaPkcs1>(&data).expect("signs").as_bytes(), &[6]);
    let mut card = Card::new(vec![]);
    let err = card.pso_cds_with_data::<RsaPkcs1>(&vec![0x22; 511]).expect_err("too long");
    assert!(matches!(err, SignError::InputTooLong(511)));
    assert_eq!(card.sent, 0);
}

#[test]
fn short_blocks_need_no_extended_command() {
    let data = [0x5A; 255];
    let mut card = Card::new(vec![(short(&data), reply(0x9000, &[1]))]);
    assert_eq!(card.pso_cds_extended::<RsaPkcs1>(&data).expect("signs").as_bytes(), &[1]);
}

#[test]
fn long_block_goes_out_extended() {
    let data = [0x5A; 384];
    let mut card = Card::new(vec![(extended(&data), reply(0x9000, &[9]))]);
    assert_eq!(card.pso_cds_extended::<RsaPkcs1>(&data).expect("signs").as_bytes(), &[9]);
}

#[test]
fn refused_extended_block_goes_out_in_halves() {
    let data: Vec<u8> = (0..384_u32).map(|i| (i % 256) as u8).collect();
    let mut card = Card::new(vec![
        (extended(&data), reply(0x6700, &[])),
        (chained(&data[..192]), reply(0x9000, &[])),
        (short(&data[192..]), reply(0x9000, &[7])),
    ]);
    assert_eq!(card.pso_cds_extended::<RsaPkcs1>(&data).expect("signs").as_bytes(), &[7]);
    assert_eq!(card.sent, 3);
}

#[test]
fn broken_extended_exchange_also_falls_back() {
    let data = [0x11; 300];
    let mut card = Card::new(vec![
        (extended(&data), Err("reader".to_owned())),
        (chained(&data[..150]), reply(0x6A80, &[])),
    ]);
    let err = card.pso_cds_extended::<RsaPkcs1>(&data).expect_err("refused");
    assert!(matches!(err, SignError::Sw("PSO:CDS chunk 1/2", 0x6A80)));
}

#[test]
fn first_half_failure_reports_the_extended_status() {
    let data = [0x11; 300];
    let mut card = Card::new(vec![
        (extended(&data), reply(0x6700, &[])),
        (chained(&data[..150]), reply(0x6A80, &[])),
    ]);
    let err = card.pso_cds_extended::<RsaPkcs1>(&data).expect_err("refused");
    assert!(matches!(err, SignError::Sw("PSO:CDS extended", 0x6700)));
}

#[test]
fn second_half_failure_is_labelled() {
    let data = [0x11; 300];
    let mut card = Card::new(vec![
        (extended(&data), reply(0x6700, &[])),
        (chained(&data[..150]), reply(0x9000, &[])),
        (short(&data[150..]), reply(0x6A80, &[])),
    ]);
    let err = card.pso_cds_extended::<RsaPkcs1>(&data).expect_err("refused");
    assert!(matches!(err, SignError::Sw("PSO:CDS chunk 2/2", 0x6A80)));
}

#[test]
fn blocks_that_fit_no_command_are_refused() {
    let mut card = Card::new(vec![]);
    let err = card.pso_cds_extended::<RsaPkcs1>(&vec![0; 0x1_0000]).expect_err("too long");
    assert!(matches!(err, SignError::InputTooLong(0x1_0000)));
    let data = vec![0x22; 511];
    let mut card = Card::new(vec![(extended(&data), reply(0x6700, &[]))]);
    let err = card.pso_cds_extended::<RsaPkcs1>(&data).expect_err("halves too long");
    assert!(matches!(err, SignError::InputTooLong(511)));
    assert_eq!(
        err.message(""),
        "sign: 511-byte input exceeds the ISO 7816 signing command length"
    );
}

#[test]
fn transport_outcomes_pass_through() {
    let mut card = Card::new(vec![(short(&[1]), Ok(TransportOutcome::CardReset))]);
    let err = card.pso_cds_with_data::<RsaPkcs1>(&[1]).expect_err("no response");
    assert!(matches!(
        err,
        SignError::Transport(TransportDispatchError::Outcome(TransportOutcome::CardReset))
    ));
    assert_eq!(err.message("card reset"), "sign transport: card reset");
}

#[test]
fn algorithm_bytes_are_composed_of_two_nibbles() {
    assert_eq!(SignatureAlgRef::sha256_rsa_pkcs1_v1_5().as_byte(), 0x42);
    assert_eq!(
        SignatureAlgRef::from_parts(HashAlgorithm::Sha256, SignatureAlgorithm::RsaPss).as_byte(),
        0x45
    );
    assert_eq!(SignatureAlgRef::sha384_ecdsa().as_byte(), 0x54);
    assert_eq!(SignatureAlgRef::rsa_pkcs1_raw().as_byte(), 0x40);
}

#[test]
fn short_ciphertext_goes_out_at_once() {
    let mut expected = vec![0x00, 0x2A, 0x80, 0x86, 0x05, 0x81, 1, 2, 3, 4];
    expected.push(0x00);
    let mut card = Card::new(vec![(expected, reply(0x9000, b"plain"))]);
    let plain = card.pso_decipher(Ciphertext::<RsaPkcs1>::new(vec![1, 2, 3, 4])).expect("decrypts");
    assert_eq!(plain.as_bytes(), b"plain");
}

#[test]
fn key_references_have_their_bytes() {
    assert_eq!(KeyRef::Auth.as_u8(), 0x01);
    assert_eq!(KeyRef::Sign.as_u8(), 0x02);
}

#[test]
fn raw_blocks_are_announced_by_the_template_of_their_key() {
    let block = [0x11; 8];
    let mut card = Card::new(vec![
        (
            vec![0x00, 0x22, 0x41, 0xA4, 0x06, 0x80, 0x01, 0x40, 0x84, 0x01, 0x01],
            reply(0x9000, &[]),
        ),
        (short(&block), reply(0x9000, &[9])),
    ]);
    assert_eq!(card.sign_rsa_raw(KeyRef::Auth, &block).expect("signs").as_bytes(), &[9]);
    let mut card = Card::new(vec![(
        vec![0x00, 0x22, 0x41, 0xB6, 0x06, 0x80, 0x01, 0x40, 0x84, 0x01, 0x02],
        reply(0x6A80, &[]),
    )]);
    let err = card.sign_rsa_raw(KeyRef::Sign, &block).expect_err("refused");
    assert!(matches!(err, SignError::Sw("MSE:Set DST", 0x6A80)));
}

#[test]
fn digests_of_every_length_go_out_whole() {
    let hash_command = |hash: &[u8]| {
        let len = u8::try_from(hash.len()).expect("short");
        let mut v = vec![0x00, 0x2A, 0x90, 0xA0, len + 2, 0x90, len];
        v.extend_from_slice(hash);
        v
    };
    let mut card = Card::new(vec![
        (hash_command(&[1; 20]), reply(0x9000, &[])),
        (hash_command(&[2; 28]), reply(0x9000, &[])),
        (hash_command(&[3; 32]), reply(0x9000, &[])),
        (hash_command(&[4; 48]), reply(0x9000, &[])),
        (hash_command(&[5; 64]), reply(0x6985, &[])),
    ]);
    card.pso_hash_external_sha1(Sha1::from_bytes([1; 20])).expect("taken");
    card.pso_hash_external_sha224(Sha224::from_bytes([2; 28])).expect("taken");
    card.pso_hash_external_sha256(Sha256::from_bytes([3; 32])).expect("taken");
    card.pso_hash_external_sha384(Sha384::from_bytes([4; 48])).expect("taken");
    assert!(matches!(
        card.pso_hash_external_sha512(Sha512::from_bytes([5; 64])),
        Err(SignError::Sw("PSO:HASH", 0x6985))
    ));
    assert_eq!(card.sent, 5);
}

#[test]
fn stored_hashes_are_signed_with_an_empty_command() {
    let mut card = Card::new(vec![(vec![0x00, 0x2A, 0x9E, 0x9A, 0x60], reply(0x9000, &[7; 96]))]);
    assert_eq!(card.pso_cds_empty::<RsaPkcs1>(0x60).expect("signs").as_bytes(), &[7; 96]);
    let mut card = Card::new(vec![
        (
            vec![0x00, 0x22, 0x41, 0xB6, 0x06, 0x80, 0x01, 0x44, 0x84, 0x01, 0x02],
            reply(0x9000, &[]),
        ),
        (
            [vec![0x00, 0x2A, 0x90, 0xA0, 0x22, 0x90, 0x20], vec![6; 32]].concat(),
            reply(0x9000, &[]),
        ),
        (vec![0x00, 0x2A, 0x9E, 0x9A, 0x60], reply(0x9000, &[8; 96])),
    ]);
    let signature = card
        .sign_pre_hashed_sha256_ecdsa_p384(KeyRef::Sign, Sha256::from_bytes([6; 32]))
        .expect("signs");
    assert_eq!(signature.as_bytes(), &[8; 96]);
}
