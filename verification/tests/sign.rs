use refineid::apdu::{ApduClass, StatusWord};
use refineid::atr::{Atr, AtrError, MINIMAL_DIRECT_ATR};
use refineid::crypto::container::{Ciphertext, RsaPkcs1};
use refineid::crypto::digest::{Sha1, Sha224, Sha256, Sha384, Sha512};
use refineid::sign::commands::{
    DecipherAlgRef, ExternalHashValue, HashAlgorithm, MseSet, MseSetTemplate,
    PsoComputeDigitalSignature, PsoDecipher, PsoHash, PsoHashMode, SignatureAlgRef,
    SignatureAlgorithm,
};
use refineid::sign::{
    KeyRef, SignError, SignOps, ECDSA_P256_SIG_BYTES, ECDSA_P384_SIG_BYTES, RSA_3072_SIG_BYTES,
    SHA256_DIGEST_LEN, SHA384_DIGEST_LEN,
};
use refineid::transport::{CardTransport, CommandApdu, ResponseApdu, TransportOutcome};
use std::collections::VecDeque;

struct Scripted {
    steps: VecDeque<(Vec<u8>, ResponseApdu)>,
}
impl Scripted {
    fn new(steps: Vec<(Vec<u8>, ResponseApdu)>) -> Self {
        Self {
            steps: steps.into(),
        }
    }
}
impl CardTransport for Scripted {
    type Error = String;
    fn transmit_outcome(
        &mut self,
        apdu: &CommandApdu,
    ) -> Result<TransportOutcome, Self::Error> {
        let (expected, response) = self
            .steps
            .pop_front()
            .expect("Scripted: unexpected extra APDU");
        assert_eq!(apdu.as_bytes(), expected.as_slice(), "APDU mismatch");
        Ok(TransportOutcome::Response(response))
    }
    fn atr(&self) -> Result<Atr, AtrError> {
        Atr::new(&MINIMAL_DIRECT_ATR)
    }
}

fn response(sw: StatusWord, body: Vec<u8>) -> ResponseApdu {
    let [sw1, sw2] = sw.as_u16().to_be_bytes();
    ResponseApdu { body, sw1, sw2 }
}

fn ok(body: &[u8]) -> ResponseApdu {
    response(StatusWord::Success, body.to_vec())
}
fn sw_err(sw: StatusWord) -> ResponseApdu {
    response(sw, vec![])
}

fn expected_mse_set_dst(alg_ref: SignatureAlgRef, key_ref: KeyRef) -> Vec<u8> {
    MseSet {
        class: ApduClass::Plain,
        template: MseSetTemplate::DigitalSignature { alg_ref, key_ref },
    }
    .into_apdu()
    .into_bytes()
}

fn expected_pso_hash(hash: ExternalHashValue) -> Vec<u8> {
    PsoHash {
        class: ApduClass::Plain,
        mode: PsoHashMode::External { hash },
    }
    .into_apdu()
    .into_bytes()
}

fn expected_pso_cds(le: u8) -> Vec<u8> {
    PsoComputeDigitalSignature {
        class: ApduClass::Plain,
    }
    .into_apdu_with_le(le)
    .into_bytes()
}

fn expected_mse_set_ct(alg_ref: DecipherAlgRef, key_ref: KeyRef) -> Vec<u8> {
    MseSet {
        class: ApduClass::Plain,
        template: MseSetTemplate::DeciphermentRsa { alg_ref, key_ref },
    }
    .into_apdu()
    .into_bytes()
}

fn expected_pso_decipher(body: Vec<u8>, chain: bool) -> Vec<u8> {
    PsoDecipher { body, chain }
        .into_apdu()
        .into_bytes()
}

const FIXTURE_FILL: u8 = 0xAA;

const RSA_PKCS1_PADDING_INDICATOR_KEY: u8 = 0x81;

fn placeholder_sha256_digest() -> Sha256 {
    Sha256::from_bytes([FIXTURE_FILL; SHA256_DIGEST_LEN])
}

fn placeholder_sha1_digest() -> Sha1 {
    Sha1::from_bytes([FIXTURE_FILL; 20])
}

fn placeholder_sha224_digest() -> Sha224 {
    Sha224::from_bytes([FIXTURE_FILL; 28])
}

fn placeholder_sha384_digest() -> Sha384 {
    Sha384::from_bytes([FIXTURE_FILL; SHA384_DIGEST_LEN])
}

fn placeholder_sha512_digest() -> Sha512 {
    Sha512::from_bytes([FIXTURE_FILL; 64])
}

fn placeholder_sig_bytes(len: usize) -> Vec<u8> {
    vec![FIXTURE_FILL; len]
}

fn placeholder_ciphertext_rsa_3072() -> Ciphertext<RsaPkcs1> {
    Ciphertext::new(placeholder_sig_bytes(RSA_3072_SIG_BYTES))
}

fn placeholder_ciphertext_short() -> Ciphertext<RsaPkcs1> {
    const SHORT_CT_LEN: usize = 128;
    Ciphertext::new(placeholder_sig_bytes(SHORT_CT_LEN))
}

#[test]
fn full_chain_yields_signature() {
    let hash = placeholder_sha256_digest();
    let sig = placeholder_sig_bytes(RSA_3072_SIG_BYTES);
    let mut tx = Scripted::new(vec![
        (
            expected_mse_set_dst(SignatureAlgRef::sha256_rsa_pkcs1_v1_5(), KeyRef::Auth),
            ok(&[]),
        ),
        (
            expected_pso_hash(ExternalHashValue::Sha256(*hash.as_bytes())),
            ok(&[]),
        ),
        (
            expected_pso_cds(PsoComputeDigitalSignature::LE_MAX_SHORT),
            ok(&sig),
        ),
    ]);
    let out = tx.sign_pre_hashed_sha256_rsa_auth(hash).expect("ok");
    assert_eq!(out.as_bytes(), sig.as_slice());
}

#[test]
fn rsa_pss_sha256_composes_algref_45() {
    let digest = ExternalHashValue::Sha256([FIXTURE_FILL; 32]);
    let alg_ref = SignatureAlgRef::from_parts(
        HashAlgorithm::Sha256,
        SignatureAlgorithm::RsaPss,
    );
    let sig = placeholder_sig_bytes(RSA_3072_SIG_BYTES);
    let mut tx = Scripted::new(vec![
        (expected_mse_set_dst(alg_ref, KeyRef::Auth), ok(&[])),
        (expected_pso_hash(digest), ok(&[])),
        (
            expected_pso_cds(PsoComputeDigitalSignature::LE_MAX_SHORT),
            ok(&sig),
        ),
    ]);
    let out = tx
        .sign_pre_hashed_rsa_pss(KeyRef::Auth, digest)
        .expect("ok");
    assert_eq!(out.as_bytes(), sig.as_slice());
}

#[test]
fn ecdsa_p384_sha1_chain_yields_96_byte_signature() {
    let hash = placeholder_sha1_digest();
    let sig = placeholder_sig_bytes(ECDSA_P384_SIG_BYTES);
    let mut tx = Scripted::new(vec![
        (
            expected_mse_set_dst(
                SignatureAlgRef::from_parts(
                    HashAlgorithm::Sha1,
                    SignatureAlgorithm::Ecdsa,
                ),
                KeyRef::Auth,
            ),
            ok(&[]),
        ),
        (
            expected_pso_hash(ExternalHashValue::Sha1(*hash.as_bytes())),
            ok(&[]),
        ),
        (
            expected_pso_cds(PsoComputeDigitalSignature::LE_ECDSA_P384),
            ok(&sig),
        ),
    ]);
    let out = tx
        .sign_pre_hashed_sha1_ecdsa_p384(KeyRef::Auth, hash)
        .expect("ok");
    assert_eq!(out.as_bytes(), sig.as_slice());
}

#[test]
fn rsa_pkcs1_sha512_composes_algref_62() {
    let digest = ExternalHashValue::Sha512([FIXTURE_FILL; 64]);
    let alg_ref = SignatureAlgRef::from_parts(
        HashAlgorithm::Sha512,
        SignatureAlgorithm::RsaPkcs1V1_5,
    );
    let sig = placeholder_sig_bytes(RSA_3072_SIG_BYTES);
    let mut tx = Scripted::new(vec![
        (expected_mse_set_dst(alg_ref, KeyRef::Auth), ok(&[])),
        (expected_pso_hash(digest), ok(&[])),
        (
            expected_pso_cds(PsoComputeDigitalSignature::LE_MAX_SHORT),
            ok(&sig),
        ),
    ]);
    let out = tx
        .sign_pre_hashed_rsa_pkcs1(KeyRef::Auth, digest)
        .expect("ok");
    assert_eq!(out.as_bytes(), sig.as_slice());
}

#[test]
fn ecdsa_p256_chain_yields_64_byte_sig() {
    let hash = placeholder_sha256_digest();
    let sig = placeholder_sig_bytes(ECDSA_P256_SIG_BYTES);
    let mut tx = Scripted::new(vec![
        (
            expected_mse_set_dst(SignatureAlgRef::sha256_ecdsa(), KeyRef::Auth),
            ok(&[]),
        ),
        (
            expected_pso_hash(ExternalHashValue::Sha256(*hash.as_bytes())),
            ok(&[]),
        ),
        (
            expected_pso_cds(PsoComputeDigitalSignature::LE_ECDSA_P256),
            ok(&sig),
        ),
    ]);
    let out = tx
        .sign_pre_hashed_sha256_ecdsa_p256(KeyRef::Auth, hash)
        .expect("ok");
    assert_eq!(out.as_bytes(), sig.as_slice());
}

#[test]
fn ecdsa_p384_sha512_chain_yields_96_byte_signature() {
    let hash = placeholder_sha512_digest();
    let sig = placeholder_sig_bytes(ECDSA_P384_SIG_BYTES);
    let mut tx = Scripted::new(vec![
        (
            expected_mse_set_dst(
                SignatureAlgRef::from_parts(
                    HashAlgorithm::Sha512,
                    SignatureAlgorithm::Ecdsa,
                ),
                KeyRef::Auth,
            ),
            ok(&[]),
        ),
        (
            expected_pso_hash(ExternalHashValue::Sha512(*hash.as_bytes())),
            ok(&[]),
        ),
        (
            expected_pso_cds(PsoComputeDigitalSignature::LE_ECDSA_P384),
            ok(&sig),
        ),
    ]);
    let out = tx
        .sign_pre_hashed_sha512_ecdsa_p384(KeyRef::Auth, hash)
        .expect("ok");
    assert_eq!(out.as_bytes(), sig.as_slice());
}

#[test]
fn decrypt_rsa_pkcs1_targets_requested_key_ref() {
    let ct = placeholder_ciphertext_rsa_3072();
    let mut body = vec![RSA_PKCS1_PADDING_INDICATOR_KEY];
    body.extend_from_slice(ct.as_bytes());
    let half = body.len().div_euclid(2);
    let (first, second) = body.split_at(half);
    let plaintext = placeholder_sig_bytes(48);
    let mut tx = Scripted::new(vec![
        (
            expected_mse_set_ct(DecipherAlgRef::RsassaPkcs1V1_5, KeyRef::Sign),
            ok(&[]),
        ),
        (expected_pso_decipher(first.to_vec(), true), ok(&[])),
        (
            expected_pso_decipher(second.to_vec(), false),
            ok(&plaintext),
        ),
    ]);
    let out = tx.decrypt_rsa_pkcs1(KeyRef::Sign, ct).expect("ok");
    assert_eq!(out.as_bytes(), plaintext.as_slice());
}

#[test]
fn qualified_slot_uses_key_ref_02() {
    let hash = placeholder_sha256_digest();
    let sig = placeholder_sig_bytes(RSA_3072_SIG_BYTES);
    let mut tx = Scripted::new(vec![
        (
            expected_mse_set_dst(SignatureAlgRef::sha256_rsa_pkcs1_v1_5(), KeyRef::Sign),
            ok(&[]),
        ),
        (
            expected_pso_hash(ExternalHashValue::Sha256(*hash.as_bytes())),
            ok(&[]),
        ),
        (
            expected_pso_cds(PsoComputeDigitalSignature::LE_MAX_SHORT),
            ok(&sig),
        ),
    ]);
    let out = tx.sign_pre_hashed_sha256_rsa_qualified(hash).expect("ok");
    assert_eq!(out.as_bytes(), sig.as_slice());
}

#[test]
fn mse_failure_surfaces_sw() {
    let hash = placeholder_sha256_digest();
    let mut tx = Scripted::new(vec![(
        expected_mse_set_dst(SignatureAlgRef::sha256_rsa_pkcs1_v1_5(), KeyRef::Auth),
        sw_err(StatusWord::ReferenceDataNotFound),
    )]);
    let err = tx
        .sign_pre_hashed_sha256_rsa_auth(hash)
        .expect_err("MSE:Set DST error status aborts the chain");
    assert!(matches!(
        err,
        SignError::Sw("MSE:Set DST", sw) if sw == StatusWord::ReferenceDataNotFound.as_u16()
    ));
}

#[test]
fn pso_hash_failure_surfaces_sw() {
    let hash = placeholder_sha256_digest();
    let mut tx = Scripted::new(vec![
        (
            expected_mse_set_dst(SignatureAlgRef::sha256_rsa_pkcs1_v1_5(), KeyRef::Auth),
            ok(&[]),
        ),
        (
            expected_pso_hash(ExternalHashValue::Sha256(*hash.as_bytes())),
            sw_err(StatusWord::SecurityNotSatisfied),
        ),
    ]);
    let err = tx
        .sign_pre_hashed_sha256_rsa_auth(hash)
        .expect_err("PSO:HASH error status aborts the chain");
    assert!(matches!(
        err,
        SignError::Sw("PSO:HASH", sw) if sw == StatusWord::SecurityNotSatisfied.as_u16()
    ));
}

#[test]
fn pso_cds_security_status_surfaces_sw() {
    let hash = placeholder_sha256_digest();
    let mut tx = Scripted::new(vec![
        (
            expected_mse_set_dst(SignatureAlgRef::sha256_rsa_pkcs1_v1_5(), KeyRef::Auth),
            ok(&[]),
        ),
        (
            expected_pso_hash(ExternalHashValue::Sha256(*hash.as_bytes())),
            ok(&[]),
        ),
        (
            expected_pso_cds(PsoComputeDigitalSignature::LE_MAX_SHORT),
            sw_err(StatusWord::SecurityNotSatisfied),
        ),
    ]);
    let err = tx
        .sign_pre_hashed_sha256_rsa_auth(hash)
        .expect_err("PSO:CDS error status aborts the chain");
    assert!(matches!(
        err,
        SignError::Sw("PSO:CDS", sw) if sw == StatusWord::SecurityNotSatisfied.as_u16()
    ));
}

#[test]
fn decrypt_chain_rsa_3072_uses_chained_pso_decipher() {
    let ciphertext = placeholder_ciphertext_rsa_3072();
    let ct_bytes_for_chunks = placeholder_sig_bytes(RSA_3072_SIG_BYTES);
    let mut body = vec![RSA_PKCS1_PADDING_INDICATOR_KEY];
    body.extend_from_slice(&ct_bytes_for_chunks);
    let (first, second) = body.split_at(body.len() / 2);
    let chunk1 = expected_pso_decipher(first.to_vec(), true);
    let chunk2 = expected_pso_decipher(second.to_vec(), false);

    let plaintext = b"the answer is 42".to_vec();
    let mut tx = Scripted::new(vec![
        (
            expected_mse_set_ct(DecipherAlgRef::RsassaPkcs1V1_5, KeyRef::Auth),
            ok(&[]),
        ),
        (chunk1, ok(&[])),
        (chunk2, ok(&plaintext)),
    ]);
    let out = tx.decrypt_rsa_pkcs1_auth(ciphertext).expect("ok");
    assert_eq!(out.as_bytes(), plaintext.as_slice());
}

#[test]
fn decrypt_rejects_wrong_ciphertext_length() {
    let mut tx = Scripted::new(vec![]);
    let short = placeholder_ciphertext_short();
    let short_len = short.len();
    let err = tx
        .decrypt_rsa_pkcs1_auth(short)
        .expect_err("non-RSA-3072-size ciphertext is rejected");
    assert!(matches!(
        err,
        SignError::UnexpectedSignatureLength(n) if n == short_len
    ));
}

#[test]
fn decrypt_mse_failure_surfaces_sw() {
    let ciphertext = placeholder_ciphertext_rsa_3072();
    let mut tx = Scripted::new(vec![(
        expected_mse_set_ct(DecipherAlgRef::RsassaPkcs1V1_5, KeyRef::Auth),
        sw_err(StatusWord::ReferenceDataNotFound),
    )]);
    let err = tx
        .decrypt_rsa_pkcs1_auth(ciphertext)
        .expect_err("MSE:Set CT error status aborts the chain");
    assert!(matches!(
        err,
        SignError::Sw("MSE:Set CT", sw) if sw == StatusWord::ReferenceDataNotFound.as_u16()
    ));
}

#[test]
fn pso_cds_wrong_signature_length_surfaces_unexpected_length() {
    let hash = placeholder_sha256_digest();
    let sig = placeholder_sig_bytes(ECDSA_P384_SIG_BYTES);
    let mut tx = Scripted::new(vec![
        (
            expected_mse_set_dst(SignatureAlgRef::sha256_rsa_pkcs1_v1_5(), KeyRef::Auth),
            ok(&[]),
        ),
        (
            expected_pso_hash(ExternalHashValue::Sha256(*hash.as_bytes())),
            ok(&[]),
        ),
        (
            expected_pso_cds(PsoComputeDigitalSignature::LE_MAX_SHORT),
            ok(&sig),
        ),
    ]);
    let err = tx
        .sign_pre_hashed_sha256_rsa_auth(hash)
        .expect_err("ECDSA-size signature on an RSA chain is rejected");
    assert!(matches!(
        err,
        SignError::UnexpectedSignatureLength(n) if n == ECDSA_P384_SIG_BYTES
    ));
}

#[test]
fn ecdsa_p384_chain_yields_96_byte_signature() {
    let hash = placeholder_sha384_digest();
    let sig = placeholder_sig_bytes(ECDSA_P384_SIG_BYTES);
    let mut tx = Scripted::new(vec![
        (
            expected_mse_set_dst(SignatureAlgRef::sha384_ecdsa(), KeyRef::Auth),
            ok(&[]),
        ),
        (
            expected_pso_hash(ExternalHashValue::Sha384(*hash.as_bytes())),
            ok(&[]),
        ),
        (
            expected_pso_cds(PsoComputeDigitalSignature::LE_ECDSA_P384),
            ok(&sig),
        ),
    ]);
    let out = tx
        .sign_pre_hashed_sha384_ecdsa_p384(KeyRef::Auth, hash)
        .expect("ok");
    assert_eq!(out.as_bytes(), sig.as_slice());
}

#[test]
fn ecdsa_p384_sha224_chain_yields_96_byte_signature() {
    let hash = placeholder_sha224_digest();
    let sig = placeholder_sig_bytes(ECDSA_P384_SIG_BYTES);
    let mut tx = Scripted::new(vec![
        (
            expected_mse_set_dst(SignatureAlgRef::sha224_ecdsa(), KeyRef::Auth),
            ok(&[]),
        ),
        (
            expected_pso_hash(ExternalHashValue::Sha224(*hash.as_bytes())),
            ok(&[]),
        ),
        (
            expected_pso_cds(PsoComputeDigitalSignature::LE_ECDSA_P384),
            ok(&sig),
        ),
    ]);
    let out = tx
        .sign_pre_hashed_sha224_ecdsa_p384(KeyRef::Auth, hash)
        .expect("ok");
    assert_eq!(out.as_bytes(), sig.as_slice());
}

#[test]
fn ecdsa_p384_chain_wrong_length_surfaces_unexpected_length() {
    let hash = placeholder_sha384_digest();
    let sig = placeholder_sig_bytes(RSA_3072_SIG_BYTES);
    let mut tx = Scripted::new(vec![
        (
            expected_mse_set_dst(SignatureAlgRef::sha384_ecdsa(), KeyRef::Auth),
            ok(&[]),
        ),
        (
            expected_pso_hash(ExternalHashValue::Sha384(*hash.as_bytes())),
            ok(&[]),
        ),
        (
            expected_pso_cds(PsoComputeDigitalSignature::LE_ECDSA_P384),
            ok(&sig),
        ),
    ]);
    let err = tx
        .sign_pre_hashed_sha384_ecdsa_p384(KeyRef::Auth, hash)
        .expect_err("RSA-size signature on an ECDSA chain is rejected");
    assert!(matches!(
        err,
        SignError::UnexpectedSignatureLength(n) if n == RSA_3072_SIG_BYTES
    ));
}
