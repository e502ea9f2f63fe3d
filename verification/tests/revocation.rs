use refineid::crl::{Crl, CrlReason, RevokedEntry, VerifiedCrl};
use refineid::identity::CertSerial;
use refineid::ocsp::{
    CertStatus, OcspResponse, OcspResponseStatus, SingleResponse, VerifiedOcspResponse,
};
use refineid::revocation::{
    check_against_crl, check_against_ocsp_response, InapplicableReason, RevocationCache,
    RevocationEvidence, RevocationSource, RevocationStatus,
};
use refineid::oid::known;
use refineid::x509::key::RsaKeyParts;
use refineid::x509::verify::{HashKind, SignatureVerifier, TbsSignature};
use refineid::x509::{Certificate, DateTime, Name, SignatureAlgorithm, VerifyError};

const TAG_OID: u8 = 0x06;
const TAG_UTF8STRING: u8 = 0x0C;
const TAG_UTCTIME: u8 = 0x17;
const TAG_GENERALIZEDTIME: u8 = 0x18;
const TAG_SEQUENCE: u8 = 0x30;
const TAG_SET: u8 = 0x31;
const OID_AT_COMMON_NAME: [u8; 3] = [0x55, 0x04, 0x03];

fn push_len(out: &mut Vec<u8>, n: usize) {
    match u8::try_from(n) {
        Ok(short) if short < 0x80 => out.push(short),
        Ok(short) => {
            out.push(0x81);
            out.push(short);
        }
        Err(_) => {
            let long = u16::try_from(n).expect("test lengths fit in u16");
            let [high_byte, low_byte] = long.to_be_bytes();
            out.push(0x82);
            out.push(high_byte);
            out.push(low_byte);
        }
    }
}

fn wrap(tag: u8, value: &[u8]) -> Vec<u8> {
    let mut v = vec![tag];
    push_len(&mut v, value.len());
    v.extend_from_slice(value);
    v
}

fn utc_time(yymmddhhmmss: &str) -> Vec<u8> {
    let mut v = vec![TAG_UTCTIME, 13];
    v.extend_from_slice(yymmddhhmmss.as_bytes());
    v.push(0x5A);
    v
}

fn gen_time(yyyymmddhhmmss: &str) -> Vec<u8> {
    let mut v = vec![TAG_GENERALIZEDTIME, 15];
    v.extend_from_slice(yyyymmddhhmmss.as_bytes());
    v.push(0x5A);
    v
}

fn cn_rdn_sequence(cn_utf8: &[u8]) -> Vec<u8> {
    let mut atv_body = wrap(TAG_OID, &OID_AT_COMMON_NAME);
    atv_body.extend_from_slice(&wrap(TAG_UTF8STRING, cn_utf8));
    let atv = wrap(TAG_SEQUENCE, &atv_body);
    let rdn = wrap(TAG_SET, &atv);
    wrap(TAG_SEQUENCE, &rdn)
}

fn issuer_name() -> Vec<u8> {
    cn_rdn_sequence(b"Issuer")
}

fn different_issuer() -> Vec<u8> {
    cn_rdn_sequence(b"Different")
}

fn subject_name() -> Vec<u8> {
    cn_rdn_sequence(b"Alice")
}

fn build_cert(serial: &[u8], issuer: &[u8]) -> Vec<u8> {
    let sig_alg: Vec<u8> = vec![
        0x30, 0x0D, 0x06, 0x09, 0x2A, 0x86, 0x48, 0x86, 0xF7, 0x0D, 0x01, 0x01, 0x0B, 0x05, 0x00,
    ];
    let mut spki_body = sig_alg.clone();
    spki_body.extend_from_slice(&[0x03, 0x05, 0x00, 0xAA, 0xBB, 0xCC, 0xDD]);
    let spki = wrap(0x30, &spki_body);
    let mut validity_body = utc_time("260101000000");
    validity_body.extend_from_slice(&utc_time("310101000000"));
    let validity = wrap(0x30, &validity_body);
    let mut tbs_body = vec![0xA0, 0x03, 0x02, 0x01, 0x02];
    tbs_body.extend_from_slice(&wrap(0x02, serial));
    tbs_body.extend_from_slice(&sig_alg);
    tbs_body.extend_from_slice(issuer);
    tbs_body.extend_from_slice(&validity);
    tbs_body.extend_from_slice(&subject_name());
    tbs_body.extend_from_slice(&spki);
    let tbs = wrap(0x30, &tbs_body);
    let mut outer_body = tbs;
    outer_body.extend_from_slice(&sig_alg);
    outer_body.extend_from_slice(&[0x03, 0x05, 0x00, 0xDE, 0xAD, 0xBE, 0xEF]);
    wrap(0x30, &outer_body)
}

fn build_ocsp_response(
    serial: &[u8],
    status_tag: u8,
    status_value: &[u8],
    next_update: Option<&str>,
    top_status: u8,
) -> Vec<u8> {
    let alg = wrap(0x30, &[0x06, 0x05, 0x2B, 0x0E, 0x03, 0x02, 0x1A, 0x05, 0x00]);
    let mut cert_id_body = alg;
    cert_id_body.extend_from_slice(&wrap(0x04, &[0xAA; 20]));
    cert_id_body.extend_from_slice(&wrap(0x04, &[0xBB; 20]));
    cert_id_body.extend_from_slice(&wrap(0x02, serial));
    let mut sr_body = wrap(0x30, &cert_id_body);
    sr_body.extend_from_slice(&wrap(status_tag, status_value));
    sr_body.extend_from_slice(&gen_time("20260520120000"));
    if let Some(nu) = next_update {
        sr_body.extend_from_slice(&wrap(0xA0, &gen_time(nu)));
    }
    let single = wrap(0x30, &sr_body);

    let mut tbs_body = wrap(0xA2, &wrap(0x04, &[0xCC; 20]));
    tbs_body.extend_from_slice(&gen_time("20260520120000"));
    tbs_body.extend_from_slice(&wrap(0x30, &single));
    let mut basic_body = wrap(0x30, &tbs_body);
    basic_body.extend_from_slice(&[
        0x30, 0x0D, 0x06, 0x09, 0x2A, 0x86, 0x48, 0x86, 0xF7, 0x0D, 0x01, 0x01, 0x0B, 0x05, 0x00,
    ]);
    basic_body.extend_from_slice(&[0x03, 0x05, 0x00, 0xDE, 0xAD, 0xBE, 0xEF]);
    let basic = wrap(0x30, &basic_body);

    let mut rb_body = vec![0x06, 0x09, 0x2B, 0x06, 0x01, 0x05, 0x05, 0x07, 0x30, 0x01, 0x01];
    rb_body.extend_from_slice(&wrap(0x04, &basic));
    let rb_explicit = wrap(0xA0, &wrap(0x30, &rb_body));

    let mut body = vec![0x0A, 0x01, top_status];
    body.extend_from_slice(&rb_explicit);
    wrap(0x30, &body)
}

fn instant(year: u16, month: u8, day: u8, hour: u8) -> DateTime {
    DateTime::new(year, month, day, hour, 0, 0).expect("valid test instant")
}

fn now() -> DateTime {
    instant(2026, 5, 23, 0)
}

fn after_window() -> DateTime {
    instant(2026, 7, 1, 0)
}

/// A verifier that accepts the signature `AA` and no other.
struct Accepting;

impl SignatureVerifier for Accepting {
    type RsaError = ();
    type EcdsaError = &'static str;

    fn verify_rsa(&self, _: HashKind, _: &RsaKeyParts, _: &[u8], _: &[u8]) -> Option<Result<(), ()>> {
        None
    }

    fn verify_ecdsa(
        &self,
        _: &[u8],
        _: &Vec<u8>,
        signature: &[u8],
    ) -> Option<Result<(), &'static str>> {
        if signature == [0xAA] {
            Some(Ok(()))
        } else {
            Some(Err("forged"))
        }
    }
}

fn signature(algorithm: &[u8]) -> TbsSignature<'_> {
    TbsSignature {
        tbs_der: b"signed",
        signature_alg_oid: algorithm,
        signature_bits: &[0xAA],
        issuer_spki_der: &[],
    }
}

#[test]
fn unverified_sources_are_refused() {
    let issuer = issuer_name();
    let list = || Crl { issuer: Name::from_validated(&issuer), next_update: None, entries: vec![] };
    let forged = TbsSignature {
        signature_bits: &[0xAB],
        ..signature(&known::ECDSA_WITH_SHA256)
    };
    assert_eq!(
        VerifiedCrl::verify(&Accepting, list(), forged).err(),
        Some(VerifyError::Ecdsa("forged"))
    );
    assert_eq!(
        VerifiedCrl::verify(&Accepting, list(), signature(&known::SHA1)).err(),
        Some(VerifyError::Unsupported(SignatureAlgorithm::Other))
    );
    assert_eq!(
        VerifiedOcspResponse::verify(&Accepting, vec![], forged).err(),
        Some(VerifyError::Ecdsa("forged"))
    );
    assert_eq!(
        VerifiedOcspResponse::verify(&Accepting, vec![], signature(&known::SHA256_WITH_RSA)).err(),
        Some(VerifyError::BadIssuerKey)
    );
}

fn crl<'a>(revoked: Option<&[u8]>, issuer: &'a [u8], next_update: DateTime) -> VerifiedCrl<'a> {
    let entries = match revoked {
        Some(serial) => vec![RevokedEntry {
            serial: CertSerial::from_bytes(serial.to_vec()),
            revocation_date: instant(2026, 3, 1, 0),
            reason: None,
        }],
        None => vec![],
    };
    let list = Crl { issuer: Name::from_validated(issuer), next_update: Some(next_update), entries };
    VerifiedCrl::verify(&Accepting, list, signature(&known::ECDSA_WITH_SHA256)).expect("accepted")
}

fn ocsp(serial: &[u8], status: CertStatus, next_update: Option<DateTime>) -> VerifiedOcspResponse {
    let responses =
        vec![SingleResponse { serial: CertSerial::from_bytes(serial.to_vec()), status, next_update }];
    VerifiedOcspResponse::verify(&Accepting, responses, signature(&known::ECDSA_WITH_SHA256))
        .expect("accepted")
}

fn superseded() -> CertStatus {
    CertStatus::Revoked {
        revoked_at: instant(2026, 5, 1, 8),
        reason: Some(CrlReason::Superseded),
    }
}

#[test]
fn crl_good_when_serial_not_present() {
    let cert_der = build_cert(&[0x01], &issuer_name());
    let cert = Certificate::from_der(&cert_der).expect("cert");
    let issuer = issuer_name();
    let list = crl(None, &issuer, instant(2026, 6, 20, 12));
    assert_eq!(check_against_crl(cert, &list, now()), RevocationStatus::Good);
}

#[test]
fn crl_revoked_when_serial_present() {
    let cert_der = build_cert(&[0x01], &issuer_name());
    let cert = Certificate::from_der(&cert_der).expect("cert");
    let issuer = issuer_name();
    let list = crl(Some(&[0x01]), &issuer, instant(2026, 6, 20, 12));
    assert_eq!(
        check_against_crl(cert, &list, now()),
        RevocationStatus::Revoked { at: instant(2026, 3, 1, 0), reason: None }
    );
}

#[test]
fn crl_inapplicable_when_issuer_mismatch() {
    let cert_der = build_cert(&[0x01], &issuer_name());
    let cert = Certificate::from_der(&cert_der).expect("cert");
    let issuer = different_issuer();
    let list = crl(None, &issuer, instant(2026, 6, 20, 12));
    let status = check_against_crl(cert, &list, now());
    assert_eq!(status, RevocationStatus::Inapplicable(InapplicableReason::CrlIssuerMismatch));
    assert_eq!(InapplicableReason::CrlIssuerMismatch.message(), "CRL issuer DN mismatch");
}

#[test]
fn crl_stale_when_now_past_next_update() {
    let cert_der = build_cert(&[0x01], &issuer_name());
    let cert = Certificate::from_der(&cert_der).expect("cert");
    let issuer = issuer_name();
    let list = crl(None, &issuer, instant(2026, 5, 22, 12));
    assert_eq!(check_against_crl(cert, &list, now()), RevocationStatus::Stale);
}

#[test]
fn crl_is_not_stale_at_its_next_update() {
    let cert_der = build_cert(&[0x01], &issuer_name());
    let cert = Certificate::from_der(&cert_der).expect("cert");
    let issuer = issuer_name();
    let list = crl(None, &issuer, now());
    assert_eq!(check_against_crl(cert, &list, now()), RevocationStatus::Good);
}

#[test]
fn ocsp_good_translates() {
    let cert_der = build_cert(&[0x01, 0x23], &issuer_name());
    let cert = Certificate::from_der(&cert_der).expect("cert");
    let verified = ocsp(&[0x01, 0x23], CertStatus::Good, Some(instant(2026, 6, 22, 12)));
    assert_eq!(check_against_ocsp_response(cert, &verified, now()), RevocationStatus::Good);
}

#[test]
fn ocsp_revoked_translates() {
    let cert_der = build_cert(&[0x42], &issuer_name());
    let cert = Certificate::from_der(&cert_der).expect("cert");
    let verified = ocsp(&[0x42], superseded(), Some(instant(2026, 6, 22, 12)));
    assert_eq!(
        check_against_ocsp_response(cert, &verified, now()),
        RevocationStatus::Revoked {
            at: instant(2026, 5, 1, 8),
            reason: Some(CrlReason::Superseded),
        }
    );
}

#[test]
fn ocsp_unknown_translates() {
    let cert_der = build_cert(&[0x07], &issuer_name());
    let cert = Certificate::from_der(&cert_der).expect("cert");
    let verified = ocsp(&[0x07], CertStatus::Unknown, None);
    assert_eq!(check_against_ocsp_response(cert, &verified, now()), RevocationStatus::Unknown);
}

#[test]
fn try_later_response_has_no_verifiable_body() {
    let resp_der = build_ocsp_response(&[0x01], 0x80, &[], None, 3);
    let resp = OcspResponse::parse(&resp_der).expect("ocsp parse");
    assert!(resp.basic.is_none());
    assert_ne!(resp.status, OcspResponseStatus::Successful);
    assert_eq!(resp.status, OcspResponseStatus::TryLater);
}

#[test]
fn successful_response_has_a_body() {
    let resp_der = build_ocsp_response(&[0x01], 0x80, &[], Some("20260622120000"), 0);
    let resp = OcspResponse::parse(&resp_der).expect("ocsp parse");
    assert_eq!(resp.status, OcspResponseStatus::Successful);
    assert_eq!(resp.basic.expect("basic response")[0], 0x30);
}

#[test]
fn ocsp_inapplicable_when_serial_not_in_response() {
    let cert_der = build_cert(&[0x99], &issuer_name());
    let cert = Certificate::from_der(&cert_der).expect("cert");
    let verified = ocsp(&[0x01], CertStatus::Good, None);
    assert_eq!(
        check_against_ocsp_response(cert, &verified, now()),
        RevocationStatus::Inapplicable(InapplicableReason::OcspNoEntryForSerial)
    );
}

#[test]
fn ocsp_stale_when_now_past_next_update() {
    let cert_der = build_cert(&[0x01], &issuer_name());
    let cert = Certificate::from_der(&cert_der).expect("cert");
    let verified = ocsp(&[0x01], CertStatus::Good, Some(instant(2026, 5, 22, 12)));
    assert_eq!(check_against_ocsp_response(cert, &verified, now()), RevocationStatus::Stale);
}

#[test]
fn evidence_from_verified_ocsp_carries_status_source_window() {
    let cert_der = build_cert(&[0x01, 0x23], &issuer_name());
    let cert = Certificate::from_der(&cert_der).expect("cert");
    let verified = ocsp(&[0x01, 0x23], CertStatus::Good, Some(instant(2026, 6, 22, 12)));
    let evidence = RevocationEvidence::from_ocsp(cert, &verified, now());
    assert_eq!(evidence.status(), RevocationStatus::Good);
    assert_eq!(evidence.source(), RevocationSource::Ocsp);
    assert_eq!(evidence.checked_at(), now());
    assert!(evidence.is_fresh(now()));
    assert!(!evidence.is_fresh(after_window()));
}

#[test]
fn evidence_from_verified_crl_carries_status_source() {
    let cert_der = build_cert(&[0x01], &issuer_name());
    let cert = Certificate::from_der(&cert_der).expect("cert");
    let issuer = issuer_name();
    let list = crl(None, &issuer, instant(2026, 6, 20, 12));
    let evidence = RevocationEvidence::from_crl(cert, &list, now());
    assert_eq!(evidence.status(), RevocationStatus::Good);
    assert_eq!(evidence.source(), RevocationSource::Crl);
}

#[test]
fn cache_serves_fresh_good_misses_stale_good() {
    let cert_der = build_cert(&[0x01, 0x23], &issuer_name());
    let cert = Certificate::from_der(&cert_der).expect("cert");
    let verified = ocsp(&[0x01, 0x23], CertStatus::Good, Some(instant(2026, 6, 22, 12)));
    let evidence = RevocationEvidence::from_ocsp(cert, &verified, now());

    let mut cache = RevocationCache::default();
    cache.insert(cert, evidence);
    assert!(cache.get(cert, now()).is_some());
    assert!(cache.get(cert, after_window()).is_none());
}

#[test]
fn cache_serves_revoked_even_when_stale() {
    let cert_der = build_cert(&[0x42], &issuer_name());
    let cert = Certificate::from_der(&cert_der).expect("cert");
    let verified = ocsp(&[0x42], superseded(), Some(instant(2026, 6, 22, 12)));
    let evidence = RevocationEvidence::from_ocsp(cert, &verified, now());
    assert!(matches!(evidence.status(), RevocationStatus::Revoked { .. }));

    let mut cache = RevocationCache::default();
    cache.insert(cert, evidence);
    assert!(cache.get(cert, after_window()).is_some());
}

#[test]
fn cache_misses_unknown_cert() {
    let cert_der = build_cert(&[0xAB], &issuer_name());
    let cert = Certificate::from_der(&cert_der).expect("cert");
    let cache = RevocationCache::default();
    assert!(cache.get(cert, now()).is_none());
}

#[test]
fn cache_keeps_certificates_of_different_issuers_apart() {
    let first_der = build_cert(&[0x01], &issuer_name());
    let second_der = build_cert(&[0x01], &different_issuer());
    let first = Certificate::from_der(&first_der).expect("cert");
    let second = Certificate::from_der(&second_der).expect("cert");
    let good = ocsp(&[0x01], CertStatus::Good, Some(instant(2026, 6, 22, 12)));
    let mut cache = RevocationCache::default();
    cache.insert(first, RevocationEvidence::from_ocsp(first, &good, now()));
    assert!(cache.get(second, now()).is_none());
    let revoked = ocsp(&[0x01], superseded(), None);
    cache.insert(second, RevocationEvidence::from_ocsp(second, &revoked, now()));
    assert_eq!(cache.get(first, now()).expect("kept").status(), RevocationStatus::Good);
    cache.insert(first, RevocationEvidence::from_ocsp(first, &revoked, now()));
    assert!(matches!(
        cache.get(first, now()).expect("replaced").status(),
        RevocationStatus::Revoked { .. }
    ));
}

#[test]
fn cache_does_not_keep_a_certificate_whose_issuer_does_not_decode() {
    let broken = wrap(0x30, &wrap(0x30, &[0x05, 0x00]));
    let cert_der = build_cert(&[0x01], &broken);
    let cert = Certificate::from_der(&cert_der).expect("the walk does not look into the issuer");
    let good = ocsp(&[0x01], CertStatus::Good, Some(instant(2026, 6, 22, 12)));
    let mut cache = RevocationCache::default();
    cache.insert(cert, RevocationEvidence::from_ocsp(cert, &good, now()));
    assert!(cache.get(cert, now()).is_none());
}
