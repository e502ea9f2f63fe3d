use refineid::ber::tlv;
use refineid::identity::{GivenName, SplitGivenNames};
use refineid::oid::{known, Oid};
use refineid::x509::extensions::{
    aia_urls_for, eku_label, find_extension_with_meta, oid_dot_notation,
};
use refineid::x509::key::{
    explicit_curve_field_bits, extract_rsa_public_key, rsa_public_key_parts, RsaKeyParts, SpkiParts,
};
use refineid::x509::verify::{verify_tbs_signature, HashKind, SignatureVerifier, TbsSignature};
use refineid::x509::{
    extract_basic_constraints, extract_ca_issuers_urls, extract_crl_distribution_urls,
    extract_extended_key_usage, extract_extended_key_usage_meta, extract_key_usage,
    extract_key_usage_meta, extract_subject_alt_emails, parse_subject_public_key_info, Certificate,
    DateTime, EcCurve, KeyUsage, Name, OwnedCert, PublicKeyAlgorithm, SignatureAlgorithm, SpkiDer,
    VerifyError, X509Error,
};

fn extension(oid: &[u8], critical: Option<u8>, value: &[u8]) -> Vec<u8> {
    let mut body = tlv(0x06, oid);
    if let Some(flag) = critical {
        body.extend_from_slice(&tlv(0x01, &[flag]));
    }
    body.extend_from_slice(&tlv(0x04, value));
    tlv(0x30, &body)
}

fn attribute(oid: &[u8], tag: u8, value: &[u8]) -> Vec<u8> {
    let mut body = tlv(0x06, oid);
    body.extend_from_slice(&tlv(tag, value));
    tlv(0x31, &tlv(0x30, &body))
}

fn name(rdns: &[Vec<u8>]) -> Vec<u8> {
    tlv(0x30, &rdns.concat())
}

fn rsa_spki(modulus: &[u8], exponent: &[u8]) -> Vec<u8> {
    let mut key = tlv(0x02, modulus);
    key.extend_from_slice(&tlv(0x02, exponent));
    let mut bits = vec![0x00];
    bits.extend_from_slice(&tlv(0x30, &key));
    let mut algorithm = tlv(0x06, &known::RSA_ENCRYPTION);
    algorithm.extend_from_slice(&[0x05, 0x00]);
    let mut body = tlv(0x30, &algorithm);
    body.extend_from_slice(&tlv(0x03, &bits));
    tlv(0x30, &body)
}

fn ec_spki(parameters: &[u8]) -> Vec<u8> {
    let mut algorithm = tlv(0x06, &known::EC_PUBLIC_KEY);
    algorithm.extend_from_slice(parameters);
    let mut body = tlv(0x30, &algorithm);
    body.extend_from_slice(&tlv(0x03, &[0x00, 0x04, 0x11, 0x22]));
    tlv(0x30, &body)
}

#[test]
fn attributes_are_found_by_type() {
    let der = name(&[
        attribute(&known::COUNTRY_NAME, 0x13, b"FI"),
        attribute(&known::SURNAME, 0x0C, "Meik\u{e4}l\u{e4}inen".as_bytes()),
        attribute(&known::GIVEN_NAME, 0x16, b"Matti Juhani"),
        attribute(&known::SERIAL_NUMBER, 0x14, b"99999999A"),
        attribute(&known::COMMON_NAME, 0x1E, &[0x00, 0x41, 0x20, 0xAC]),
    ]);
    let dn = Name::try_from_der(&der).expect("a name");
    assert_eq!(dn.country().expect("a code").as_str(), "FI");
    assert_eq!(dn.surname().as_deref(), Some("Meik\u{e4}l\u{e4}inen"));
    let names = dn.given_names();
    assert_eq!(names.first.as_deref(), Some("Matti"));
    assert_eq!(names.second.as_deref(), Some("Juhani"));
    assert!(names.additional.is_empty());
    assert_eq!(dn.peuin().as_deref(), Some("99999999A"));
    assert_eq!(dn.common_name().as_deref(), Some("A\u{20AC}"));
    assert_eq!(dn.as_der(), der.as_slice());
}

#[test]
fn the_first_readable_attribute_counts() {
    let der = name(&[
        attribute(&known::COMMON_NAME, 0x0C, &[0xFF]),
        attribute(&known::COMMON_NAME, 0x0C, b"first"),
        attribute(&known::COMMON_NAME, 0x0C, b"second"),
    ]);
    assert_eq!(Name::from_validated(&der).common_name().as_deref(), Some("first"));
}

#[test]
fn broken_names_have_no_attributes() {
    let mut body = attribute(&known::COMMON_NAME, 0x0C, b"name");
    body.push(0x31);
    let der = tlv(0x30, &body);
    assert_eq!(Name::from_validated(&der).common_name(), None);
    let surrogate = name(&[attribute(&known::COMMON_NAME, 0x1E, &[0xD8, 0x00])]);
    assert_eq!(Name::from_validated(&surrogate).common_name(), None);
    let odd = name(&[attribute(&known::COMMON_NAME, 0x1E, &[0x00])]);
    assert_eq!(Name::from_validated(&odd).common_name(), None);
    let latin = name(&[attribute(&known::COMMON_NAME, 0x13, &[0xE4])]);
    assert_eq!(Name::from_validated(&latin).common_name(), None);
    assert!(matches!(
        Name::try_from_der(&[0x31, 0x00]),
        Err(X509Error::UnexpectedStructure("Name not SEQUENCE"))
    ));
    assert!(matches!(
        Name::try_from_der(&[0x30]),
        Err(X509Error::UnexpectedStructure("Name not a TLV"))
    ));
    assert!(Name::from_validated(&odd) == Name::from_validated(&odd));
    assert!(Name::from_validated(&odd) != Name::from_validated(&latin));
}

#[test]
fn rsa_keys_are_recognised() {
    let mut modulus = vec![0x00, 0x80];
    modulus.resize(257, 0x01);
    let der = rsa_spki(&modulus, &[0x01, 0x00, 0x01]);
    assert_eq!(
        parse_subject_public_key_info(&der),
        Some(PublicKeyAlgorithm::Rsa { modulus_bits: 2048 })
    );
    let key = extract_rsa_public_key(&der).expect("an RSA key");
    assert_eq!(key.modulus, modulus[1..].to_vec());
    assert_eq!(key.exponent, vec![0x01, 0x00, 0x01]);
    let spki = SpkiDer::try_from_der(&der).expect("decodes");
    assert_eq!(spki.algorithm().label(), "RSA, 2048-bit modulus");
    assert_eq!(spki.as_der(), der.as_slice());
    assert!(spki.ec_public_key_point().is_none());
    assert_eq!(spki.subject_public_key_bits()[0], 0x30);
}

#[test]
fn ec_keys_are_recognised() {
    let curve = |oid: &[u8]| parse_subject_public_key_info(&ec_spki(&tlv(0x06, oid)));
    assert_eq!(curve(&known::SECP256R1), Some(PublicKeyAlgorithm::Ec(EcCurve::Secp256r1)));
    assert_eq!(curve(&known::SECP384R1), Some(PublicKeyAlgorithm::Ec(EcCurve::Secp384r1)));
    assert_eq!(
        curve(&known::BRAINPOOL_P256R1),
        Some(PublicKeyAlgorithm::Ec(EcCurve::BrainpoolP256r1))
    );
    assert_eq!(
        curve(&known::BRAINPOOL_P384R1),
        Some(PublicKeyAlgorithm::Ec(EcCurve::BrainpoolP384r1))
    );
    assert_eq!(curve(&known::COMMON_NAME), Some(PublicKeyAlgorithm::Ec(EcCurve::Other)));
    assert_eq!(parse_subject_public_key_info(&ec_spki(&[])), None);
    assert_eq!(parse_subject_public_key_info(&[0x30, 0x00]), None);
    assert!(extract_rsa_public_key(&ec_spki(&tlv(0x06, &known::SECP256R1))).is_none());
    let der = ec_spki(&tlv(0x06, &known::SECP256R1));
    let spki = SpkiDer::try_from_der(&der).expect("decodes");
    assert_eq!(spki.ec_public_key_point(), Some(&[0x04, 0x11, 0x22][..]));
    assert_eq!(spki.algorithm().label(), "EC on secp256r1 (P-256)");
    assert_eq!(EcCurve::BrainpoolP384r1.bits(), 384);
    assert_eq!(EcCurve::Other.bits(), 0);
}

#[test]
fn explicit_curves_tell_their_size() {
    let mut field = tlv(0x06, &known::PRIME_FIELD);
    field.extend_from_slice(&tlv(0x02, &[0x00, 0xFF, 0x01]));
    let mut parameters = tlv(0x02, &[0x01]);
    parameters.extend_from_slice(&tlv(0x30, &field));
    assert_eq!(explicit_curve_field_bits(&parameters), Some(16));
    assert_eq!(
        parse_subject_public_key_info(&ec_spki(&tlv(0x30, &parameters))),
        Some(PublicKeyAlgorithm::EcExplicit { bits: 16 })
    );
    assert_eq!(
        parse_subject_public_key_info(&ec_spki(&[0x30, 0x00])),
        Some(PublicKeyAlgorithm::EcExplicit { bits: 0 })
    );
    assert_eq!(explicit_curve_field_bits(&[]), None);
    let parts = SpkiParts { algorithm: vec![0x2A], parameters: None, key: &[] };
    assert_eq!(PublicKeyAlgorithm::from_parts(&parts, false), Some(PublicKeyAlgorithm::Other));
    assert_eq!(
        PublicKeyAlgorithm::EcExplicit { bits: 7 }.label(),
        "EC with explicit parameters (7-bit field)"
    );
}

#[test]
fn rsa_parts_lose_their_sign_byte_only() {
    let mut body = tlv(0x02, &[0x00]);
    body.extend_from_slice(&tlv(0x02, &[0x03]));
    let der = tlv(0x30, &body);
    assert_eq!(rsa_public_key_parts(&der), Some((&[0x00][..], &[0x03][..])));
    assert_eq!(rsa_public_key_parts(&tlv(0x30, &tlv(0x02, &[0x05]))), None);
}

#[test]
fn key_usage_bits() {
    let list = extension(&known::KEY_USAGE, Some(0xFF), &[0x03, 0x02, 0x05, 0xA0]);
    let usage = extract_key_usage(&list).expect("usage");
    assert_eq!(
        usage,
        KeyUsage { digital_signature: true, key_encipherment: true, ..KeyUsage::default() }
    );
    assert_eq!(usage.label(), "digitalSignature, keyEncipherment");
    assert!(extract_key_usage_meta(&list).expect("usage").critical);
    let list = extension(&known::KEY_USAGE, None, &[0x03, 0x03, 0x07, 0x06, 0x80]);
    let meta = extract_key_usage_meta(&list).expect("usage");
    assert!(!meta.critical);
    assert_eq!(meta.key_usage.label(), "keyCertSign, cRLSign, decipherOnly");
    assert_eq!(extract_key_usage(&extension(&known::KEY_USAGE, None, &[0x03, 0x00])), None);
    assert_eq!(extract_key_usage(&[]), None);
    assert_eq!(KeyUsage::default().label(), "");
}

#[test]
fn extended_key_usages() {
    let mut purposes = tlv(0x06, &known::KP_CLIENT_AUTH);
    purposes.extend_from_slice(&tlv(0x06, &known::ICAO_ML_SIGNER));
    purposes.extend_from_slice(&tlv(0x06, &[0x80]));
    purposes.extend_from_slice(&tlv(0x05, &[]));
    let list = extension(&known::EXT_KEY_USAGE, Some(1), &tlv(0x30, &purposes));
    assert_eq!(extract_extended_key_usage(&list), vec!["clientAuth", "oid:2.23.136.1.1.3"]);
    let meta = extract_extended_key_usage_meta(&list).expect("usages");
    assert!(meta.critical);
    assert_eq!(meta.oids, vec![known::KP_CLIENT_AUTH.to_vec(), known::ICAO_ML_SIGNER.to_vec()]);
    assert!(meta.contains(Oid::const_new(&known::ICAO_ML_SIGNER)));
    assert!(!meta.contains(Oid::const_new(&known::KP_OCSP_SIGNING)));
    assert!(extract_extended_key_usage(&[]).is_empty());
    assert!(extract_extended_key_usage_meta(&[]).is_none());
    assert_eq!(eku_label(Oid::const_new(&known::KP_TIME_STAMPING)), "timeStamping");
}

#[test]
fn dot_notation_keeps_32_bits() {
    assert_eq!(
        oid_dot_notation(Oid::const_new(&[0x2A, 0x86, 0x48, 0x86, 0xF7, 0x0D])),
        "1.2.840.113549"
    );
    assert_eq!(oid_dot_notation(Oid::const_new(&[0x88])), "3.16");
    assert_eq!(oid_dot_notation(Oid::const_new(&[])), "");
    assert_eq!(
        oid_dot_notation(Oid::const_new(&[0x2A, 0x90, 0x80, 0x80, 0x80, 0x01])),
        "1.2.1"
    );
}

#[test]
fn basic_constraints() {
    let mut body = tlv(0x01, &[0xFF]);
    body.extend_from_slice(&tlv(0x02, &[0x01]));
    let list = extension(&known::BASIC_CONSTRAINTS, Some(0xFF), &tlv(0x30, &body));
    let constraints = extract_basic_constraints(&list);
    assert!(constraints.ca && constraints.critical && constraints.present);
    assert_eq!(constraints.path_len, Some(1));
    let leaf = extract_basic_constraints(&extension(&known::BASIC_CONSTRAINTS, None, &[0x30, 0x00]));
    assert!(leaf.present && !leaf.ca && !leaf.critical);
    assert!(!extract_basic_constraints(&[]).present);
    assert!(!extract_basic_constraints(&extension(&known::BASIC_CONSTRAINTS, None, &[0x05, 0x00])).present);
}

#[test]
fn the_first_extension_of_a_kind_counts() {
    let mut list = extension(&known::KEY_USAGE, None, &[0x01]);
    list.extend_from_slice(&extension(&known::BASIC_CONSTRAINTS, Some(0), &[0x02]));
    list.extend_from_slice(&extension(&known::BASIC_CONSTRAINTS, Some(1), &[0x03]));
    let meta = find_extension_with_meta(&list, &known::BASIC_CONSTRAINTS).expect("found");
    assert_eq!(meta.value, &[0x02]);
    assert!(!meta.critical);
    let mut broken = vec![0x05, 0x00];
    broken.extend_from_slice(&tlv(0x30, &[]));
    broken.extend_from_slice(&extension(&known::KEY_USAGE, None, &[0x01]));
    assert!(find_extension_with_meta(&broken, &known::KEY_USAGE).is_none());
}

#[test]
fn addresses_of_other_schemes_are_left_out() {
    let mut access = tlv(0x06, &known::AD_CA_ISSUERS);
    access.extend_from_slice(&tlv(0x86, b"http://ca.example.test/ca.crt"));
    let mut directory = tlv(0x06, &known::AD_CA_ISSUERS);
    directory.extend_from_slice(&tlv(0x86, b"ldap://ca.example.test/"));
    let mut responder = tlv(0x06, &known::AD_OCSP);
    responder.extend_from_slice(&tlv(0x86, b"http://ocsp.example.test/"));
    let mut body = tlv(0x30, &directory);
    body.extend_from_slice(&tlv(0x30, &access));
    body.extend_from_slice(&tlv(0x30, &responder));
    let list = extension(&known::AUTHORITY_INFO_ACCESS, None, &tlv(0x30, &body));
    let urls = extract_ca_issuers_urls(&list);
    assert_eq!(urls.len(), 1);
    assert_eq!(urls[0].to_text(), "http://ca.example.test/ca.crt");
    assert_eq!(aia_urls_for(&list, &known::AD_OCSP).len(), 1);
    assert!(extract_crl_distribution_urls(&list).is_empty());
}

#[test]
fn broken_addresses_are_no_email() {
    let email = |text: &[u8]| {
        let list = extension(&known::SUBJECT_ALT_NAME, None, &tlv(0x30, &tlv(0x81, text)));
        extract_subject_alt_emails(&list).len()
    };
    assert_eq!(email(b"a@b"), 1);
    for bad in [&b"ab"[..], b"a@b@c", b"@b", b"a@", b"a @b", b"a\xC2\xA0@b", b"\xFF@b"] {
        assert_eq!(email(bad), 0);
    }
}

#[test]
fn certificates_that_are_none() {
    let fault = |der: &[u8]| Certificate::from_der(der).expect_err("no certificate");
    assert_eq!(fault(&[]), X509Error::UnexpectedStructure("Certificate not a TLV"));
    assert_eq!(fault(&[0x31, 0x00]), X509Error::UnexpectedStructure("Certificate not SEQUENCE"));
    assert_eq!(fault(&[0x30, 0x00]), X509Error::UnexpectedStructure("tbsCertificate"));
    assert_eq!(
        fault(&tlv(0x30, &[0x30, 0x00])),
        X509Error::UnexpectedStructure("signatureAlgorithm")
    );
    let outer = |tbs: &[u8]| {
        let mut body = tlv(0x30, tbs);
        body.extend_from_slice(&tlv(0x30, &tlv(0x06, &known::SHA256_WITH_RSA)));
        body.extend_from_slice(&tlv(0x03, &[0x00, 0x01]));
        tlv(0x30, &body)
    };
    assert_eq!(fault(&outer(&[])), X509Error::UnexpectedStructure("TBS first field"));
    assert_eq!(
        fault(&outer(&tlv(0xA0, &[]))),
        X509Error::UnexpectedStructure("serialNumber")
    );
    assert_eq!(
        fault(&outer(&tlv(0x02, &[1]))),
        X509Error::UnexpectedStructure("TBS signature alg")
    );
    let mut fields = tlv(0x02, &[1]);
    fields.extend_from_slice(&[0x30, 0x00, 0x30, 0x00, 0x30, 0x00]);
    assert_eq!(fault(&outer(&fields)), X509Error::InvalidTime);
    assert!(OwnedCert::from_der(&[0x30, 0x00]).is_err());
    assert_eq!(
        X509Error::UnexpectedStructure("issuer").message(""),
        "X.509: unexpected structure (issuer)"
    );
    assert_eq!(X509Error::InvalidTime.message(""), "X.509: invalid time encoding");
}

#[test]
fn instants_that_do_not_exist() {
    assert!(DateTime::new(2024, 2, 29, 0, 0, 0).is_some());
    assert!(DateTime::new(2023, 2, 29, 0, 0, 0).is_none());
    assert!(DateTime::new(2100, 2, 29, 0, 0, 0).is_none());
    assert!(DateTime::new(1969, 12, 31, 23, 59, 59).is_none());
    assert!(DateTime::new(10_000, 1, 1, 0, 0, 0).is_none());
    assert!(DateTime::new(9999, 12, 31, 23, 59, 59).is_some());
    assert!(DateTime::new(2026, 4, 31, 0, 0, 0).is_none());
    assert!(DateTime::new(2026, 1, 1, 24, 0, 0).is_none());
}

struct Recorder;

impl SignatureVerifier for Recorder {
    type RsaError = &'static str;
    type EcdsaError = &'static str;

    fn verify_rsa(
        &self,
        hash: HashKind,
        key: &RsaKeyParts,
        message: &[u8],
        signature: &[u8],
    ) -> Option<Result<(), &'static str>> {
        if key.exponent == [0x02] {
            return None;
        }
        if hash == HashKind::Sha256 && message == b"signed" && signature == [1, 2] {
            Some(Ok(()))
        } else {
            Some(Err("rejected"))
        }
    }

    fn verify_ecdsa(
        &self,
        _: &[u8],
        digest: &Vec<u8>,
        signature: &[u8],
    ) -> Option<Result<(), &'static str>> {
        if signature.is_empty() {
            None
        } else if *digest == HashKind::Sha384.digest(b"signed") {
            Some(Ok(()))
        } else {
            Some(Err("other digest"))
        }
    }
}

#[test]
fn signatures_go_to_the_verifier_of_their_family() {
    let rsa = rsa_spki(&[0x00, 0x81], &[0x03]);
    let ec = ec_spki(&tlv(0x06, &known::SECP384R1));
    let check = |oid: &[u8], key: &[u8], message: &[u8], signature: &[u8]| {
        verify_tbs_signature(
            &Recorder,
            TbsSignature {
                tbs_der: message,
                signature_alg_oid: oid,
                signature_bits: signature,
                issuer_spki_der: key,
            },
        )
    };
    assert_eq!(check(&known::SHA256_WITH_RSA, &rsa, b"signed", &[1, 2]), Ok(()));
    assert_eq!(
        check(&known::SHA384_WITH_RSA, &rsa, b"signed", &[1, 2]),
        Err(VerifyError::Rsa("rejected"))
    );
    assert_eq!(
        check(&known::SHA256_WITH_RSA, &ec, b"signed", &[1, 2]),
        Err(VerifyError::BadIssuerKey)
    );
    assert_eq!(
        check(&known::SHA256_WITH_RSA, &rsa_spki(&[0x41], &[0x02]), b"signed", &[1, 2]),
        Err(VerifyError::BadIssuerKey)
    );
    assert_eq!(check(&known::ECDSA_WITH_SHA384, &ec, b"signed", &[9]), Ok(()));
    assert_eq!(
        check(&known::ECDSA_WITH_SHA512, &ec, b"signed", &[9]),
        Err(VerifyError::Ecdsa("other digest"))
    );
    assert_eq!(
        check(&known::ECDSA_WITH_SHA256, &ec, b"signed", &[]),
        Err(VerifyError::BadIssuerKey)
    );
    assert_eq!(
        check(&known::SHA1, &rsa, b"signed", &[1, 2]),
        Err(VerifyError::Unsupported(SignatureAlgorithm::Other))
    );
    let err: VerifyError<(), ()> = VerifyError::Unsupported(SignatureAlgorithm::Other);
    assert_eq!(err.message(""), "unsupported signature algorithm: unrecognised");
    assert_eq!(SignatureAlgorithm::from_oid(&known::ECDSA_WITH_SHA512).label(), "ecdsa-with-SHA512");
}

fn certificate(fields: &[Vec<u8>], algorithm: &[u8], signature: &[u8]) -> Vec<u8> {
    tlv(0x30, &[tlv(0x30, &fields.concat()), algorithm.to_vec(), signature.to_vec()].concat())
}

fn certificate_fields() -> Vec<Vec<u8>> {
    let dn = name(&[attribute(&known::COMMON_NAME, 0x0C, b"CA")]);
    let mut window = tlv(0x17, b"260101000000Z");
    window.extend_from_slice(&tlv(0x17, b"310101000000Z"));
    vec![
        tlv(0x02, &[0x00, 0x81]),
        tlv(0x30, &tlv(0x06, &known::ECDSA_WITH_SHA256)),
        dn.clone(),
        tlv(0x30, &window),
        dn,
        ec_spki(&tlv(0x06, &known::SECP256R1)),
    ]
}

#[test]
fn certificates_have_one_shape() {
    let fields = certificate_fields();
    let algorithm = fields[1].clone();
    let bits = tlv(0x03, &[0x00, 0xDE, 0xAD, 0xBE, 0xEF]);
    let fault = |der: Vec<u8>| Certificate::from_der(&der).err();
    let structure = |what: &'static str| Some(X509Error::UnexpectedStructure(what));
    assert_eq!(fault(certificate(&fields, &algorithm, &bits)), None);
    assert_eq!(
        fault(certificate(&fields, &algorithm, &tlv(0x04, &[0x00, 0xDE, 0xAD, 0xBE, 0xEF]))),
        structure("signature BIT STRING missing")
    );
    assert_eq!(
        fault(certificate(&fields, &tlv(0x31, &tlv(0x06, &known::ECDSA_WITH_SHA256)), &bits)),
        structure("signatureAlgorithm not SEQUENCE")
    );
    assert_eq!(
        fault(certificate(&fields, &tlv(0x30, &tlv(0x06, &known::SHA256_WITH_RSA)), &bits)),
        structure("signatureAlgorithm differs from TBS signature alg")
    );
    let altered = |at: usize, with: Vec<u8>| {
        let mut fields = certificate_fields();
        if at < fields.len() {
            fields[at] = with;
        } else {
            fields.push(with);
        }
        fault(certificate(&fields, &algorithm, &bits))
    };
    assert_eq!(altered(0, tlv(0x04, &[1])), structure("serialNumber"));
    assert_eq!(altered(2, tlv(0x31, &[])), structure("issuer"));
    assert_eq!(altered(4, tlv(0x31, &[])), structure("subject"));
    assert_eq!(altered(6, tlv(0xA3, &tlv(0x31, &[]))), structure("extensions not SEQUENCE"));
    assert_eq!(altered(6, tlv(0xA3, &tlv(0x30, &[]))), None);
}

#[test]
fn countries_are_two_capital_letters() {
    let country = |text: &[u8]| {
        let der = name(&[attribute(&known::COUNTRY_NAME, 0x13, text)]);
        Name::from_validated(&der).country().map(|c| c.as_str().to_owned())
    };
    assert_eq!(country(b"FI").as_deref(), Some("FI"));
    assert_eq!(country(b" FI\t").as_deref(), Some("FI"));
    assert_eq!(country(b"FIN"), None);
    assert_eq!(country(b"F1"), None);
    assert_eq!(country(b"F"), None);
    assert_eq!(country(b""), None);
}

#[test]
fn broken_purposes_are_left_out() {
    let list = [
        0x30, 0x0D, 0x06, 0x03, 0x55, 0x1D, 0x25, 0x04, 0x06, 0x30, 0x04, 0x06, 0x02, 0x55, 0x83,
    ];
    let meta = extract_extended_key_usage_meta(&list).expect("the extension is there");
    assert!(meta.oids.is_empty());
}

#[test]
fn certificates_are_verified_with_the_key_of_their_issuer() {
    let fields = certificate_fields();
    let der = certificate(&fields, &fields[1], &tlv(0x03, &[0x00, 0x09]));
    let owned = OwnedCert::from_der(&der).expect("a certificate");
    let cert = owned.view();
    assert_eq!(cert.tbs_der, tlv(0x30, &fields.concat()).as_slice());
    assert_eq!(cert.signature_bits, &[0x09]);
    assert_eq!(owned.serial().as_bytes(), &[0x00, 0x81]);
    assert_eq!(cert.verify_signed_by(&Recorder, cert), Err(VerifyError::Ecdsa("other digest")));
    assert_eq!(owned.clone().as_der(), owned.as_der());
    assert_eq!(owned.into_der(), der);
}

#[test]
fn given_names_are_split_at_white_space() {
    let split = |text: &str| {
        let names = SplitGivenNames::split(text);
        let texts = |n: &GivenName| n.as_str().to_owned();
        (
            names.first.as_ref().map(texts),
            names.second.as_ref().map(texts),
            names.additional.iter().map(texts).collect::<Vec<_>>(),
        )
    };
    assert_eq!(split(""), (None, None, vec![]));
    assert_eq!(split(" \t"), (None, None, vec![]));
    assert_eq!(split(" Anna-Liisa "), (Some("Anna-Liisa".to_owned()), None, vec![]));
    assert_eq!(
        split("A  B\u{a0}C D"),
        (Some("A".to_owned()), Some("B".to_owned()), vec!["C".to_owned(), "D".to_owned()])
    );
}

#[test]
fn empty_attributes_name_nobody() {
    let der = name(&[
        attribute(&known::COMMON_NAME, 0x0C, b""),
        attribute(&known::SURNAME, 0x0C, b""),
        attribute(&known::SERIAL_NUMBER, 0x13, b""),
    ]);
    let dn = Name::from_validated(&der);
    assert_eq!(dn.common_name(), None);
    assert_eq!(dn.surname(), None);
    assert_eq!(dn.peuin(), None);
}
