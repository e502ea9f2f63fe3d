use const_oid::ObjectIdentifier;
use refineid::oid::{known, Oid};

#[test]
fn constants_spell_their_numbers() {
    let table: Vec<(&str, Vec<u8>)> = vec![
        ("1.3.6.1.5.5.7.48.2", known::AD_CA_ISSUERS.to_vec()),
        ("1.3.6.1.5.5.7.48.1", known::AD_OCSP.to_vec()),
        ("1.3.6.1.5.5.7.1.1", known::AUTHORITY_INFO_ACCESS.to_vec()),
        ("2.5.29.19", known::BASIC_CONSTRAINTS.to_vec()),
        ("1.3.36.3.3.2.8.1.1.7", known::BRAINPOOL_P256R1.to_vec()),
        ("1.3.36.3.3.2.8.1.1.11", known::BRAINPOOL_P384R1.to_vec()),
        ("2.5.4.3", known::COMMON_NAME.to_vec()),
        ("2.5.4.6", known::COUNTRY_NAME.to_vec()),
        ("2.5.29.31", known::CRL_DISTRIBUTION_POINTS.to_vec()),
        ("2.5.29.21", known::CRL_REASON.to_vec()),
        ("1.2.840.10045.4.3.2", known::ECDSA_WITH_SHA256.to_vec()),
        ("1.2.840.10045.4.3.3", known::ECDSA_WITH_SHA384.to_vec()),
        ("1.2.840.10045.4.3.4", known::ECDSA_WITH_SHA512.to_vec()),
        ("1.2.840.10045.2.1", known::EC_PUBLIC_KEY.to_vec()),
        ("2.5.29.37", known::EXT_KEY_USAGE.to_vec()),
        ("2.5.4.42", known::GIVEN_NAME.to_vec()),
        ("2.23.136.1.1.1", known::ICAO_LDS_SECURITY_OBJECT.to_vec()),
        ("2.23.136.1.1.3", known::ICAO_ML_SIGNER.to_vec()),
        ("2.5.29.15", known::KEY_USAGE.to_vec()),
        ("1.3.6.1.5.5.7.3.2", known::KP_CLIENT_AUTH.to_vec()),
        ("1.3.6.1.5.5.7.3.3", known::KP_CODE_SIGNING.to_vec()),
        ("1.3.6.1.5.5.7.3.4", known::KP_EMAIL_PROTECTION.to_vec()),
        ("1.3.6.1.5.5.7.3.9", known::KP_OCSP_SIGNING.to_vec()),
        ("1.3.6.1.5.5.7.3.1", known::KP_SERVER_AUTH.to_vec()),
        ("1.3.6.1.5.5.7.3.8", known::KP_TIME_STAMPING.to_vec()),
        ("1.2.840.113549.1.1.1", known::RSA_ENCRYPTION.to_vec()),
        ("1.2.840.10045.3.1.7", known::SECP256R1.to_vec()),
        ("1.3.132.0.34", known::SECP384R1.to_vec()),
        ("2.5.4.5", known::SERIAL_NUMBER.to_vec()),
        ("1.2.840.113549.1.1.11", known::SHA256_WITH_RSA.to_vec()),
        ("1.3.14.3.2.26", known::SHA1.to_vec()),
        ("1.2.840.113549.1.1.12", known::SHA384_WITH_RSA.to_vec()),
        ("1.2.840.113549.1.1.13", known::SHA512_WITH_RSA.to_vec()),
        ("2.5.29.17", known::SUBJECT_ALT_NAME.to_vec()),
        ("2.5.4.4", known::SURNAME.to_vec()),
        ("2.16.840.1.101.3.4.2.1", known::SHA256.to_vec()),
        ("2.16.840.1.101.3.4.2.2", known::SHA384.to_vec()),
        ("2.16.840.1.101.3.4.2.3", known::SHA512.to_vec()),
        ("1.2.840.113549.1.7.1", known::DATA.to_vec()),
        ("1.2.840.113549.1.7.2", known::SIGNED_DATA.to_vec()),
        ("1.2.840.113549.1.9.3", known::CONTENT_TYPE.to_vec()),
        ("1.2.840.113549.1.9.4", known::MESSAGE_DIGEST.to_vec()),
        ("1.3.6.1.5.5.7.48.1.1", known::BASIC_OCSP_RESPONSE.to_vec()),
        ("1.2.840.10045.1.1", known::PRIME_FIELD.to_vec()),
        ("2.23.136.1.1.2", known::CSCA_MASTER_LIST.to_vec()),
        ("0.4.0.127.0.7.2.2.4.2.4", known::PACE_ECDH_GM_AES_CBC_CMAC_256.to_vec()),
    ];
    for (dotted, content) in table {
        let outside = ObjectIdentifier::new(dotted).expect("valid object identifier");
        assert_eq!(outside.as_bytes(), content.as_slice(), "{dotted}");
        assert_eq!(Oid::new(&content).expect("well formed").to_text(), dotted);
    }
}

#[test]
fn an_oid_without_content_has_a_text() {
    assert_eq!(Oid::const_new(&[]).to_text(), "(empty-oid)");
}

#[test]
fn first_byte_past_the_second_arc_is_clamped() {
    assert_eq!(Oid::const_new(&[0x7F]).to_text(), "2.47");
    assert_eq!(Oid::const_new(&[0xFF, 0x01]).to_text(), "2.175.1");
}

#[test]
fn oid_errors_have_texts() {
    assert_eq!(Oid::new(&[]).expect_err("empty").message(), "OID content cannot be empty");
    assert_eq!(
        Oid::new(&[0x80]).expect_err("unterminated").message(),
        "OID's final byte has the high bit set (arc unterminated)"
    );
}
