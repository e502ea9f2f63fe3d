use refineid::oid::{known, Oid, OidError};

fn dotted(content: &[u8]) -> String {
    Oid::const_new(content).to_text()
}

#[test]
fn rejects_empty() {
    assert_eq!(Oid::new(&[]), Err(OidError::Empty));
}

#[test]
fn rejects_unterminated_arc() {
    assert_eq!(
        Oid::new(&[0x55, 0x04, 0x83]),
        Err(OidError::UnterminatedArc)
    );
}

#[test]
fn accepts_three_arc_dn_oid() {
    let oid = Oid::new(&[0x55, 0x04, 0x03]).expect("commonName DER encoding parses");
    assert_eq!(oid.as_bytes(), &[0x55, 0x04, 0x03]);
}

#[test]
fn partialeq_against_byte_slice() {
    let oid = Oid::new(&[0x55, 0x04, 0x03]).expect("commonName DER encoding parses");
    let bytes: &[u8] = &[0x55, 0x04, 0x03];
    assert_eq!(oid, bytes);
    assert_eq!(bytes, oid);
}

#[test]
fn display_dn_common_name() {
    assert_eq!(dotted(&known::COMMON_NAME), "2.5.4.3");
}

#[test]
fn display_dn_country_name() {
    assert_eq!(dotted(&known::COUNTRY_NAME), "2.5.4.6");
}

#[test]
fn display_dn_given_name() {
    assert_eq!(dotted(&known::GIVEN_NAME), "2.5.4.42");
}

#[test]
fn display_rsa_signature() {
    assert_eq!(
        dotted(&known::SHA512_WITH_RSA),
        "1.2.840.113549.1.1.13"
    );
}

#[test]
fn display_rsa_encryption() {
    assert_eq!(dotted(&known::RSA_ENCRYPTION), "1.2.840.113549.1.1.1");
}

#[test]
fn display_ecdsa_signature() {
    assert_eq!(
        dotted(&known::ECDSA_WITH_SHA384),
        "1.2.840.10045.4.3.3"
    );
}

#[test]
fn display_ec_public_key() {
    assert_eq!(dotted(&known::EC_PUBLIC_KEY), "1.2.840.10045.2.1");
}

#[test]
fn display_secp256r1() {
    assert_eq!(dotted(&known::SECP256R1), "1.2.840.10045.3.1.7");
}

#[test]
fn display_secp384r1() {
    assert_eq!(dotted(&known::SECP384R1), "1.3.132.0.34");
}

#[test]
fn display_key_usage() {
    assert_eq!(dotted(&known::KEY_USAGE), "2.5.29.15");
}

#[test]
fn display_basic_constraints() {
    assert_eq!(dotted(&known::BASIC_CONSTRAINTS), "2.5.29.19");
}

#[test]
fn display_aia() {
    assert_eq!(
        dotted(&known::AUTHORITY_INFO_ACCESS),
        "1.3.6.1.5.5.7.1.1"
    );
}

#[test]
fn display_ad_ocsp() {
    assert_eq!(dotted(&known::AD_OCSP), "1.3.6.1.5.5.7.48.1");
}

#[test]
fn display_icao_ml_signer() {
    assert_eq!(dotted(&known::ICAO_ML_SIGNER), "2.23.136.1.1.3");
}

#[test]
fn const_new_byte_equality() {
    let runtime = Oid::new(&[0x55, 0x04, 0x03]).expect("commonName DER encoding parses");
    assert_eq!(known::COMMON_NAME.as_slice(), runtime.as_bytes());
}
