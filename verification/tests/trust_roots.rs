use refineid::crypto::digest::Sha256;
use refineid::trust_roots::{
    build_pkcs7_certs_bundle, is_trusted_root, RootCertificates, PINNED_DVV_G3_ECC_SHA256,
    PINNED_DVV_G3_RSA_SHA256,
};

#[test]
fn test_root_certificates_empty() {
    let roots = RootCertificates::default();
    assert!(roots.is_empty());
    assert!(roots.certs().is_empty());
}

#[test]
fn test_root_certificates_with_certs() {
    let cert1 = vec![0x30, 0x05, 0x02, 0x01, 0x01, 0x00, 0x00];
    let cert2 = vec![0x30, 0x05, 0x02, 0x01, 0x02, 0x00, 0x00];
    let roots = RootCertificates::new(Some(cert1.clone()), Some(cert2.clone()));
    assert!(!roots.is_empty());
    assert_eq!(roots.certs().len(), 2);
    assert!(roots.contains_fingerprint(Sha256::of(&cert1)));
    assert!(roots.contains_fingerprint(Sha256::of(&cert2)));
}

#[test]
fn test_build_pkcs7_certs_bundle() {
    let cert = vec![0x30, 0x03, 0x02, 0x01, 0x01];
    let bundle = build_pkcs7_certs_bundle(&[&cert]);
    assert_eq!(bundle[0], 0x30);
    assert!(bundle.windows(cert.len()).any(|w| w == cert.as_slice()));
}

#[test]
fn test_is_trusted_root_fallback() {
    assert!(is_trusted_root(None, Sha256::from_bytes(PINNED_DVV_G3_RSA_SHA256)));
    assert!(is_trusted_root(None, Sha256::from_bytes(PINNED_DVV_G3_ECC_SHA256)));
    assert!(!is_trusted_root(None, Sha256::from_bytes([0u8; 32])));
}
