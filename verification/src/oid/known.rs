//! Well-known object identifiers, as content bytes.

use vstd::prelude::*;

verus! {

/// `1.3.6.1.5.5.7.48.2`: id-ad-caIssuers.
pub const AD_CA_ISSUERS: [u8; 8] = [0x2B, 0x06, 0x01, 0x05, 0x05, 0x07, 0x30, 0x02];

/// `1.3.6.1.5.5.7.48.1`: id-ad-ocsp.
pub const AD_OCSP: [u8; 8] = [0x2B, 0x06, 0x01, 0x05, 0x05, 0x07, 0x30, 0x01];

/// `1.3.6.1.5.5.7.1.1`: id-pe-authorityInfoAccess.
pub const AUTHORITY_INFO_ACCESS: [u8; 8] = [0x2B, 0x06, 0x01, 0x05, 0x05, 0x07, 0x01, 0x01];

/// `2.5.29.19`: id-ce-basicConstraints.
pub const BASIC_CONSTRAINTS: [u8; 3] = [0x55, 0x1D, 0x13];

/// `1.3.36.3.3.2.8.1.1.7`: brainpoolP256r1.
pub const BRAINPOOL_P256R1: [u8; 9] = [0x2B, 0x24, 0x03, 0x03, 0x02, 0x08, 0x01, 0x01, 0x07];

/// `1.3.36.3.3.2.8.1.1.11`: brainpoolP384r1.
pub const BRAINPOOL_P384R1: [u8; 9] = [0x2B, 0x24, 0x03, 0x03, 0x02, 0x08, 0x01, 0x01, 0x0B];

/// `2.5.4.3`: id-at-commonName.
pub const COMMON_NAME: [u8; 3] = [0x55, 0x04, 0x03];

/// `2.5.4.6`: id-at-countryName.
pub const COUNTRY_NAME: [u8; 3] = [0x55, 0x04, 0x06];

/// `2.5.29.31`: id-ce-cRLDistributionPoints.
pub const CRL_DISTRIBUTION_POINTS: [u8; 3] = [0x55, 0x1D, 0x1F];

/// `2.5.29.21`: id-ce-cRLReason.
pub const CRL_REASON: [u8; 3] = [0x55, 0x1D, 0x15];

/// `1.2.840.10045.4.3.2`: ecdsa-with-SHA256.
pub const ECDSA_WITH_SHA256: [u8; 8] = [0x2A, 0x86, 0x48, 0xCE, 0x3D, 0x04, 0x03, 0x02];

/// `1.2.840.10045.4.3.3`: ecdsa-with-SHA384.
pub const ECDSA_WITH_SHA384: [u8; 8] = [0x2A, 0x86, 0x48, 0xCE, 0x3D, 0x04, 0x03, 0x03];

/// `1.2.840.10045.4.3.4`: ecdsa-with-SHA512.
pub const ECDSA_WITH_SHA512: [u8; 8] = [0x2A, 0x86, 0x48, 0xCE, 0x3D, 0x04, 0x03, 0x04];

/// `1.2.840.10045.2.1`: ecPublicKey.
pub const EC_PUBLIC_KEY: [u8; 7] = [0x2A, 0x86, 0x48, 0xCE, 0x3D, 0x02, 0x01];

/// `2.5.29.37`: id-ce-extKeyUsage.
pub const EXT_KEY_USAGE: [u8; 3] = [0x55, 0x1D, 0x25];

/// `2.5.4.42`: id-at-givenName.
pub const GIVEN_NAME: [u8; 3] = [0x55, 0x04, 0x2A];

/// `2.23.136.1.1.1`: id-icao-mrtd-security-ldsSecurityObject.
pub const ICAO_LDS_SECURITY_OBJECT: [u8; 6] = [0x67, 0x81, 0x08, 0x01, 0x01, 0x01];

/// `2.23.136.1.1.3`: id-icao-cscaMasterListSignedData.
pub const ICAO_ML_SIGNER: [u8; 6] = [0x67, 0x81, 0x08, 0x01, 0x01, 0x03];

/// `2.5.29.15`: id-ce-keyUsage.
pub const KEY_USAGE: [u8; 3] = [0x55, 0x1D, 0x0F];

/// `1.3.6.1.5.5.7.3.2`: id-kp-clientAuth.
pub const KP_CLIENT_AUTH: [u8; 8] = [0x2B, 0x06, 0x01, 0x05, 0x05, 0x07, 0x03, 0x02];

/// `1.3.6.1.5.5.7.3.3`: id-kp-codeSigning.
pub const KP_CODE_SIGNING: [u8; 8] = [0x2B, 0x06, 0x01, 0x05, 0x05, 0x07, 0x03, 0x03];

/// `1.3.6.1.5.5.7.3.4`: id-kp-emailProtection.
pub const KP_EMAIL_PROTECTION: [u8; 8] = [0x2B, 0x06, 0x01, 0x05, 0x05, 0x07, 0x03, 0x04];

/// `1.3.6.1.5.5.7.3.9`: id-kp-OCSPSigning.
pub const KP_OCSP_SIGNING: [u8; 8] = [0x2B, 0x06, 0x01, 0x05, 0x05, 0x07, 0x03, 0x09];

/// `1.3.6.1.5.5.7.3.1`: id-kp-serverAuth.
pub const KP_SERVER_AUTH: [u8; 8] = [0x2B, 0x06, 0x01, 0x05, 0x05, 0x07, 0x03, 0x01];

/// `1.3.6.1.5.5.7.3.8`: id-kp-timeStamping.
pub const KP_TIME_STAMPING: [u8; 8] = [0x2B, 0x06, 0x01, 0x05, 0x05, 0x07, 0x03, 0x08];

/// `1.2.840.113549.1.1.1`: rsaEncryption.
pub const RSA_ENCRYPTION: [u8; 9] = [0x2A, 0x86, 0x48, 0x86, 0xF7, 0x0D, 0x01, 0x01, 0x01];

/// `1.2.840.10045.3.1.7`: secp256r1 / prime256v1.
pub const SECP256R1: [u8; 8] = [0x2A, 0x86, 0x48, 0xCE, 0x3D, 0x03, 0x01, 0x07];

/// `1.3.132.0.34`: secp384r1.
pub const SECP384R1: [u8; 5] = [0x2B, 0x81, 0x04, 0x00, 0x22];

/// `2.5.4.5`: id-at-serialNumber.
pub const SERIAL_NUMBER: [u8; 3] = [0x55, 0x04, 0x05];

/// `1.2.840.113549.1.1.11`: sha256WithRSAEncryption.
pub const SHA256_WITH_RSA: [u8; 9] = [0x2A, 0x86, 0x48, 0x86, 0xF7, 0x0D, 0x01, 0x01, 0x0B];

/// `1.3.14.3.2.26`: id-sha1.
pub const SHA1: [u8; 5] = [0x2B, 0x0E, 0x03, 0x02, 0x1A];

/// `1.2.840.113549.1.1.12`: sha384WithRSAEncryption.
pub const SHA384_WITH_RSA: [u8; 9] = [0x2A, 0x86, 0x48, 0x86, 0xF7, 0x0D, 0x01, 0x01, 0x0C];

/// `1.2.840.113549.1.1.13`: sha512WithRSAEncryption.
pub const SHA512_WITH_RSA: [u8; 9] = [0x2A, 0x86, 0x48, 0x86, 0xF7, 0x0D, 0x01, 0x01, 0x0D];

/// `2.5.29.17`: id-ce-subjectAltName.
pub const SUBJECT_ALT_NAME: [u8; 3] = [0x55, 0x1D, 0x11];

/// `2.5.4.4`: id-at-surname.
pub const SURNAME: [u8; 3] = [0x55, 0x04, 0x04];

/// `2.16.840.1.101.3.4.2.1`: id-sha256.
pub const SHA256: [u8; 9] = [0x60, 0x86, 0x48, 0x01, 0x65, 0x03, 0x04, 0x02, 0x01];

/// `2.16.840.1.101.3.4.2.2`: id-sha384.
pub const SHA384: [u8; 9] = [0x60, 0x86, 0x48, 0x01, 0x65, 0x03, 0x04, 0x02, 0x02];

/// `2.16.840.1.101.3.4.2.3`: id-sha512.
pub const SHA512: [u8; 9] = [0x60, 0x86, 0x48, 0x01, 0x65, 0x03, 0x04, 0x02, 0x03];

/// `1.2.840.113549.1.7.1`: id-data.
pub const DATA: [u8; 9] = [0x2A, 0x86, 0x48, 0x86, 0xF7, 0x0D, 0x01, 0x07, 0x01];

/// `1.2.840.113549.1.7.2`: id-signedData.
pub const SIGNED_DATA: [u8; 9] = [0x2A, 0x86, 0x48, 0x86, 0xF7, 0x0D, 0x01, 0x07, 0x02];

/// `1.2.840.113549.1.9.3`: id-contentType.
pub const CONTENT_TYPE: [u8; 9] = [0x2A, 0x86, 0x48, 0x86, 0xF7, 0x0D, 0x01, 0x09, 0x03];

/// `1.2.840.113549.1.9.4`: id-messageDigest.
pub const MESSAGE_DIGEST: [u8; 9] = [0x2A, 0x86, 0x48, 0x86, 0xF7, 0x0D, 0x01, 0x09, 0x04];

/// `1.3.6.1.5.5.7.48.1.1`: id-pkix-ocsp-basic.
pub const BASIC_OCSP_RESPONSE: [u8; 9] = [0x2B, 0x06, 0x01, 0x05, 0x05, 0x07, 0x30, 0x01, 0x01];

/// `1.2.840.10045.1.1`: prime-field.
pub const PRIME_FIELD: [u8; 7] = [0x2A, 0x86, 0x48, 0xCE, 0x3D, 0x01, 0x01];

/// `2.23.136.1.1.2`: id-icao-cscaMasterList.
pub const CSCA_MASTER_LIST: [u8; 6] = [0x67, 0x81, 0x08, 0x01, 0x01, 0x02];

/// `0.4.0.127.0.7.2.2.4.2.4`: id-PACE-ECDH-GM-AES-CBC-CMAC-256.
pub const PACE_ECDH_GM_AES_CBC_CMAC_256: [u8; 10] = [0x04, 0x00, 0x7F, 0x00, 0x07, 0x02, 0x02, 0x04, 0x02, 0x04];

} // verus!
