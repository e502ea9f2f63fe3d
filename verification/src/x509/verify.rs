//! Signatures on certificates: which algorithm, which key and which digest.

use crate::bytes::same_bytes;
use crate::crypto::digest::{sha256, sha256_of, sha384, sha384_of, sha512, sha512_of};
use crate::oid::known::{ECDSA_WITH_SHA256, ECDSA_WITH_SHA384, ECDSA_WITH_SHA512, SHA256_WITH_RSA,
    SHA384_WITH_RSA, SHA512_WITH_RSA};
use crate::x509::key::{extract_rsa_public_key, rsa_view, spki_rsa_key, RsaKeyParts};
use crate::x509::Certificate;
use vstd::prelude::*;
use vstd::slice::slice_to_vec;
use vstd::string::*;

verus! {

/// Hash functions of signature algorithms.
#[derive(Debug, Clone, Copy, PartialEq, Eq, Structural)]
pub enum HashKind {
    /// SHA-256.
    Sha256,
    /// SHA-384.
    Sha384,
    /// SHA-512.
    Sha512,
}

impl HashKind {
    /// The digest of bytes.
    pub open spec fn of(self, data: Seq<u8>) -> Seq<u8> {
        match self {
            HashKind::Sha256 => sha256_of(data),
            HashKind::Sha384 => sha384_of(data),
            HashKind::Sha512 => sha512_of(data),
        }
    }

    /// Compute the digest of bytes.
    pub fn digest(self, data: &[u8]) -> (r: Vec<u8>)
        ensures
            r@ == self.of(data@),
    {
        match self {
            HashKind::Sha256 => slice_to_vec(sha256(data).as_slice()),
            HashKind::Sha384 => slice_to_vec(sha384(data).as_slice()),
            HashKind::Sha512 => slice_to_vec(sha512(data).as_slice()),
        }
    }
}

/// Signature algorithms that can be verified.
#[derive(Debug, Clone, Copy, PartialEq, Eq, Structural)]
pub enum SignatureAlgorithm {
    /// RSA PKCS#1 v1.5 over SHA-256.
    Sha256WithRsa,
    /// RSA PKCS#1 v1.5 over SHA-384.
    Sha384WithRsa,
    /// RSA PKCS#1 v1.5 over SHA-512.
    Sha512WithRsa,
    /// ECDSA over SHA-256.
    EcdsaWithSha256,
    /// ECDSA over SHA-384.
    EcdsaWithSha384,
    /// ECDSA over SHA-512.
    EcdsaWithSha512,
    /// Any other algorithm.
    Other,
}

impl SignatureAlgorithm {
    /// The algorithm that an object identifier names.
    pub open spec fn of(oid: Seq<u8>) -> SignatureAlgorithm {
        if oid == SHA256_WITH_RSA@ {
            SignatureAlgorithm::Sha256WithRsa
        } else if oid == SHA384_WITH_RSA@ {
            SignatureAlgorithm::Sha384WithRsa
        } else if oid == SHA512_WITH_RSA@ {
            SignatureAlgorithm::Sha512WithRsa
        } else if oid == ECDSA_WITH_SHA256@ {
            SignatureAlgorithm::EcdsaWithSha256
        } else if oid == ECDSA_WITH_SHA384@ {
            SignatureAlgorithm::EcdsaWithSha384
        } else if oid == ECDSA_WITH_SHA512@ {
            SignatureAlgorithm::EcdsaWithSha512
        } else {
            SignatureAlgorithm::Other
        }
    }

    /// The algorithm that an object identifier names.
    pub fn from_oid(oid: &[u8]) -> (r: SignatureAlgorithm)
        ensures
            r == SignatureAlgorithm::of(oid@),
    {
        if same_bytes(oid, SHA256_WITH_RSA.as_slice()) {
            SignatureAlgorithm::Sha256WithRsa
        } else if same_bytes(oid, SHA384_WITH_RSA.as_slice()) {
            SignatureAlgorithm::Sha384WithRsa
        } else if same_bytes(oid, SHA512_WITH_RSA.as_slice()) {
            SignatureAlgorithm::Sha512WithRsa
        } else if same_bytes(oid, ECDSA_WITH_SHA256.as_slice()) {
            SignatureAlgorithm::EcdsaWithSha256
        } else if same_bytes(oid, ECDSA_WITH_SHA384.as_slice()) {
            SignatureAlgorithm::EcdsaWithSha384
        } else if same_bytes(oid, ECDSA_WITH_SHA512.as_slice()) {
            SignatureAlgorithm::EcdsaWithSha512
        } else {
            SignatureAlgorithm::Other
        }
    }

    /// The name of the algorithm in reports.
    pub open spec fn name(self) -> Seq<char> {
        match self {
            SignatureAlgorithm::Sha256WithRsa => "sha256WithRSAEncryption"@,
            SignatureAlgorithm::Sha384WithRsa => "sha384WithRSAEncryption"@,
            SignatureAlgorithm::Sha512WithRsa => "sha512WithRSAEncryption"@,
            SignatureAlgorithm::EcdsaWithSha256 => "ecdsa-with-SHA256"@,
            SignatureAlgorithm::EcdsaWithSha384 => "ecdsa-with-SHA384"@,
            SignatureAlgorithm::EcdsaWithSha512 => "ecdsa-with-SHA512"@,
            SignatureAlgorithm::Other => "unrecognised"@,
        }
    }

    /// The name of the algorithm in reports.
    pub fn label(self) -> (r: &'static str)
        ensures
            r@ == self.name(),
    {
        match self {
            SignatureAlgorithm::Sha256WithRsa => "sha256WithRSAEncryption",
            SignatureAlgorithm::Sha384WithRsa => "sha384WithRSAEncryption",
            SignatureAlgorithm::Sha512WithRsa => "sha512WithRSAEncryption",
            SignatureAlgorithm::EcdsaWithSha256 => "ecdsa-with-SHA256",
            SignatureAlgorithm::EcdsaWithSha384 => "ecdsa-with-SHA384",
            SignatureAlgorithm::EcdsaWithSha512 => "ecdsa-with-SHA512",
            SignatureAlgorithm::Other => "unrecognised",
        }
    }

    /// Key family and hash function, `None` for an unknown algorithm.
    pub open spec fn scheme(self) -> Option<(bool, HashKind)> {
        match self {
            SignatureAlgorithm::Sha256WithRsa => Some((true, HashKind::Sha256)),
            SignatureAlgorithm::Sha384WithRsa => Some((true, HashKind::Sha384)),
            SignatureAlgorithm::Sha512WithRsa => Some((true, HashKind::Sha512)),
            SignatureAlgorithm::EcdsaWithSha256 => Some((false, HashKind::Sha256)),
            SignatureAlgorithm::EcdsaWithSha384 => Some((false, HashKind::Sha384)),
            SignatureAlgorithm::EcdsaWithSha512 => Some((false, HashKind::Sha512)),
            SignatureAlgorithm::Other => None,
        }
    }

    /// Whether the key is an RSA key, and the hash function; `None` for an unknown
    /// algorithm.
    pub fn parts(self) -> (r: Option<(bool, HashKind)>)
        ensures
            r == self.scheme(),
    {
        match self {
            SignatureAlgorithm::Sha256WithRsa => Some((true, HashKind::Sha256)),
            SignatureAlgorithm::Sha384WithRsa => Some((true, HashKind::Sha384)),
            SignatureAlgorithm::Sha512WithRsa => Some((true, HashKind::Sha512)),
            SignatureAlgorithm::EcdsaWithSha256 => Some((false, HashKind::Sha256)),
            SignatureAlgorithm::EcdsaWithSha384 => Some((false, HashKind::Sha384)),
            SignatureAlgorithm::EcdsaWithSha512 => Some((false, HashKind::Sha512)),
            SignatureAlgorithm::Other => None,
        }
    }
}

/// Why a signature was not accepted.
#[derive(Debug, Clone, Copy, PartialEq, Eq)]
pub enum VerifyError<R, E> {
    /// The algorithm is unknown.
    Unsupported(SignatureAlgorithm),
    /// The key of the issuer does not fit the algorithm.
    BadIssuerKey,
    /// The RSA verifier rejected the signature.
    Rsa(R),
    /// The ECDSA verifier rejected the signature.
    Ecdsa(E),
}

impl<R, E> VerifyError<R, E> {
    /// The diagnostic text of the error, given that of the error it may wrap.
    pub fn message(&self, cause: &str) -> (r: String)
        ensures
            r@ == match *self {
                VerifyError::Unsupported(a) => "unsupported signature algorithm: "@ + a.name(),
                VerifyError::BadIssuerKey => {
                    "issuer SPKI shape doesn't match the signature alg"@
                },
                VerifyError::Rsa(_) => "RSA verify: "@ + cause@,
                VerifyError::Ecdsa(_) => "ECDSA verify: "@ + cause@,
            },
    {
        match self {
            VerifyError::Unsupported(a) => {
                "unsupported signature algorithm: ".to_owned().concat(a.label())
            },
            VerifyError::BadIssuerKey => {
                "issuer SPKI shape doesn't match the signature alg".to_owned()
            },
            VerifyError::Rsa(_) => "RSA verify: ".to_owned().concat(cause),
            VerifyError::Ecdsa(_) => "ECDSA verify: ".to_owned().concat(cause),
        }
    }
}

/// The verifiers of single signatures. Nothing is taken for granted about their
/// answers.
pub trait SignatureVerifier {
    /// Why the RSA verifier rejects a signature.
    type RsaError;

    /// Why the ECDSA verifier rejects a signature.
    type EcdsaError;

    /// Verify an RSA PKCS#1 v1.5 signature over a message; `None` when the key is
    /// not usable.
    fn verify_rsa(&self, hash: HashKind, key: &RsaKeyParts, message: &[u8], signature: &[u8]) -> Option<
        Result<(), Self::RsaError>,
    >;

    /// Verify an ECDSA signature over a digest; `None` when the encoded key is not
    /// usable.
    fn verify_ecdsa(&self, spki_der: &[u8], digest: &Vec<u8>, signature: &[u8]) -> Option<
        Result<(), Self::EcdsaError>,
    >;
}

/// What the verification of one signature takes.
#[derive(Clone, Copy)]
pub struct TbsSignature<'a> {
    /// The bytes that the signature covers.
    pub tbs_der: &'a [u8],
    /// Object identifier of the signature algorithm.
    pub signature_alg_oid: &'a [u8],
    /// The signature.
    pub signature_bits: &'a [u8],
    /// Public key of the issuer.
    pub issuer_spki_der: &'a [u8],
}

/// The RSA verifier answered `o` for the key of the issuer.
pub open spec fn rsa_answer<V: SignatureVerifier>(
    verifier: &V,
    input: TbsSignature<'_>,
    hash: HashKind,
    key: RsaKeyParts,
    o: Option<Result<(), V::RsaError>>,
) -> bool {
    &&& rsa_view(Some(key)) == spki_rsa_key(input.issuer_spki_der@)
    &&& call_ensures(
        V::verify_rsa,
        (verifier, hash, &key, input.tbs_der, input.signature_bits),
        o,
    )
}

/// The ECDSA verifier answered `o` for the digest of the signed bytes.
pub open spec fn ecdsa_answer<V: SignatureVerifier>(
    verifier: &V,
    input: TbsSignature<'_>,
    hash: HashKind,
    digest: Vec<u8>,
    o: Option<Result<(), V::EcdsaError>>,
) -> bool {
    &&& digest@ == hash.of(input.tbs_der@)
    &&& call_ensures(
        V::verify_ecdsa,
        (verifier, input.issuer_spki_der, &digest, input.signature_bits),
        o,
    )
}

/// The verdict that the answer of the RSA verifier leads to.
pub open spec fn rsa_verdict<R, E>(o: Option<Result<(), R>>) -> Result<(), VerifyError<R, E>> {
    match o {
        None => Err(VerifyError::BadIssuerKey),
        Some(Ok(())) => Ok(()),
        Some(Err(e)) => Err(VerifyError::Rsa(e)),
    }
}

/// The verdict that the answer of the ECDSA verifier leads to.
pub open spec fn ecdsa_verdict<R, E>(o: Option<Result<(), E>>) -> Result<(), VerifyError<R, E>> {
    match o {
        None => Err(VerifyError::BadIssuerKey),
        Some(Ok(())) => Ok(()),
        Some(Err(e)) => Err(VerifyError::Ecdsa(e)),
    }
}

/// `r` is the verdict on a signature: unknown algorithms and keys that do not fit are
/// refused without asking a verifier; otherwise the verifier of the key family
/// decides.
pub open spec fn verdict<V: SignatureVerifier>(
    verifier: &V,
    input: TbsSignature<'_>,
    r: Result<(), VerifyError<V::RsaError, V::EcdsaError>>,
) -> bool {
    let alg = SignatureAlgorithm::of(input.signature_alg_oid@);
    match alg.scheme() {
        None => r == Err::<(), VerifyError<V::RsaError, V::EcdsaError>>(
            VerifyError::Unsupported(alg),
        ),
        Some((rsa, hash)) => if rsa {
            if spki_rsa_key(input.issuer_spki_der@) is None {
                r == Err::<(), VerifyError<V::RsaError, V::EcdsaError>>(VerifyError::BadIssuerKey)
            } else {
                exists|key: RsaKeyParts, o: Option<Result<(), V::RsaError>>|
                    #[trigger] rsa_answer(verifier, input, hash, key, o) && r == rsa_verdict::<
                        V::RsaError,
                        V::EcdsaError,
                    >(o)
            }
        } else {
            exists|digest: Vec<u8>, o: Option<Result<(), V::EcdsaError>>|
                #[trigger] ecdsa_answer(verifier, input, hash, digest, o) && r == ecdsa_verdict::<
                    V::RsaError,
                    V::EcdsaError,
                >(o)
        },
    }
}

/// Verify a signature with the public key of its issuer.
pub fn verify_tbs_signature<V: SignatureVerifier>(verifier: &V, input: TbsSignature<'_>) -> (r:
    Result<(), VerifyError<V::RsaError, V::EcdsaError>>)
    ensures
        verdict(verifier, input, r),
{
    let alg = SignatureAlgorithm::from_oid(input.signature_alg_oid);
    match alg.parts() {
        None => Err(VerifyError::Unsupported(alg)),
        Some((rsa, hash)) => if rsa {
            let key = match extract_rsa_public_key(input.issuer_spki_der) {
                Some(key) => key,
                None => {
                    return Err(VerifyError::BadIssuerKey);
                },
            };
            let o = verifier.verify_rsa(hash, &key, input.tbs_der, input.signature_bits);
            assert(rsa_answer(verifier, input, hash, key, o));
            match o {
                None => Err(VerifyError::BadIssuerKey),
                Some(Ok(())) => Ok(()),
                Some(Err(e)) => Err(VerifyError::Rsa(e)),
            }
        } else {
            let digest = hash.digest(input.tbs_der);
            let o = verifier.verify_ecdsa(input.issuer_spki_der, &digest, input.signature_bits);
            assert(ecdsa_answer(verifier, input, hash, digest, o));
            match o {
                None => Err(VerifyError::BadIssuerKey),
                Some(Ok(())) => Ok(()),
                Some(Err(e)) => Err(VerifyError::Ecdsa(e)),
            }
        },
    }
}

/// The input of a verification of `cert` against `issuer`.
pub open spec fn signed_by<'a>(
    input: TbsSignature<'a>,
    cert: Certificate<'a>,
    issuer: Certificate<'a>,
) -> bool {
    &&& input.tbs_der@ == cert.tbs_der@
    &&& input.signature_alg_oid@ == cert.signature_alg_oid@
    &&& input.signature_bits@ == cert.signature_bits@
    &&& input.issuer_spki_der@ == issuer.spki@.der
}

impl<'a> Certificate<'a> {
    /// Verify that `issuer` signed this certificate.
    pub fn verify_signed_by<V: SignatureVerifier>(
        &self,
        verifier: &V,
        issuer: Certificate<'a>,
    ) -> (r: Result<(), VerifyError<V::RsaError, V::EcdsaError>>)
        ensures
            exists|input: TbsSignature<'a>|
                #[trigger] signed_by(input, *self, issuer) && verdict(verifier, input, r),
    {
        let input = TbsSignature {
            tbs_der: self.tbs_der,
            signature_alg_oid: self.signature_alg_oid.as_bytes(),
            signature_bits: self.signature_bits,
            issuer_spki_der: issuer.spki.as_der(),
        };
        assert(signed_by(input, *self, issuer));
        verify_tbs_signature(verifier, input)
    }
}

/// The digest that the last byte of an ECDSA algorithm identifier names.
pub open spec fn ecdsa_digest(last: u8, message: Seq<u8>) -> Seq<u8> {
    if last == 0x02 {
        sha256_of(message)
    } else if last == 0x03 {
        sha384_of(message)
    } else {
        sha512_of(message)
    }
}

/// 1.2.840.10045.4.3 and a last arc.
pub open spec fn ecdsa_identifier(last: u8) -> Seq<u8> {
    seq![0x2Au8, 0x86, 0x48, 0xCE, 0x3D, 0x04, 0x03, last]
}

/// 1.2.840.113549.1.1 and a last arc.
pub open spec fn rsa_identifier(last: u8) -> Seq<u8> {
    seq![0x2Au8, 0x86, 0x48, 0x86, 0xF7, 0x0D, 0x01, 0x01, last]
}

/// An ECDSA signature is judged by the ECDSA verifier, which is asked about the key of the
/// issuer, the signature and the digest that the algorithm names: identifiers
/// 1.2.840.10045.4.3.2, .3 and .4 stand for SHA-256, SHA-384 and SHA-512 of the signed bytes.
pub proof fn law_ecdsa_is_asked_about_the_named_digest<V: SignatureVerifier>(
    verifier: &V,
    input: TbsSignature<'_>,
    last: u8,
    r: Result<(), VerifyError<V::RsaError, V::EcdsaError>>,
)
    requires
        verdict(verifier, input, r),
        0x02 <= last <= 0x04,
        input.signature_alg_oid@ == ecdsa_identifier(last),
    ensures
        exists|digest: Vec<u8>, o: Option<Result<(), V::EcdsaError>>| #[trigger]
            call_ensures(
                V::verify_ecdsa,
                (verifier, input.issuer_spki_der, &digest, input.signature_bits),
                o,
            ) && digest@ == ecdsa_digest(last, input.tbs_der@) && match o {
                Some(Ok(())) => r is Ok,
                Some(Err(e)) => r == Err::<(), VerifyError<V::RsaError, V::EcdsaError>>(
                    VerifyError::Ecdsa(e),
                ),
                None => r == Err::<(), VerifyError<V::RsaError, V::EcdsaError>>(
                    VerifyError::BadIssuerKey,
                ),
            },
{
    let oid = input.signature_alg_oid@;
    assert(oid.len() == 8);
    assert(oid == ECDSA_WITH_SHA256@ <==> last == 0x02) by {
        assert(oid[7] == last);
        if last == 0x02 {
            assert(oid =~= ECDSA_WITH_SHA256@);
        }
    }
    assert(oid == ECDSA_WITH_SHA384@ <==> last == 0x03) by {
        assert(oid[7] == last);
        if last == 0x03 {
            assert(oid =~= ECDSA_WITH_SHA384@);
        }
    }
    assert(oid == ECDSA_WITH_SHA512@ <==> last == 0x04) by {
        assert(oid[7] == last);
        if last == 0x04 {
            assert(oid =~= ECDSA_WITH_SHA512@);
        }
    }
    let hash = SignatureAlgorithm::of(oid).scheme()->Some_0.1;
    let (digest, o) = choose|digest: Vec<u8>, o: Option<Result<(), V::EcdsaError>>|
        #[trigger] ecdsa_answer(verifier, input, hash, digest, o) && r == ecdsa_verdict::<
            V::RsaError,
            V::EcdsaError,
        >(o);
    assert(call_ensures(
        V::verify_ecdsa,
        (verifier, input.issuer_spki_der, &digest, input.signature_bits),
        o,
    ));
}

/// An RSA signature is judged by the RSA verifier, which is asked about the key of the
/// issuer, the signature and the signed bytes under the hash that the algorithm names:
/// identifiers 1.2.840.113549.1.1.11, .12 and .13 stand for SHA-256, SHA-384 and SHA-512. An
/// issuer without an RSA key is refused.
pub proof fn law_rsa_is_asked_about_the_named_hash<V: SignatureVerifier>(
    verifier: &V,
    input: TbsSignature<'_>,
    last: u8,
    r: Result<(), VerifyError<V::RsaError, V::EcdsaError>>,
)
    requires
        verdict(verifier, input, r),
        0x0B <= last <= 0x0D,
        input.signature_alg_oid@ == rsa_identifier(last),
    ensures
        spki_rsa_key(input.issuer_spki_der@) is None ==> r == Err::<
            (),
            VerifyError<V::RsaError, V::EcdsaError>,
        >(VerifyError::BadIssuerKey),
        spki_rsa_key(input.issuer_spki_der@) is Some ==> exists|
            hash: HashKind,
            key: RsaKeyParts,
            o: Option<Result<(), V::RsaError>>,
        | #[trigger]
            call_ensures(
                V::verify_rsa,
                (verifier, hash, &key, input.tbs_der, input.signature_bits),
                o,
            ) && rsa_view(Some(key)) == spki_rsa_key(input.issuer_spki_der@) && (hash is Sha256
                <==> last == 0x0B) && (hash is Sha384 <==> last == 0x0C) && match o {
                Some(Ok(())) => r is Ok,
                Some(Err(e)) => r == Err::<(), VerifyError<V::RsaError, V::EcdsaError>>(
                    VerifyError::Rsa(e),
                ),
                None => r == Err::<(), VerifyError<V::RsaError, V::EcdsaError>>(
                    VerifyError::BadIssuerKey,
                ),
            },
{
    let oid = input.signature_alg_oid@;
    assert(oid.len() == 9 && oid[8] == last);
    if last == 0x0B {
        assert(oid =~= SHA256_WITH_RSA@);
    } else if last == 0x0C {
        assert(oid =~= SHA384_WITH_RSA@);
    } else {
        assert(oid =~= SHA512_WITH_RSA@);
    }
    let hash = SignatureAlgorithm::of(oid).scheme()->Some_0.1;
    if spki_rsa_key(input.issuer_spki_der@) is Some {
        let (key, o) = choose|key: RsaKeyParts, o: Option<Result<(), V::RsaError>>|
            #[trigger] rsa_answer(verifier, input, hash, key, o) && r == rsa_verdict::<
                V::RsaError,
                V::EcdsaError,
            >(o);
        assert(call_ensures(
            V::verify_rsa,
            (verifier, hash, &key, input.tbs_der, input.signature_bits),
            o,
        ));
    }
}

/// No other algorithm is accepted: an identifier that is none of the six is refused.
pub proof fn law_other_algorithms_are_refused<V: SignatureVerifier>(
    verifier: &V,
    input: TbsSignature<'_>,
    r: Result<(), VerifyError<V::RsaError, V::EcdsaError>>,
)
    requires
        verdict(verifier, input, r),
        forall|last: u8|
            0x02 <= last <= 0x04 ==> input.signature_alg_oid@ != #[trigger] ecdsa_identifier(last),
        forall|last: u8|
            0x0B <= last <= 0x0D ==> input.signature_alg_oid@ != #[trigger] rsa_identifier(last),
    ensures
        r matches Err(VerifyError::Unsupported(_)),
{
    assert(ECDSA_WITH_SHA256@ =~= ecdsa_identifier(0x02));
    assert(ECDSA_WITH_SHA384@ =~= ecdsa_identifier(0x03));
    assert(ECDSA_WITH_SHA512@ =~= ecdsa_identifier(0x04));
    assert(SHA256_WITH_RSA@ =~= rsa_identifier(0x0B));
    assert(SHA384_WITH_RSA@ =~= rsa_identifier(0x0C));
    assert(SHA512_WITH_RSA@ =~= rsa_identifier(0x0D));
}

/// A certificate is verified as signed by its issuer: over its own signed part, with its
/// own signature and algorithm, and with the key of the issuer.
pub proof fn law_issuer_key_verifies<'a>(
    input: TbsSignature<'a>,
    cert: Certificate<'a>,
    issuer: Certificate<'a>,
)
    requires
        signed_by(input, cert, issuer),
    ensures
        input.tbs_der@ == cert@.tbs,
        input.signature_alg_oid@ == cert@.signature_oid,
        input.signature_bits@ == cert@.signature,
        input.issuer_spki_der@ == issuer@.fields.spki.der,
{
}

/// The algorithms by their identifiers: `1.2.840.10045.4.3` names ECDSA with its last
/// number, `1.2.840.113549.1.1` RSA. Each hash is the one of the name.
pub proof fn law_parts_of_each_algorithm(alg: SignatureAlgorithm, r: Option<(bool, HashKind)>)
    requires
        call_ensures(SignatureAlgorithm::parts, (alg,), r),
    ensures
        alg == SignatureAlgorithm::of(ecdsa_identifier(2)) ==> r == Some((false, HashKind::Sha256)),
        alg == SignatureAlgorithm::of(ecdsa_identifier(3)) ==> r == Some((false, HashKind::Sha384)),
        alg == SignatureAlgorithm::of(ecdsa_identifier(4)) ==> r == Some((false, HashKind::Sha512)),
        alg == SignatureAlgorithm::of(rsa_identifier(11)) ==> r == Some((true, HashKind::Sha256)),
        alg == SignatureAlgorithm::of(rsa_identifier(12)) ==> r == Some((true, HashKind::Sha384)),
        alg == SignatureAlgorithm::of(rsa_identifier(13)) ==> r == Some((true, HashKind::Sha512)),
        alg == SignatureAlgorithm::Other ==> r is None,
{
    assert(ecdsa_identifier(2) =~= ECDSA_WITH_SHA256@);
    assert(ecdsa_identifier(3) =~= ECDSA_WITH_SHA384@);
    assert(ecdsa_identifier(4) =~= ECDSA_WITH_SHA512@);
    assert(rsa_identifier(11) =~= SHA256_WITH_RSA@);
    assert(rsa_identifier(12) =~= SHA384_WITH_RSA@);
    assert(rsa_identifier(13) =~= SHA512_WITH_RSA@);
    assert(ecdsa_identifier(2)[7] == 2 && ecdsa_identifier(3)[7] == 3 && ecdsa_identifier(4)[7]
        == 4);
    assert(rsa_identifier(11)[8] == 11 && rsa_identifier(12)[8] == 12 && rsa_identifier(13)[8]
        == 13);
    assert(ecdsa_identifier(2).len() == 8 && ecdsa_identifier(3).len() == 8
        && ecdsa_identifier(4).len() == 8);
    assert(rsa_identifier(11).len() == 9 && rsa_identifier(12).len() == 9
        && rsa_identifier(13).len() == 9);
}

} // verus!
