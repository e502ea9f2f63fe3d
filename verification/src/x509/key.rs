//! Public keys of certificates.

use crate::ber::{tlv_items, BerBody, TAG_INTEGER, TAG_SEQUENCE};
use crate::bytes::same_bytes;
use crate::der::{der_items, der_tagged, slice_view, DerAny, DerBody};
use crate::oid::known::{BRAINPOOL_P256R1, BRAINPOOL_P384R1, EC_PUBLIC_KEY, RSA_ENCRYPTION, SECP256R1,
    SECP384R1};
use crate::render::{dec, push_dec};
use crate::x509::{X509Error, X509ErrorView};
use spki::der::asn1::{AnyRef, ObjectIdentifier};
use spki::der::{Decode, Tag, Tagged};
use spki::SubjectPublicKeyInfoRef;
use vstd::prelude::*;
use vstd::slice::slice_subrange;
use vstd::string::*;

verus! {

/// Named curves of card certificates.
#[derive(Debug, Clone, Copy, PartialEq, Eq, Structural)]
pub enum EcCurve {
    /// NIST P-256.
    Secp256r1,
    /// NIST P-384.
    Secp384r1,
    /// Brainpool P-256r1.
    BrainpoolP256r1,
    /// Brainpool P-384r1.
    BrainpoolP384r1,
    /// Any other curve.
    Other,
}

impl EcCurve {
    /// The curve that an object identifier names.
    pub open spec fn of(oid: Seq<u8>) -> EcCurve {
        if oid == SECP256R1@ {
            EcCurve::Secp256r1
        } else if oid == SECP384R1@ {
            EcCurve::Secp384r1
        } else if oid == BRAINPOOL_P256R1@ {
            EcCurve::BrainpoolP256r1
        } else if oid == BRAINPOOL_P384R1@ {
            EcCurve::BrainpoolP384r1
        } else {
            EcCurve::Other
        }
    }

    /// The curve that an object identifier names.
    pub fn from_oid(oid: &[u8]) -> (r: EcCurve)
        ensures
            r == EcCurve::of(oid@),
    {
        if same_bytes(oid, SECP256R1.as_slice()) {
            EcCurve::Secp256r1
        } else if same_bytes(oid, SECP384R1.as_slice()) {
            EcCurve::Secp384r1
        } else if same_bytes(oid, BRAINPOOL_P256R1.as_slice()) {
            EcCurve::BrainpoolP256r1
        } else if same_bytes(oid, BRAINPOOL_P384R1.as_slice()) {
            EcCurve::BrainpoolP384r1
        } else {
            EcCurve::Other
        }
    }

    /// The name of the curve in reports.
    pub open spec fn name(self) -> Seq<char> {
        match self {
            EcCurve::Secp256r1 => "secp256r1 (P-256)"@,
            EcCurve::Secp384r1 => "secp384r1 (P-384)"@,
            EcCurve::BrainpoolP256r1 => "brainpoolP256r1"@,
            EcCurve::BrainpoolP384r1 => "brainpoolP384r1"@,
            EcCurve::Other => "unrecognised curve"@,
        }
    }

    /// The name of the curve in reports.
    pub fn label(self) -> (r: &'static str)
        ensures
            r@ == self.name(),
    {
        match self {
            EcCurve::Secp256r1 => "secp256r1 (P-256)",
            EcCurve::Secp384r1 => "secp384r1 (P-384)",
            EcCurve::BrainpoolP256r1 => "brainpoolP256r1",
            EcCurve::BrainpoolP384r1 => "brainpoolP384r1",
            EcCurve::Other => "unrecognised curve",
        }
    }

    /// Bit length of the field prime, zero for an unknown curve.
    pub fn bits(self) -> (r: usize)
        ensures
            r == match self {
                EcCurve::Secp256r1 => 256usize,
                EcCurve::BrainpoolP256r1 => 256,
                EcCurve::Secp384r1 => 384,
                EcCurve::BrainpoolP384r1 => 384,
                EcCurve::Other => 0,
            },
    {
        match self {
            EcCurve::Secp256r1 | EcCurve::BrainpoolP256r1 => 256,
            EcCurve::Secp384r1 | EcCurve::BrainpoolP384r1 => 384,
            EcCurve::Other => 0,
        }
    }
}

/// Algorithm of a public key, with what identifies it.
#[derive(Debug, Clone, Copy, PartialEq, Eq, Structural)]
pub enum PublicKeyAlgorithm {
    /// RSA key.
    Rsa {
        /// Bit length of the modulus.
        modulus_bits: usize,
    },
    /// EC key on a named curve.
    Ec(EcCurve),
    /// EC key with explicit parameters.
    EcExplicit {
        /// Bit length of the field prime, zero when it cannot be read.
        bits: usize,
    },
    /// Any other algorithm.
    Other,
}

impl PublicKeyAlgorithm {
    /// The name of the algorithm in reports.
    pub fn label(self) -> (r: String)
        ensures
            r@ == match self {
                PublicKeyAlgorithm::Rsa { modulus_bits } => "RSA, "@ + dec(modulus_bits as nat)
                    + "-bit modulus"@,
                PublicKeyAlgorithm::Ec(curve) => "EC on "@ + curve.name(),
                PublicKeyAlgorithm::EcExplicit { bits } => "EC with explicit parameters ("@ + dec(
                    bits as nat,
                ) + "-bit field)"@,
                PublicKeyAlgorithm::Other => "unrecognised algorithm"@,
            },
    {
        match self {
            PublicKeyAlgorithm::Rsa { modulus_bits } => {
                let mut out = "RSA, ".to_owned();
                push_dec(&mut out, modulus_bits as u128);
                out.append("-bit modulus");
                out
            },
            PublicKeyAlgorithm::Ec(curve) => "EC on ".to_owned().concat(curve.label()),
            PublicKeyAlgorithm::EcExplicit { bits } => {
                let mut out = "EC with explicit parameters (".to_owned();
                push_dec(&mut out, bits as u128);
                out.append("-bit field)");
                out
            },
            PublicKeyAlgorithm::Other => "unrecognised algorithm".to_owned(),
        }
    }
}

/// Number of bits of a byte behind its leading zeros.
pub open spec fn bit_length(b: u8) -> int
    decreases b,
{
    if b == 0 {
        0
    } else {
        1 + bit_length(b / 2)
    }
}

proof fn lemma_bit_length_bound(b: u8)
    ensures
        0 <= bit_length(b) <= 8,
        b < 128 ==> bit_length(b) <= 7,
        b < 64 ==> bit_length(b) <= 6,
        b < 32 ==> bit_length(b) <= 5,
        b < 16 ==> bit_length(b) <= 4,
        b < 8 ==> bit_length(b) <= 3,
        b < 4 ==> bit_length(b) <= 2,
        b < 2 ==> bit_length(b) <= 1,
        b < 1 ==> bit_length(b) <= 0,
    decreases b,
{
    if b > 0 {
        lemma_bit_length_bound(b / 2);
    }
}

fn byte_bits(b: u8) -> (r: usize)
    ensures
        r == bit_length(b),
        r <= 8,
{
    let mut rest: u8 = b;
    let mut n: usize = 0;
    proof {
        lemma_bit_length_bound(b);
    }
    while rest > 0
        invariant
            n + bit_length(rest) == bit_length(b),
            bit_length(b) <= 8,
        decreases rest,
    {
        proof {
            lemma_bit_length_bound(rest / 2);
        }
        rest = rest / 2;
        n += 1;
    }
    n
}

/// Bit length of a big-endian number that is spelled out from its first byte;
/// nothing for no bytes, nor where the machine word cannot count the bits.
pub open spec fn magnitude_bits(bytes: Seq<u8>) -> Option<int> {
    if bytes.len() == 0 || bytes.len() * 8 > usize::MAX {
        None
    } else {
        Some((bytes.len() - 1) * 8 + bit_length(bytes[0]))
    }
}

fn count_bits(bytes: &[u8]) -> (r: Option<usize>)
    ensures
        r is Some <==> magnitude_bits(bytes@) is Some,
        r matches Some(n) ==> magnitude_bits(bytes@) == Some(n as int),
{
    if bytes.len() == 0 {
        return None;
    }
    let first: usize = byte_bits(bytes[0]);
    match bytes.len().checked_mul(8) {
        Some(total) => Some(total - 8 + first),
        None => None,
    }
}

/// The magnitude of an INTEGER: without the zero byte in front of others.
pub open spec fn integer_magnitude(value: Seq<u8>) -> Seq<u8> {
    if value.len() > 1 && value[0] == 0 {
        value.skip(1)
    } else {
        value
    }
}

/// Modulus and exponent of an RSA key.
pub open spec fn rsa_parts(der: Seq<u8>) -> Option<(Seq<u8>, Seq<u8>)> {
    match der_tagged(der, 0x30) {
        None => None,
        Some(body) => {
            let fields = der_items(body);
            if fields.len() < 2 {
                None
            } else {
                match (der_tagged(fields[0], 0x02), der_tagged(fields[1], 0x02)) {
                    (Some(n), Some(e)) => Some((integer_magnitude(n), integer_magnitude(e))),
                    _ => None,
                }
            }
        },
    }
}

fn read_magnitude<'a>(field: &'a [u8]) -> (r: Option<&'a [u8]>)
    ensures
        slice_view(r) == match der_tagged(field@, 0x02) {
            Some(v) => Some(integer_magnitude(v)),
            None => None,
        },
{
    match DerAny::tagged(field, 0x02) {
        Some(value) => if value.len() > 1 && value[0] == 0 {
            let rest = slice_subrange(value, 1, value.len());
            assert(rest@ =~= value@.skip(1));
            Some(rest)
        } else {
            Some(value)
        },
        None => None,
    }
}

/// Modulus and exponent of an RSA key as big-endian magnitudes.
pub fn rsa_public_key_parts<'a>(der: &'a [u8]) -> (r: Option<(&'a [u8], &'a [u8])>)
    ensures
        r is Some <==> rsa_parts(der@) is Some,
        r matches Some((n, e)) ==> rsa_parts(der@) == Some((n@, e@)),
{
    let body = match DerAny::tagged(der, 0x30) {
        Some(body) => body,
        None => {
            return None;
        },
    };
    let fields = DerBody::read(body);
    if fields.items.len() < 2 {
        return None;
    }
    assert(fields.items@[0]@ == der_items(body@)[0]);
    assert(fields.items@[1]@ == der_items(body@)[1]);
    match (read_magnitude(fields.items[0]), read_magnitude(fields.items[1])) {
        (Some(n), Some(e)) => Some((n, e)),
        _ => None,
    }
}

/// The field prime of explicit curve parameters: the second part of the second
/// data object.
pub open spec fn field_prime(params: Seq<u8>) -> Option<Seq<u8>> {
    let items = tlv_items(params);
    if items.len() < 2 || items[1].tag != TAG_SEQUENCE {
        None
    } else {
        let field = tlv_items(items[1].value);
        if field.len() < 2 || field[1].tag != TAG_INTEGER {
            None
        } else {
            let prime = field[1].value;
            Some(
                if prime.len() > 0 && prime[0] == 0 {
                    prime.skip(1)
                } else {
                    prime
                },
            )
        }
    }
}

/// Bit length of the field prime of explicit curve parameters.
pub open spec fn field_bits(params: Seq<u8>) -> Option<int> {
    match field_prime(params) {
        Some(prime) => magnitude_bits(prime),
        None => None,
    }
}

/// Bit length of the field prime of explicit curve parameters.
pub fn explicit_curve_field_bits(params: &[u8]) -> (r: Option<usize>)
    ensures
        r is Some <==> field_bits(params@) is Some,
        r matches Some(n) ==> field_bits(params@) == Some(n as int),
{
    let outer = BerBody::read(params);
    if outer.items.len() < 2 {
        return None;
    }
    assert(outer.items@[1].tag == tlv_items(params@)[1].tag);
    if outer.items[1].tag != TAG_SEQUENCE {
        return None;
    }
    let inner = BerBody::read(outer.items[1].value);
    if inner.items.len() < 2 {
        return None;
    }
    assert(inner.items@[1].tag == tlv_items(outer.items@[1].value@)[1].tag);
    if inner.items[1].tag != TAG_INTEGER {
        return None;
    }
    let prime = inner.items[1].value;
    if prime.len() > 0 && prime[0] == 0 {
        let rest = slice_subrange(prime, 1, prime.len());
        assert(rest@ =~= prime@.skip(1));
        count_bits(rest)
    } else {
        count_bits(prime)
    }
}

/// The parts of a public-key structure.
#[derive(Debug)]
pub struct SpkiParts<'a> {
    /// Object identifier of the algorithm.
    pub algorithm: Vec<u8>,
    /// Parameters of the algorithm: whether they are an object identifier, and their
    /// value.
    pub parameters: Option<(bool, &'a [u8])>,
    /// The key bits.
    pub key: &'a [u8],
}

/// What the parts of a public-key structure hold.
#[verifier::ext_equal]
pub struct SpkiView {
    pub algorithm: Seq<u8>,
    pub parameters: Option<(bool, Seq<u8>)>,
    pub key: Seq<u8>,
}

impl<'a> View for SpkiParts<'a> {
    type V = SpkiView;

    open spec fn view(&self) -> SpkiView {
        SpkiView {
            algorithm: self.algorithm@,
            parameters: match self.parameters {
                Some((is_oid, value)) => Some((is_oid, value@)),
                None => None,
            },
            key: self.key@,
        }
    }
}

/// The view of a decoded public-key structure.
pub open spec fn spki_view(r: Option<SpkiParts<'_>>) -> Option<SpkiView> {
    match r {
        Some(p) => Some(p@),
        None => None,
    }
}

/// What [`spki::SubjectPublicKeyInfoRef`] decodes from bytes.
pub uninterp spec fn spki_decoded(der: Seq<u8>) -> Option<SpkiView>;

/// [`spki::SubjectPublicKeyInfoRef`] decoded from exactly `der`: algorithm,
/// parameters and key bits.
#[verifier::external_body]
fn decode_spki<'a>(der: &'a [u8]) -> (r: Option<SpkiParts<'a>>)
    ensures
        spki_view(r) == spki_decoded(der@),
{
    let info = SubjectPublicKeyInfoRef::from_der(der).ok()?;
    let parameters = match info.algorithm.parameters {
        Some(any) => Some((any.tag() == Tag::ObjectIdentifier, any.value())),
        None => None,
    };
    let algorithm = info.algorithm.oid.as_bytes().to_vec();
    Some(SpkiParts { algorithm, parameters, key: info.subject_public_key.raw_bytes() })
}

/// Whether [`spki::der::asn1::ObjectIdentifier`] takes bytes as its content.
pub uninterp spec fn oid_decodes(content: Seq<u8>) -> bool;

/// [`spki::der::asn1::AnyRef::decode_as`] for an object identifier: whether the
/// content is one.
#[verifier::external_body]
fn decodes_as_oid(content: &[u8]) -> (r: bool)
    ensures
        r == oid_decodes(content@),
{
    match AnyRef::new(Tag::ObjectIdentifier, content) {
        Ok(any) => any.decode_as::<ObjectIdentifier>().is_ok(),
        Err(_) => false,
    }
}

/// The algorithm of a decoded public key; `named` tells whether parameters that are
/// an object identifier decode as one.
pub open spec fn key_algorithm(parts: SpkiView, named: bool) -> Option<PublicKeyAlgorithm> {
    if parts.algorithm == RSA_ENCRYPTION@ {
        match rsa_parts(parts.key) {
            None => None,
            Some((n, _)) => match magnitude_bits(n) {
                Some(bits) => Some(PublicKeyAlgorithm::Rsa { modulus_bits: bits as usize }),
                None => None,
            },
        }
    } else if parts.algorithm == EC_PUBLIC_KEY@ {
        match parts.parameters {
            None => None,
            Some((is_oid, value)) => if is_oid && named {
                Some(PublicKeyAlgorithm::Ec(EcCurve::of(value)))
            } else {
                Some(
                    PublicKeyAlgorithm::EcExplicit {
                        bits: match field_bits(value) {
                            Some(n) => n as usize,
                            None => 0,
                        },
                    },
                )
            },
        }
    } else {
        Some(PublicKeyAlgorithm::Other)
    }
}

/// The parameters of a decoded public key, where they are of the type of an object
/// identifier, decode as one.
pub open spec fn named_curve(parts: SpkiView) -> bool {
    match parts.parameters {
        Some((_, value)) => oid_decodes(value),
        None => false,
    }
}

impl PublicKeyAlgorithm {
    /// Classify a decoded public key.
    pub fn from_parts(parts: &SpkiParts<'_>, named: bool) -> (r: Option<PublicKeyAlgorithm>)
        ensures
            r == key_algorithm(parts@, named),
    {
        if same_bytes(parts.algorithm.as_slice(), RSA_ENCRYPTION.as_slice()) {
            match rsa_public_key_parts(parts.key) {
                Some((n, _)) => match count_bits(n) {
                    Some(modulus_bits) => Some(PublicKeyAlgorithm::Rsa { modulus_bits }),
                    None => None,
                },
                None => None,
            }
        } else if same_bytes(parts.algorithm.as_slice(), EC_PUBLIC_KEY.as_slice()) {
            match parts.parameters {
                None => None,
                Some((is_oid, value)) => if is_oid && named {
                    Some(PublicKeyAlgorithm::Ec(EcCurve::from_oid(value)))
                } else {
                    let bits: usize = match explicit_curve_field_bits(value) {
                        Some(n) => n,
                        None => 0,
                    };
                    Some(PublicKeyAlgorithm::EcExplicit { bits })
                },
            }
        } else {
            Some(PublicKeyAlgorithm::Other)
        }
    }

    /// Classify a decoded public key, asking the decoder for its parameters.
    fn from_spki(parts: &SpkiParts<'_>) -> (r: Option<PublicKeyAlgorithm>)
        ensures
            r == key_algorithm(parts@, named_curve(parts@)),
    {
        let named = match parts.parameters {
            Some((_, value)) => decodes_as_oid(value),
            None => false,
        };
        PublicKeyAlgorithm::from_parts(parts, named)
    }
}

/// The algorithm of an encoded public key.
pub open spec fn spki_algorithm(der: Seq<u8>) -> Option<PublicKeyAlgorithm> {
    match spki_decoded(der) {
        Some(parts) => key_algorithm(parts, named_curve(parts)),
        None => None,
    }
}

/// The algorithm of an encoded public key, `None` when the structure is malformed.
pub fn parse_subject_public_key_info(spki_der: &[u8]) -> (r: Option<PublicKeyAlgorithm>)
    ensures
        r == spki_algorithm(spki_der@),
{
    match decode_spki(spki_der) {
        Some(parts) => PublicKeyAlgorithm::from_spki(&parts),
        None => None,
    }
}

/// Modulus and exponent of a decoded RSA key.
pub open spec fn rsa_key_of(parts: SpkiView) -> Option<(Seq<u8>, Seq<u8>)> {
    if parts.algorithm == RSA_ENCRYPTION@ {
        rsa_parts(parts.key)
    } else {
        None
    }
}

/// Modulus and exponent of an RSA key, as owned magnitudes.
#[derive(Debug, PartialEq, Eq)]
pub struct RsaKeyParts {
    /// Modulus.
    pub modulus: Vec<u8>,
    /// Public exponent.
    pub exponent: Vec<u8>,
}

/// The view of an RSA key.
pub open spec fn rsa_view(r: Option<RsaKeyParts>) -> Option<(Seq<u8>, Seq<u8>)> {
    match r {
        Some(k) => Some((k.modulus@, k.exponent@)),
        None => None,
    }
}

/// Modulus and exponent of a decoded key, `None` when it is no RSA key.
pub fn rsa_key_from_parts(parts: &SpkiParts<'_>) -> (r: Option<RsaKeyParts>)
    ensures
        rsa_view(r) == rsa_key_of(parts@),
{
    if !same_bytes(parts.algorithm.as_slice(), RSA_ENCRYPTION.as_slice()) {
        return None;
    }
    match rsa_public_key_parts(parts.key) {
        Some((n, e)) => Some(
            RsaKeyParts {
                modulus: vstd::slice::slice_to_vec(n),
                exponent: vstd::slice::slice_to_vec(e),
            },
        ),
        None => None,
    }
}

/// Modulus and exponent of an encoded key, `None` when it is no RSA key.
pub open spec fn spki_rsa_key(der: Seq<u8>) -> Option<(Seq<u8>, Seq<u8>)> {
    match spki_decoded(der) {
        Some(parts) => rsa_key_of(parts),
        None => None,
    }
}

/// The RSA key of an encoded public key, `None` for other keys and malformed ones.
pub fn extract_rsa_public_key(spki_der: &[u8]) -> (r: Option<RsaKeyParts>)
    ensures
        rsa_view(r) == spki_rsa_key(spki_der@),
{
    match decode_spki(spki_der) {
        Some(parts) => rsa_key_from_parts(&parts),
        None => None,
    }
}

/// An encoded public key that was decoded once, with its algorithm and key bits.
#[derive(Debug, Clone, Copy)]
pub struct SpkiDer<'a> {
    der: &'a [u8],
    algorithm: PublicKeyAlgorithm,
    subject_public_key: &'a [u8],
}

/// What a decoded public key holds.
#[verifier::ext_equal]
pub struct SpkiDerView {
    pub der: Seq<u8>,
    pub algorithm: PublicKeyAlgorithm,
    pub key: Seq<u8>,
}

impl<'a> View for SpkiDer<'a> {
    type V = SpkiDerView;

    closed spec fn view(&self) -> SpkiDerView {
        SpkiDerView {
            der: self.der@,
            algorithm: self.algorithm,
            key: self.subject_public_key@,
        }
    }
}

/// The decoded form of an encoded public key.
pub open spec fn spki_der_of(der: Seq<u8>, decoded: Option<SpkiView>, named: bool) -> Option<
    SpkiDerView,
> {
    match decoded {
        None => None,
        Some(parts) => match key_algorithm(parts, named) {
            None => None,
            Some(algorithm) => Some(SpkiDerView { der, algorithm, key: parts.key }),
        },
    }
}

/// The decoded form that an encoded public key has.
pub open spec fn spki_der_decoded(der: Seq<u8>) -> Option<SpkiDerView> {
    match spki_decoded(der) {
        None => None,
        Some(parts) => spki_der_of(der, Some(parts), named_curve(parts)),
    }
}

/// The view of a decoding of a public key.
pub open spec fn spki_der_view(r: Result<SpkiDer<'_>, X509Error>) -> Result<
    SpkiDerView,
    X509ErrorView,
> {
    match r {
        Ok(s) => Ok(s@),
        Err(e) => Err(e@),
    }
}

/// A missing decoding is the error of a malformed public key.
pub open spec fn spki_or_error(v: Option<SpkiDerView>) -> Result<SpkiDerView, X509ErrorView> {
    match v {
        Some(s) => Ok(s),
        None => Err(X509ErrorView::UnexpectedStructure("malformed SubjectPublicKeyInfo"@)),
    }
}

/// `04` and two coordinates of the same length.
pub open spec fn is_uncompressed_point(key: Seq<u8>) -> bool {
    key.len() > 1 && key.len() % 2 == 1 && key[0] == 0x04
}

impl<'a> SpkiDer<'a> {
    /// Pin down a public key from what its decoder answered.
    pub fn from_decoded(der: &'a [u8], decoded: Option<SpkiParts<'a>>, named: bool) -> (r: Result<
        SpkiDer<'a>,
        X509Error,
    >)
        ensures
            spki_der_view(r) == spki_or_error(spki_der_of(der@, spki_view(decoded), named)),
    {
        match decoded {
            Some(parts) => match PublicKeyAlgorithm::from_parts(&parts, named) {
                Some(algorithm) => Ok(SpkiDer { der, algorithm, subject_public_key: parts.key }),
                None => Err(X509Error::UnexpectedStructure("malformed SubjectPublicKeyInfo")),
            },
            None => Err(X509Error::UnexpectedStructure("malformed SubjectPublicKeyInfo")),
        }
    }

    /// Decode a public key.
    pub fn try_from_der(der: &'a [u8]) -> (r: Result<SpkiDer<'a>, X509Error>)
        ensures
            spki_der_view(r) == spki_or_error(spki_der_decoded(der@)),
    {
        match decode_spki(der) {
            Some(parts) => {
                let named = match parts.parameters {
                    Some((_, value)) => decodes_as_oid(value),
                    None => false,
                };
                SpkiDer::from_decoded(der, Some(parts), named)
            },
            None => SpkiDer::from_decoded(der, None, false),
        }
    }

    /// The encoded key.
    pub fn as_der(&self) -> (r: &'a [u8])
        ensures
            r@ == self@.der,
    {
        self.der
    }

    /// The algorithm of the key.
    pub fn algorithm(&self) -> (r: PublicKeyAlgorithm)
        ensures
            r == self@.algorithm,
    {
        self.algorithm
    }

    /// The uncompressed point of an EC key, `None` for keys of another form.
    pub fn ec_public_key_point(&self) -> (r: Option<&'a [u8]>)
        ensures
            slice_view(r) == if is_uncompressed_point(self@.key) {
                Some(self@.key)
            } else {
                None
            },
    {
        let key = self.subject_public_key;
        if key.len() > 1 && key.len() % 2 == 1 && key[0] == 0x04 {
            Some(key)
        } else {
            None
        }
    }

    /// The key bits.
    pub fn subject_public_key_bits(&self) -> (r: &'a [u8])
        ensures
            r@ == self@.key,
    {
        self.subject_public_key
    }
}

} // verus!
