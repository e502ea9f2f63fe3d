//! X.509 certificates, as far as card status needs them.
//!
//! The parser does not verify signatures. Its results borrow from the bytes they
//! were read from.

use crate::ber::BerError;
use crate::bytes::same_bytes;
use crate::der::{der_any, der_complete, der_items, der_size, der_tagged, same_elements, slice_view,
    DerAny, DerBody};
use crate::identity::CertSerial;
use crate::oid::Oid;
use crate::x509::key::spki_der_decoded;
use spki::der::Decode;
use vstd::prelude::*;
use vstd::slice::{slice_subrange, slice_to_vec};
use vstd::string::*;
use x509_cert::certificate::Rfc5280;
use x509_cert::time::Validity;

pub mod extensions;
pub mod key;
pub mod name;
pub mod reading;
pub mod time;
pub mod verify;

pub use crate::x509::extensions::{extract_basic_constraints, extract_ca_issuers_urls,
    extract_crl_distribution_urls, extract_extended_key_usage, extract_extended_key_usage_meta,
    extract_key_usage, extract_key_usage_meta, extract_ocsp_urls, extract_subject_alt_emails,
    BasicConstraints, ExtendedKeyUsageOwned, ExtensionMeta, KeyUsage, KeyUsageMeta};
pub use crate::x509::key::{extract_rsa_public_key, parse_subject_public_key_info, EcCurve,
    PublicKeyAlgorithm, SpkiDer, SpkiDerView};
pub use crate::x509::name::Name;
pub use crate::x509::time::{DateTime, DateTimeView};
pub use crate::x509::verify::{SignatureAlgorithm, VerifyError};

verus! {

/// Tag of the version wrapper.
#[derive(Debug, Clone, Copy)]
pub struct X509ContextExplicit0;

impl X509ContextExplicit0 {
    /// The tag.
    pub const TAG: u16 = 0xA0;
}

/// Tag of the extensions wrapper.
#[derive(Debug, Clone, Copy)]
pub struct X509ContextExplicit3;

impl X509ContextExplicit3 {
    /// The tag.
    pub const TAG: u16 = 0xA3;
}

/// Extended key usage of signers of travel-document master lists.
pub const OID_ICAO_ML_SIGNER: [u8; 6] = [0x67, 0x81, 0x08, 0x01, 0x01, 0x03];

/// Why bytes are no certificate.
#[derive(Debug, Clone, Copy, PartialEq, Eq)]
pub enum X509Error {
    /// An element cannot be read.
    Ber(BerError),
    /// The named part is missing or has another shape.
    UnexpectedStructure(&'static str),
    /// A time cannot be read.
    InvalidTime,
    /// A text cannot be read.
    InvalidString,
    /// An element cannot be read at the named place.
    BerInContext(BerError, &'static str),
}

/// What a parse error says.
pub enum X509ErrorView {
    Ber(BerError),
    UnexpectedStructure(Seq<char>),
    InvalidTime,
    InvalidString,
    BerInContext(BerError, Seq<char>),
}

impl View for X509Error {
    type V = X509ErrorView;

    open spec fn view(&self) -> X509ErrorView {
        match self {
            X509Error::Ber(e) => X509ErrorView::Ber(*e),
            X509Error::UnexpectedStructure(w) => X509ErrorView::UnexpectedStructure(w@),
            X509Error::InvalidTime => X509ErrorView::InvalidTime,
            X509Error::InvalidString => X509ErrorView::InvalidString,
            X509Error::BerInContext(e, w) => X509ErrorView::BerInContext(*e, w@),
        }
    }
}

impl X509Error {
    /// The named part has another shape.
    pub open spec fn is_structure(self, what: Seq<char>) -> bool {
        self@ == X509ErrorView::UnexpectedStructure(what)
    }

    /// The diagnostic text of the error, given that of the error it may wrap.
    pub fn message(&self, cause: &str) -> (r: String)
        ensures
            r@ == match *self {
                X509Error::Ber(_) => "X.509 BER: "@ + cause@,
                X509Error::UnexpectedStructure(w) => "X.509: unexpected structure ("@ + w@ + ")"@,
                X509Error::InvalidTime => "X.509: invalid time encoding"@,
                X509Error::InvalidString => "X.509: invalid string encoding"@,
                X509Error::BerInContext(_, w) => "X.509: BER decode at "@ + w@ + ": "@ + cause@,
            },
    {
        match self {
            X509Error::Ber(_) => "X.509 BER: ".to_owned().concat(cause),
            X509Error::UnexpectedStructure(w) => {
                "X.509: unexpected structure (".to_owned().concat(w).concat(")")
            },
            X509Error::InvalidTime => "X.509: invalid time encoding".to_owned(),
            X509Error::InvalidString => "X.509: invalid string encoding".to_owned(),
            X509Error::BerInContext(_, w) => {
                "X.509: BER decode at ".to_owned().concat(w).concat(": ").concat(cause)
            },
        }
    }
}

/// A validity window as its decoder gives it.
#[derive(Debug, Clone, Copy)]
pub struct ValidityParts {
    /// First instant: year, month, day, hour, minute, second.
    pub not_before: (u16, u8, u8, u8, u8, u8),
    /// Last instant.
    pub not_after: (u16, u8, u8, u8, u8, u8),
}

/// The instant that six numbers spell.
pub open spec fn instant_of(parts: (u16, u8, u8, u8, u8, u8)) -> DateTimeView {
    DateTimeView {
        year: parts.0,
        month: parts.1,
        day: parts.2,
        hour: parts.3,
        minutes: parts.4,
        seconds: parts.5,
    }
}

/// What [`x509_cert::time::Validity`] decodes from bytes.
pub uninterp spec fn validity_decoded(der: Seq<u8>) -> Option<ValidityParts>;

/// [`x509_cert::time::Validity`] decoded from exactly `der`. Its instants are valid
/// ones between 1970 and 9999.
#[verifier::external_body]
fn decode_validity(der: &[u8]) -> (r: Option<ValidityParts>)
    ensures
        r == validity_decoded(der@),
        r matches Some(v) ==> instant_of(v.not_before).valid() && instant_of(v.not_after).valid(),
{
    let v = Validity::<Rfc5280>::from_der(der).ok()?;
    let (a, b) = (v.not_before.to_date_time(), v.not_after.to_date_time());
    Some(ValidityParts {
        not_before: (a.year(), a.month(), a.day(), a.hour(), a.minutes(), a.seconds()),
        not_after: (b.year(), b.month(), b.day(), b.hour(), b.minutes(), b.seconds()),
    })
}

/// The window that its parts spell.
pub open spec fn window_of(parts: Option<ValidityParts>) -> Option<(DateTimeView, DateTimeView)> {
    match parts {
        Some(v) => Some((instant_of(v.not_before), instant_of(v.not_after))),
        None => None,
    }
}

/// The view of a window.
pub open spec fn window_view(window: Option<(DateTime, DateTime)>) -> Option<
    (DateTimeView, DateTimeView),
> {
    match window {
        Some((a, b)) => Some((a@, b@)),
        None => None,
    }
}

/// Fields of the signed part of a certificate.
#[verifier::ext_equal]
pub struct TbsView {
    pub serial: Seq<u8>,
    pub issuer: Seq<u8>,
    pub not_before: DateTimeView,
    pub not_after: DateTimeView,
    pub subject: Seq<u8>,
    pub spki: SpkiDerView,
    pub extensions: Option<Seq<u8>>,
}

/// The error of a part that is missing or has another shape.
pub open spec fn structure<A>(what: Seq<char>) -> Result<A, X509ErrorView> {
    Err(X509ErrorView::UnexpectedStructure(what))
}

/// The extensions among the trailing elements of the signed part: the last wrapper
/// counts.
pub open spec fn trailing_extensions(items: Seq<Seq<u8>>) -> Result<Option<Seq<u8>>, X509ErrorView>
    decreases items.len(),
{
    if items.len() == 0 {
        Ok(None)
    } else {
        match trailing_extensions(items.drop_last()) {
            Err(e) => Err(e),
            Ok(so_far) => match der_any(items.last()) {
                None => structure("TBS trailing field"@),
                Some((tag, value)) => if tag != 0xA3 {
                    Ok(so_far)
                } else {
                    match der_tagged(value, 0x30) {
                        None => structure("extensions not SEQUENCE"@),
                        Some(list) => Ok(Some(list)),
                    }
                },
            },
        }
    }
}

/// The first element of the signed part is the version wrapper.
pub open spec fn has_version(items: Seq<Seq<u8>>) -> bool {
    items.len() > 0 && der_tagged(items[0], 0xA0) is Some
}

/// Position of the serial number among the elements of the signed part.
pub open spec fn serial_at(items: Seq<Seq<u8>>) -> int {
    if has_version(items) {
        1
    } else {
        0
    }
}

/// The signature algorithm among the elements of the signed part.
pub open spec fn algorithm_among(items: Seq<Seq<u8>>) -> Seq<u8> {
    items[serial_at(items) + 1]
}

/// The fields that the elements of the signed part give, for what the decoders
/// answered about the validity window and the public key.
pub open spec fn tbs_fields(
    items: Seq<Seq<u8>>,
    complete: bool,
    validity: Option<(DateTimeView, DateTimeView)>,
    key: Option<SpkiDerView>,
) -> Result<TbsView, X509ErrorView> {
    let v = serial_at(items);
    if items.len() == 0 || der_any(items[0]) is None {
        structure("TBS first field"@)
    } else if items.len() <= v || der_tagged(items[v], 0x02) is None {
        structure("serialNumber"@)
    } else if items.len() <= v + 1 {
        structure("TBS signature alg"@)
    } else if items.len() <= v + 2 || der_tagged(items[v + 2], 0x30) is None {
        structure("issuer"@)
    } else if items.len() <= v + 3 {
        structure("validity"@)
    } else if validity is None {
        Err(X509ErrorView::InvalidTime)
    } else if items.len() <= v + 4 || der_tagged(items[v + 4], 0x30) is None {
        structure("subject"@)
    } else if items.len() <= v + 5 {
        structure("subjectPublicKeyInfo"@)
    } else if key is None {
        structure("malformed SubjectPublicKeyInfo"@)
    } else {
        match trailing_extensions(items.skip(v + 6)) {
            Err(e) => Err(e),
            Ok(extensions) => if !complete {
                structure("TBS trailing field"@)
            } else {
                Ok(
                    TbsView {
                        serial: der_tagged(items[v], 0x02)->Some_0,
                        issuer: items[v + 2],
                        not_before: validity->Some_0.0,
                        not_after: validity->Some_0.1,
                        subject: items[v + 4],
                        spki: key->Some_0,
                        extensions,
                    },
                )
            },
        }
    }
}

/// Fields of the signed part, borrowed from its bytes.
#[derive(Debug, Clone, Copy)]
pub struct TbsFields<'a> {
    serial_der: &'a [u8],
    signature_alg: &'a [u8],
    issuer: Name<'a>,
    not_before: DateTime,
    not_after: DateTime,
    subject: Name<'a>,
    spki: SpkiDer<'a>,
    extensions: Option<&'a [u8]>,
}

impl<'a> View for TbsFields<'a> {
    type V = TbsView;

    closed spec fn view(&self) -> TbsView {
        TbsView {
            serial: self.serial_der@,
            issuer: self.issuer@,
            not_before: self.not_before@,
            not_after: self.not_after@,
            subject: self.subject@,
            spki: self.spki@,
            extensions: slice_view(self.extensions),
        }
    }
}

impl<'a> TbsFields<'a> {
    /// The signature algorithm that the signed part names, header included.
    pub closed spec fn algorithm(&self) -> Seq<u8> {
        self.signature_alg@
    }
}

/// The view of a parse result.
pub open spec fn x509_view<A: View>(r: Result<A, X509Error>) -> Result<A::V, X509ErrorView> {
    match r {
        Ok(a) => Ok(a@),
        Err(e) => Err(e@),
    }
}

proof fn lemma_trailing_prefix(items: Seq<Seq<u8>>, n: int)
    requires
        0 <= n <= items.len(),
        trailing_extensions(items.take(n)) is Err,
    ensures
        trailing_extensions(items) == trailing_extensions(items.take(n)),
    decreases items.len() - n,
{
    if n < items.len() {
        assert(items.take(n + 1).drop_last() =~= items.take(n));
        lemma_trailing_prefix(items, n + 1);
    } else {
        assert(items.take(n) =~= items);
    }
}

/// The view of found extensions.
pub open spec fn extensions_view(r: Result<Option<&[u8]>, X509Error>) -> Result<
    Option<Seq<u8>>,
    X509ErrorView,
> {
    match r {
        Ok(e) => Ok(slice_view(e)),
        Err(e) => Err(e@),
    }
}

/// Look for the extensions among the elements from `from` on.
fn find_extensions<'a>(items: &Vec<&'a [u8]>, from: usize) -> (r: Result<
    Option<&'a [u8]>,
    X509Error,
>)
    requires
        from <= items@.len(),
    ensures
        forall|views: Seq<Seq<u8>>|
            #[trigger] same_elements(items@, views) ==> extensions_view(r) == trailing_extensions(
                views.skip(from as int),
            ),
{
    let ghost views = Seq::new(items@.len(), |i: int| items@[i]@);
    proof {
        assert forall|other: Seq<Seq<u8>>| #[trigger]
            same_elements(items@, other) implies other == views by {
            assert(other =~= views);
        }
    }
    let ghost rest = views.skip(from as int);
    let mut found: Option<&'a [u8]> = None;
    let mut i: usize = from;
    assert(rest.take(0) =~= Seq::empty());
    while i < items.len()
        invariant
            from <= i <= items@.len(),
            same_elements(items@, views),
            rest == views.skip(from as int),
            forall|other: Seq<Seq<u8>>| #[trigger]
                same_elements(items@, other) ==> other == views,
            trailing_extensions(rest.take(i - from)) == Ok::<Option<Seq<u8>>, X509ErrorView>(
                slice_view(found),
            ),
        decreases items@.len() - i,
    {
        proof {
            let n = i - from;
            assert(items@[i as int]@ == views[i as int]);
            assert(rest.take(n + 1).drop_last() =~= rest.take(n));
            assert(rest.take(n + 1).last() == views[i as int]);
        }
        match DerAny::from_der(items[i]) {
            None => {
                proof {
                    lemma_trailing_prefix(rest, i - from + 1);
                }
                return Err(X509Error::UnexpectedStructure("TBS trailing field"));
            },
            Some(child) => if child.tag == 0xA3 {
                match DerAny::tagged(child.value, 0x30) {
                    None => {
                        proof {
                            lemma_trailing_prefix(rest, i - from + 1);
                        }
                        return Err(X509Error::UnexpectedStructure("extensions not SEQUENCE"));
                    },
                    Some(list) => {
                        found = Some(list);
                    },
                }
            },
        }
        i += 1;
    }
    assert(rest.take(i - from) =~= rest);
    Ok(found)
}

impl<'a> TbsFields<'a> {
    /// Pick the fields from the elements of the signed part, for what the decoders
    /// answered about its validity window and its public key. Where an element is
    /// missing before a decoded one, the answer about that one does not matter.
    pub fn from_walk(
        walk: &DerBody<'a>,
        validity: Option<(DateTime, DateTime)>,
        key: Option<SpkiDer<'a>>,
    ) -> (r: Result<TbsFields<'a>, X509Error>)
        ensures
            forall|views: Seq<Seq<u8>>|
                #[trigger] same_elements(walk.items@, views) ==> x509_view(r) == tbs_fields(
                    views,
                    walk.complete,
                    window_view(validity),
                    match key {
                        Some(k) => Some(k@),
                        None => None,
                    },
                ) && (r matches Ok(f) ==> f.algorithm() == algorithm_among(views)),
    {
        let items = &walk.items;
        let ghost views = Seq::new(items@.len(), |i: int| items@[i]@);
        proof {
            assert(same_elements(items@, views));
            assert forall|other: Seq<Seq<u8>>| #[trigger]
                same_elements(items@, other) implies other == views by {
                assert(other =~= views);
            }
        }
        if items.len() == 0 {
            return Err(X509Error::UnexpectedStructure("TBS first field"));
        }
        let first = match DerAny::from_der(items[0]) {
            Some(first) => first,
            None => {
                return Err(X509Error::UnexpectedStructure("TBS first field"));
            },
        };
        let v: usize = if first.tag == 0xA0 {
            1
        } else {
            0
        };
        if items.len() <= v {
            return Err(X509Error::UnexpectedStructure("serialNumber"));
        }
        let serial = match DerAny::tagged(items[v], 0x02) {
            Some(serial) => serial,
            None => {
                return Err(X509Error::UnexpectedStructure("serialNumber"));
            },
        };
        if items.len() <= v + 1 {
            return Err(X509Error::UnexpectedStructure("TBS signature alg"));
        }
        if items.len() <= v + 2 {
            return Err(X509Error::UnexpectedStructure("issuer"));
        }
        let issuer = match Name::try_from_der(items[v + 2]) {
            Ok(issuer) => issuer,
            Err(_) => {
                return Err(X509Error::UnexpectedStructure("issuer"));
            },
        };
        if items.len() <= v + 3 {
            return Err(X509Error::UnexpectedStructure("validity"));
        }
        let (not_before, not_after) = match validity {
            Some(window) => window,
            None => {
                return Err(X509Error::InvalidTime);
            },
        };
        if items.len() <= v + 4 {
            return Err(X509Error::UnexpectedStructure("subject"));
        }
        let subject = match Name::try_from_der(items[v + 4]) {
            Ok(subject) => subject,
            Err(_) => {
                return Err(X509Error::UnexpectedStructure("subject"));
            },
        };
        if items.len() <= v + 5 {
            return Err(X509Error::UnexpectedStructure("subjectPublicKeyInfo"));
        }
        let spki = match key {
            Some(spki) => spki,
            None => {
                return Err(X509Error::UnexpectedStructure("malformed SubjectPublicKeyInfo"));
            },
        };
        let extensions = match find_extensions(items, v + 6) {
            Ok(extensions) => extensions,
            Err(e) => {
                return Err(e);
            },
        };
        if !walk.complete {
            return Err(X509Error::UnexpectedStructure("TBS trailing field"));
        }
        let fields = TbsFields {
            serial_der: serial,
            signature_alg: items[v + 1],
            issuer,
            not_before,
            not_after,
            subject,
            spki,
            extensions,
        };
        Ok(fields)
    }
}

fn instant(parts: (u16, u8, u8, u8, u8, u8)) -> (r: Option<DateTime>)
    ensures
        r is Some <==> instant_of(parts).valid(),
        r matches Some(t) ==> t@ == instant_of(parts),
{
    DateTime::new(parts.0, parts.1, parts.2, parts.3, parts.4, parts.5)
}

/// Decode a validity window.
pub fn parse_validity(der: &[u8]) -> (r: Option<(DateTime, DateTime)>)
    ensures
        window_view(r) == window_of(validity_decoded(der@)),
{
    match decode_validity(der) {
        Some(v) => match (instant(v.not_before), instant(v.not_after)) {
            (Some(a), Some(b)) => Some((a, b)),
            _ => None,
        },
        None => None,
    }
}

/// What the decoder answers about the validity window among the elements of the
/// signed part.
pub open spec fn validity_among(items: Seq<Seq<u8>>) -> Option<(DateTimeView, DateTimeView)> {
    let at = serial_at(items) + 3;
    if at < items.len() {
        window_of(validity_decoded(items[at]))
    } else {
        None
    }
}

/// What the decoder answers about the public key among the elements of the signed
/// part.
pub open spec fn key_among(items: Seq<Seq<u8>>) -> Option<SpkiDerView> {
    let at = serial_at(items) + 5;
    if at < items.len() {
        spki_der_decoded(items[at])
    } else {
        None
    }
}

/// The fields of the signed part `tbs`.
pub open spec fn tbs_of(tbs: Seq<u8>) -> Result<TbsView, X509ErrorView> {
    match der_any(tbs) {
        None => structure("tbsCertificate not a TLV"@),
        Some((tag, body)) => if tag != 0x30 {
            structure("tbsCertificate not SEQUENCE"@)
        } else {
            let items = der_items(body);
            tbs_fields(items, der_complete(body), validity_among(items), key_among(items))
        },
    }
}

/// The signature algorithm that the signed part `tbs` names, header included.
pub open spec fn tbs_algorithm(tbs: Seq<u8>) -> Seq<u8> {
    algorithm_among(der_items(der_any(tbs)->Some_0.1))
}

/// Read the fields of the signed part.
fn parse_tbs<'a>(tbs_der: &'a [u8]) -> (r: Result<TbsFields<'a>, X509Error>)
    ensures
        x509_view(r) == tbs_of(tbs_der@),
        r matches Ok(f) ==> f.algorithm() == tbs_algorithm(tbs_der@),
{
    let tbs = match DerAny::from_der(tbs_der) {
        Some(tbs) => tbs,
        None => {
            return Err(X509Error::UnexpectedStructure("tbsCertificate not a TLV"));
        },
    };
    if tbs.tag != 0x30 {
        return Err(X509Error::UnexpectedStructure("tbsCertificate not SEQUENCE"));
    }
    let walk = DerBody::read(tbs.value);
    let ghost views = der_items(tbs.value@);
    let mut v: usize = 0;
    if walk.items.len() > 0 {
        assert(walk.items@[0]@ == views[0]);
        match DerAny::tagged(walk.items[0], 0xA0) {
            Some(_) => {
                v = 1;
            },
            None => {},
        }
    }
    let mut validity: Option<(DateTime, DateTime)> = None;
    if walk.items.len() > v + 3 {
        assert(walk.items@[v + 3]@ == views[v + 3]);
        validity = parse_validity(walk.items[v + 3]);
    }
    let mut key: Option<SpkiDer<'a>> = None;
    if walk.items.len() > v + 5 {
        assert(walk.items@[v + 5]@ == views[v + 5]);
        match SpkiDer::try_from_der(walk.items[v + 5]) {
            Ok(k) => {
                key = Some(k);
            },
            Err(_) => {},
        }
    }
    TbsFields::from_walk(&walk, validity, key)
}

/// The outer parts of a certificate.
#[verifier::ext_equal]
pub struct OuterView {
    /// The signed part, header included.
    pub tbs: Seq<u8>,
    /// The signature algorithm, header included.
    pub algorithm: Seq<u8>,
    /// The object identifier of the signature algorithm.
    pub oid: Seq<u8>,
    /// The signature, without the count of unused bits.
    pub signature: Seq<u8>,
}

/// The outer parts that `der` holds: a SEQUENCE of the signed part, the SEQUENCE of a
/// signature algorithm, and a BIT STRING.
pub open spec fn outer_parts(der: Seq<u8>) -> Result<OuterView, X509ErrorView> {
    match der_any(der) {
        None => structure("Certificate not a TLV"@),
        Some((tag, body)) => if tag != 0x30 {
            structure("Certificate not SEQUENCE"@)
        } else {
            let items = der_items(body);
            if items.len() < 1 {
                structure("tbsCertificate"@)
            } else if items.len() < 2 {
                structure("signatureAlgorithm"@)
            } else if items.len() < 3 {
                structure("signature"@)
            } else if der_tagged(items[1], 0x30) is None {
                structure("signatureAlgorithm not SEQUENCE"@)
            } else {
                let alg = der_items(der_tagged(items[1], 0x30)->Some_0);
                if alg.len() < 1 {
                    structure("signatureAlgorithm OID missing"@)
                } else if der_any(alg[0]) is None {
                    structure("signatureAlgorithm OID malformed"@)
                } else {
                    let oid = der_any(alg[0])->Some_0.1;
                    if oid.len() == 0 || oid.last() >= 128 {
                        structure("signatureAlgorithm OID malformed"@)
                    } else if der_any(items[2]) is None {
                        structure("signature not a TLV"@)
                    } else {
                        let (kind, bits) = der_any(items[2])->Some_0;
                        if kind != 0x03 || bits.len() == 0 {
                            structure("signature BIT STRING missing"@)
                        } else {
                            Ok(
                                OuterView {
                                    tbs: items[0],
                                    algorithm: items[1],
                                    oid,
                                    signature: bits.skip(1),
                                },
                            )
                        }
                    }
                }
            }
        },
    }
}

/// The outer parts of a certificate, borrowed from its bytes.
pub struct OuterParts<'a> {
    tbs_der: &'a [u8],
    signature_alg: &'a [u8],
    signature_alg_oid: Oid<'a>,
    signature_bits: &'a [u8],
}

impl<'a> View for OuterParts<'a> {
    type V = OuterView;

    closed spec fn view(&self) -> OuterView {
        OuterView {
            tbs: self.tbs_der@,
            algorithm: self.signature_alg@,
            oid: self.signature_alg_oid@,
            signature: self.signature_bits@,
        }
    }
}

impl<'a> OuterParts<'a> {
    /// Take the outer parts of a certificate apart.
    pub fn read(der: &'a [u8]) -> (r: Result<OuterParts<'a>, X509Error>)
        ensures
            x509_view(r) == outer_parts(der@),
    {
        let cert = match DerAny::from_der(der) {
            Some(cert) => cert,
            None => {
                return Err(X509Error::UnexpectedStructure("Certificate not a TLV"));
            },
        };
        if cert.tag != 0x30 {
            return Err(X509Error::UnexpectedStructure("Certificate not SEQUENCE"));
        }
        let walk = DerBody::read(cert.value);
        let ghost views = der_items(cert.value@);
        if walk.items.len() < 1 {
            return Err(X509Error::UnexpectedStructure("tbsCertificate"));
        }
        if walk.items.len() < 2 {
            return Err(X509Error::UnexpectedStructure("signatureAlgorithm"));
        }
        if walk.items.len() < 3 {
            return Err(X509Error::UnexpectedStructure("signature"));
        }
        assert(walk.items@[0]@ == views[0]);
        assert(walk.items@[1]@ == views[1]);
        assert(walk.items@[2]@ == views[2]);
        let algorithm = match DerAny::tagged(walk.items[1], 0x30) {
            Some(algorithm) => algorithm,
            None => {
                return Err(X509Error::UnexpectedStructure("signatureAlgorithm not SEQUENCE"));
            },
        };
        let fields = DerBody::read(algorithm);
        if fields.items.len() < 1 {
            return Err(X509Error::UnexpectedStructure("signatureAlgorithm OID missing"));
        }
        assert(fields.items@[0]@ == der_items(algorithm@)[0]);
        let oid_any = match DerAny::from_der(fields.items[0]) {
            Some(oid_any) => oid_any,
            None => {
                return Err(X509Error::UnexpectedStructure("signatureAlgorithm OID malformed"));
            },
        };
        let signature_alg_oid = match Oid::new(oid_any.value) {
            Ok(oid) => oid,
            Err(_) => {
                return Err(X509Error::UnexpectedStructure("signatureAlgorithm OID malformed"));
            },
        };
        let signature = match DerAny::from_der(walk.items[2]) {
            Some(signature) => signature,
            None => {
                return Err(X509Error::UnexpectedStructure("signature not a TLV"));
            },
        };
        if signature.tag != 0x03 || signature.value.len() == 0 {
            return Err(X509Error::UnexpectedStructure("signature BIT STRING missing"));
        }
        let signature_bits = slice_subrange(signature.value, 1, signature.value.len());
        assert(signature_bits@ =~= signature.value@.skip(1));
        Ok(
            OuterParts {
                tbs_der: walk.items[0],
                signature_alg: walk.items[1],
                signature_alg_oid,
                signature_bits,
            },
        )
    }
}

/// An X.509 certificate, borrowed from its bytes.
#[derive(Debug, Clone, Copy)]
pub struct Certificate<'a> {
    /// The whole certificate.
    pub raw_der: &'a [u8],
    /// The signed part, header included.
    pub tbs_der: &'a [u8],
    /// Value of the serial number.
    pub serial_der: &'a [u8],
    /// Issuer.
    pub issuer: Name<'a>,
    /// Subject.
    pub subject: Name<'a>,
    /// First instant of the validity window.
    pub not_before: DateTime,
    /// Last instant of the validity window.
    pub not_after: DateTime,
    /// Public key.
    pub spki: SpkiDer<'a>,
    /// The list of extensions, where the certificate has any.
    pub extensions: Option<&'a [u8]>,
    /// Signature algorithm.
    pub signature_alg_oid: Oid<'a>,
    /// Signature, without the count of unused bits.
    pub signature_bits: &'a [u8],
}

/// What a certificate holds.
#[verifier::ext_equal]
pub struct CertificateView {
    pub raw: Seq<u8>,
    pub tbs: Seq<u8>,
    pub fields: TbsView,
    pub signature_oid: Seq<u8>,
    pub signature: Seq<u8>,
}

impl<'a> View for Certificate<'a> {
    type V = CertificateView;

    open spec fn view(&self) -> CertificateView {
        CertificateView {
            raw: self.raw_der@,
            tbs: self.tbs_der@,
            fields: TbsView {
                serial: self.serial_der@,
                issuer: self.issuer@,
                not_before: self.not_before@,
                not_after: self.not_after@,
                subject: self.subject@,
                spki: self.spki@,
                extensions: slice_view(self.extensions),
            },
            signature_oid: self.signature_alg_oid@,
            signature: self.signature_bits@,
        }
    }
}

/// The certificate that outer parts and signed fields make up. Both must name the same
/// signature algorithm.
pub open spec fn certificate_with(
    raw: Seq<u8>,
    outer: Result<OuterView, X509ErrorView>,
    fields: Result<TbsView, X509ErrorView>,
    algorithm: Seq<u8>,
) -> Result<CertificateView, X509ErrorView> {
    match outer {
        Err(e) => Err(e),
        Ok(parts) => match fields {
            Err(e) => Err(e),
            Ok(fields) => if parts.algorithm != algorithm {
                structure("signatureAlgorithm differs from TBS signature alg"@)
            } else {
                Ok(
                    CertificateView {
                        raw,
                        tbs: parts.tbs,
                        fields,
                        signature_oid: parts.oid,
                        signature: parts.signature,
                    },
                )
            },
        },
    }
}

/// The certificate that `der` encodes.
pub open spec fn certificate_of(der: Seq<u8>) -> Result<CertificateView, X509ErrorView> {
    let outer = outer_parts(der);
    let tbs = outer->Ok_0.tbs;
    certificate_with(der, outer, tbs_of(tbs), tbs_algorithm(tbs))
}

impl<'a> Certificate<'a> {
    /// Put a certificate together from its outer parts and its signed fields.
    pub fn from_parts(raw: &'a [u8], outer: OuterParts<'a>, fields: TbsFields<'a>) -> (r: Result<
        Certificate<'a>,
        X509Error,
    >)
        ensures
            x509_view(r) == certificate_with(raw@, Ok(outer@), Ok(fields@), fields.algorithm()),
    {
        if !same_bytes(outer.signature_alg, fields.signature_alg) {
            return Err(
                X509Error::UnexpectedStructure("signatureAlgorithm differs from TBS signature alg"),
            );
        }
        Ok(
            Certificate {
                raw_der: raw,
                tbs_der: outer.tbs_der,
                serial_der: fields.serial_der,
                issuer: fields.issuer,
                subject: fields.subject,
                not_before: fields.not_before,
                not_after: fields.not_after,
                spki: fields.spki,
                extensions: fields.extensions,
                signature_alg_oid: outer.signature_alg_oid,
                signature_bits: outer.signature_bits,
            },
        )
    }

    /// Parse a certificate.
    pub fn from_der(der: &'a [u8]) -> (r: Result<Certificate<'a>, X509Error>)
        ensures
            x509_view(r) == certificate_of(der@),
    {
        let outer = match OuterParts::read(der) {
            Ok(outer) => outer,
            Err(e) => {
                return Err(e);
            },
        };
        match parse_tbs(outer.tbs_der) {
            Ok(fields) => Certificate::from_parts(der, outer, fields),
            Err(e) => Err(e),
        }
    }

    /// An owned copy of the serial number.
    pub fn serial(&self) -> (r: CertSerial)
        ensures
            r@ == self@.fields.serial,
    {
        CertSerial::from_bytes(slice_to_vec(self.serial_der))
    }
}

/// A certificate that owns its bytes.
#[derive(Debug)]
pub struct OwnedCert {
    der: Vec<u8>,
}

impl OwnedCert {
    /// The bytes.
    pub closed spec fn bytes(&self) -> Seq<u8> {
        self.der@
    }

    /// The bytes are a certificate.
    #[verifier::type_invariant]
    closed spec fn parses(&self) -> bool {
        certificate_of(self.der@) is Ok
    }

    /// Copy the bytes of a certificate after parsing them.
    pub fn from_der(der: &[u8]) -> (r: Result<OwnedCert, X509Error>)
        ensures
            r is Ok <==> certificate_of(der@) is Ok,
            r matches Ok(c) ==> c.bytes() == der@,
            r matches Err(e) ==> certificate_of(der@) == Err::<CertificateView, X509ErrorView>(e@),
    {
        match Certificate::from_der(der) {
            Ok(_) => Ok(OwnedCert { der: slice_to_vec(der) }),
            Err(e) => Err(e),
        }
    }

    /// The certificate.
    pub fn view(&self) -> (r: Certificate<'_>)
        ensures
            Ok::<CertificateView, X509ErrorView>(r@) == certificate_of(self.bytes()),
    {
        proof {
            use_type_invariant(self);
        }
        match Certificate::from_der(self.der.as_slice()) {
            Ok(cert) => cert,
            Err(_) => vstd::pervasive::unreached(),
        }
    }

    /// The bytes.
    pub fn as_der(&self) -> (r: &[u8])
        ensures
            r@ == self.bytes(),
    {
        self.der.as_slice()
    }

    /// Give up the bytes.
    pub fn into_der(self) -> (r: Vec<u8>)
        ensures
            r@ == self.bytes(),
    {
        self.der
    }

    /// An owned copy of the serial number.
    pub fn serial(&self) -> (r: CertSerial)
        ensures
            r@ == certificate_of(self.bytes())->Ok_0.fields.serial,
    {
        self.view().serial()
    }
}

impl Clone for OwnedCert {
    /// A copy with the same bytes.
    fn clone(&self) -> (r: Self)
        ensures
            r.bytes() == self.bytes(),
    {
        proof {
            use_type_invariant(self);
        }
        OwnedCert { der: slice_to_vec(self.der.as_slice()) }
    }
}

/// The algorithm that a certificate is signed with is itself signed: the signed part
/// names the same one, in the same bytes.
pub proof fn law_signature_algorithm_is_signed(der: Seq<u8>)
    requires
        certificate_of(der) is Ok,
    ensures
        ({
            let cert = certificate_of(der)->Ok_0;
            &&& outer_parts(der) is Ok
            &&& tbs_algorithm(cert.tbs) == outer_parts(der)->Ok_0.algorithm
            &&& cert.signature_oid == outer_parts(der)->Ok_0.oid
        }),
{
}

/// What the signature covers is part of the certificate: the bytes of the signed
/// part are the first element of the outer SEQUENCE, as they stand.
pub proof fn law_signed_bytes_are_verbatim(der: Seq<u8>)
    requires
        certificate_of(der) is Ok,
    ensures
        ({
            let cert = certificate_of(der)->Ok_0;
            let body = der_tagged(der, 0x30)->Some_0;
            &&& cert.raw == der
            &&& der_tagged(der, 0x30) is Some
            &&& cert.tbs.len() <= body.len()
            &&& cert.tbs == body.take(cert.tbs.len() as int)
        }),
{
    let body = der_tagged(der, 0x30)->Some_0;
    let n = der_size(body)->Some_0;
    assert(der_items(body)[0] == body.take(n as int));
}

} // verus!
