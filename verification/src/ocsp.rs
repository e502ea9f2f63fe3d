//! Status responses: the envelope, and the single answers as plain values.

use crate::ber::{law_tlv_round_trip, tagged, tlv_bytes, tlv_items, BerBody, BerError, BerTlvAny, TAG_OCTET_STRING, TAG_OID,
    TAG_SEQUENCE};
use crate::bytes::same_bytes;
use crate::crl::{instant_view, CrlReason};
use crate::der::slice_view;
use crate::identity::CertSerial;
use crate::oid::known::BASIC_OCSP_RESPONSE;
use crate::pkcs15::reading::{lemma_size, lemma_two_objects};
use crate::x509::verify::{verdict, verify_tbs_signature, SignatureVerifier, TbsSignature,
    VerifyError};
use crate::x509::{DateTime, DateTimeView};
use vstd::prelude::*;

verus! {

/// Overall status of a response.
#[derive(Debug, Clone, Copy, PartialEq, Eq, Structural)]
pub enum OcspResponseStatus {
    /// The response has a body.
    Successful,
    /// The request was malformed.
    MalformedRequest,
    /// The responder failed.
    InternalError,
    /// The responder is busy.
    TryLater,
    /// The request must be signed.
    SigRequired,
    /// The client is not authorised.
    Unauthorized,
    /// Any other status.
    Other(u8),
}

impl OcspResponseStatus {
    /// The status that a number stands for.
    pub open spec fn of(n: u8) -> OcspResponseStatus {
        if n == 0 {
            OcspResponseStatus::Successful
        } else if n == 1 {
            OcspResponseStatus::MalformedRequest
        } else if n == 2 {
            OcspResponseStatus::InternalError
        } else if n == 3 {
            OcspResponseStatus::TryLater
        } else if n == 5 {
            OcspResponseStatus::SigRequired
        } else if n == 6 {
            OcspResponseStatus::Unauthorized
        } else {
            OcspResponseStatus::Other(n)
        }
    }

    /// The status that a number stands for.
    pub fn from_number(n: u8) -> (r: OcspResponseStatus)
        ensures
            r == OcspResponseStatus::of(n),
    {
        match n {
            0 => OcspResponseStatus::Successful,
            1 => OcspResponseStatus::MalformedRequest,
            2 => OcspResponseStatus::InternalError,
            3 => OcspResponseStatus::TryLater,
            5 => OcspResponseStatus::SigRequired,
            6 => OcspResponseStatus::Unauthorized,
            _ => OcspResponseStatus::Other(n),
        }
    }
}

/// Tag of an enumerated value.
pub const TAG_ENUMERATED: u16 = 0x0A;

/// Why bytes are no status response.
#[derive(Debug, Clone, Copy, PartialEq, Eq, Structural)]
pub enum OcspError {
    /// A data object cannot be read.
    Ber(BerError),
    /// There is no status of one byte.
    Status,
}

/// The envelope of a status response.
#[derive(Debug, Clone, Copy)]
pub struct OcspResponse<'a> {
    /// Overall status.
    pub status: OcspResponseStatus,
    /// The basic response, which only a successful response has.
    pub basic: Option<&'a [u8]>,
}

/// The basic response in the second data object of an envelope.
pub open spec fn basic_body(explicit: Seq<u8>) -> Option<Seq<u8>> {
    match tagged(explicit, TAG_SEQUENCE) {
        Err(_) => None,
        Ok(body) => {
            let items = tlv_items(body);
            if items.len() >= 2 && items[0].tag == TAG_OID && items[0].value
                == BASIC_OCSP_RESPONSE@ && items[1].tag == TAG_OCTET_STRING {
                Some(items[1].value)
            } else {
                None
            }
        },
    }
}

/// Status and basic response of an envelope.
pub open spec fn envelope_of(der: Seq<u8>) -> Result<
    (OcspResponseStatus, Option<Seq<u8>>),
    OcspError,
> {
    match tagged(der, TAG_SEQUENCE) {
        Err(e) => Err(OcspError::Ber(e)),
        Ok(body) => {
            let items = tlv_items(body);
            if items.len() < 1 || items[0].tag != TAG_ENUMERATED || items[0].value.len() != 1 {
                Err(OcspError::Status)
            } else {
                let status = OcspResponseStatus::of(items[0].value[0]);
                Ok(
                    (
                        status,
                        if status == OcspResponseStatus::Successful && items.len() >= 2
                            && items[1].tag == 0xA0 {
                            basic_body(items[1].value)
                        } else {
                            None
                        },
                    ),
                )
            }
        },
    }
}

fn read_basic<'a>(explicit: &'a [u8]) -> (r: Option<&'a [u8]>)
    ensures
        slice_view(r) == basic_body(explicit@),
{
    let body = match BerTlvAny::parse_tagged(explicit, TAG_SEQUENCE) {
        Ok(body) => body,
        Err(_) => {
            return None;
        },
    };
    let walk = BerBody::read(body);
    let ghost views = tlv_items(body@);
    if walk.items.len() < 2 {
        return None;
    }
    assert(walk.items@[0].tag == views[0].tag);
    assert(walk.items@[1].tag == views[1].tag);
    if walk.items[0].tag == TAG_OID && same_bytes(
        walk.items[0].value,
        BASIC_OCSP_RESPONSE.as_slice(),
    ) && walk.items[1].tag == TAG_OCTET_STRING {
        Some(walk.items[1].value)
    } else {
        None
    }
}

impl<'a> OcspResponse<'a> {
    /// Read the envelope of a status response.
    pub fn parse(der: &'a [u8]) -> (r: Result<OcspResponse<'a>, OcspError>)
        ensures
            match r {
                Ok(o) => envelope_of(der@) == Ok::<
                    (OcspResponseStatus, Option<Seq<u8>>),
                    OcspError,
                >((o.status, slice_view(o.basic))),
                Err(e) => envelope_of(der@) == Err::<
                    (OcspResponseStatus, Option<Seq<u8>>),
                    OcspError,
                >(e),
            },
    {
        let body = match BerTlvAny::parse_tagged(der, TAG_SEQUENCE) {
            Ok(body) => body,
            Err(e) => {
                return Err(OcspError::Ber(e));
            },
        };
        let walk = BerBody::read(body);
        let ghost views = tlv_items(body@);
        if walk.items.len() < 1 {
            return Err(OcspError::Status);
        }
        assert(walk.items@[0].tag == views[0].tag);
        if walk.items[0].tag != TAG_ENUMERATED || walk.items[0].value.len() != 1 {
            return Err(OcspError::Status);
        }
        let status = OcspResponseStatus::from_number(walk.items[0].value[0]);
        let mut basic: Option<&'a [u8]> = None;
        if matches!(status, OcspResponseStatus::Successful) && walk.items.len() >= 2 {
            assert(walk.items@[1].tag == views[1].tag);
            if walk.items[1].tag == 0xA0 {
                basic = read_basic(walk.items[1].value);
            }
        }
        Ok(OcspResponse { status, basic })
    }
}

/// A response without success has no body to verify.
pub proof fn law_only_success_has_a_body(der: Seq<u8>)
    ensures
        envelope_of(der) matches Ok((status, basic)) ==> basic is Some ==> status
            == OcspResponseStatus::Successful,
{
}

/// What a responder says of one certificate.
#[derive(Debug, Clone, Copy)]
pub enum CertStatus {
    /// Not revoked.
    Good,
    /// Revoked.
    Revoked {
        /// When it was revoked.
        revoked_at: DateTime,
        /// Why it was revoked.
        reason: Option<CrlReason>,
    },
    /// Not known.
    Unknown,
}

/// What a status says.
pub enum CertStatusView {
    Good,
    Revoked(DateTimeView, Option<CrlReason>),
    Unknown,
}

impl View for CertStatus {
    type V = CertStatusView;

    open spec fn view(&self) -> CertStatusView {
        match self {
            CertStatus::Good => CertStatusView::Good,
            CertStatus::Revoked { revoked_at, reason } => CertStatusView::Revoked(
                revoked_at@,
                *reason,
            ),
            CertStatus::Unknown => CertStatusView::Unknown,
        }
    }
}

/// The answer about one certificate.
#[derive(Debug)]
pub struct SingleResponse {
    /// Serial number.
    pub serial: CertSerial,
    /// What the responder says.
    pub status: CertStatus,
    /// When the next answer is due.
    pub next_update: Option<DateTime>,
}

/// What an answer says.
#[verifier::ext_equal]
pub struct SingleView {
    pub serial: Seq<u8>,
    pub status: CertStatusView,
    pub next_update: Option<DateTimeView>,
}

impl View for SingleResponse {
    type V = SingleView;

    open spec fn view(&self) -> SingleView {
        SingleView {
            serial: self.serial@,
            status: self.status@,
            next_update: instant_view(self.next_update),
        }
    }
}

/// The answers of a response whose signature was verified.
#[derive(Debug)]
pub struct VerifiedOcspResponse {
    responses: Vec<SingleResponse>,
}

impl View for VerifiedOcspResponse {
    type V = Seq<SingleView>;

    closed spec fn view(&self) -> Seq<SingleView> {
        Seq::new(self.responses@.len(), |i: int| self.responses@[i]@)
    }
}

/// The first answer about a serial number.
pub open spec fn answer_for(answers: Seq<SingleView>, serial: Seq<u8>) -> Option<SingleView>
    decreases answers.len(),
{
    if answers.len() == 0 {
        None
    } else if answers[0].serial == serial {
        Some(answers[0])
    } else {
        answer_for(answers.drop_first(), serial)
    }
}

impl VerifiedOcspResponse {
    /// Verify the signature of a response whose answers were read from the signed bytes
    /// `signature.tbs_der`. There is no other way to a verified response.
    pub fn verify<V: SignatureVerifier>(
        verifier: &V,
        responses: Vec<SingleResponse>,
        signature: TbsSignature<'_>,
    ) -> (r: Result<Self, VerifyError<V::RsaError, V::EcdsaError>>)
        ensures
            exists|outcome: Result<(), VerifyError<V::RsaError, V::EcdsaError>>| #[trigger]
                verdict(verifier, signature, outcome) && match outcome {
                    Ok(()) => r matches Ok(verified) && verified@ == Seq::new(
                        responses@.len(),
                        |i: int| responses@[i]@,
                    ),
                    Err(e) => r == Err::<Self, VerifyError<V::RsaError, V::EcdsaError>>(e),
                },
    {
        let outcome = verify_tbs_signature(verifier, signature);
        assert(verdict(verifier, signature, outcome));
        match outcome {
            Ok(()) => Ok(VerifiedOcspResponse { responses }),
            Err(e) => Err(e),
        }
    }

    /// The first answer about a serial number.
    pub fn find_serial(&self, serial: &[u8]) -> (r: Option<&SingleResponse>)
        ensures
            r is Some <==> answer_for(self@, serial@) is Some,
            r matches Some(a) ==> answer_for(self@, serial@) == Some(a@),
    {
        let ghost views = self@;
        assert(views.skip(0) =~= views);
        let mut i: usize = 0;
        while i < self.responses.len()
            invariant
                i <= self.responses@.len(),
                views == self@,
                answer_for(views, serial@) == answer_for(views.skip(i as int), serial@),
            decreases self.responses@.len() - i,
        {
            proof {
                assert(views.skip(i as int)[0] == self.responses@[i as int]@);
                assert(views.skip(i as int).drop_first() =~= views.skip(i + 1));
            }
            if same_bytes(self.responses[i].serial.as_bytes(), serial) {
                return Some(&self.responses[i]);
            }
            i += 1;
        }
        None
    }
}

/// A serial number is found exactly if an answer is about it, and the answer found is the first
/// that is.
pub proof fn law_answer_is_the_first(answers: Seq<SingleView>, serial: Seq<u8>)
    ensures
        answer_for(answers, serial) is None <==> forall|i: int|
            0 <= i < answers.len() ==> (#[trigger] answers[i]).serial != serial,
        forall|i: int|
            0 <= i < answers.len() && (#[trigger] answers[i]).serial == serial && (forall|j: int|
                0 <= j < i ==> (#[trigger] answers[j]).serial != serial) ==> answer_for(
                answers,
                serial,
            ) == Some(answers[i]),
    decreases answers.len(),
{
    if answers.len() > 0 {
        let rest = answers.drop_first();
        law_answer_is_the_first(rest, serial);
        assert(forall|i: int| 0 <= i < rest.len() ==> rest[i] == #[trigger] answers[i + 1]);
        if answers[0].serial != serial {
            assert forall|i: int|
                0 <= i < answers.len() && (#[trigger] answers[i]).serial == serial && (forall|
                    j: int,
                |
                    0 <= j < i ==> (#[trigger] answers[j]).serial != serial) implies answer_for(
                answers,
                serial,
            ) == Some(answers[i]) by {
                assert(rest[i - 1] == answers[i]);
                assert forall|j: int| 0 <= j < i - 1 implies (#[trigger] rest[j]).serial != serial by {
                    assert(rest[j] == answers[j + 1]);
                }
            }
            if forall|i: int| 0 <= i < answers.len() ==> (#[trigger] answers[i]).serial != serial {
                assert forall|i: int| 0 <= i < rest.len() implies (#[trigger] rest[i]).serial
                    != serial by {
                    assert(rest[i] == answers[i + 1]);
                }
            }
            if answer_for(answers, serial) is None {
                assert forall|i: int| 0 <= i < answers.len() implies (#[trigger] answers[i]).serial
                    != serial by {
                    if i > 0 {
                        assert(rest[i - 1] == answers[i]);
                    }
                }
            }
        }
    }
}

/// A successful response in bytes is read back: status, and the basic response behind its
/// object identifier 1.3.6.1.5.5.7.48.1.1. With another status there is no basic response.
pub proof fn law_envelope_read_back(status: u8, basic: Seq<u8>)
    requires
        basic.len() <= 0xFF_FFFF,
    ensures
        ({
            let oid = seq![0x2Bu8, 0x06, 0x01, 0x05, 0x05, 0x07, 0x30, 0x01, 0x01];
            let typed = tlv_bytes(0x30, tlv_bytes(0x06, oid) + tlv_bytes(0x04, basic));
            let der = tlv_bytes(0x30, tlv_bytes(0x0A, seq![status]) + tlv_bytes(0xA0, typed));
            envelope_of(der) matches Ok((s, b)) && (s is Successful <==> status == 0) && b
                == if status == 0 {
                Some(basic)
            } else {
                None
            }
        }),
{
    let none = Seq::<u8>::empty();
    let oid = seq![0x2Bu8, 0x06, 0x01, 0x05, 0x05, 0x07, 0x30, 0x01, 0x01];
    assert(oid =~= BASIC_OCSP_RESPONSE@);
    let inner = tlv_bytes(0x06, oid) + tlv_bytes(0x04, basic);
    let typed = tlv_bytes(0x30, inner);
    let outer = tlv_bytes(0x0A, seq![status]) + tlv_bytes(0xA0, typed);
    let der = tlv_bytes(0x30, outer);
    lemma_two_objects(0x06, oid, 0x04, basic);
    lemma_size(0x06, oid);
    lemma_size(0x04, basic);
    law_tlv_round_trip(0x30, inner, none);
    assert(typed + none =~= typed);
    assert(typed.len() <= 0xFF_FFFF + 40);
    lemma_two_objects(0x0A, seq![status], 0xA0, typed);
    law_tlv_round_trip(0x30, outer, none);
    assert(der + none =~= der);
}

/// The numbers of the statuses of envelopes; 4 has no name.
pub proof fn law_status_numbers(n: u8)
    ensures
        OcspResponseStatus::of(n) is Successful <==> n == 0,
        OcspResponseStatus::of(n) is MalformedRequest <==> n == 1,
        OcspResponseStatus::of(n) is InternalError <==> n == 2,
        OcspResponseStatus::of(n) is TryLater <==> n == 3,
        OcspResponseStatus::of(n) is SigRequired <==> n == 5,
        OcspResponseStatus::of(n) is Unauthorized <==> n == 6,
        n == 4 || n > 6 ==> OcspResponseStatus::of(n) == OcspResponseStatus::Other(n),
{
}

} // verus!
