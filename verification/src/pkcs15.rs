//! PKCS#15 file access on the card.
//!
//! The certificate files are not protected by a PIN; they can be read over the
//! plain contact interface and over secure messaging alike.

use crate::apdu::{read_binary_bytes, select_by_aid_bytes, select_by_fid, select_by_fid_bytes,
    select_with_fci, select_with_fci_bytes, Aid,
    AidError, ReadBinaryByOffset, SelectByAidNoFci, SelectEfNoFci, StatusWord};
use crate::ber::{first_tlv, same_items, tagged, tlv_items, BerBody, BerError, BerTlvAny, TlvView,
    TAG_INTEGER, TAG_OCTET_STRING, TAG_PRINTABLE_STRING, TAG_SEQUENCE, TAG_UTF8_STRING};
use crate::bytes::{be_mod, be_nat, push_all, text_from_utf8_lossy, utf8_lossy};
use crate::cert_state::CertDer;
use crate::identity::TokenSerial;
use crate::render::{dec, hex4, hex_text, lower_hex, push_dec, push_hex4};
use crate::transport::{body_of, continues, lemma_continues, lemma_sent, news, sent, CardTransport,
    CommandApdu, DispatchErrorView, Exchange, ResponseApdu, TransportDispatchError};
use vstd::prelude::*;
use vstd::slice::slice_subrange;
use vstd::string::*;

pub mod picker;
pub mod reading;

pub use crate::pkcs15::picker::{classify_card_generation, classify_card_generation_by_issuance,
    enumerate_contactless_readers, enumerate_fineid_readers, pick_contactless_reader,
    pick_fineid_reader, CardGeneration, FineidReaderPick, FineidReaderPicker};

verus! {

/// Identifier of the PKCS#15 application: a five-byte prefix and `PKCS-15`.
pub const PKCS15_AID: [u8; 12] = [
    0xA0, 0x00, 0x00, 0x00, 0x63, 0x50, 0x4B, 0x43, 0x53, 0x2D, 0x31, 0x35,
];

/// Authentication certificate.
pub const EF_AUTH_CERT_FID: [u8; 2] = [0x43, 0x31];

/// Qualified-signature certificate.
pub const EF_SIGN_CERT_FID: [u8; 2] = [0x43, 0x32];

/// Second authentication certificate.
pub const EF_AUTH_CERT_ALT_FID: [u8; 2] = [0x43, 0x33];

/// Root certificate on the card.
pub const EF_ROOT_CA_FID: [u8; 2] = [0x43, 0x34];

/// Second qualified-signature certificate.
pub const EF_SIGN_CERT_ALT_FID: [u8; 2] = [0x43, 0x35];

/// Issuing intermediate certificate on the card.
pub const EF_ISSUING_CA_ECC_FID: [u8; 2] = [0x43, 0x36];

/// Card label, manufacturer and serial.
pub const EF_TOKEN_INFO_FID: [u8; 2] = [0x50, 0x32];

/// Directory of the signature certificates.
pub const DF_SIGNATURE_FID: [u8; 2] = [0x50, 0x16];

/// The root of the file tree.
pub const MF_FID: [u8; 2] = [0x3F, 0x00];

/// Where a certificate lives in the file tree.
#[derive(Debug, Clone, Copy, PartialEq, Eq, Structural)]
pub enum SlotPath {
    /// Directly under the PKCS#15 application.
    UnderPkcs15App,
    /// Under the directory of the signature certificates.
    UnderDf5016,
    /// Directly under the root.
    UnderMf,
}

/// One slot of the certificate directory.
#[derive(Debug, Clone, Copy, PartialEq, Eq, Structural)]
pub enum CertSlot {
    /// Authentication certificate.
    Authentication,
    /// Qualified-signature certificate.
    Signature,
    /// Second authentication certificate.
    AuthenticationAlt,
    /// Root certificate on the card.
    RootCa,
    /// Second qualified-signature certificate.
    SignatureAlt,
    /// Issuing intermediate certificate on the card.
    IssuingCaEcc,
}

impl CertSlot {
    /// The file of the slot.
    pub open spec fn file(self) -> [u8; 2] {
        match self {
            CertSlot::Authentication => EF_AUTH_CERT_FID,
            CertSlot::Signature => EF_SIGN_CERT_FID,
            CertSlot::AuthenticationAlt => EF_AUTH_CERT_ALT_FID,
            CertSlot::RootCa => EF_ROOT_CA_FID,
            CertSlot::SignatureAlt => EF_SIGN_CERT_ALT_FID,
            CertSlot::IssuingCaEcc => EF_ISSUING_CA_ECC_FID,
        }
    }

    /// The name of the slot in reports.
    pub open spec fn name(self) -> Seq<char> {
        match self {
            CertSlot::Authentication => "authentication (EF.4331)"@,
            CertSlot::Signature => "qualified signature (EF.4332)"@,
            CertSlot::AuthenticationAlt => "authentication, alt slot (EF.4333)"@,
            CertSlot::RootCa => "on-card issuing root CA (EF.4334)"@,
            CertSlot::SignatureAlt => "qualified signature, alt slot (EF.4335)"@,
            CertSlot::IssuingCaEcc => "issuing intermediate CA, G4E ECC (EF.4336)"@,
        }
    }

    /// Where the slot lives.
    pub open spec fn location(self) -> SlotPath {
        match self {
            CertSlot::Authentication => SlotPath::UnderPkcs15App,
            CertSlot::Signature => SlotPath::UnderDf5016,
            CertSlot::AuthenticationAlt => SlotPath::UnderDf5016,
            CertSlot::SignatureAlt => SlotPath::UnderDf5016,
            CertSlot::RootCa => SlotPath::UnderMf,
            CertSlot::IssuingCaEcc => SlotPath::UnderMf,
        }
    }

    /// The file identifier of the slot.
    pub fn fid(self) -> (r: [u8; 2])
        ensures
            r == self.file(),
    {
        match self {
            CertSlot::Authentication => EF_AUTH_CERT_FID,
            CertSlot::Signature => EF_SIGN_CERT_FID,
            CertSlot::AuthenticationAlt => EF_AUTH_CERT_ALT_FID,
            CertSlot::RootCa => EF_ROOT_CA_FID,
            CertSlot::SignatureAlt => EF_SIGN_CERT_ALT_FID,
            CertSlot::IssuingCaEcc => EF_ISSUING_CA_ECC_FID,
        }
    }

    /// The name of the slot in reports and errors.
    pub fn label(self) -> (r: &'static str)
        ensures
            r@ == self.name(),
    {
        match self {
            CertSlot::Authentication => "authentication (EF.4331)",
            CertSlot::Signature => "qualified signature (EF.4332)",
            CertSlot::AuthenticationAlt => "authentication, alt slot (EF.4333)",
            CertSlot::RootCa => "on-card issuing root CA (EF.4334)",
            CertSlot::SignatureAlt => "qualified signature, alt slot (EF.4335)",
            CertSlot::IssuingCaEcc => "issuing intermediate CA, G4E ECC (EF.4336)",
        }
    }

    /// Where the slot lives in the file tree.
    pub fn path(self) -> (r: SlotPath)
        ensures
            r == self.location(),
    {
        match self {
            CertSlot::Authentication => SlotPath::UnderPkcs15App,
            CertSlot::Signature | CertSlot::AuthenticationAlt | CertSlot::SignatureAlt => {
                SlotPath::UnderDf5016
            },
            CertSlot::RootCa | CertSlot::IssuingCaEcc => SlotPath::UnderMf,
        }
    }

    /// Whether the way to the slot leads over the root. Selecting the root ends a
    /// secure-messaging session, so contactless readers skip such slots.
    pub fn requires_mf_traversal(self) -> (r: bool)
        ensures
            r == (self.location() != SlotPath::UnderPkcs15App),
            r == (self != CertSlot::Authentication),
    {
        !matches!(self.path(), SlotPath::UnderPkcs15App)
    }

    /// The certificate slots that a card may publish, in directory order.
    pub fn all() -> (r: [CertSlot; 5])
        ensures
            r@ == seq![
                CertSlot::Authentication,
                CertSlot::Signature,
                CertSlot::AuthenticationAlt,
                CertSlot::RootCa,
                CertSlot::SignatureAlt,
            ],
    {
        let r: [CertSlot; 5] = [
            CertSlot::Authentication,
            CertSlot::Signature,
            CertSlot::AuthenticationAlt,
            CertSlot::RootCa,
            CertSlot::SignatureAlt,
        ];
        assert(r@ =~= seq![
            CertSlot::Authentication,
            CertSlot::Signature,
            CertSlot::AuthenticationAlt,
            CertSlot::RootCa,
            CertSlot::SignatureAlt,
        ]);
        r
    }
}

/// Most bytes asked for in one READ BINARY.
pub const READ_CHUNK: u8 = 0x80;

/// Most bytes read from one file.
pub const MAX_CERT_BYTES: usize = 0x4000;

/// The length of the DER object at the start of `prefix`, as far as its header is
/// there: `Ok(None)` while it is incomplete, an error when it cannot be read.
/// Lengths take at most two octets behind the first.
pub open spec fn der_total(prefix: Seq<u8>) -> Result<Option<int>, ()> {
    if prefix.len() < 2 {
        Ok(None)
    } else if prefix[1] < 0x80 {
        Ok(Some(2 + prefix[1]))
    } else if prefix[1] == 0x80 || prefix[1] > 0x82 {
        Err(())
    } else {
        let header = 2 + (prefix[1] - 0x80);
        if prefix.len() < header {
            Ok(None)
        } else {
            Ok(Some(header + be_nat(prefix.subrange(2, header))))
        }
    }
}

/// The view of a header length.
pub open spec fn total_view(r: Result<Option<usize>, ()>) -> Result<Option<int>, ()> {
    match r {
        Ok(Some(n)) => Ok(Some(n as int)),
        Ok(None) => Ok(None),
        Err(()) => Err(()),
    }
}

/// Compute the length of the DER object at the start of `prefix`.
pub fn der_object_total_length(prefix: &[u8]) -> (r: Result<Option<usize>, ()>)
    ensures
        total_view(r) == der_total(prefix@),
{
    if prefix.len() < 2 {
        return Ok(None);
    }
    let first: u8 = prefix[1];
    if first < 0x80 {
        return Ok(Some(2 + first as usize));
    }
    if first == 0x80 || first > 0x82 {
        return Err(());
    }
    let header: usize = 2 + (first - 0x80) as usize;
    if prefix.len() < header {
        return Ok(None);
    }
    let octets = slice_subrange(prefix, 2, header);
    let ghost o = prefix@.subrange(2, header as int);
    reveal_with_fuel(be_nat, 3);
    if header == 3 {
        assert(o.drop_last() =~= Seq::<u8>::empty());
        assert(o.last() == prefix@[2]);
        Ok(Some(3 + octets[0] as usize))
    } else {
        assert(o.drop_last().drop_last() =~= Seq::<u8>::empty());
        assert(o.last() == prefix@[3]);
        assert(o.drop_last().last() == prefix@[2]);
        Ok(Some(4 + (octets[0] as usize * 256 + octets[1] as usize)))
    }
}

/// A header that is complete, or wrong, stays so when more bytes follow.
proof fn lemma_total_stable(prefix: Seq<u8>, more: Seq<u8>)
    ensures
        der_total(prefix) != Ok::<Option<int>, ()>(None) ==> der_total(prefix + more) == der_total(
            prefix,
        ),
{
    if prefix.len() >= 2 && 0x80 < prefix[1] <= 0x82 {
        let header = 2 + (prefix[1] - 0x80);
        if prefix.len() >= header {
            assert((prefix + more).subrange(2, header) =~= prefix.subrange(2, header));
        }
    }
}

/// Why a file access failed.
#[derive(Debug)]
pub enum Pkcs15Error<TE> {
    /// Transport-level failure.
    Transport(TE),
    /// The card returned a non-success status.
    Sw(u16),
    /// An application identifier is out of range.
    Aid(AidError),
    /// The file is empty.
    Empty,
    /// The file is larger than any certificate.
    TooLarge,
    /// The named file could not be decoded.
    InvalidData(&'static str),
}

/// What a file-access error says.
pub enum Pkcs15ErrorView<E> {
    Transport(DispatchErrorView<E>),
    Sw(int),
    Aid(AidError),
    Empty,
    TooLarge,
    InvalidData(Seq<char>),
}

/// The view of a file-access error.
pub open spec fn pkcs15_error_view<E>(e: Pkcs15Error<TransportDispatchError<E>>) -> Pkcs15ErrorView<
    E,
> {
    match e {
        Pkcs15Error::Transport(t) => Pkcs15ErrorView::Transport(t@),
        Pkcs15Error::Sw(sw) => Pkcs15ErrorView::Sw(sw as int),
        Pkcs15Error::Aid(a) => Pkcs15ErrorView::Aid(a),
        Pkcs15Error::Empty => Pkcs15ErrorView::Empty,
        Pkcs15Error::TooLarge => Pkcs15ErrorView::TooLarge,
        Pkcs15Error::InvalidData(what) => Pkcs15ErrorView::InvalidData(what@),
    }
}

/// The view of a file-access result.
pub open spec fn pkcs15_view<A: View, E>(
    r: Result<A, Pkcs15Error<TransportDispatchError<E>>>,
) -> Result<A::V, Pkcs15ErrorView<E>> {
    match r {
        Ok(a) => Ok(a@),
        Err(e) => Err(pkcs15_error_view(e)),
    }
}

/// The view of a selection result.
pub open spec fn selected_view<E>(r: Result<(), Pkcs15Error<TransportDispatchError<E>>>) -> Result<
    (),
    Pkcs15ErrorView<E>,
> {
    match r {
        Ok(()) => Ok(()),
        Err(e) => Err(pkcs15_error_view(e)),
    }
}

impl<TE> Pkcs15Error<TE> {
    /// The diagnostic text of the error, given that of the error it may wrap.
    pub fn message(&self, cause: &str) -> (r: String)
        ensures
            r@ == match *self {
                Pkcs15Error::Transport(_) => "PKCS#15 transport: "@ + cause@,
                Pkcs15Error::Sw(sw) => "PKCS#15: card returned SW=0x"@ + hex4(sw),
                Pkcs15Error::Aid(_) => "PKCS#15: AID constant rejected by Aid::from_slice: "@
                    + cause@,
                Pkcs15Error::Empty => "PKCS#15: read returned no bytes"@,
                Pkcs15Error::TooLarge => "PKCS#15: cert exceeds "@ + dec(MAX_CERT_BYTES as nat)
                    + " bytes"@,
                Pkcs15Error::InvalidData(what) => "PKCS#15: malformed "@ + what@,
            },
    {
        match self {
            Pkcs15Error::Transport(_) => "PKCS#15 transport: ".to_owned().concat(cause),
            Pkcs15Error::Sw(sw) => {
                let mut out = "PKCS#15: card returned SW=0x".to_owned();
                push_hex4(&mut out, *sw);
                out
            },
            Pkcs15Error::Aid(_) => {
                "PKCS#15: AID constant rejected by Aid::from_slice: ".to_owned().concat(cause)
            },
            Pkcs15Error::Empty => "PKCS#15: read returned no bytes".to_owned(),
            Pkcs15Error::TooLarge => {
                let mut out = "PKCS#15: cert exceeds ".to_owned();
                push_dec(&mut out, MAX_CERT_BYTES as u128);
                out.append(" bytes");
                out
            },
            Pkcs15Error::InvalidData(what) => "PKCS#15: malformed ".to_owned().concat(what),
        }
    }
}

/// A SELECT, with a second form to try where the card refuses the first.
pub struct Selection {
    pub first: Seq<u8>,
    pub second: Option<Seq<u8>>,
}

/// The selection of the PKCS#15 application.
pub open spec fn application_selection() -> Selection {
    Selection { first: select_by_aid_bytes(PKCS15_AID@), second: None }
}

/// The selection of a file: under the current directory, then anywhere.
pub open spec fn file_selection(fid: [u8; 2]) -> Selection {
    Selection {
        first: select_by_fid_bytes(0x02, fid),
        second: Some(select_by_fid_bytes(0x00, fid)),
    }
}

/// The selection of the root: by identifier, then by name.
pub open spec fn root_selection() -> Selection {
    Selection {
        first: select_by_fid_bytes(0x00, MF_FID),
        second: Some(select_by_fid_bytes(0x04, MF_FID)),
    }
}

/// The selection of a directory: under the current one without response data, then
/// anywhere with its control information.
pub open spec fn directory_selection(fid: [u8; 2]) -> Selection {
    Selection {
        first: select_by_fid_bytes(0x01, fid),
        second: Some(select_with_fci_bytes(0x00, fid)),
    }
}

/// What one SELECT comes to.
pub open spec fn select_outcome<E>(x: Exchange<E>) -> Result<(), Pkcs15ErrorView<E>> {
    match x.dispatched() {
        Err(e) => Err(Pkcs15ErrorView::Transport(e)),
        Ok(r) => if r.is_ok() {
            Ok(())
        } else {
            Err(Pkcs15ErrorView::Sw(r.sw()))
        },
    }
}

impl Selection {
    /// Number of commands that the selection takes, given the reply to its first:
    /// the second form goes out only when the card refused the first one.
    pub open spec fn size<E>(self, first: Exchange<E>) -> int {
        if self.second is Some && select_outcome(first) is Err && first.dispatched() is Ok {
            2
        } else {
            1
        }
    }

    /// `new` starts with the commands of the selection.
    pub open spec fn begins<E>(self, new: Seq<Exchange<E>>) -> bool {
        &&& new.len() >= 1
        &&& new[0].command == self.first && !new[0].le_retry
        &&& self.size(new[0]) <= new.len()
        &&& self.size(new[0]) == 2 ==> new[1].command == self.second->Some_0 && !new[1].le_retry
    }

    /// What the selection at the start of `new` comes to.
    pub open spec fn outcome<E>(self, new: Seq<Exchange<E>>) -> Result<(), Pkcs15ErrorView<E>> {
        select_outcome(new[self.size(new[0]) - 1])
    }

    /// `new` are the exchanges and `r` is the result of the selection.
    pub open spec fn run<E>(
        self,
        new: Seq<Exchange<E>>,
        r: Result<(), Pkcs15Error<TransportDispatchError<E>>>,
    ) -> bool {
        &&& self.begins(new)
        &&& new.len() == self.size(new[0])
        &&& selected_view(r) == self.outcome(new)
    }
}

/// Send one SELECT.
fn select_once<T: CardTransport>(transport: &mut T, apdu: &CommandApdu) -> (r: Result<
    ResponseApdu,
    Pkcs15Error<TransportDispatchError<T::Error>>,
>)
    ensures
        sent(old(transport).log(), final(transport).log(), apdu@),
        ({
            let x = final(transport).log().last();
            match x.dispatched() {
                Ok(v) => r matches Ok(a) && a@ == v,
                Err(e) => r matches Err(f) && pkcs15_error_view(f) == Pkcs15ErrorView::Transport(e),
            }
        }),
{
    match transport.transmit(apdu.as_bytes()) {
        Ok(reply) => Ok(reply),
        Err(e) => Err(Pkcs15Error::Transport(e)),
    }
}

/// Send a SELECT and, where the card refuses it, its second form.
fn select_either<T: CardTransport>(
    transport: &mut T,
    first: CommandApdu,
    second: CommandApdu,
) -> (r: Result<(), Pkcs15Error<TransportDispatchError<T::Error>>>)
    ensures
        continues(old(transport).log(), final(transport).log()),
        (Selection { first: first@, second: Some(second@) }).run(
            news(old(transport).log(), final(transport).log()),
            r,
        ),
{
    let ghost start = transport.log();
    let reply = select_once(transport, &first);
    let ghost middle = transport.log();
    proof {
        lemma_sent(start, middle, first@);
    }
    match reply {
        Ok(reply) => if reply.is_ok() {
            return Ok(());
        },
        Err(e) => {
            return Err(e);
        },
    }
    let reply = select_once(transport, &second);
    proof {
        lemma_sent(middle, transport.log(), second@);
        lemma_continues(start, middle, transport.log());
    }
    match reply {
        Ok(reply) => if reply.is_ok() {
            Ok(())
        } else {
            Err(Pkcs15Error::Sw(reply.sw()))
        },
        Err(e) => Err(e),
    }
}

fn select_application<T: CardTransport>(transport: &mut T) -> (r: Result<
    (),
    Pkcs15Error<TransportDispatchError<T::Error>>,
>)
    ensures
        continues(old(transport).log(), final(transport).log()),
        application_selection().run(news(old(transport).log(), final(transport).log()), r),
{
    let ghost start = transport.log();
    let aid = match Aid::from_slice(PKCS15_AID.as_slice()) {
        Ok(aid) => aid,
        Err(e) => {
            return Err(Pkcs15Error::Aid(e));
        },
    };
    let apdu = SelectByAidNoFci { aid }.into_apdu();
    let reply = select_once(transport, &apdu);
    proof {
        lemma_sent(start, transport.log(), apdu@);
    }
    match reply {
        Ok(reply) => if reply.is_ok() {
            Ok(())
        } else {
            Err(Pkcs15Error::Sw(reply.sw()))
        },
        Err(e) => Err(e),
    }
}

/// The data of all replies in a row.
pub open spec fn collected<E>(new: Seq<Exchange<E>>) -> Seq<u8>
    decreases new.len(),
{
    if new.len() == 0 {
        Seq::empty()
    } else {
        collected(new.drop_last()) + body_of(new.last())
    }
}

/// How far a read goes.
pub enum ReadPlan {
    /// Up to a number of bytes.
    Bytes(int),
    /// One DER object, from the file of the given name.
    Object(Seq<char>),
}

/// What a read up to its end comes to.
pub open spec fn whole_read<E>(all: Seq<u8>) -> Result<Seq<u8>, Pkcs15ErrorView<E>> {
    if all.len() == 0 {
        Err(Pkcs15ErrorView::Empty)
    } else if all.len() > MAX_CERT_BYTES {
        Err(Pkcs15ErrorView::TooLarge)
    } else {
        Ok(all)
    }
}

impl ReadPlan {
    /// Number of bytes to read in all, as far as the bytes so far tell.
    pub open spec fn limit(self, have: Seq<u8>) -> int {
        match self {
            ReadPlan::Bytes(cap) => cap,
            ReadPlan::Object(_) => match der_total(have) {
                Ok(Some(total)) => total,
                _ => MAX_CERT_BYTES as int,
            },
        }
    }

    /// Number of bytes to ask for next.
    pub open spec fn want(self, have: Seq<u8>) -> int {
        let rest = self.limit(have) - have.len();
        if rest < READ_CHUNK {
            rest
        } else {
            READ_CHUNK as int
        }
    }

    /// The next command: what follows the bytes so far.
    pub open spec fn command(self, have: Seq<u8>) -> Seq<u8> {
        read_binary_bytes(have.len() as int, self.want(have) as u8)
    }

    /// What the exchange `x` comes to after the bytes so far; `None` when there is
    /// more to read.
    pub open spec fn outcome<E>(self, have: Seq<u8>, x: Exchange<E>) -> Option<
        Result<Seq<u8>, Pkcs15ErrorView<E>>,
    > {
        match x.dispatched() {
            Err(e) => Some(Err(Pkcs15ErrorView::Transport(e))),
            Ok(r) => {
                let eof = r.sw() == 0x6282;
                let all = have + r.body;
                let short = r.body.len() < self.want(have) || eof;
                if !r.is_ok() && !eof {
                    Some(Err(Pkcs15ErrorView::Sw(r.sw())))
                } else {
                    match self {
                        ReadPlan::Bytes(cap) => if r.body.len() == 0 || short || all.len() >= cap {
                            Some(whole_read(all))
                        } else {
                            None
                        },
                        ReadPlan::Object(what) => if r.body.len() > self.want(have) {
                            Some(Err(Pkcs15ErrorView::InvalidData(what)))
                        } else if r.body.len() == 0 && have.len() == 0 {
                            Some(Err(Pkcs15ErrorView::Empty))
                        } else if r.body.len() == 0 {
                            Some(Err(Pkcs15ErrorView::InvalidData(what)))
                        } else {
                            match der_total(all) {
                                Err(_) => Some(Err(Pkcs15ErrorView::InvalidData(what))),
                                Ok(Some(total)) => if total > MAX_CERT_BYTES {
                                    Some(Err(Pkcs15ErrorView::TooLarge))
                                } else if all.len() >= total {
                                    Some(Ok(all.take(total)))
                                } else if short {
                                    Some(Err(Pkcs15ErrorView::InvalidData(what)))
                                } else {
                                    None
                                },
                                Ok(None) => if short {
                                    Some(Err(Pkcs15ErrorView::InvalidData(what)))
                                } else {
                                    None
                                },
                            }
                        },
                    }
                }
            },
        }
    }

    /// Every exchange asks for what follows the replies before it.
    #[verifier::opaque]
    pub open spec fn in_order<E>(self, new: Seq<Exchange<E>>) -> bool {
        forall|i: int|
            0 <= i < new.len() ==> (#[trigger] new[i]).command == self.command(
                collected(new.take(i)),
            ) && !new[i].le_retry
    }

    /// No exchange before the end comes to anything.
    #[verifier::opaque]
    pub open spec fn unfinished<E>(self, new: Seq<Exchange<E>>, end: int) -> bool {
        forall|i: int|
            0 <= i < end ==> self.outcome(collected(new.take(i)), #[trigger] new[i]) is None
    }

    /// `new` are the exchanges and `r` is the result of the read.
    pub open spec fn run<E>(
        self,
        new: Seq<Exchange<E>>,
        r: Result<Seq<u8>, Pkcs15ErrorView<E>>,
    ) -> bool {
        if self == ReadPlan::Bytes(0) {
            new.len() == 0 && r == Err::<Seq<u8>, Pkcs15ErrorView<E>>(Pkcs15ErrorView::Empty)
        } else {
            &&& new.len() >= 1
            &&& self.in_order(new)
            &&& self.unfinished(new, new.len() - 1)
            &&& self.outcome(collected(new.drop_last()), new.last()) == Some(r)
        }
    }
}

/// A read that has not begun.
proof fn lemma_read_starts<E>(plan: ReadPlan)
    ensures
        plan.in_order(Seq::<Exchange<E>>::empty()),
        plan.unfinished(Seq::<Exchange<E>>::empty(), 0),
{
    reveal(ReadPlan::in_order);
    reveal(ReadPlan::unfinished);
}

/// One more exchange extends a read that is not finished.
proof fn lemma_read_extends<E>(plan: ReadPlan, new: Seq<Exchange<E>>, x: Exchange<E>)
    requires
        plan.in_order(new),
        plan.unfinished(new, new.len() as int),
        x.command == plan.command(collected(new)),
        !x.le_retry,
    ensures
        plan.in_order(new.push(x)),
        plan.unfinished(new.push(x), new.len() as int),
        plan.outcome(collected(new), x) is None ==> plan.unfinished(
            new.push(x),
            new.len() as int + 1,
        ),
        new.push(x).drop_last() == new,
        collected(new.push(x)) == collected(new) + body_of(x),
{
    reveal(ReadPlan::in_order);
    reveal(ReadPlan::unfinished);
    let all = new.push(x);
    assert(all.drop_last() =~= new);
    assert forall|i: int| 0 <= i < all.len() implies (#[trigger] all[i]).command == plan.command(
        collected(all.take(i)),
    ) && !all[i].le_retry by {
        if i < new.len() {
            assert(all.take(i) =~= new.take(i));
            assert(all[i] == new[i]);
        } else {
            assert(all.take(i) =~= new);
        }
    }
    assert forall|i: int| 0 <= i < new.len() implies plan.outcome(
        collected(all.take(i)),
        #[trigger] all[i],
    ) is None by {
        assert(all.take(i) =~= new.take(i));
        assert(all[i] == new[i]);
    }
    assert(all.take(new.len() as int) =~= new);
}

/// Read the chunk that follows the bytes so far.
fn read_chunk<T: CardTransport>(transport: &mut T, offset: u16, want: u8) -> (r: Result<
    ResponseApdu,
    Pkcs15Error<TransportDispatchError<T::Error>>,
>)
    ensures
        sent(
            old(transport).log(),
            final(transport).log(),
            read_binary_bytes(offset as int, want),
        ),
        ({
            let x = final(transport).log().last();
            match x.dispatched() {
                Ok(v) => r matches Ok(a) && a@ == v,
                Err(e) => r matches Err(f) && pkcs15_error_view(f) == Pkcs15ErrorView::Transport(e),
            }
        }),
{
    let apdu = ReadBinaryByOffset { offset, le: want }.into_apdu();
    match transport.transmit(apdu.as_bytes()) {
        Ok(reply) => Ok(reply),
        Err(e) => Err(Pkcs15Error::Transport(e)),
    }
}

fn end_of_file(reply: &ResponseApdu) -> (r: bool)
    ensures
        r == (reply@.sw() == 0x6282),
{
    matches!(reply.status_word(), StatusWord::EndOfFile)
}

/// The number of bytes that a read without a known size may take.
pub open spec fn read_cap(expected_size: Option<usize>) -> int {
    match expected_size {
        Some(n) => if n < MAX_CERT_BYTES {
            n as int
        } else {
            MAX_CERT_BYTES as int
        },
        None => MAX_CERT_BYTES as int,
    }
}

fn read_to_end<T: CardTransport>(transport: &mut T, expected_size: Option<usize>) -> (r: Result<
    Vec<u8>,
    Pkcs15Error<TransportDispatchError<T::Error>>,
>)
    ensures
        continues(old(transport).log(), final(transport).log()),
        ReadPlan::Bytes(read_cap(expected_size)).run(
            news(old(transport).log(), final(transport).log()),
            pkcs15_view(r),
        ),
{
    let cap: usize = match expected_size {
        Some(n) => if n < MAX_CERT_BYTES {
            n
        } else {
            MAX_CERT_BYTES
        },
        None => MAX_CERT_BYTES,
    };
    let ghost plan = ReadPlan::Bytes(cap as int);
    let ghost start = transport.log();
    let mut have: Vec<u8> = Vec::new();
    proof {
        assert(start.take(start.len() as int) =~= start);
        assert(news(start, start) =~= Seq::empty());
        lemma_read_starts::<T::Error>(plan);
    }
    if cap == 0 {
        return Err(Pkcs15Error::Empty);
    }
    loop
        invariant
            0 < cap <= MAX_CERT_BYTES,
            plan == ReadPlan::Bytes(cap as int),
            continues(start, transport.log()),
            plan.in_order(news(start, transport.log())),
            plan.unfinished(
                news(start, transport.log()),
                news(start, transport.log()).len() as int,
            ),
            have@ == collected(news(start, transport.log())),
            have@.len() < cap,
            start == old(transport).log(),
            cap == read_cap(expected_size),
        decreases cap - have@.len(),
    {
        let ghost middle = transport.log();
        let ghost new = news(start, middle);
        let rest: usize = cap - have.len();
        let want: u8 = if rest < READ_CHUNK as usize {
            rest as u8
        } else {
            READ_CHUNK
        };
        let reply = read_chunk(transport, have.len() as u16, want);
        proof {
            lemma_sent(middle, transport.log(), plan.command(have@));
            lemma_continues(start, middle, transport.log());
            let x = transport.log().last();
            assert(news(start, transport.log()) =~= new.push(x));
            lemma_read_extends(plan, new, x);
        }
        let reply = match reply {
            Ok(reply) => reply,
            Err(e) => {
                return Err(e);
            },
        };
        let eof = end_of_file(&reply);
        if !reply.is_ok() && !eof {
            return Err(Pkcs15Error::Sw(reply.sw()));
        }
        let len: usize = reply.body.len();
        push_all(&mut have, reply.body.as_slice());
        if len == 0 || len < want as usize || eof || have.len() >= cap {
            if have.len() == 0 {
                return Err(Pkcs15Error::Empty);
            }
            if have.len() > MAX_CERT_BYTES {
                return Err(Pkcs15Error::TooLarge);
            }
            return Ok(have);
        }
    }
}

fn read_object<T: CardTransport>(transport: &mut T, what: &'static str) -> (r: Result<
    Vec<u8>,
    Pkcs15Error<TransportDispatchError<T::Error>>,
>)
    ensures
        continues(old(transport).log(), final(transport).log()),
        ReadPlan::Object(what@).run(
            news(old(transport).log(), final(transport).log()),
            pkcs15_view(r),
        ),
{
    let ghost plan = ReadPlan::Object(what@);
    let ghost start = transport.log();
    let mut have: Vec<u8> = Vec::new();
    let mut cap: usize = MAX_CERT_BYTES;
    proof {
        assert(start.take(start.len() as int) =~= start);
        assert(news(start, start) =~= Seq::empty());
        lemma_read_starts::<T::Error>(plan);
    }
    loop
        invariant
            plan == ReadPlan::Object(what@),
            continues(start, transport.log()),
            plan.in_order(news(start, transport.log())),
            plan.unfinished(
                news(start, transport.log()),
                news(start, transport.log()).len() as int,
            ),
            have@ == collected(news(start, transport.log())),
            der_total(have@) is Ok,
            cap == plan.limit(have@),
            have@.len() < cap <= MAX_CERT_BYTES,
            start == old(transport).log(),
        decreases MAX_CERT_BYTES - have@.len(),
    {
        let ghost middle = transport.log();
        let ghost new = news(start, middle);
        let ghost before = have@;
        let rest: usize = cap - have.len();
        let want: u8 = if rest < READ_CHUNK as usize {
            rest as u8
        } else {
            READ_CHUNK
        };
        let reply = read_chunk(transport, have.len() as u16, want);
        proof {
            lemma_sent(middle, transport.log(), plan.command(have@));
            lemma_continues(start, middle, transport.log());
            let x = transport.log().last();
            assert(news(start, transport.log()) =~= new.push(x));
            lemma_read_extends(plan, new, x);
        }
        let reply = match reply {
            Ok(reply) => reply,
            Err(e) => {
                return Err(e);
            },
        };
        let eof = end_of_file(&reply);
        if !reply.is_ok() && !eof {
            return Err(Pkcs15Error::Sw(reply.sw()));
        }
        let len: usize = reply.body.len();
        if len > want as usize {
            return Err(Pkcs15Error::InvalidData(what));
        }
        if len == 0 {
            if have.len() == 0 {
                return Err(Pkcs15Error::Empty);
            }
            return Err(Pkcs15Error::InvalidData(what));
        }
        push_all(&mut have, reply.body.as_slice());
        match der_object_total_length(have.as_slice()) {
            Err(()) => {
                return Err(Pkcs15Error::InvalidData(what));
            },
            Ok(Some(total)) => {
                if total > MAX_CERT_BYTES {
                    return Err(Pkcs15Error::TooLarge);
                }
                if have.len() >= total {
                    have.truncate(total);
                    assert(have@ =~= (before + reply.body@).take(total as int));
                    return Ok(have);
                }
                cap = total;
            },
            Ok(None) => {
                proof {
                    lemma_total_stable(before, reply.body@);
                }
            },
        }
        if len < want as usize || eof {
            return Err(Pkcs15Error::InvalidData(what));
        }
    }
}

/// `bytes` are exactly one DER object of bounded size.
pub open spec fn one_der_object(bytes: Seq<u8>) -> bool {
    &&& der_total(bytes) == Ok::<Option<int>, ()>(Some(bytes.len() as int))
    &&& bytes.len() <= MAX_CERT_BYTES
}

/// What an object read gives is exactly one DER object, whatever padding the file
/// has behind it, and it is what the card sent.
pub proof fn law_read_gives_one_object<E>(
    what: Seq<char>,
    new: Seq<Exchange<E>>,
    r: Result<Seq<u8>, Pkcs15ErrorView<E>>,
)
    requires
        ReadPlan::Object(what).run(new, r),
        r is Ok,
    ensures
        one_der_object(r->Ok_0),
        r->Ok_0.len() <= collected(new).len(),
        r->Ok_0 == collected(new).take(r->Ok_0.len() as int),
{
    let all = collected(new);
    let total = der_total(all)->Ok_0->Some_0;
    let whole = all.take(total);
    assert(r->Ok_0 == whole);
    if all[1] >= 0x80 {
        let header = 2 + (all[1] - 0x80);
        assert(all.subrange(2, header) =~= whole.subrange(2, header));
    }
}

/// `new` are the exchanges of `steps` one after the other, up to the first that
/// fails, followed by the read of one object when none does; `r` is the result.
pub open spec fn walk_run<E>(
    steps: Seq<Selection>,
    what: Seq<char>,
    new: Seq<Exchange<E>>,
    r: Result<Seq<u8>, Pkcs15ErrorView<E>>,
) -> bool
    decreases steps.len(),
{
    if steps.len() == 0 {
        ReadPlan::Object(what).run(new, r)
    } else {
        let n = steps[0].size(new[0]);
        &&& steps[0].begins(new)
        &&& match steps[0].outcome(new) {
            Err(e) => new.len() == n && r == Err::<Seq<u8>, Pkcs15ErrorView<E>>(e),
            Ok(()) => walk_run(steps.drop_first(), what, new.skip(n), r),
        }
    }
}

/// A selection that fails ends a walk.
proof fn lemma_walk_ends<E>(
    steps: Seq<Selection>,
    what: Seq<char>,
    new: Seq<Exchange<E>>,
    r: Result<(), Pkcs15Error<TransportDispatchError<E>>>,
)
    requires
        steps.len() > 0,
        steps[0].run(new, r),
        r is Err,
    ensures
        walk_run(
            steps,
            what,
            new,
            Err::<Seq<u8>, Pkcs15ErrorView<E>>(pkcs15_error_view(r->Err_0)),
        ),
{
}

/// A selection that succeeds leads on.
proof fn lemma_walk_goes_on<E>(
    steps: Seq<Selection>,
    what: Seq<char>,
    first: Seq<Exchange<E>>,
    rest: Seq<Exchange<E>>,
    r: Result<Seq<u8>, Pkcs15ErrorView<E>>,
)
    requires
        steps.len() > 0,
        steps[0].run(first, Ok::<(), Pkcs15Error<TransportDispatchError<E>>>(())),
        walk_run(steps.drop_first(), what, rest, r),
    ensures
        walk_run(steps, what, first + rest, r),
{
    let new = first + rest;
    assert(new[0] == first[0]);
    let n = steps[0].size(new[0]);
    assert(new[n - 1] == first[n - 1]);
    assert(new.skip(n) =~= rest);
}

/// The selections on the way to a slot.
pub open spec fn slot_steps(slot: CertSlot) -> Seq<Selection> {
    match slot.location() {
        SlotPath::UnderPkcs15App => seq![application_selection(), file_selection(slot.file())],
        SlotPath::UnderDf5016 => seq![
            root_selection(),
            directory_selection(DF_SIGNATURE_FID),
            file_selection(slot.file()),
        ],
        SlotPath::UnderMf => seq![root_selection(), file_selection(slot.file())],
    }
}

/// The selections on the way to the token information.
pub open spec fn token_info_steps() -> Seq<Selection> {
    seq![application_selection(), file_selection(EF_TOKEN_INFO_FID)]
}

fn select_file<T: CardTransport>(transport: &mut T, fid: [u8; 2]) -> (r: Result<
    (),
    Pkcs15Error<TransportDispatchError<T::Error>>,
>)
    ensures
        continues(old(transport).log(), final(transport).log()),
        file_selection(fid).run(news(old(transport).log(), final(transport).log()), r),
{
    select_either(transport, SelectEfNoFci { fid }.into_apdu(), select_by_fid(0x00, fid))
}

fn select_root<T: CardTransport>(transport: &mut T) -> (r: Result<
    (),
    Pkcs15Error<TransportDispatchError<T::Error>>,
>)
    ensures
        continues(old(transport).log(), final(transport).log()),
        root_selection().run(news(old(transport).log(), final(transport).log()), r),
{
    select_either(transport, select_by_fid(0x00, MF_FID), select_by_fid(0x04, MF_FID))
}

fn select_directory<T: CardTransport>(transport: &mut T, fid: [u8; 2]) -> (r: Result<
    (),
    Pkcs15Error<TransportDispatchError<T::Error>>,
>)
    ensures
        continues(old(transport).log(), final(transport).log()),
        directory_selection(fid).run(news(old(transport).log(), final(transport).log()), r),
{
    select_either(transport, select_by_fid(0x01, fid), select_with_fci(0x00, fid))
}

/// Select a file and read one object from it.
fn read_file<T: CardTransport>(transport: &mut T, fid: [u8; 2], what: &'static str) -> (r: Result<
    Vec<u8>,
    Pkcs15Error<TransportDispatchError<T::Error>>,
>)
    ensures
        continues(old(transport).log(), final(transport).log()),
        walk_run(
            seq![file_selection(fid)],
            what@,
            news(old(transport).log(), final(transport).log()),
            pkcs15_view(r),
        ),
{
    let ghost start = transport.log();
    let ghost steps = seq![file_selection(fid)];
    let selected = select_file(transport, fid);
    let ghost middle = transport.log();
    match selected {
        Ok(()) => {},
        Err(e) => {
            proof {
                lemma_walk_ends(
                    steps,
                    what@,
                    news(start, middle),
                    Err::<(), Pkcs15Error<TransportDispatchError<T::Error>>>(e),
                );
            }
            return Err(e);
        },
    }
    let r = read_object(transport, what);
    proof {
        lemma_continues(start, middle, transport.log());
        lemma_walk_goes_on(
            steps,
            what@,
            news(start, middle),
            news(middle, transport.log()),
            pkcs15_view(r),
        );
    }
    r
}

/// Select the application, then a file in it, and read one object.
fn read_application_file<T: CardTransport>(
    transport: &mut T,
    fid: [u8; 2],
    what: &'static str,
) -> (r: Result<Vec<u8>, Pkcs15Error<TransportDispatchError<T::Error>>>)
    ensures
        continues(old(transport).log(), final(transport).log()),
        walk_run(
            seq![application_selection(), file_selection(fid)],
            what@,
            news(old(transport).log(), final(transport).log()),
            pkcs15_view(r),
        ),
{
    let ghost start = transport.log();
    let ghost steps = seq![application_selection(), file_selection(fid)];
    let selected = select_application(transport);
    let ghost middle = transport.log();
    match selected {
        Ok(()) => {},
        Err(e) => {
            proof {
                lemma_walk_ends(
                    steps,
                    what@,
                    news(start, middle),
                    Err::<(), Pkcs15Error<TransportDispatchError<T::Error>>>(e),
                );
            }
            return Err(e);
        },
    }
    let r = read_file(transport, fid, what);
    proof {
        lemma_continues(start, middle, transport.log());
        assert(steps.drop_first() =~= seq![file_selection(fid)]);
        lemma_walk_goes_on(
            steps,
            what@,
            news(start, middle),
            news(middle, transport.log()),
            pkcs15_view(r),
        );
    }
    r
}

/// Select the root, then a file in it, and read one object.
pub(crate) fn read_root_file<T: CardTransport>(
    transport: &mut T,
    fid: [u8; 2],
    what: &'static str,
) -> (r: Result<Vec<u8>, Pkcs15Error<TransportDispatchError<T::Error>>>)
    ensures
        continues(old(transport).log(), final(transport).log()),
        walk_run(
            seq![root_selection(), file_selection(fid)],
            what@,
            news(old(transport).log(), final(transport).log()),
            pkcs15_view(r),
        ),
{
    let ghost start = transport.log();
    let ghost steps = seq![root_selection(), file_selection(fid)];
    let selected = select_root(transport);
    let ghost middle = transport.log();
    match selected {
        Ok(()) => {},
        Err(e) => {
            proof {
                lemma_walk_ends(
                    steps,
                    what@,
                    news(start, middle),
                    Err::<(), Pkcs15Error<TransportDispatchError<T::Error>>>(e),
                );
            }
            return Err(e);
        },
    }
    let r = read_file(transport, fid, what);
    proof {
        lemma_continues(start, middle, transport.log());
        assert(steps.drop_first() =~= seq![file_selection(fid)]);
        lemma_walk_goes_on(
            steps,
            what@,
            news(start, middle),
            news(middle, transport.log()),
            pkcs15_view(r),
        );
    }
    r
}

/// Select the root, then the directory of the signature certificates, then a file
/// in it, and read one object.
fn read_directory_file<T: CardTransport>(
    transport: &mut T,
    fid: [u8; 2],
    what: &'static str,
) -> (r: Result<Vec<u8>, Pkcs15Error<TransportDispatchError<T::Error>>>)
    ensures
        continues(old(transport).log(), final(transport).log()),
        walk_run(
            seq![root_selection(), directory_selection(DF_SIGNATURE_FID), file_selection(fid)],
            what@,
            news(old(transport).log(), final(transport).log()),
            pkcs15_view(r),
        ),
{
    let ghost start = transport.log();
    let ghost steps = seq![
        root_selection(),
        directory_selection(DF_SIGNATURE_FID),
        file_selection(fid),
    ];
    let ghost inner = seq![directory_selection(DF_SIGNATURE_FID), file_selection(fid)];
    assert(steps.drop_first() =~= inner);
    assert(inner.drop_first() =~= seq![file_selection(fid)]);
    let selected = select_root(transport);
    let ghost first = transport.log();
    match selected {
        Ok(()) => {},
        Err(e) => {
            proof {
                lemma_walk_ends(
                    steps,
                    what@,
                    news(start, first),
                    Err::<(), Pkcs15Error<TransportDispatchError<T::Error>>>(e),
                );
            }
            return Err(e);
        },
    }
    let selected = select_directory(transport, DF_SIGNATURE_FID);
    let ghost second = transport.log();
    proof {
        lemma_continues(start, first, second);
    }
    match selected {
        Ok(()) => {},
        Err(e) => {
            proof {
                let r = Err::<(), Pkcs15Error<TransportDispatchError<T::Error>>>(e);
                lemma_walk_ends(inner, what@, news(first, second), r);
                lemma_walk_goes_on(
                    steps,
                    what@,
                    news(start, first),
                    news(first, second),
                    Err::<Seq<u8>, Pkcs15ErrorView<T::Error>>(pkcs15_error_view(e)),
                );
            }
            return Err(e);
        },
    }
    let r = read_file(transport, fid, what);
    proof {
        lemma_continues(first, second, transport.log());
        lemma_continues(start, first, transport.log());
        lemma_walk_goes_on(
            inner,
            what@,
            news(first, second),
            news(second, transport.log()),
            pkcs15_view(r),
        );
        lemma_walk_goes_on(
            steps,
            what@,
            news(start, first),
            news(first, transport.log()),
            pkcs15_view(r),
        );
    }
    r
}

/// File Control Information that the card returned for a SELECT.
#[derive(Debug, Clone, PartialEq, Eq)]
pub struct Fci {
    bytes: Vec<u8>,
}

impl View for Fci {
    type V = Seq<u8>;

    closed spec fn view(&self) -> Seq<u8> {
        self.bytes@
    }
}

/// A file-size object: total length or length of the content.
pub open spec fn is_size_tag(tag: u16) -> bool {
    tag == 0x80 || tag == 0x81
}

/// The value of the first file-size object.
pub open spec fn first_size(items: Seq<TlvView>) -> Option<Seq<u8>>
    decreases items.len(),
{
    if items.len() == 0 {
        None
    } else if is_size_tag(items[0].tag) {
        Some(items[0].value)
    } else {
        first_size(items.drop_first())
    }
}

/// The file size that a control template states, reduced to the machine word.
pub open spec fn file_size(fci: Seq<u8>) -> Option<nat> {
    match first_tlv(fci) {
        Err(_) => None,
        Ok(outer) => if outer.tag != 0x62 && outer.tag != 0x6F {
            None
        } else {
            match first_size(tlv_items(outer.value)) {
                Some(value) => Some(be_nat(value) % ((usize::MAX + 1) as nat)),
                None => None,
            }
        },
    }
}

impl Fci {
    /// Wrap raw bytes from a SELECT response.
    pub fn new(bytes: Vec<u8>) -> (r: Self)
        ensures
            r@ == bytes@,
    {
        Fci { bytes }
    }

    /// Borrow the bytes.
    pub fn as_bytes(&self) -> (r: &[u8])
        ensures
            r@ == self@,
    {
        self.bytes.as_slice()
    }

    /// The stated file size. Objects behind an unreadable one are not looked at.
    pub fn parse_file_size(&self) -> (r: Option<usize>)
        ensures
            r is Some <==> file_size(self@) is Some,
            r matches Some(n) ==> file_size(self@) == Some(n as nat),
    {
        let outer = match BerTlvAny::parse(self.bytes.as_slice()) {
            Ok(outer) => outer,
            Err(_) => {
                return None;
            },
        };
        if outer.tag != 0x62 && outer.tag != 0x6F {
            return None;
        }
        let body = BerBody::read(outer.value);
        let ghost views = tlv_items(outer.value@);
        assert(views.skip(0) =~= views);
        let mut i: usize = 0;
        while i < body.items.len()
            invariant
                i <= body.items@.len(),
                first_tlv(self@) is Ok,
                first_tlv(self@)->Ok_0.tag == 0x62 || first_tlv(self@)->Ok_0.tag == 0x6F,
                views == tlv_items(first_tlv(self@)->Ok_0.value),
                same_items(body.items@, views),
                first_size(views) == first_size(views.skip(i as int)),
            decreases body.items@.len() - i,
        {
            let item = body.items[i];
            proof {
                assert(body.items@[i as int].tag == views[i as int].tag);
                assert(views.skip(i as int)[0] == views[i as int]);
                assert(views.skip(i as int).drop_first() =~= views.skip(i + 1));
            }
            if item.tag == 0x80 || item.tag == 0x81 {
                let n: u128 = be_mod(item.value, usize::MAX as u128 + 1);
                return Some(n as usize);
            }
            i += 1;
        }
        None
    }
}

/// What the token information says of the card.
#[derive(Debug, Clone)]
pub struct TokenInfo {
    /// Version of the structure.
    pub version: Option<u32>,
    /// Serial of the card application.
    pub serial_number_hex: Option<TokenSerial>,
    /// Manufacturer.
    pub manufacturer_id: Option<String>,
    /// Label of the card.
    pub label: Option<String>,
}

/// The contents of token information.
#[verifier::ext_equal]
pub struct TokenInfoView {
    pub version: Option<nat>,
    pub serial: Option<Seq<char>>,
    pub manufacturer: Option<Seq<char>>,
    pub label: Option<Seq<char>>,
}

/// The characters of an optional text.
pub open spec fn text_view(t: Option<String>) -> Option<Seq<char>> {
    match t {
        Some(s) => Some(s@),
        None => None,
    }
}

impl Default for TokenInfo {
    fn default() -> (r: Self)
        ensures
            r@ == (TokenInfoView { version: None, serial: None, manufacturer: None, label: None }),
    {
        TokenInfo { version: None, serial_number_hex: None, manufacturer_id: None, label: None }
    }
}

impl View for TokenInfo {
    type V = TokenInfoView;

    open spec fn view(&self) -> TokenInfoView {
        TokenInfoView {
            version: match self.version {
                Some(v) => Some(v as nat),
                None => None,
            },
            serial: match self.serial_number_hex {
                Some(s) => Some(s@),
                None => None,
            },
            manufacturer: text_view(self.manufacturer_id),
            label: text_view(self.label),
        }
    }
}

/// Manufacturer and label after the data object `item`: the first string is the
/// manufacturer, the second the label, and an object of its own overrides the
/// label.
pub open spec fn token_strings_step(
    so_far: (Option<Seq<char>>, Option<Seq<char>>),
    item: TlvView,
) -> (Option<Seq<char>>, Option<Seq<char>>) {
    let text = utf8_lossy(item.value);
    if item.tag == TAG_UTF8_STRING || item.tag == TAG_PRINTABLE_STRING {
        if so_far.0 is None {
            (Some(text), so_far.1)
        } else if so_far.1 is None {
            (so_far.0, Some(text))
        } else {
            so_far
        }
    } else if item.tag == 0x80 {
        (so_far.0, Some(text))
    } else {
        so_far
    }
}

/// Manufacturer and label that the data objects give.
pub open spec fn token_strings(items: Seq<TlvView>) -> (Option<Seq<char>>, Option<Seq<char>>)
    decreases items.len(),
{
    if items.len() == 0 {
        (None, None)
    } else {
        token_strings_step(token_strings(items.drop_last()), items.last())
    }
}

/// The token information that a file holds.
pub open spec fn token_info_of(der: Seq<u8>) -> Result<TokenInfoView, BerError> {
    match tagged(der, TAG_SEQUENCE) {
        Err(e) => Err(e),
        Ok(body) => {
            let items = tlv_items(body);
            let strings = token_strings(items.skip(2));
            Ok(
                TokenInfoView {
                    version: if items.len() > 0 && items[0].tag == TAG_INTEGER {
                        Some(be_nat(items[0].value) % 0x1_0000_0000)
                    } else {
                        None
                    },
                    serial: if items.len() > 1 && items[1].tag == TAG_OCTET_STRING {
                        Some(lower_hex(items[1].value))
                    } else {
                        None
                    },
                    manufacturer: if items.len() > 2 {
                        strings.0
                    } else {
                        None
                    },
                    label: if items.len() > 2 {
                        strings.1
                    } else {
                        None
                    },
                },
            )
        },
    }
}

impl TokenInfo {
    /// Parse the token information. Inside a well-formed outer SEQUENCE, objects
    /// that are missing or of another kind leave their field empty.
    pub fn parse(der: &[u8]) -> (r: Result<TokenInfo, BerError>)
        ensures
            r is Ok <==> token_info_of(der@) is Ok,
            r matches Ok(info) ==> token_info_of(der@) == Ok::<TokenInfoView, BerError>(info@),
            r matches Err(e) ==> token_info_of(der@) == Err::<TokenInfoView, BerError>(e),
    {
        let body = match BerTlvAny::parse_tagged(der, TAG_SEQUENCE) {
            Ok(body) => body,
            Err(e) => {
                return Err(e);
            },
        };
        let walk = BerBody::read(body);
        let ghost views = tlv_items(body@);
        let mut info = TokenInfo {
            version: None,
            serial_number_hex: None,
            manufacturer_id: None,
            label: None,
        };
        if walk.items.len() > 0 {
            assert(walk.items@[0].tag == views[0].tag);
            if walk.items[0].tag == TAG_INTEGER {
                let v: u128 = be_mod(walk.items[0].value, 0x1_0000_0000);
                info.version = Some(v as u32);
            }
        }
        if walk.items.len() > 1 {
            assert(walk.items@[1].tag == views[1].tag);
            if walk.items[1].tag == TAG_OCTET_STRING {
                info.serial_number_hex = Some(TokenSerial::new(hex_text(walk.items[1].value)));
            }
        }
        let mut i: usize = 2;
        let ghost head = info@;
        let ghost rest = views.skip(2);
        assert(rest.take(0) =~= Seq::empty());
        while i < walk.items.len()
            invariant
                2 <= i,
                i <= walk.items@.len() || walk.items@.len() < 2 && i == 2,
                same_items(walk.items@, views),
                rest == views.skip(2),
                info@.version == head.version,
                info@.serial == head.serial,
                (info@.manufacturer, info@.label) == token_strings(rest.take(i - 2)),
            decreases walk.items@.len() - i,
        {
            let item = walk.items[i];
            let ghost before = token_strings(rest.take(i - 2));
            proof {
                assert(walk.items@[i as int].tag == views[i as int].tag);
                assert(rest.take(i - 1).drop_last() =~= rest.take(i - 2));
                assert(rest.take(i - 1).last() == views[i as int]);
            }
            if item.tag == TAG_UTF8_STRING || item.tag == TAG_PRINTABLE_STRING {
                if info.manufacturer_id.is_none() {
                    info.manufacturer_id = Some(text_from_utf8_lossy(item.value));
                } else if info.label.is_none() {
                    info.label = Some(text_from_utf8_lossy(item.value));
                }
            } else if item.tag == 0x80 {
                info.label = Some(text_from_utf8_lossy(item.value));
            }
            i += 1;
        }
        proof {
            if walk.items@.len() >= 2 {
                assert(rest.take(i - 2) =~= rest);
            }
            let whole = token_info_of(der@)->Ok_0;
            assert(info@.version == whole.version);
            assert(info@.serial == whole.serial);
            assert(info@.manufacturer == whole.manufacturer);
            assert(info@.label == whole.label);
        }
        Ok(info)
    }
}

/// `new` are the exchanges and `r` is the result of reading the token information.
pub open spec fn token_info_run<E>(
    new: Seq<Exchange<E>>,
    r: Result<TokenInfo, Pkcs15Error<TransportDispatchError<E>>>,
) -> bool {
    exists|read: Result<Seq<u8>, Pkcs15ErrorView<E>>|
        #[trigger] walk_run(token_info_steps(), "EF.TokenInfo"@, new, read) && pkcs15_view(r)
            == match read {
            Err(e) => Err(e),
            Ok(der) => match token_info_of(der) {
                Ok(info) => Ok(info),
                Err(_) => Err(Pkcs15ErrorView::InvalidData("EF.TokenInfo"@)),
            },
        }
}

/// File access on every transport.
pub trait Pkcs15Ops: CardTransport {
    /// Select the PKCS#15 application.
    fn select_pkcs15_application(&mut self) -> (r: Result<
        (),
        Pkcs15Error<TransportDispatchError<Self::Error>>,
    >) where Self: Sized
        ensures
            continues(old(self).log(), final(self).log()),
            application_selection().run(news(old(self).log(), final(self).log()), r),
    {
        select_application(self)
    }

    /// Select a file, under the current directory or else anywhere.
    fn select_ef(&mut self, fid: [u8; 2]) -> (r: Result<
        (),
        Pkcs15Error<TransportDispatchError<Self::Error>>,
    >) where Self: Sized
        ensures
            continues(old(self).log(), final(self).log()),
            file_selection(fid).run(news(old(self).log(), final(self).log()), r),
    {
        select_file(self, fid)
    }

    /// Select the root, by identifier or else by name.
    fn select_mf(&mut self) -> (r: Result<
        (),
        Pkcs15Error<TransportDispatchError<Self::Error>>,
    >) where Self: Sized
        ensures
            continues(old(self).log(), final(self).log()),
            root_selection().run(news(old(self).log(), final(self).log()), r),
    {
        select_root(self)
    }

    /// Select a directory under the current one or else anywhere.
    fn select_child_df(&mut self, fid: [u8; 2]) -> (r: Result<
        (),
        Pkcs15Error<TransportDispatchError<Self::Error>>,
    >) where Self: Sized
        ensures
            continues(old(self).log(), final(self).log()),
            directory_selection(fid).run(news(old(self).log(), final(self).log()), r),
    {
        select_directory(self, fid)
    }

    /// Read the selected file in chunks until it ends.
    fn read_binary_to_end(&mut self, expected_size: Option<usize>) -> (r: Result<
        Vec<u8>,
        Pkcs15Error<TransportDispatchError<Self::Error>>,
    >) where Self: Sized
        ensures
            continues(old(self).log(), final(self).log()),
            ReadPlan::Bytes(read_cap(expected_size)).run(
                news(old(self).log(), final(self).log()),
                pkcs15_view(r),
            ),
    {
        read_to_end(self, expected_size)
    }

    /// Read exactly one DER object from the selected file.
    fn read_binary_der_object(&mut self, what: &'static str) -> (r: Result<
        Vec<u8>,
        Pkcs15Error<TransportDispatchError<Self::Error>>,
    >) where Self: Sized
        ensures
            continues(old(self).log(), final(self).log()),
            ReadPlan::Object(what@).run(news(old(self).log(), final(self).log()), pkcs15_view(r)),
    {
        read_object(self, what)
    }

    /// Read the certificate of a slot.
    fn read_certificate(&mut self, slot: CertSlot) -> (r: Result<
        CertDer,
        Pkcs15Error<TransportDispatchError<Self::Error>>,
    >) where Self: Sized
        ensures
            continues(old(self).log(), final(self).log()),
            walk_run(
                slot_steps(slot),
                slot.name(),
                news(old(self).log(), final(self).log()),
                pkcs15_view(r),
            ),
    {
        read_slot(self, slot)
    }

    /// Read the token information.
    fn read_token_info(&mut self) -> (r: Result<
        TokenInfo,
        Pkcs15Error<TransportDispatchError<Self::Error>>,
    >) where Self: Sized
        ensures
            continues(old(self).log(), final(self).log()),
            token_info_run(news(old(self).log(), final(self).log()), r),
    {
        read_token(self)
    }
}

impl<T: CardTransport> Pkcs15Ops for T {

}

pub(crate) fn read_slot<T: CardTransport>(transport: &mut T, slot: CertSlot) -> (r: Result<
    CertDer,
    Pkcs15Error<TransportDispatchError<T::Error>>,
>)
    ensures
        continues(old(transport).log(), final(transport).log()),
        walk_run(
            slot_steps(slot),
            slot.name(),
            news(old(transport).log(), final(transport).log()),
            pkcs15_view(r),
        ),
{
    let read = match slot.path() {
        SlotPath::UnderPkcs15App => read_application_file(transport, slot.fid(), slot.label()),
        SlotPath::UnderDf5016 => read_directory_file(transport, slot.fid(), slot.label()),
        SlotPath::UnderMf => read_root_file(transport, slot.fid(), slot.label()),
    };
    match read {
        Ok(bytes) => Ok(CertDer::new(bytes)),
        Err(e) => Err(e),
    }
}

pub(crate) fn read_token<T: CardTransport>(transport: &mut T) -> (r: Result<
    TokenInfo,
    Pkcs15Error<TransportDispatchError<T::Error>>,
>)
    ensures
        continues(old(transport).log(), final(transport).log()),
        token_info_run(news(old(transport).log(), final(transport).log()), r),
{
    let ghost start = transport.log();
    let read = read_application_file(transport, EF_TOKEN_INFO_FID, "EF.TokenInfo");
    assert(walk_run(
        token_info_steps(),
        "EF.TokenInfo"@,
        news(start, transport.log()),
        pkcs15_view(read),
    ));
    match read {
        Ok(bytes) => match TokenInfo::parse(bytes.as_slice()) {
            Ok(info) => Ok(info),
            Err(_) => Err(Pkcs15Error::InvalidData("EF.TokenInfo")),
        },
        Err(e) => Err(e),
    }
}

/// What a slot read gives is exactly one DER object.
pub proof fn law_certificate_is_one_object<E>(
    steps: Seq<Selection>,
    what: Seq<char>,
    new: Seq<Exchange<E>>,
    r: Result<Seq<u8>, Pkcs15ErrorView<E>>,
)
    requires
        walk_run(steps, what, new, r),
        r is Ok,
    ensures
        one_der_object(r->Ok_0),
    decreases steps.len(),
{
    if steps.len() == 0 {
        law_read_gives_one_object(what, new, r);
    } else {
        let n = steps[0].size(new[0]);
        law_certificate_is_one_object(steps.drop_first(), what, new.skip(n), r);
    }
}

} // verus!
