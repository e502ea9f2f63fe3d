//! Card transport port.
//!
//! [`CardTransport`] is the boundary between the protocol layer and the actual
//! card-access mechanism (PC/SC today; NFC, USB CCID or an embedded HAL
//! elsewhere). Every implementation carries a ghost history of the exchanges it
//! has performed; the protocol operations state over that history which
//! commands they send and how the replies decide their result.

use crate::apdu::StatusWord;
use crate::atr::{Atr, AtrError};
use crate::render::{dec, hex4, push_dec, push_hex4};
use vstd::prelude::*;
use vstd::slice::slice_to_vec;
use vstd::string::*;

verus! {

/// Length of a short command that carries only an expected length.
pub const SHORT_CASE_2_BYTES: usize = 5;

/// One outgoing smart-card command APDU.
#[derive(Debug, PartialEq, Eq)]
pub struct CommandApdu {
    bytes: Vec<u8>,
    wrong_le_retry: bool,
}

impl View for CommandApdu {
    type V = Seq<u8>;

    closed spec fn view(&self) -> Seq<u8> {
        self.bytes@
    }
}

impl CommandApdu {
    /// Whether the adapter may correct the expected length once.
    pub closed spec fn permits_le_retry(&self) -> bool {
        self.wrong_le_retry
    }

    /// A permitted correction has a last byte to correct.
    #[verifier::type_invariant]
    closed spec fn retry_has_le(&self) -> bool {
        self.wrong_le_retry ==> self.bytes@.len() == SHORT_CASE_2_BYTES
    }

    /// Wrap an owned byte buffer. No structural check; raw commands permit no
    /// correction of their expected length.
    pub fn new(bytes: Vec<u8>) -> (r: Self)
        ensures
            r@ == bytes@,
            !r.permits_le_retry(),
    {
        CommandApdu { bytes, wrong_le_retry: false }
    }

    /// Mark a short case-2 command as safe for one corrected-`Le` resend. A
    /// command of any other length stays unmarked.
    pub(crate) fn allow_wrong_le_retry(self) -> (r: Self)
        ensures
            r@ == self@,
            r.permits_le_retry() == (self@.len() == SHORT_CASE_2_BYTES),
    {
        let marked = self.bytes.len() == SHORT_CASE_2_BYTES;
        CommandApdu { bytes: self.bytes, wrong_le_retry: marked }
    }

    /// The single corrected command that a marked builder permits. The returned
    /// command cannot be corrected again.
    pub fn corrected_wrong_le(&self, le: u8) -> (r: Option<Self>)
        ensures
            r is Some <==> self.permits_le_retry(),
            r matches Some(c) ==> {
                &&& c@ == self@.update(self@.len() - 1, le)
                &&& self@.len() == SHORT_CASE_2_BYTES
                &&& !c.permits_le_retry()
            },
    {
        if !self.wrong_le_retry {
            return None;
        }
        proof {
            use_type_invariant(self);
        }
        let mut corrected: Vec<u8> = slice_to_vec(self.bytes.as_slice());
        let last: usize = corrected.len() - 1;
        corrected.set(last, le);
        Some(CommandApdu { bytes: corrected, wrong_le_retry: false })
    }

    /// Borrow the APDU bytes.
    pub fn as_bytes(&self) -> (r: &[u8])
        ensures
            r@ == self@,
    {
        self.bytes.as_slice()
    }

    /// Consume the command and return the owned APDU bytes.
    pub fn into_bytes(self) -> (r: Vec<u8>)
        ensures
            r@ == self@,
    {
        self.bytes
    }

    /// A raw command with a copy of `bytes`.
    pub fn from_slice(bytes: &[u8]) -> (r: Self)
        ensures
            r@ == bytes@,
            !r.permits_le_retry(),
    {
        CommandApdu::new(slice_to_vec(bytes))
    }
}

impl Clone for CommandApdu {
    fn clone(&self) -> (r: Self)
        ensures
            r@ == self@,
            r.permits_le_retry() == self.permits_le_retry(),
    {
        proof {
            use_type_invariant(self);
        }
        CommandApdu {
            bytes: slice_to_vec(self.bytes.as_slice()),
            wrong_le_retry: self.wrong_le_retry,
        }
    }
}

/// One smart-card response: body plus the two status bytes.
#[derive(Debug, PartialEq, Eq)]
pub struct ResponseApdu {
    /// Response data without the status bytes.
    pub body: Vec<u8>,
    /// First status byte.
    pub sw1: u8,
    /// Second status byte.
    pub sw2: u8,
}

/// What a response says.
#[verifier::ext_equal]
pub struct ResponseView {
    pub body: Seq<u8>,
    pub sw1: u8,
    pub sw2: u8,
}

impl ResponseView {
    /// `SW1 << 8 | SW2`.
    pub open spec fn sw(self) -> int {
        self.sw1 * 256 + self.sw2
    }

    /// The status word is exactly `9000`.
    pub open spec fn is_ok(self) -> bool {
        self.sw1 == 0x90 && self.sw2 == 0x00
    }
}

impl View for ResponseApdu {
    type V = ResponseView;

    open spec fn view(&self) -> ResponseView {
        ResponseView { body: self.body@, sw1: self.sw1, sw2: self.sw2 }
    }
}

impl ResponseApdu {
    /// `SW1 << 8 | SW2` as a raw number.
    pub fn sw(&self) -> (r: u16)
        ensures
            r == self@.sw(),
    {
        self.sw1 as u16 * 256 + self.sw2 as u16
    }

    /// The decoded status word.
    pub fn status_word(&self) -> (r: StatusWord)
        ensures
            r == StatusWord::of(self.sw1, self.sw2),
    {
        StatusWord::from_bytes(self.sw1, self.sw2)
    }

    /// `true` iff the status word is exactly `9000`.
    pub fn is_ok(&self) -> (r: bool)
        ensures
            r == self@.is_ok(),
    {
        matches!(self.status_word(), StatusWord::Success)
    }
}

impl Clone for ResponseApdu {
    fn clone(&self) -> (r: Self)
        ensures
            r@ == self@,
    {
        ResponseApdu { body: slice_to_vec(self.body.as_slice()), sw1: self.sw1, sw2: self.sw2 }
    }
}

/// Transport-level state transitions and faults that matter above the pure
/// byte-moving layer.
#[derive(Debug, Clone, PartialEq, Eq)]
pub enum TransportOutcome {
    /// A real APDU response.
    Response(ResponseApdu),
    /// The card slot was sensed empty during the exchange.
    NoCard,
    /// The transport timed out with the card in an unknown state.
    TimeoutUnknownState,
    /// The card reset itself during the exchange.
    CardReset,
    /// Block-numbering or window state lost.
    ProtocolDesync,
    /// The reader was unplugged or its session terminated.
    ReaderRemoved,
}

/// What a transport outcome says.
#[verifier::ext_equal]
pub enum OutcomeView {
    Response(ResponseView),
    NoCard,
    TimeoutUnknownState,
    CardReset,
    ProtocolDesync,
    ReaderRemoved,
}

impl View for TransportOutcome {
    type V = OutcomeView;

    open spec fn view(&self) -> OutcomeView {
        match self {
            TransportOutcome::Response(r) => OutcomeView::Response(r@),
            TransportOutcome::NoCard => OutcomeView::NoCard,
            TransportOutcome::TimeoutUnknownState => OutcomeView::TimeoutUnknownState,
            TransportOutcome::CardReset => OutcomeView::CardReset,
            TransportOutcome::ProtocolDesync => OutcomeView::ProtocolDesync,
            TransportOutcome::ReaderRemoved => OutcomeView::ReaderRemoved,
        }
    }
}

impl OutcomeView {
    /// The fault class of an outcome that is no response.
    pub open spec fn kind(self) -> Option<TransportErrorKind> {
        match self {
            OutcomeView::Response(_) => None,
            OutcomeView::NoCard => Some(TransportErrorKind::NoCard),
            OutcomeView::TimeoutUnknownState => Some(TransportErrorKind::TimeoutUnknownState),
            OutcomeView::CardReset => Some(TransportErrorKind::CardReset),
            OutcomeView::ProtocolDesync => Some(TransportErrorKind::ProtocolDesync),
            OutcomeView::ReaderRemoved => Some(TransportErrorKind::ReaderRemoved),
        }
    }

    /// The diagnostic text of an outcome.
    pub open spec fn message(self) -> Seq<char> {
        match self {
            OutcomeView::Response(r) => "response SW=0x"@ + hex4(r.sw() as u16) + " body="@ + dec(
                r.body.len(),
            ) + "B"@,
            OutcomeView::NoCard => "no card present"@,
            OutcomeView::TimeoutUnknownState => "transport timeout; card state unknown"@,
            OutcomeView::CardReset => "card reset during transport"@,
            OutcomeView::ProtocolDesync => "transport protocol desynchronised"@,
            OutcomeView::ReaderRemoved => "reader or card removed"@,
        }
    }
}

impl TransportOutcome {
    /// Drop the outcome wrapper if it carries a real response; otherwise hand
    /// the outcome back as an error.
    pub fn into_response(self) -> (r: Result<ResponseApdu, Self>)
        ensures
            self matches TransportOutcome::Response(x) ==> r == Ok::<ResponseApdu, Self>(x),
            !(self is Response) ==> r == Err::<ResponseApdu, Self>(self),
    {
        match self {
            TransportOutcome::Response(response) => Ok(response),
            other => Err(other),
        }
    }

    /// Project a non-response outcome to its [`TransportErrorKind`]; `None` for
    /// a response.
    pub fn kind(&self) -> (r: Option<TransportErrorKind>)
        ensures
            r == self@.kind(),
    {
        match self {
            TransportOutcome::Response(_) => None,
            TransportOutcome::NoCard => Some(TransportErrorKind::NoCard),
            TransportOutcome::TimeoutUnknownState => Some(TransportErrorKind::TimeoutUnknownState),
            TransportOutcome::CardReset => Some(TransportErrorKind::CardReset),
            TransportOutcome::ProtocolDesync => Some(TransportErrorKind::ProtocolDesync),
            TransportOutcome::ReaderRemoved => Some(TransportErrorKind::ReaderRemoved),
        }
    }

    /// The diagnostic text of the outcome.
    pub fn message(&self) -> (r: String)
        ensures
            r@ == self@.message(),
    {
        match self {
            TransportOutcome::Response(response) => {
                let mut out = "response SW=0x".to_owned();
                push_hex4(&mut out, response.sw());
                out.append(" body=");
                push_dec(&mut out, response.body.len() as u128);
                out.append("B");
                out
            },
            TransportOutcome::NoCard => "no card present".to_owned(),
            TransportOutcome::TimeoutUnknownState => {
                "transport timeout; card state unknown".to_owned()
            },
            TransportOutcome::CardReset => "card reset during transport".to_owned(),
            TransportOutcome::ProtocolDesync => "transport protocol desynchronised".to_owned(),
            TransportOutcome::ReaderRemoved => "reader or card removed".to_owned(),
        }
    }
}

/// Coarse classification of transport errors.
#[derive(Debug, Clone, Copy, PartialEq, Eq, Structural)]
pub enum TransportErrorKind {
    /// Backend-specific error.
    Backend,
    /// The card slot was sensed empty.
    NoCard,
    /// The transport timed out; the card state is unknown.
    TimeoutUnknownState,
    /// The card reset mid-exchange.
    CardReset,
    /// Protocol desynchronised.
    ProtocolDesync,
    /// Reader unplugged or session terminated.
    ReaderRemoved,
}

/// Adapter-specific transport errors classify themselves into a small stable
/// fault vocabulary.
pub trait TransportErrorExt {
    /// Classify this error. Adapters without richer information keep the
    /// default.
    fn kind(&self) -> (r: TransportErrorKind)
        default_ensures
            r == TransportErrorKind::Backend,
    {
        TransportErrorKind::Backend
    }
}

impl TransportErrorExt for String {
    fn kind(&self) -> (r: TransportErrorKind)
        ensures
            r == TransportErrorKind::Backend,
    {
        TransportErrorKind::Backend
    }
}

impl TransportErrorExt for &'static str {
    fn kind(&self) -> (r: TransportErrorKind)
        ensures
            r == TransportErrorKind::Backend,
    {
        TransportErrorKind::Backend
    }
}

/// A response was expected, but the transport had a state transition or a
/// backend failure instead.
#[derive(Debug)]
pub enum TransportDispatchError<E> {
    /// Adapter-specific error.
    Error(E),
    /// Transport-layer state transition that is no response.
    Outcome(TransportOutcome),
}

/// What a dispatch error says.
pub enum DispatchErrorView<E> {
    Error(E),
    Outcome(OutcomeView),
}

impl<E> View for TransportDispatchError<E> {
    type V = DispatchErrorView<E>;

    open spec fn view(&self) -> DispatchErrorView<E> {
        match self {
            TransportDispatchError::Error(e) => DispatchErrorView::Error(*e),
            TransportDispatchError::Outcome(o) => DispatchErrorView::Outcome(o@),
        }
    }
}

impl<E: TransportErrorExt> TransportDispatchError<E> {
    /// Project to the [`TransportErrorKind`] vocabulary: the adapter's own
    /// classification, or the kind of the outcome.
    pub fn kind(&self) -> (r: TransportErrorKind)
        ensures
            self matches TransportDispatchError::Error(e) ==> call_ensures(E::kind, (&e,), r),
            self matches TransportDispatchError::Outcome(o) ==> r == match o@.kind() {
                Some(k) => k,
                None => TransportErrorKind::Backend,
            },
    {
        match self {
            TransportDispatchError::Error(error) => error.kind(),
            TransportDispatchError::Outcome(outcome) => match outcome.kind() {
                Some(k) => k,
                None => TransportErrorKind::Backend,
            },
        }
    }
}

/// One performed exchange: the command that went out and what came back.
pub struct Exchange<E> {
    pub command: Seq<u8>,
    pub le_retry: bool,
    pub reply: Result<OutcomeView, E>,
}

/// The view of a transmit result.
pub open spec fn outcome_view<E>(r: Result<TransportOutcome, E>) -> Result<OutcomeView, E> {
    match r {
        Ok(o) => Ok(o@),
        Err(e) => Err(e),
    }
}

/// The view of a dispatch result.
pub open spec fn dispatch_view<E>(r: Result<ResponseApdu, TransportDispatchError<E>>) -> Result<
    ResponseView,
    DispatchErrorView<E>,
> {
    match r {
        Ok(x) => Ok(x@),
        Err(e) => Err(e@),
    }
}

impl<E> Exchange<E> {
    /// What a caller that needs a response gets from this exchange.
    pub open spec fn dispatched(self) -> Result<ResponseView, DispatchErrorView<E>> {
        match self.reply {
            Ok(OutcomeView::Response(r)) => Ok(r),
            Ok(o) => Err(DispatchErrorView::Outcome(o)),
            Err(e) => Err(DispatchErrorView::Error(e)),
        }
    }

    /// The card answered `9000`.
    pub open spec fn succeeded(self) -> bool {
        self.dispatched() matches Ok(r) && r.is_ok()
    }
}

/// The data of a exchange that was answered.
pub open spec fn body_of<E>(x: Exchange<E>) -> Seq<u8> {
    x.dispatched()->Ok_0.body
}

/// `after` is `before` with one more exchange, in which the raw command
/// `command` went out.
pub open spec fn sent<E>(before: Seq<Exchange<E>>, after: Seq<Exchange<E>>, command: Seq<u8>) -> bool {
    &&& after.len() == before.len() + 1
    &&& after.drop_last() == before
    &&& after.last().command == command
    &&& !after.last().le_retry
}

/// `after` continues `before`.
pub open spec fn continues<E>(before: Seq<Exchange<E>>, after: Seq<Exchange<E>>) -> bool {
    before.len() <= after.len() && after.take(before.len() as int) == before
}

/// The exchanges that `after` holds beyond `before`.
pub open spec fn news<E>(before: Seq<Exchange<E>>, after: Seq<Exchange<E>>) -> Seq<Exchange<E>> {
    after.skip(before.len() as int)
}

/// `new` is a run of the raw commands `commands` in order that stops at the
/// first command the card does not answer with `9000`.
pub open spec fn run_of<E>(new: Seq<Exchange<E>>, commands: Seq<Seq<u8>>) -> bool {
    &&& 1 <= new.len() <= commands.len()
    &&& forall|i: int|
        0 <= i < new.len() ==> (#[trigger] new[i]).command == commands[i] && !new[i].le_retry
    &&& forall|i: int| 0 <= i < new.len() - 1 ==> (#[trigger] new[i]).succeeded()
    &&& new.len() < commands.len() ==> !new.last().succeeded()
}

/// Every command of `commands` went out and was answered with `9000`.
pub open spec fn run_succeeded<E>(new: Seq<Exchange<E>>, commands: Seq<Seq<u8>>) -> bool {
    new.len() == commands.len() && new.last().succeeded()
}

/// A longer run extends a shorter one that succeeded.
pub proof fn lemma_run_extends<E>(
    first: Seq<Exchange<E>>,
    commands: Seq<Seq<u8>>,
    second: Seq<Exchange<E>>,
    more: Seq<Seq<u8>>,
)
    requires
        run_of(first, commands),
        run_succeeded(first, commands),
        run_of(second, more),
    ensures
        run_of(first + second, commands + more),
        run_succeeded(first + second, commands + more) <==> run_succeeded(second, more),
        (first + second).last() == second.last(),
{
    let new = first + second;
    let all = commands + more;
    assert forall|i: int| 0 <= i < new.len() implies (#[trigger] new[i]).command == all[i]
        && !new[i].le_retry by {
        if i < first.len() {
            assert(new[i] == first[i]);
        } else {
            assert(new[i] == second[i - first.len()]);
        }
    }
    assert forall|i: int| 0 <= i < new.len() - 1 implies (#[trigger] new[i]).succeeded() by {
        if i < first.len() - 1 {
            assert(new[i] == first[i]);
        } else if i == first.len() - 1 {
            assert(new[i] == first.last());
        } else {
            assert(new[i] == second[i - first.len()]);
        }
    }
}

/// A run that stopped early is also a run of any longer command list.
pub proof fn lemma_run_stopped<E>(first: Seq<Exchange<E>>, commands: Seq<Seq<u8>>, more: Seq<Seq<u8>>)
    requires
        run_of(first, commands),
        !run_succeeded(first, commands),
    ensures
        run_of(first, commands + more),
        more.len() > 0 ==> !run_succeeded(first, commands + more),
{
    let all = commands + more;
    assert forall|i: int| 0 <= i < first.len() implies (#[trigger] first[i]).command == all[i]
        && !first[i].le_retry by {
        assert(first[i].command == commands[i]);
    }
}

/// Send-and-receive APDU primitive. Implementations perform the transport-level
/// retries that do not surface to the protocol layer.
pub trait CardTransport {
    /// Adapter-specific error type.
    type Error: TransportErrorExt;

    /// Every exchange performed so far, oldest first. The body here is a placeholder that
    /// no exchange can meet: a verified adapter overrides it with its own record.
    open spec fn log(&self) -> Seq<Exchange<Self::Error>> {
        arbitrary()
    }

    /// Transmit the APDU and return either a response or a transport-level
    /// state transition.
    fn transmit_outcome(&mut self, apdu: &CommandApdu) -> (r: Result<TransportOutcome, Self::Error>)
        ensures
            final(self).log() == old(self).log().push(
                (Exchange {
                    command: apdu@,
                    le_retry: apdu.permits_le_retry(),
                    reply: outcome_view(r),
                }),
            ),
    ;

    /// Transmit a raw command for callers that require a response body and
    /// status pair. Other outcomes are surfaced explicitly.
    fn transmit(&mut self, apdu: &[u8]) -> (r: Result<
        ResponseApdu,
        TransportDispatchError<Self::Error>,
    >) where Self: Sized
        ensures
            sent(old(self).log(), final(self).log(), apdu@),
            dispatch_view(r) == final(self).log().last().dispatched(),
    {
        let command = CommandApdu::from_slice(apdu);
        let ghost before = self.log();
        let result = self.transmit_outcome(&command);
        assert(self.log().drop_last() =~= before);
        match result {
            Ok(outcome) => match outcome {
                TransportOutcome::Response(response) => Ok(response),
                other => Err(TransportDispatchError::Outcome(other)),
            },
            Err(e) => Err(TransportDispatchError::Error(e)),
        }
    }

    /// The card's answer to reset.
    fn atr(&self) -> Result<Atr, AtrError>;
}

/// Everything one more exchange says about the history.
pub proof fn lemma_sent<E>(before: Seq<Exchange<E>>, after: Seq<Exchange<E>>, command: Seq<u8>)
    requires
        sent(before, after, command),
    ensures
        continues(before, after),
        news(before, after) == seq![after.last()],
        run_of(news(before, after), seq![command]),
        run_succeeded(news(before, after), seq![command]) == after.last().succeeded(),
{
    assert(after.take(before.len() as int) =~= after.drop_last());
    assert(news(before, after) =~= seq![after.last()]);
}

/// Histories compose.
pub proof fn lemma_continues<E>(a: Seq<Exchange<E>>, b: Seq<Exchange<E>>, c: Seq<Exchange<E>>)
    requires
        continues(a, b),
        continues(b, c),
    ensures
        continues(a, c),
        news(a, c) == news(a, b) + news(b, c),
{
    assert(c.take(a.len() as int) =~= a) by {
        assert forall|i: int| 0 <= i < a.len() implies c[i] == a[i] by {
            assert(b[i] == a[i]) by {
                assert(b.take(a.len() as int)[i] == a[i]);
            }
            assert(c.take(b.len() as int)[i] == b[i]);
        }
    }
    assert(news(a, c) =~= news(a, b) + news(b, c)) by {
        assert forall|i: int| 0 <= i < c.len() - a.len() implies news(a, c)[i] == (news(a, b)
            + news(b, c))[i] by {
            if a.len() + i < b.len() {
                assert(c.take(b.len() as int)[a.len() + i] == b[a.len() + i]);
            }
        }
    }
}

/// A status word is its first byte times 256 plus its second; only `90 00` is success.
pub proof fn law_status_bytes(r: ResponseView)
    ensures
        r.sw() == 256 * r.sw1 + r.sw2,
        r.is_ok() <==> r.sw() == 0x9000,
{
}

/// A caller that needs a response gets the one that came; every other outcome and every
/// fault of the adapter is an error that keeps what happened. An exchange succeeded exactly
/// if the response was `9000`.
pub proof fn law_only_responses_are_dispatched<E>(x: Exchange<E>)
    ensures
        x.reply matches Ok(OutcomeView::Response(r)) ==> x.dispatched() == Ok::<
            ResponseView,
            DispatchErrorView<E>,
        >(r) && body_of(x) == r.body,
        x.reply matches Ok(o) ==> !(o is Response) ==> x.dispatched() == Err::<
            ResponseView,
            DispatchErrorView<E>,
        >(DispatchErrorView::Outcome(o)),
        x.reply matches Err(e) ==> x.dispatched() == Err::<ResponseView, DispatchErrorView<E>>(
            DispatchErrorView::Error(e),
        ),
        x.succeeded() <==> (x.reply matches Ok(OutcomeView::Response(r)) && 256 * r.sw1 + r.sw2
            == 0x9000),
{
}

/// Each outcome that is no response has the kind of its own name; a response has none.
pub proof fn law_outcome_kinds(o: OutcomeView)
    ensures
        o.kind() is None <==> o is Response,
        o.kind() == Some(TransportErrorKind::NoCard) <==> o is NoCard,
        o.kind() == Some(TransportErrorKind::TimeoutUnknownState) <==> o is TimeoutUnknownState,
        o.kind() == Some(TransportErrorKind::CardReset) <==> o is CardReset,
        o.kind() == Some(TransportErrorKind::ProtocolDesync) <==> o is ProtocolDesync,
        o.kind() == Some(TransportErrorKind::ReaderRemoved) <==> o is ReaderRemoved,
        o.kind() != Some(TransportErrorKind::Backend),
{
}

/// A run of commands sends them one by one from the first on, and none behind one that the
/// card did not confirm; it is complete exactly if every one was sent and confirmed.
pub proof fn law_run_stops_at_a_refusal<E>(new: Seq<Exchange<E>>, commands: Seq<Seq<u8>>)
    requires
        run_of(new, commands),
    ensures
        forall|i: int| 0 <= i < new.len() ==> (#[trigger] new[i]).command == commands[i],
        forall|i: int|
            0 <= i < new.len() && !(#[trigger] new[i]).succeeded() ==> i == new.len() - 1,
        run_succeeded(new, commands) <==> new.len() == commands.len() && forall|i: int|
            0 <= i < new.len() ==> (#[trigger] new[i]).succeeded(),
        !run_succeeded(new, commands) ==> !new[new.len() - 1].succeeded(),
{
}

} // verus!
