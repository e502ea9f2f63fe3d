//! The T=0 reader conventions: `61xx` GET RESPONSE chaining and the one permitted
//! `6Cxx` wrong-`Le` correction.

use crate::apdu::{get_response_bytes, ApduClass, GetResponse};
use crate::bytes::{copy_range, push_all};
use crate::transport::{CommandApdu, OutcomeView, ResponseApdu, ResponseView, TransportErrorExt,
    TransportErrorKind, TransportOutcome};
use vstd::prelude::*;
use vstd::string::*;

verus! {

/// Largest response data field of an extended-length exchange.
pub const EXTENDED_RESPONSE_DATA_MAX_BYTES: usize = 65536;

/// First status byte of "more response bytes available".
pub const SW1_BYTES_AVAILABLE: u8 = 0x61;

/// First status byte of "wrong expected length".
pub const SW1_WRONG_LE: u8 = 0x6C;

/// Class, instruction, two parameters and the data length.
pub const HEADER_AND_LC_BYTES: usize = 5;

/// A short command with data and an expected length: header, `Lc`, that many
/// data bytes, `Le`.
pub open spec fn is_short_case4(bytes: Seq<u8>) -> bool {
    &&& bytes.len() >= HEADER_AND_LC_BYTES
    &&& bytes[4] != 0
    &&& bytes.len() == HEADER_AND_LC_BYTES + bytes[4] + 1
}

/// Convert a short command with data and expected length into the command
/// without expected length that T=0 readers accept. `None` for every other
/// shape.
pub fn t0_case3_from_short_case4(apdu: &CommandApdu) -> (r: Option<CommandApdu>)
    ensures
        r is Some <==> is_short_case4(apdu@),
        r matches Some(c) ==> c@ == apdu@.drop_last() && !c.permits_le_retry(),
{
    let bytes = apdu.as_bytes();
    if bytes.len() < HEADER_AND_LC_BYTES {
        return None;
    }
    let lc: usize = bytes[4] as usize;
    if lc == 0 {
        return None;
    }
    let case4_len: usize = HEADER_AND_LC_BYTES + lc + 1;
    if bytes.len() != case4_len {
        return None;
    }
    let out = copy_range(bytes, 0, bytes.len() - 1);
    assert(out@ =~= apdu@.drop_last());
    Some(CommandApdu::new(out))
}

/// What goes to the reader for `apdu`: over T=0 a short command with data and
/// expected length loses the expected length.
pub open spec fn physical_bytes(apdu: Seq<u8>, over_t0: bool) -> Seq<u8> {
    if over_t0 && is_short_case4(apdu) {
        apdu.drop_last()
    } else {
        apdu
    }
}

/// The command that goes to the reader for `apdu`. A command that is sent as it is
/// keeps its permission to be corrected.
pub fn physical_command(apdu: &CommandApdu, over_t0: bool) -> (r: CommandApdu)
    ensures
        r@ == physical_bytes(apdu@, over_t0),
        r.permits_le_retry() == (apdu.permits_le_retry() && !(over_t0 && is_short_case4(apdu@))),
{
    if over_t0 {
        match t0_case3_from_short_case4(apdu) {
            Some(shorter) => return shorter,
            None => {},
        }
    }
    apdu.clone()
}

/// Which PC/SC condition a fault reports.
#[derive(Debug, Clone, Copy, PartialEq, Eq, Structural)]
pub enum PcscFaultKind {
    /// No card in the reader.
    NoSmartcard,
    /// The card was removed.
    RemovedCard,
    /// The card was reset.
    ResetCard,
    /// No reader is connected.
    NoReadersAvailable,
    /// The wait ended before anything changed.
    Timeout,
    /// The service does not know a value it was given.
    InvalidValue,
    /// The service does not accept a parameter it was given.
    InvalidParameter,
    /// Any other PC/SC error.
    Other,
}

/// A fault that the PC/SC service reported, with its own description.
#[derive(Debug, PartialEq, Eq)]
pub struct PcscFault {
    /// The condition.
    pub kind: PcscFaultKind,
    /// The service's description.
    pub text: String,
}

/// PC/SC adapter errors.
#[derive(Debug, PartialEq, Eq)]
pub enum PcscError {
    /// The PC/SC service failed.
    Pcsc(PcscFault),
    /// Transport-layer logic error.
    Transport(String),
}

/// What an adapter error says.
#[verifier::ext_equal]
pub enum PcscErrorView {
    Pcsc(PcscFaultKind, Seq<char>),
    Transport(Seq<char>),
}

impl View for PcscError {
    type V = PcscErrorView;

    open spec fn view(&self) -> PcscErrorView {
        match self {
            PcscError::Pcsc(f) => PcscErrorView::Pcsc(f.kind, f.text@),
            PcscError::Transport(s) => PcscErrorView::Transport(s@),
        }
    }
}

impl TransportErrorExt for PcscError {
    fn kind(&self) -> (r: TransportErrorKind)
        ensures
            r == match self@ {
                PcscErrorView::Pcsc(PcscFaultKind::NoSmartcard, _) => TransportErrorKind::NoCard,
                PcscErrorView::Pcsc(
                    PcscFaultKind::RemovedCard,
                    _,
                ) => TransportErrorKind::ReaderRemoved,
                PcscErrorView::Pcsc(PcscFaultKind::ResetCard, _) => TransportErrorKind::CardReset,
                _ => TransportErrorKind::Backend,
            },
    {
        match self {
            PcscError::Pcsc(fault) => match fault.kind {
                PcscFaultKind::NoSmartcard => TransportErrorKind::NoCard,
                PcscFaultKind::RemovedCard => TransportErrorKind::ReaderRemoved,
                PcscFaultKind::ResetCard => TransportErrorKind::CardReset,
                _ => TransportErrorKind::Backend,
            },
            PcscError::Transport(_) => TransportErrorKind::Backend,
        }
    }
}

impl PcscError {
    /// The diagnostic text of the error.
    pub fn message(&self) -> (r: String)
        ensures
            r@ == match self@ {
                PcscErrorView::Pcsc(_, text) => "PCSC: "@ + text,
                PcscErrorView::Transport(text) => "PCSC transport: "@ + text,
            },
    {
        match self {
            PcscError::Pcsc(fault) => "PCSC: ".to_owned().concat(fault.text.as_str()),
            PcscError::Transport(text) => "PCSC transport: ".to_owned().concat(text.as_str()),
        }
    }
}

/// Non-continuable result of one transmit call.
#[derive(Debug, PartialEq, Eq)]
pub enum TransmitBreak {
    /// A terminal transport state.
    Outcome(TransportOutcome),
    /// A hard adapter error.
    Error(PcscError),
}

impl TransmitBreak {
    /// Card-state faults end an exchange as an outcome; every other fault is a
    /// hard error.
    pub fn from_fault(fault: PcscFault) -> (r: TransmitBreak)
        ensures
            raw_view(Err(r)) == match fault.kind {
                PcscFaultKind::NoSmartcard => RawReply::Outcome(OutcomeView::NoCard),
                PcscFaultKind::RemovedCard => RawReply::Outcome(OutcomeView::ReaderRemoved),
                PcscFaultKind::ResetCard => RawReply::Outcome(OutcomeView::CardReset),
                other => RawReply::Error(PcscErrorView::Pcsc(other, fault.text@)),
            },
    {
        match fault.kind {
            PcscFaultKind::NoSmartcard => TransmitBreak::Outcome(TransportOutcome::NoCard),
            PcscFaultKind::RemovedCard => TransmitBreak::Outcome(TransportOutcome::ReaderRemoved),
            PcscFaultKind::ResetCard => TransmitBreak::Outcome(TransportOutcome::CardReset),
            _ => TransmitBreak::Error(PcscError::Pcsc(fault)),
        }
    }
}

/// What one physical transmit brought back.
#[verifier::ext_equal]
pub enum RawReply {
    /// Data followed by the two status bytes.
    Bytes(Seq<u8>),
    Outcome(OutcomeView),
    Error(PcscErrorView),
}

/// The view of one transmit result.
pub open spec fn raw_view(r: Result<Vec<u8>, TransmitBreak>) -> RawReply {
    match r {
        Ok(bytes) => RawReply::Bytes(bytes@),
        Err(TransmitBreak::Outcome(o)) => RawReply::Outcome(o@),
        Err(TransmitBreak::Error(e)) => RawReply::Error(e@),
    }
}

/// One physical transmit: the bytes that went out and what came back.
#[verifier::ext_equal]
pub struct T0Exchange {
    pub command: Seq<u8>,
    pub reply: RawReply,
}

/// The primitive that the exchange loop drives: send one command, receive its
/// raw response (data followed by the two status bytes).
pub trait T0Transmitter {
    /// Every physical transmit so far, oldest first. The body here is a placeholder that no
    /// transmit can meet: a verified transmitter overrides it with its own record.
    open spec fn wire(&self) -> Seq<T0Exchange> {
        arbitrary()
    }

    /// Transmit `apdu`.
    fn transmit(&mut self, apdu: &[u8]) -> (r: Result<Vec<u8>, TransmitBreak>)
        ensures
            final(self).wire() == old(self).wire().push(
                (T0Exchange { command: apdu@, reply: raw_view(r) }),
            ),
    ;
}

/// How a logical exchange ends.
#[verifier::ext_equal]
pub enum Ending {
    Outcome(OutcomeView),
    Error(PcscErrorView),
}

/// The view of the result of a logical exchange.
pub open spec fn ending(r: Result<TransportOutcome, PcscError>) -> Ending {
    match r {
        Ok(o) => Ending::Outcome(o@),
        Err(e) => Ending::Error(e@),
    }
}

/// The response that raw bytes carry: all but the last two bytes are data.
pub open spec fn response_of(raw: Seq<u8>) -> ResponseView
    recommends
        raw.len() >= 2,
{
    ResponseView {
        body: raw.take(raw.len() - 2),
        sw1: raw[raw.len() - 2],
        sw2: raw[raw.len() - 1],
    }
}

pub open spec fn chain_overrun() -> PcscErrorView {
    PcscErrorView::Transport("61xx GET RESPONSE chain exceeded 64 KiB"@)
}

pub open spec fn chain_stalled() -> PcscErrorView {
    PcscErrorView::Transport("card signalled 61xx but returned no bytes (stalled chain)"@)
}

/// `wire` is a complete GET RESPONSE chain that starts with the data `have` and
/// asks for `le` bytes first, and it ends in `end`. Each `61xx` reply that
/// carries data asks for the next part; a reply without data, or one that takes
/// the total past the ceiling, ends the chain in an error; any other status ends
/// it with everything collected.
pub open spec fn chain_run(have: Seq<u8>, le: u8, wire: Seq<T0Exchange>, end: Ending) -> bool
    decreases wire.len(),
{
    &&& wire.len() > 0
    &&& wire[0].command == get_response_bytes(ApduClass::Plain, le)
    &&& match wire[0].reply {
        RawReply::Outcome(o) => wire.len() == 1 && end == Ending::Outcome(o),
        RawReply::Error(e) => wire.len() == 1 && end == Ending::Error(e),
        RawReply::Bytes(raw) => if raw.len() < 2 {
            wire.len() == 1 && end == Ending::Outcome(OutcomeView::ProtocolDesync)
        } else {
            let reply = response_of(raw);
            let all = have + reply.body;
            if all.len() > EXTENDED_RESPONSE_DATA_MAX_BYTES {
                wire.len() == 1 && end == Ending::Error(chain_overrun())
            } else if reply.sw1 != SW1_BYTES_AVAILABLE {
                wire.len() == 1 && end == Ending::Outcome(
                    OutcomeView::Response(
                        ResponseView { body: all, sw1: reply.sw1, sw2: reply.sw2 },
                    ),
                )
            } else if reply.body.len() == 0 {
                wire.len() == 1 && end == Ending::Error(chain_stalled())
            } else {
                chain_run(all, reply.sw2, wire.skip(1), end)
            }
        },
    }
}

/// `command` with its last byte replaced by `le`.
pub open spec fn with_le(command: Seq<u8>, le: u8) -> Seq<u8> {
    command.update(command.len() - 1, le)
}

/// `wire` is the complete exchange for `command` and it ends in `end`. A `6Cxx`
/// reply to a command that permits it is answered by one resend with `xx` as the
/// last byte; a `61xx` reply starts a GET RESPONSE chain; every other reply is
/// handed back.
pub open spec fn t0_run(
    command: Seq<u8>,
    le_retry: bool,
    wire: Seq<T0Exchange>,
    end: Ending,
) -> bool
    decreases wire.len(),
{
    &&& wire.len() > 0
    &&& wire[0].command == command
    &&& match wire[0].reply {
        RawReply::Outcome(o) => wire.len() == 1 && end == Ending::Outcome(o),
        RawReply::Error(e) => wire.len() == 1 && end == Ending::Error(e),
        RawReply::Bytes(raw) => if raw.len() < 2 {
            wire.len() == 1 && end == Ending::Outcome(OutcomeView::ProtocolDesync)
        } else {
            let reply = response_of(raw);
            if reply.sw1 == SW1_WRONG_LE && le_retry {
                t0_run(with_le(command, reply.sw2), false, wire.skip(1), end)
            } else if reply.sw1 == SW1_BYTES_AVAILABLE {
                chain_run(reply.body, reply.sw2, wire.skip(1), end)
            } else {
                wire.len() == 1 && end == Ending::Outcome(OutcomeView::Response(reply))
            }
        },
    }
}

/// `after` holds `before` and then `wire`.
pub open spec fn extended_by(
    before: Seq<T0Exchange>,
    after: Seq<T0Exchange>,
    wire: Seq<T0Exchange>,
) -> bool {
    after == before + wire
}

proof fn lemma_step(first: T0Exchange, rest: Seq<T0Exchange>)
    ensures
        (seq![first] + rest)[0] == first,
        (seq![first] + rest).skip(1) == rest,
{
    assert((seq![first] + rest).skip(1) =~= rest);
}

/// Split a raw response into data and status bytes; `None` when it is too short
/// to hold the status.
fn split_status(raw: Vec<u8>) -> (r: Option<ResponseApdu>)
    ensures
        r is Some <==> raw@.len() >= 2,
        r matches Some(x) ==> x@ == response_of(raw@),
{
    if raw.len() < 2 {
        return None;
    }
    let n: usize = raw.len() - 2;
    let sw1: u8 = raw[n];
    let sw2: u8 = raw[n + 1];
    let body = copy_range(raw.as_slice(), 0, n);
    assert(body@ =~= raw@.take(n as int));
    Some(ResponseApdu { body, sw1, sw2 })
}

/// What is left of a chain that started with `first` and `first_le` once the
/// transmits `done` have collected `have` and the card announced `le`: any
/// complete chain from here completes the whole.
spec fn chain_pending(
    first: Seq<u8>,
    first_le: u8,
    done: Seq<T0Exchange>,
    have: Seq<u8>,
    le: u8,
) -> bool {
    forall|rest: Seq<T0Exchange>, end: Ending|
        #[trigger] chain_run(have, le, rest, end) ==> chain_run(first, first_le, done + rest, end)
}

/// One more data-carrying `61xx` reply keeps the chain pending.
proof fn lemma_chain_step(
    first: Seq<u8>,
    first_le: u8,
    done: Seq<T0Exchange>,
    have: Seq<u8>,
    le: u8,
    step: T0Exchange,
)
    requires
        chain_pending(first, first_le, done, have, le),
        step.command == get_response_bytes(ApduClass::Plain, le),
        step.reply is Bytes,
        step.reply->Bytes_0.len() >= 2,
        response_of(step.reply->Bytes_0).sw1 == SW1_BYTES_AVAILABLE,
        response_of(step.reply->Bytes_0).body.len() > 0,
        (have + response_of(step.reply->Bytes_0).body).len() <= EXTENDED_RESPONSE_DATA_MAX_BYTES,
    ensures
        chain_pending(
            first,
            first_le,
            done.push(step),
            have + response_of(step.reply->Bytes_0).body,
            response_of(step.reply->Bytes_0).sw2,
        ),
{
    let reply = response_of(step.reply->Bytes_0);
    let all = have + reply.body;
    assert forall|rest: Seq<T0Exchange>, end: Ending| #[trigger]
        chain_run(all, reply.sw2, rest, end) implies chain_run(
        first,
        first_le,
        done.push(step) + rest,
        end,
    ) by {
        let longer = seq![step] + rest;
        lemma_step(step, rest);
        assert(chain_run(have, le, longer, end));
        assert(done + longer =~= done.push(step) + rest);
    }
}

/// Collect the rest of a response with GET RESPONSE until the card ends the
/// chain.
fn run_chain<T: T0Transmitter>(transmitter: &mut T, first: Vec<u8>, le: u8) -> (r: Result<
    TransportOutcome,
    PcscError,
>)
    ensures
        exists|wire: Seq<T0Exchange>|
            #![trigger extended_by(old(transmitter).wire(), final(transmitter).wire(), wire)]
            extended_by(old(transmitter).wire(), final(transmitter).wire(), wire) && chain_run(
                first@,
                le,
                wire,
                ending(r),
            ),
{
    let ghost before = transmitter.wire();
    let ghost start = first@;
    let ghost mut done: Seq<T0Exchange> = Seq::empty();
    let mut combined = first;
    let mut next_le: u8 = le;
    proof {
        assert(before + done =~= before);
        assert forall|rest: Seq<T0Exchange>, end: Ending| #[trigger]
            chain_run(start, le, rest, end) implies chain_run(start, le, done + rest, end) by {
            assert(done + rest =~= rest);
        }
    }
    loop
        invariant
            before == old(transmitter).wire(),
            start == first@,
            transmitter.wire() == before + done,
            chain_pending(start, le, done, combined@, next_le),
        decreases EXTENDED_RESPONSE_DATA_MAX_BYTES + 1 - combined@.len(),
    {
        let command = GetResponse::new(ApduClass::Plain, next_le).into_apdu();
        let result = transmitter.transmit(command.as_bytes());
        let ghost step = T0Exchange { command: command@, reply: raw_view(result) };
        let ghost one = seq![step];
        proof {
            assert(transmitter.wire() =~= before + (done + one));
            assert(one[0] == step);
            assert(extended_by(before, transmitter.wire(), done + one));
        }
        let raw = match result {
            Ok(raw) => raw,
            Err(TransmitBreak::Outcome(outcome)) => {
                assert(chain_run(combined@, next_le, one, Ending::Outcome(outcome@)));
                return Ok(outcome);
            },
            Err(TransmitBreak::Error(e)) => {
                assert(chain_run(combined@, next_le, one, Ending::Error(e@)));
                return Err(e);
            },
        };
        let reply = match split_status(raw) {
            Some(reply) => reply,
            None => {
                assert(chain_run(
                    combined@,
                    next_le,
                    one,
                    Ending::Outcome(OutcomeView::ProtocolDesync),
                ));
                return Ok(TransportOutcome::ProtocolDesync);
            },
        };
        if combined.len() > EXTENDED_RESPONSE_DATA_MAX_BYTES || reply.body.len()
            > EXTENDED_RESPONSE_DATA_MAX_BYTES - combined.len() {
            let e = PcscError::Transport("61xx GET RESPONSE chain exceeded 64 KiB".to_owned());
            assert(chain_run(combined@, next_le, one, Ending::Error(e@)));
            return Err(e);
        }
        let ghost have = combined@;
        push_all(&mut combined, reply.body.as_slice());
        if reply.sw1 != SW1_BYTES_AVAILABLE {
            let out = TransportOutcome::Response(
                ResponseApdu { body: combined, sw1: reply.sw1, sw2: reply.sw2 },
            );
            assert(chain_run(have, next_le, one, Ending::Outcome(out@)));
            return Ok(out);
        }
        if reply.body.len() == 0 {
            let e = PcscError::Transport(
                "card signalled 61xx but returned no bytes (stalled chain)".to_owned(),
            );
            assert(chain_run(have, next_le, one, Ending::Error(e@)));
            return Err(e);
        }
        proof {
            lemma_chain_step(start, le, done, have, next_le, step);
            assert(done.push(step) =~= done + one);
            done = done.push(step);
        }
        next_le = reply.sw2;
    }
}

/// Drive one logical exchange: the permitted wrong-`Le` correction, then GET
/// RESPONSE chaining bounded by progress and the response ceiling. The physical
/// transmits and the result are those that [`t0_run`] describes.
pub fn run_t0_exchange<T: T0Transmitter>(transmitter: &mut T, apdu: &CommandApdu) -> (r: Result<
    TransportOutcome,
    PcscError,
>)
    ensures
        exists|wire: Seq<T0Exchange>|
            #![trigger extended_by(old(transmitter).wire(), final(transmitter).wire(), wire)]
            extended_by(old(transmitter).wire(), final(transmitter).wire(), wire) && t0_run(
                apdu@,
                apdu.permits_le_retry(),
                wire,
                ending(r),
            ),
    decreases (if apdu.permits_le_retry() { 1int } else { 0int }),
{
    let ghost before = transmitter.wire();
    let ghost retry = apdu.permits_le_retry();
    let result = transmitter.transmit(apdu.as_bytes());
    let ghost step = T0Exchange { command: apdu@, reply: raw_view(result) };
    let ghost one = seq![step];
    proof {
        assert(transmitter.wire() =~= before + one);
        assert(one[0] == step);
        assert(extended_by(before, transmitter.wire(), one));
    }
    let raw = match result {
        Ok(raw) => raw,
        Err(TransmitBreak::Outcome(outcome)) => {
            assert(t0_run(apdu@, retry, one, Ending::Outcome(outcome@)));
            return Ok(outcome);
        },
        Err(TransmitBreak::Error(e)) => {
            assert(t0_run(apdu@, retry, one, Ending::Error(e@)));
            return Err(e);
        },
    };
    let reply = match split_status(raw) {
        Some(reply) => reply,
        None => {
            assert(t0_run(apdu@, retry, one, Ending::Outcome(OutcomeView::ProtocolDesync)));
            return Ok(TransportOutcome::ProtocolDesync);
        },
    };
    let ghost middle = transmitter.wire();
    if reply.sw1 == SW1_WRONG_LE {
        if let Some(corrected) = apdu.corrected_wrong_le(reply.sw2) {
            let r = run_t0_exchange(transmitter, &corrected);
            proof {
                let rest = choose|w: Seq<T0Exchange>|
                    #![trigger extended_by(middle, transmitter.wire(), w)]
                    extended_by(middle, transmitter.wire(), w) && t0_run(
                        corrected@,
                        false,
                        w,
                        ending(r),
                    );
                let wire = one + rest;
                lemma_step(step, rest);
                assert(transmitter.wire() =~= before + wire);
                assert(extended_by(before, transmitter.wire(), wire));
                assert(t0_run(apdu@, retry, wire, ending(r)));
            }
            return r;
        }
    }
    if reply.sw1 == SW1_BYTES_AVAILABLE {
        let ghost body = reply.body@;
        let ghost le = reply.sw2;
        let r = run_chain(transmitter, reply.body, reply.sw2);
        proof {
            let rest = choose|w: Seq<T0Exchange>|
                #![trigger extended_by(middle, transmitter.wire(), w)]
                extended_by(middle, transmitter.wire(), w) && chain_run(body, le, w, ending(r));
            let wire = one + rest;
            lemma_step(step, rest);
            assert(transmitter.wire() =~= before + wire);
            assert(extended_by(before, transmitter.wire(), wire));
            assert(t0_run(apdu@, retry, wire, ending(r)));
        }
        return r;
    }
    let out = TransportOutcome::Response(reply);
    assert(t0_run(apdu@, retry, one, Ending::Outcome(out@)));
    Ok(out)
}

/// `command` is a GET RESPONSE.
pub open spec fn is_get_response(command: Seq<u8>) -> bool {
    exists|x: u8| command == #[trigger] get_response_bytes(ApduClass::Plain, x)
}

/// A chain never resends: every transmit of it is a GET RESPONSE.
pub proof fn law_chain_sends_only_get_response(have: Seq<u8>, le: u8, wire: Seq<T0Exchange>, end: Ending)
    requires
        chain_run(have, le, wire, end),
    ensures
        forall|i: int|
            0 <= i < wire.len() ==> is_get_response((#[trigger] wire[i]).command),
    decreases wire.len(),
{
    assert forall|i: int| 0 <= i < wire.len() implies is_get_response((#[trigger] wire[i]).command) by {
        if i == 0 {
            assert(wire[0].command == get_response_bytes(ApduClass::Plain, le));
        } else {
            assert(wire[0].reply is Bytes);
            let raw = wire[0].reply->Bytes_0;
            let reply = response_of(raw);
            law_chain_sends_only_get_response(have + reply.body, reply.sw2, wire.skip(1), end);
            assert(wire.skip(1)[i - 1] == wire[i]);
        }
    }
}

/// A command that permits no correction goes out exactly once: every further
/// transmit of its exchange is a GET RESPONSE.
pub proof fn law_raw_command_is_sent_once(command: Seq<u8>, wire: Seq<T0Exchange>, end: Ending)
    requires
        t0_run(command, false, wire, end),
    ensures
        wire[0].command == command,
        forall|i: int|
            1 <= i < wire.len() ==> is_get_response((#[trigger] wire[i]).command),
{
    assert forall|i: int| 1 <= i < wire.len() implies is_get_response((#[trigger] wire[i]).command) by {
        let reply = response_of(wire[0].reply->Bytes_0);
        law_chain_sends_only_get_response(reply.body, reply.sw2, wire.skip(1), end);
        assert(wire.skip(1)[i - 1] == wire[i]);
    }
}

/// A correction is spent by its one use: a command that permits one goes out at
/// most twice, the second time with only its last byte replaced, and every other
/// transmit of its exchange is a GET RESPONSE.
pub proof fn law_correction_is_spent_once(command: Seq<u8>, wire: Seq<T0Exchange>, end: Ending)
    requires
        t0_run(command, true, wire, end),
    ensures
        wire[0].command == command,
        wire.len() > 1 ==> {
            ||| is_get_response(wire[1].command)
            ||| exists|x: u8| wire[1].command == #[trigger] with_le(command, x)
        },
        forall|i: int|
            2 <= i < wire.len() ==> is_get_response((#[trigger] wire[i]).command),
{
    if wire.len() > 1 {
        let reply = response_of(wire[0].reply->Bytes_0);
        let rest = wire.skip(1);
        assert(rest[0] == wire[1]);
        if reply.sw1 == SW1_WRONG_LE {
            let corrected = with_le(command, reply.sw2);
            law_raw_command_is_sent_once(corrected, rest, end);
            assert(wire[1].command == with_le(command, reply.sw2));
            assert forall|i: int| 2 <= i < wire.len() implies is_get_response((#[trigger] wire[i]).command) by {
                assert(rest[i - 1] == wire[i]);
            }
        } else {
            law_chain_sends_only_get_response(reply.body, reply.sw2, rest, end);
            assert forall|i: int| 1 <= i < wire.len() implies is_get_response((#[trigger] wire[i]).command) by {
                assert(rest[i - 1] == wire[i]);
            }
        }
    }
}

/// The data of raw replies, one after the other.
pub open spec fn collected(wire: Seq<T0Exchange>) -> Seq<u8>
    decreases wire.len(),
{
    if wire.len() == 0 {
        Seq::empty()
    } else {
        response_of(wire[0].reply->Bytes_0).body + collected(wire.skip(1))
    }
}

/// A chain ends: it takes no more transmits than there are bytes left up to the
/// ceiling, and one more. When it ends in a response, that holds the data of every
/// reply in order and stays under the ceiling.
pub proof fn law_chain_is_bounded(have: Seq<u8>, le: u8, wire: Seq<T0Exchange>, end: Ending)
    requires
        chain_run(have, le, wire, end),
    ensures
        have.len() <= EXTENDED_RESPONSE_DATA_MAX_BYTES ==> wire.len()
            <= EXTENDED_RESPONSE_DATA_MAX_BYTES - have.len() + 1,
        have.len() > EXTENDED_RESPONSE_DATA_MAX_BYTES ==> wire.len() == 1,
        end matches Ending::Outcome(OutcomeView::Response(r)) ==> (wire.last().reply is Bytes ==> {
            &&& r.body == have + collected(wire)
            &&& r.body.len() <= EXTENDED_RESPONSE_DATA_MAX_BYTES
        }),
    decreases wire.len(),
{
    reveal_with_fuel(chain_run, 2);
    let rest = wire.skip(1);
    if wire[0].reply is Bytes && wire[0].reply->Bytes_0.len() >= 2 {
        let reply = response_of(wire[0].reply->Bytes_0);
        let all = have + reply.body;
        if all.len() <= EXTENDED_RESPONSE_DATA_MAX_BYTES && reply.sw1 == SW1_BYTES_AVAILABLE
            && reply.body.len() > 0 {
            law_chain_is_bounded(all, reply.sw2, rest, end);
            assert(rest.last() == wire.last());
        } else {
            assert(rest =~= Seq::empty());
        }
        assert(have + collected(wire) =~= all + collected(rest));
        assert(all + Seq::<u8>::empty() =~= all);
    }
}

/// An exchange ends, whatever the card answers: the command, its one correction, and
/// a bounded chain.
pub proof fn law_exchange_is_bounded(
    command: Seq<u8>,
    le_retry: bool,
    wire: Seq<T0Exchange>,
    end: Ending,
)
    requires
        t0_run(command, le_retry, wire, end),
    ensures
        wire.len() <= EXTENDED_RESPONSE_DATA_MAX_BYTES + 3,
{
    reveal_with_fuel(t0_run, 2);
    if wire[0].reply is Bytes && wire[0].reply->Bytes_0.len() >= 2 {
        let reply = response_of(wire[0].reply->Bytes_0);
        let rest = wire.skip(1);
        if reply.sw1 == SW1_WRONG_LE && le_retry {
            let second = response_of(rest[0].reply->Bytes_0);
            if rest[0].reply is Bytes && rest[0].reply->Bytes_0.len() >= 2 && second.sw1
                == SW1_BYTES_AVAILABLE {
                law_chain_is_bounded(second.body, second.sw2, rest.skip(1), end);
            }
        } else if reply.sw1 == SW1_BYTES_AVAILABLE {
            law_chain_is_bounded(reply.body, reply.sw2, rest, end);
        }
    }
}

/// The raw bytes of a reply: its data and then its two status bytes.
pub open spec fn raw_reply(data: Seq<u8>, sw1: u8, sw2: u8) -> RawReply {
    RawReply::Bytes(data + seq![sw1, sw2])
}

proof fn lemma_raw_reply(data: Seq<u8>, sw1: u8, sw2: u8)
    ensures
        response_of(data + seq![sw1, sw2]) == (ResponseView { body: data, sw1, sw2 }),
        (data + seq![sw1, sw2]).len() == data.len() + 2,
{
    assert((data + seq![sw1, sw2]).take(data.len() as int) =~= data);
}

/// A reply that neither announces data nor corrects a length ends the exchange and is
/// handed back as it is. A correction is handed back where none is permitted.
pub proof fn law_reply_is_handed_back(
    command: Seq<u8>,
    le_retry: bool,
    wire: Seq<T0Exchange>,
    end: Ending,
    data: Seq<u8>,
    sw1: u8,
    sw2: u8,
)
    requires
        t0_run(command, le_retry, wire, end),
        wire[0].reply == raw_reply(data, sw1, sw2),
        sw1 != 0x61,
        sw1 == 0x6C ==> !le_retry,
    ensures
        wire.len() == 1,
        wire[0].command == command,
        end == Ending::Outcome(OutcomeView::Response(ResponseView { body: data, sw1, sw2 })),
{
    lemma_raw_reply(data, sw1, sw2);
}

/// `6C` with a length has a permitted command sent again with that length as its last byte
/// and every other byte as it was; the second reply is not corrected again.
pub proof fn law_wrong_length_is_corrected(
    command: Seq<u8>,
    wire: Seq<T0Exchange>,
    end: Ending,
    data: Seq<u8>,
    right: u8,
)
    requires
        command.len() > 0,
        t0_run(command, true, wire, end),
        wire[0].reply == raw_reply(data, 0x6C, right),
    ensures
        wire.len() >= 2,
        wire[0].command == command,
        wire[1].command == command.subrange(0, command.len() - 1) + seq![right],
        t0_run(wire[1].command, false, wire.skip(1), end),
{
    lemma_raw_reply(data, 0x6C, right);
    reveal_with_fuel(t0_run, 2);
    assert(wire.skip(1)[0] == wire[1]);
    assert(with_le(command, right) =~= command.subrange(0, command.len() - 1) + seq![right]);
}

/// `61` with a length is followed by GET RESPONSE for that length, and the data of both
/// replies is handed back as one, with the status of the last.
pub proof fn law_announced_data_is_fetched(
    command: Seq<u8>,
    le_retry: bool,
    wire: Seq<T0Exchange>,
    end: Ending,
    data: Seq<u8>,
    length: u8,
    more: Seq<u8>,
    sw1: u8,
    sw2: u8,
)
    requires
        t0_run(command, le_retry, wire, end),
        wire[0].reply == raw_reply(data, 0x61, length),
        wire.len() >= 2 ==> wire[1].reply == raw_reply(more, sw1, sw2),
        sw1 != 0x61,
    ensures
        wire.len() == 2,
        wire[1].command == seq![0x00u8, 0xC0, 0x00, 0x00, length],
        data.len() + more.len() <= 65536 ==> end == Ending::Outcome(
            OutcomeView::Response(ResponseView { body: data + more, sw1, sw2 }),
        ),
        data.len() + more.len() > 65536 ==> end is Error,
{
    lemma_raw_reply(data, 0x61, length);
    lemma_raw_reply(more, sw1, sw2);
    reveal_with_fuel(chain_run, 2);
    assert(wire.skip(1)[0] == wire[1]);
}

/// Every link of a chain asks for as many bytes as the reply before it announced.
pub proof fn law_chain_asks_for_the_announced(
    have: Seq<u8>,
    le: u8,
    wire: Seq<T0Exchange>,
    end: Ending,
    i: int,
)
    requires
        chain_run(have, le, wire, end),
        0 <= i < wire.len(),
    ensures
        i == 0 ==> wire[i].command == seq![0x00u8, 0xC0, 0x00, 0x00, le],
        i > 0 ==> ({
            let raw = wire[i - 1].reply->Bytes_0;
            &&& wire[i - 1].reply is Bytes
            &&& raw.len() > 2 && raw[raw.len() - 2] == 0x61
            &&& wire[i].command == seq![0x00u8, 0xC0, 0x00, 0x00, raw[raw.len() - 1]]
        }),
    decreases wire.len(),
{
    if i > 0 {
        let reply = response_of(wire[0].reply->Bytes_0);
        let rest = wire.skip(1);
        assert(rest[i - 1] == wire[i]);
        if i > 1 {
            assert(rest[i - 2] == wire[i - 1]);
        }
        law_chain_asks_for_the_announced(have + reply.body, reply.sw2, rest, end, i - 1);
    }
}

/// A chain that ends in a response ends with the status bytes of its last reply.
pub proof fn law_last_status_counts(have: Seq<u8>, le: u8, wire: Seq<T0Exchange>, end: Ending)
    requires
        chain_run(have, le, wire, end),
        wire.last().reply is Bytes,
        wire.last().reply->Bytes_0.len() >= 2,
    ensures
        end matches Ending::Outcome(OutcomeView::Response(r)) ==> ({
            let raw = wire.last().reply->Bytes_0;
            r.sw1 == raw[raw.len() - 2] && r.sw2 == raw[raw.len() - 1]
        }),
        end is Outcome ==> end->Outcome_0 is Response,
    decreases wire.len(),
{
    reveal_with_fuel(chain_run, 2);
    let reply = response_of(wire[0].reply->Bytes_0);
    if wire.len() > 1 {
        let rest = wire.skip(1);
        assert(rest.last() == wire.last());
        law_last_status_counts(have + reply.body, reply.sw2, rest, end);
    }
}

/// Over T=0 a command with up to 255 bytes of data and an expected length goes out without
/// the length; every other command, and every command over another protocol, goes out as
/// it is.
pub proof fn law_expected_length_is_left_out(header: Seq<u8>, data: Seq<u8>, le: u8, other: Seq<u8>)
    requires
        header.len() == 4,
        1 <= data.len() <= 255,
    ensures
        physical_bytes(header + seq![data.len() as u8] + data + seq![le], true) == header + seq![
            data.len() as u8,
        ] + data,
        physical_bytes(other, false) == other,
        other.len() <= 5 ==> physical_bytes(other, true) == other,
        other.len() > 5 && (other[4] == 0 || other.len() != other[4] + 6) ==> physical_bytes(
            other,
            true,
        ) == other,
{
    let command = header + seq![data.len() as u8] + data + seq![le];
    assert(command[4] == data.len());
    assert(command.drop_last() =~= header + seq![data.len() as u8] + data);
}

} // verus!
