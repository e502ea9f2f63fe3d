//! What is decided about a reader around the calls to the PC/SC service: which
//! faults mean an empty slot, what a reader says of itself, and how a vendor command
//! finds its way to it.

use crate::bytes::{text_from_utf8_lossy, utf8_lossy};
use crate::identity::{unpad, unpadded};
use crate::t0::{PcscError, PcscErrorView, PcscFault, PcscFaultKind};
use vstd::prelude::*;
use vstd::string::*;

verus! {

/// The readers that a listing gives: a service without readers has none, and every
/// other fault is an error.
pub fn listed_readers(listing: Result<Vec<String>, PcscFault>) -> (r: Result<
    Vec<String>,
    PcscError,
>)
    ensures
        match listing {
            Ok(names) => r == Ok::<Vec<String>, PcscError>(names),
            Err(fault) => if fault.kind == PcscFaultKind::NoReadersAvailable {
                r matches Ok(none) && none@.len() == 0
            } else {
                r matches Err(e) && e@ == PcscErrorView::Pcsc(fault.kind, fault.text@)
            },
        },
{
    match listing {
        Ok(names) => Ok(names),
        Err(fault) => match fault.kind {
            PcscFaultKind::NoReadersAvailable => Ok(Vec::new()),
            _ => Err(PcscError::Pcsc(fault)),
        },
    }
}

/// The fault says that there is no card to connect to.
pub open spec fn means_empty(kind: PcscFaultKind) -> bool {
    kind == PcscFaultKind::NoSmartcard || kind == PcscFaultKind::RemovedCard
}

/// What a failed connect comes to: `None` when the reader is empty or was just
/// emptied, the fault otherwise.
pub fn connect_failed<T>(fault: PcscFault) -> (r: Result<Option<T>, PcscError>)
    ensures
        match r {
            Ok(card) => means_empty(fault.kind) && card is None,
            Err(e) => !means_empty(fault.kind) && e@ == PcscErrorView::Pcsc(
                fault.kind,
                fault.text@,
            ),
        },
{
    match fault.kind {
        PcscFaultKind::NoSmartcard => Ok(None),
        PcscFaultKind::RemovedCard => Ok(None),
        _ => Err(PcscError::Pcsc(fault)),
    }
}

/// Whether a reader holds a card, by the two state bits that the service reported.
/// A status call that only ran out of time reported them too; every other fault is
/// an error.
pub fn card_presence(status: Result<(), PcscFault>, present: bool, empty: bool) -> (r: Result<
    bool,
    PcscError,
>)
    ensures
        match status {
            Ok(_) => r == Ok::<bool, PcscError>(present && !empty),
            Err(fault) => if fault.kind == PcscFaultKind::Timeout {
                r == Ok::<bool, PcscError>(present && !empty)
            } else {
                r matches Err(e) && e@ == PcscErrorView::Pcsc(fault.kind, fault.text@)
            },
        },
{
    match status {
        Ok(_) => Ok(present && !empty),
        Err(fault) => match fault.kind {
            PcscFaultKind::Timeout => Ok(present && !empty),
            _ => Err(PcscError::Pcsc(fault)),
        },
    }
}

/// Reader hardware version.
#[derive(Debug, Clone, Copy, PartialEq, Eq, Structural)]
pub struct IfdVersion {
    /// Version major.
    pub major: u8,
    /// Version minor.
    pub minor: u8,
}

impl IfdVersion {
    /// Read the version attribute: a little-endian `0xMMmmbbbb`, so the major
    /// is the fourth byte and the minor the third. `None` when it is too short.
    pub fn from_attribute(bytes: &[u8]) -> (r: Option<IfdVersion>)
        ensures
            r is Some <==> bytes@.len() >= 4,
            r matches Some(v) ==> v.major == bytes@[3] && v.minor == bytes@[2],
    {
        if bytes.len() < 4 {
            return None;
        }
        Some(IfdVersion { major: bytes[3], minor: bytes[2] })
    }
}

/// Identity attributes that a reader's own driver reports.
#[derive(Debug, Clone)]
pub struct ReaderIdentity {
    /// The reader vendor, trimmed. `None` when the driver supplies none.
    pub vendor_name: Option<String>,
    /// The hardware version. `None` when the driver supplies none.
    pub ifd_version: Option<IfdVersion>,
}

/// The text of a vendor name attribute without white space and NULs on either side.
/// `None` when nothing is left.
pub fn vendor_name(text: &str) -> (r: Option<String>)
    ensures
        match r {
            Some(name) => name@ == unpadded(text@, true) && name@.len() > 0,
            None => unpadded(text@, true).len() == 0,
        },
{
    let name = unpad(text, true);
    if name.unicode_len() == 0 {
        None
    } else {
        Some(name.to_owned())
    }
}

impl ReaderIdentity {
    /// Put together what the driver supplied of the two attributes.
    pub fn from_attributes(vendor: Option<&[u8]>, version: Option<&[u8]>) -> (r: Self)
        ensures
            match r.vendor_name {
                Some(name) => vendor is Some && name@ == unpadded(utf8_lossy(vendor->Some_0@), true)
                    && name@.len() > 0,
                None => vendor is None || unpadded(utf8_lossy(vendor->Some_0@), true).len() == 0,
            },
            match r.ifd_version {
                Some(v) => version is Some && version->Some_0@.len() >= 4 && v.major
                    == version->Some_0@[3] && v.minor == version->Some_0@[2],
                None => version is None || version->Some_0@.len() < 4,
            },
    {
        let name = match vendor {
            Some(bytes) => vendor_name(text_from_utf8_lossy(bytes).as_str()),
            None => None,
        };
        let ifd = match version {
            Some(bytes) => IfdVersion::from_attribute(bytes),
            None => None,
        };
        ReaderIdentity { vendor_name: name, ifd_version: ifd }
    }
}

impl Default for ReaderIdentity {
    fn default() -> (r: Self)
        ensures
            r.vendor_name is None,
            r.ifd_version is None,
    {
        ReaderIdentity { vendor_name: None, ifd_version: None }
    }
}

/// How a connection for a vendor command is made.
#[derive(Debug, Clone, Copy, PartialEq, Eq, Structural)]
pub enum EscapeRoute {
    /// To the reader itself, with or without a card.
    Direct,
    /// To the card in the reader, shared with others.
    Shared,
}

/// The control codes that vendor commands go by, in the order in which they are
/// tried: that of pcsc-lite, that of Windows, and the one that some stacks allow
/// alone.
pub const ESCAPE_CODES: [u32; 3] = [0x4200_0DAC, 0x0031_36B0, 0x4200_0001];

/// What is done next to get a vendor command to its reader.
#[derive(Debug, PartialEq, Eq)]
pub enum EscapeAction {
    /// Connect on the route.
    Connect(EscapeRoute),
    /// Send the command by this one of [`ESCAPE_CODES`].
    Control(usize),
    /// Done: the reader's answer.
    Answer(Vec<u8>),
    /// Given up.
    Fail(PcscError),
}

/// What an action says.
#[verifier::ext_equal]
pub enum EscapeActionView {
    Connect(EscapeRoute),
    Control(nat),
    Answer(Seq<u8>),
    Fail(PcscErrorView),
}

impl View for EscapeAction {
    type V = EscapeActionView;

    open spec fn view(&self) -> EscapeActionView {
        match self {
            EscapeAction::Connect(route) => EscapeActionView::Connect(*route),
            EscapeAction::Control(code) => EscapeActionView::Control(*code as nat),
            EscapeAction::Answer(bytes) => EscapeActionView::Answer(bytes@),
            EscapeAction::Fail(e) => EscapeActionView::Fail(e@),
        }
    }
}

/// What follows a connect: the first code on a connection; without one the shared
/// route after the direct, and the fault after the shared.
pub open spec fn escape_connected(
    route: EscapeRoute,
    fault: Option<(PcscFaultKind, Seq<char>)>,
) -> EscapeActionView {
    match fault {
        None => EscapeActionView::Control(0),
        Some((kind, text)) => match route {
            EscapeRoute::Direct => EscapeActionView::Connect(EscapeRoute::Shared),
            EscapeRoute::Shared => EscapeActionView::Fail(PcscErrorView::Pcsc(kind, text)),
        },
    }
}

/// The reader's stack does not know the control code.
pub open spec fn code_unknown(kind: PcscFaultKind) -> bool {
    kind == PcscFaultKind::InvalidValue || kind == PcscFaultKind::InvalidParameter
}

/// What follows a refused code: the next one, after the last the next route, and
/// after the last route the error.
pub open spec fn escape_refused(
    route: EscapeRoute,
    code: nat,
    kind: PcscFaultKind,
    text: Seq<char>,
) -> EscapeActionView {
    if !code_unknown(kind) {
        EscapeActionView::Fail(PcscErrorView::Pcsc(kind, text))
    } else if code + 1 < ESCAPE_CODES@.len() {
        EscapeActionView::Control(code + 1)
    } else {
        match route {
            EscapeRoute::Direct => EscapeActionView::Connect(EscapeRoute::Shared),
            EscapeRoute::Shared => EscapeActionView::Fail(
                PcscErrorView::Transport(
                    "reader escape rejected on every control route (SCardControl blocked?)"@,
                ),
            ),
        }
    }
}

/// The kind and text of the fault of a call, if it failed.
pub open spec fn fault_of<T>(result: Result<T, PcscFault>) -> Option<(PcscFaultKind, Seq<char>)> {
    match result {
        Ok(_) => None,
        Err(fault) => Some((fault.kind, fault.text@)),
    }
}

/// Go on after a connect on `route`.
pub fn escape_after_connect(route: EscapeRoute, result: Result<(), PcscFault>) -> (r: EscapeAction)
    ensures
        r@ == escape_connected(route, fault_of(result)),
{
    match result {
        Ok(_) => EscapeAction::Control(0),
        Err(fault) => match route {
            EscapeRoute::Direct => EscapeAction::Connect(EscapeRoute::Shared),
            EscapeRoute::Shared => EscapeAction::Fail(PcscError::Pcsc(fault)),
        },
    }
}

/// Go on after the command was sent on `route` by one of the codes.
pub fn escape_after_control(
    route: EscapeRoute,
    code: usize,
    result: Result<Vec<u8>, PcscFault>,
) -> (r: EscapeAction)
    requires
        code < ESCAPE_CODES@.len(),
    ensures
        match result {
            Ok(bytes) => r@ == EscapeActionView::Answer(bytes@),
            Err(fault) => r@ == escape_refused(route, code as nat, fault.kind, fault.text@),
        },
{
    match result {
        Ok(bytes) => EscapeAction::Answer(bytes),
        Err(fault) => {
            match fault.kind {
                PcscFaultKind::InvalidValue => {},
                PcscFaultKind::InvalidParameter => {},
                _ => return EscapeAction::Fail(PcscError::Pcsc(fault)),
            }
            if code + 1 < ESCAPE_CODES.len() {
                return EscapeAction::Control(code + 1);
            }
            match route {
                EscapeRoute::Direct => EscapeAction::Connect(EscapeRoute::Shared),
                EscapeRoute::Shared => EscapeAction::Fail(
                    PcscError::Transport(
                        "reader escape rejected on every control route (SCardControl blocked?)".to_owned(),
                    ),
                ),
            }
        },
    }
}

/// How many calls can still follow an action, itself included.
pub open spec fn escape_left(route: EscapeRoute, action: EscapeActionView) -> int {
    let codes = ESCAPE_CODES@.len() as int;
    let here = if route == EscapeRoute::Direct {
        codes + 1
    } else {
        0
    };
    match action {
        EscapeActionView::Connect(EscapeRoute::Direct) => 2 * (codes + 1),
        EscapeActionView::Connect(EscapeRoute::Shared) => codes + 1,
        EscapeActionView::Control(code) => here + codes - code,
        _ => 0,
    }
}

/// A vendor command ends: every call leaves fewer to come, whatever the service
/// answers.
pub proof fn law_escape_ends(
    route: EscapeRoute,
    code: nat,
    fault: Option<(PcscFaultKind, Seq<char>)>,
    kind: PcscFaultKind,
    text: Seq<char>,
)
    requires
        code < ESCAPE_CODES@.len(),
    ensures
        escape_left(route, escape_connected(route, fault)) < escape_left(
            route,
            EscapeActionView::Connect(route),
        ),
        escape_left(route, escape_refused(route, code, kind, text)) < escape_left(
            route,
            EscapeActionView::Control(code),
        ),
{
}

/// The way of a vendor command: three codes on the direct route, then the same three on the
/// shared one, each only after the one before it was unknown. A connection that fails moves
/// on to the shared route, or ends; any other fault ends.
pub proof fn law_way_of_a_vendor_command(kind: PcscFaultKind, text: Seq<char>, code: nat)
    requires
        code < 3,
    ensures
        ESCAPE_CODES@ == seq![0x4200_0DACu32, 0x0031_36B0, 0x4200_0001],
        escape_connected(EscapeRoute::Direct, None) == EscapeActionView::Control(0),
        escape_connected(EscapeRoute::Shared, None) == EscapeActionView::Control(0),
        escape_connected(EscapeRoute::Direct, Some((kind, text))) == EscapeActionView::Connect(
            EscapeRoute::Shared,
        ),
        escape_connected(EscapeRoute::Shared, Some((kind, text))) == EscapeActionView::Fail(
            PcscErrorView::Pcsc(kind, text),
        ),
        ({
            let unknown = kind == PcscFaultKind::InvalidValue || kind
                == PcscFaultKind::InvalidParameter;
            &&& !unknown ==> escape_refused(EscapeRoute::Direct, code, kind, text)
                == EscapeActionView::Fail(PcscErrorView::Pcsc(kind, text)) && escape_refused(
                EscapeRoute::Shared,
                code,
                kind,
                text,
            ) == EscapeActionView::Fail(PcscErrorView::Pcsc(kind, text))
            &&& unknown && code < 2 ==> escape_refused(EscapeRoute::Direct, code, kind, text)
                == EscapeActionView::Control(code + 1) && escape_refused(
                EscapeRoute::Shared,
                code,
                kind,
                text,
            ) == EscapeActionView::Control(code + 1)
            &&& unknown && code == 2 ==> escape_refused(EscapeRoute::Direct, code, kind, text)
                == EscapeActionView::Connect(EscapeRoute::Shared) && escape_refused(
                EscapeRoute::Shared,
                code,
                kind,
                text,
            ) is Fail
        }),
        means_empty(kind) <==> kind is NoSmartcard || kind is RemovedCard,
{
    assert(ESCAPE_CODES@ =~= seq![0x4200_0DACu32, 0x0031_36B0, 0x4200_0001]);
}

/// What is made of faults: a service without readers lists none, an empty or emptied reader
/// has no card, and a status call that ran out of time has told the state. Every other
/// fault is an error that keeps its kind.
pub proof fn law_faults(
    fault: PcscFault,
    listed: Result<Vec<String>, PcscError>,
    connected: Result<Option<u8>, PcscError>,
    present: bool,
    empty: bool,
    presence: Result<bool, PcscError>,
    certain: Result<bool, PcscError>,
)
    requires
        call_ensures(listed_readers, (Err::<Vec<String>, PcscFault>(fault),), listed),
        call_ensures(connect_failed::<u8>, (fault,), connected),
        call_ensures(card_presence, (Err::<(), PcscFault>(fault), present, empty), presence),
        call_ensures(card_presence, (Ok::<(), PcscFault>(()), present, empty), certain),
    ensures
        listed is Ok <==> fault.kind is NoReadersAvailable,
        listed matches Ok(names) ==> names@.len() == 0,
        listed matches Err(e) ==> e@ == PcscErrorView::Pcsc(fault.kind, fault.text@),
        connected is Ok <==> fault.kind is NoSmartcard || fault.kind is RemovedCard,
        connected matches Ok(card) ==> card is None,
        connected matches Err(e) ==> e@ == PcscErrorView::Pcsc(fault.kind, fault.text@),
        presence is Ok <==> fault.kind is Timeout,
        presence matches Ok(p) ==> p == (present && !empty),
        presence matches Err(e) ==> e@ == PcscErrorView::Pcsc(fault.kind, fault.text@),
        certain == Ok::<bool, PcscError>(present && !empty),
{
}

/// The version of a reader is read from the fourth and the third byte of its attribute.
pub proof fn law_reader_version(bytes: &[u8], r: Option<IfdVersion>)
    requires
        call_ensures(IfdVersion::from_attribute, (bytes,), r),
    ensures
        bytes@.len() < 4 <==> r is None,
        bytes@.len() >= 4 ==> r == Some(IfdVersion { major: bytes@[3], minor: bytes@[2] }),
{
}

} // verus!
