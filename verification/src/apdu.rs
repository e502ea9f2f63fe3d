//! Command builders and status words of ISO 7816-4.

use crate::bytes::{be2, push_all, u16_be};
use crate::transport::CommandApdu;
use vstd::prelude::*;
use vstd::slice::slice_to_vec;

verus! {

/// Class byte of a command.
#[derive(Debug, Clone, Copy, PartialEq, Eq, Hash, Structural)]
pub enum ApduClass {
    /// No secure messaging, last or only command of a chain.
    Plain,
    /// Secure messaging with an authenticated header.
    SecureMessaging,
    /// First command of a chain.
    ChainedFirst,
}

impl ApduClass {
    /// The class byte on the wire.
    pub open spec fn byte(self) -> u8 {
        match self {
            ApduClass::Plain => 0x00,
            ApduClass::SecureMessaging => 0x0C,
            ApduClass::ChainedFirst => 0x10,
        }
    }

    /// The class byte on the wire.
    pub fn as_byte(self) -> (r: u8)
        ensures
            r == self.byte(),
    {
        match self {
            ApduClass::Plain => 0x00,
            ApduClass::SecureMessaging => 0x0C,
            ApduClass::ChainedFirst => 0x10,
        }
    }
}

/// Decoded status word. Words without a name of their own keep their number.
#[derive(Debug, Clone, Copy, PartialEq, Eq, Structural)]
pub enum StatusWord {
    /// `9000`.
    Success,
    /// `6282`: the end of the file was reached before `Le` bytes were read.
    EndOfFile,
    /// `6982`: security status not satisfied.
    SecurityNotSatisfied,
    /// `6A82`: file not found.
    FileNotFound,
    /// `6A88`: referenced data not found.
    ReferenceDataNotFound,
    /// Any other status word.
    Other(u16),
}

impl StatusWord {
    /// The status word that two status bytes spell.
    pub open spec fn of(sw1: u8, sw2: u8) -> StatusWord {
        let sw = sw1 * 256 + sw2;
        if sw == 0x9000 {
            StatusWord::Success
        } else if sw == 0x6282 {
            StatusWord::EndOfFile
        } else if sw == 0x6982 {
            StatusWord::SecurityNotSatisfied
        } else if sw == 0x6A82 {
            StatusWord::FileNotFound
        } else if sw == 0x6A88 {
            StatusWord::ReferenceDataNotFound
        } else {
            StatusWord::Other(sw as u16)
        }
    }

    /// The number of a status word.
    pub open spec fn number(self) -> u16 {
        match self {
            StatusWord::Success => 0x9000,
            StatusWord::EndOfFile => 0x6282,
            StatusWord::SecurityNotSatisfied => 0x6982,
            StatusWord::FileNotFound => 0x6A82,
            StatusWord::ReferenceDataNotFound => 0x6A88,
            StatusWord::Other(sw) => sw,
        }
    }

    /// Decode two status bytes.
    pub fn from_bytes(sw1: u8, sw2: u8) -> (r: StatusWord)
        ensures
            r == StatusWord::of(sw1, sw2),
            r.number() == sw1 * 256 + sw2,
    {
        let sw: u16 = sw1 as u16 * 256 + sw2 as u16;
        match sw {
            0x9000 => StatusWord::Success,
            0x6282 => StatusWord::EndOfFile,
            0x6982 => StatusWord::SecurityNotSatisfied,
            0x6A82 => StatusWord::FileNotFound,
            0x6A88 => StatusWord::ReferenceDataNotFound,
            _ => StatusWord::Other(sw),
        }
    }

    /// The number of the status word.
    pub fn as_u16(self) -> (r: u16)
        ensures
            r == self.number(),
    {
        match self {
            StatusWord::Success => 0x9000,
            StatusWord::EndOfFile => 0x6282,
            StatusWord::SecurityNotSatisfied => 0x6982,
            StatusWord::FileNotFound => 0x6A82,
            StatusWord::ReferenceDataNotFound => 0x6A88,
            StatusWord::Other(sw) => sw,
        }
    }
}

/// `CLA C0 00 00 Le`.
pub open spec fn get_response_bytes(class: ApduClass, le: u8) -> Seq<u8> {
    seq![class.byte(), 0xC0, 0x00, 0x00, le]
}

/// GET RESPONSE: fetch the bytes that a `61xx` status announced.
#[derive(Debug, Clone, Copy)]
pub struct GetResponse {
    class: ApduClass,
    le: u8,
}

impl GetResponse {
    /// The class byte of the command.
    pub closed spec fn class_spec(self) -> ApduClass {
        self.class
    }

    /// The expected length of the command.
    pub closed spec fn le_spec(self) -> u8 {
        self.le
    }

    /// A command that asks for `le` bytes.
    pub fn new(class: ApduClass, le: u8) -> (r: Self)
        ensures
            r.class_spec() == class,
            r.le_spec() == le,
    {
        GetResponse { class, le }
    }

    /// Serialise; the one corrected-length resend is permitted.
    pub fn into_apdu(self) -> (r: CommandApdu)
        ensures
            r@ == get_response_bytes(self.class_spec(), self.le_spec()),
            r.permits_le_retry(),
    {
        let bytes = vec![self.class.as_byte(), 0xC0, 0x00, 0x00, self.le];
        assert(bytes@ =~= get_response_bytes(self.class_spec(), self.le_spec()));
        CommandApdu::new(bytes).allow_wrong_le_retry()
    }
}

/// Shortest application identifier.
pub const AID_MIN_LEN: usize = 5;

/// Longest application identifier.
pub const AID_MAX_LEN: usize = 16;

/// Why bytes are no application identifier.
#[derive(Debug, Clone, Copy, PartialEq, Eq, Structural)]
pub enum AidError {
    /// Outside the five to sixteen byte window.
    Length {
        /// The rejected length.
        got: usize,
    },
}

/// Application identifier of ISO 7816-5.
#[derive(Debug, PartialEq, Eq)]
pub struct Aid {
    bytes: Vec<u8>,
}

impl View for Aid {
    type V = Seq<u8>;

    closed spec fn view(&self) -> Seq<u8> {
        self.bytes@
    }
}

impl Aid {
    /// The length window holds.
    #[verifier::type_invariant]
    closed spec fn in_window(&self) -> bool {
        AID_MIN_LEN <= self.bytes@.len() <= AID_MAX_LEN
    }

    /// Wrap identifier bytes after checking the length window.
    pub fn from_slice(bytes: &[u8]) -> (r: Result<Self, AidError>)
        ensures
            r is Ok <==> AID_MIN_LEN <= bytes@.len() <= AID_MAX_LEN,
            r matches Ok(a) ==> a@ == bytes@,
            r matches Err(e) ==> e == (AidError::Length { got: bytes@.len() as usize }),
    {
        if bytes.len() < AID_MIN_LEN || bytes.len() > AID_MAX_LEN {
            return Err(AidError::Length { got: bytes.len() });
        }
        Ok(Aid { bytes: slice_to_vec(bytes) })
    }
}

/// `00 A4 04 0C Lc <AID>`.
pub open spec fn select_by_aid_bytes(aid: Seq<u8>) -> Seq<u8> {
    seq![0x00u8, 0xA4, 0x04, 0x0C, aid.len() as u8] + aid
}

/// `00 A4 <P1> 0C 02 <FID>`.
pub open spec fn select_by_fid_bytes(p1: u8, fid: [u8; 2]) -> Seq<u8> {
    seq![0x00u8, 0xA4, p1, 0x0C, 0x02, fid[0], fid[1]]
}

/// `00 A4 <P1> 00 02 <FID>`.
pub open spec fn select_with_fci_bytes(p1: u8, fid: [u8; 2]) -> Seq<u8> {
    seq![0x00u8, 0xA4, p1, 0x00, 0x02, fid[0], fid[1]]
}

/// `00 B0 <offset> Le`.
pub open spec fn read_binary_bytes(offset: int, le: u8) -> Seq<u8> {
    seq![0x00u8, 0xB0] + be2(offset) + seq![le]
}

/// SELECT an application by identifier without response data.
#[derive(Debug)]
pub struct SelectByAidNoFci {
    /// The identifier to select.
    pub aid: Aid,
}

impl SelectByAidNoFci {
    /// Serialise into the wire APDU.
    pub fn into_apdu(self) -> (r: CommandApdu)
        ensures
            r@ == select_by_aid_bytes(self.aid@),
            !r.permits_le_retry(),
    {
        proof {
            use_type_invariant(&self.aid);
        }
        let lc: u8 = self.aid.bytes.len() as u8;
        let mut out = vec![0x00, 0xA4, 0x04, 0x0C, lc];
        push_all(&mut out, self.aid.bytes.as_slice());
        assert(out@ =~= select_by_aid_bytes(self.aid@));
        CommandApdu::new(out)
    }
}

/// SELECT an elementary file under the current directory without response data.
#[derive(Debug, Clone, Copy)]
pub struct SelectEfNoFci {
    /// The file to select.
    pub fid: [u8; 2],
}

impl SelectEfNoFci {
    /// Serialise into the wire APDU.
    pub fn into_apdu(self) -> (r: CommandApdu)
        ensures
            r@ == select_by_fid_bytes(0x02, self.fid),
            !r.permits_le_retry(),
    {
        select_by_fid(0x02, self.fid)
    }
}

/// SELECT by file identifier with the given first parameter and no response
/// data.
pub fn select_by_fid(p1: u8, fid: [u8; 2]) -> (r: CommandApdu)
    ensures
        r@ == select_by_fid_bytes(p1, fid),
        !r.permits_le_retry(),
{
    let out = vec![0x00, 0xA4, p1, 0x0C, 0x02, fid[0], fid[1]];
    assert(out@ =~= select_by_fid_bytes(p1, fid));
    CommandApdu::new(out)
}

/// SELECT by file identifier with the given first parameter, for a reply with the control
/// information of the file.
pub fn select_with_fci(p1: u8, fid: [u8; 2]) -> (r: CommandApdu)
    ensures
        r@ == select_with_fci_bytes(p1, fid),
        !r.permits_le_retry(),
{
    let out = vec![0x00, 0xA4, p1, 0x00, 0x02, fid[0], fid[1]];
    assert(out@ =~= select_with_fci_bytes(p1, fid));
    CommandApdu::new(out)
}

/// READ BINARY at an offset.
#[derive(Debug, Clone, Copy)]
pub struct ReadBinaryByOffset {
    /// First byte to read.
    pub offset: u16,
    /// Number of bytes to read.
    pub le: u8,
}

impl ReadBinaryByOffset {
    /// Serialise; the one corrected-length resend is permitted.
    pub fn into_apdu(self) -> (r: CommandApdu)
        ensures
            r@ == read_binary_bytes(self.offset as int, self.le),
            r.permits_le_retry(),
    {
        let mut out = vec![0x00, 0xB0];
        let at = u16_be(self.offset);
        push_all(&mut out, at.as_slice());
        out.push(self.le);
        assert(out@ =~= read_binary_bytes(self.offset as int, self.le));
        CommandApdu::new(out).allow_wrong_le_retry()
    }
}

/// Attempts left on a PIN before it locks, as the card's status nibble counts
/// them.
#[derive(Debug, Clone, Copy, PartialEq, Eq, Structural)]
pub struct PinRetries(u8);

impl PinRetries {
    /// The number of attempts.
    pub closed spec fn count(self) -> u8 {
        self.0
    }

    /// The count fits the status nibble.
    #[verifier::type_invariant]
    closed spec fn fits_nibble(self) -> bool {
        self.0 < 16
    }

    /// A count from the low nibble of a `63Cx` status; `None` above fifteen.
    pub fn from_nibble(n: u8) -> (r: Option<Self>)
        ensures
            r is Some <==> n < 16,
            r matches Some(p) ==> p.count() == n,
    {
        if n < 16 {
            Some(PinRetries(n))
        } else {
            None
        }
    }

    /// The number of attempts.
    pub fn get(self) -> (r: u8)
        ensures
            r == self.count(),
            r < 16,
    {
        proof {
            use_type_invariant(&self);
        }
        self.0
    }
}

/// The commands of the file system byte for byte.
pub proof fn law_file_commands(
    aid: Seq<u8>,
    p1: u8,
    fid: [u8; 2],
    offset: int,
    le: u8,
    class: ApduClass,
)
    requires
        5 <= aid.len() <= 16,
        0 <= offset <= 0xFFFF,
    ensures
        select_by_aid_bytes(aid) == seq![0x00u8, 0xA4, 0x04, 0x0C, aid.len() as u8] + aid,
        select_by_fid_bytes(p1, fid) == seq![0x00u8, 0xA4, p1, 0x0C, 0x02, fid@[0], fid@[1]],
        select_with_fci_bytes(p1, fid) == seq![0x00u8, 0xA4, p1, 0x00, 0x02, fid@[0], fid@[1]],
        read_binary_bytes(offset, le) == seq![
            0x00u8,
            0xB0,
            (offset / 256) as u8,
            (offset % 256) as u8,
            le,
        ],
        get_response_bytes(class, le) == seq![
            match class {
                ApduClass::Plain => 0x00u8,
                ApduClass::SecureMessaging => 0x0C,
                ApduClass::ChainedFirst => 0x10,
            },
            0xC0,
            0x00,
            0x00,
            le,
        ],
{
    assert(read_binary_bytes(offset, le) =~= seq![
        0x00u8,
        0xB0,
        (offset / 256) as u8,
        (offset % 256) as u8,
        le,
    ]);
}

/// A status word keeps its number: it spells the two bytes it was decoded from, and five of
/// them have names.
pub proof fn law_status_keeps_its_number(sw1: u8, sw2: u8)
    ensures
        StatusWord::of(sw1, sw2).number() == 256 * sw1 + sw2,
        StatusWord::of(sw1, sw2) is Success <==> sw1 == 0x90 && sw2 == 0x00,
        StatusWord::of(sw1, sw2) is EndOfFile <==> sw1 == 0x62 && sw2 == 0x82,
        StatusWord::of(sw1, sw2) is SecurityNotSatisfied <==> sw1 == 0x69 && sw2 == 0x82,
        StatusWord::of(sw1, sw2) is FileNotFound <==> sw1 == 0x6A && sw2 == 0x82,
        StatusWord::of(sw1, sw2) is ReferenceDataNotFound <==> sw1 == 0x6A && sw2 == 0x88,
{
}

/// An application identifier has 5 to 16 bytes, and it is kept as it is.
pub proof fn law_application_identifiers(bytes: &[u8], r: Result<Aid, AidError>)
    requires
        call_ensures(Aid::from_slice, (bytes,), r),
    ensures
        r is Ok <==> 5 <= bytes@.len() <= 16,
        r matches Ok(a) ==> a@ == bytes@,
{
}

/// A count of attempts is a nibble.
pub proof fn law_retry_counts(n: u8, r: Option<PinRetries>)
    requires
        call_ensures(PinRetries::from_nibble, (n,), r),
    ensures
        r is Some <==> n <= 15,
        r matches Some(p) ==> p.count() == n,
{
}

} // verus!
