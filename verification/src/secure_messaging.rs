//! Secure messaging with the AES-256 session keys of a PACE handshake.
//!
//! A command goes out with its data field encrypted (`87`), its expected length
//! (`97`) and a checksum over header and objects (`8E`). A reply comes back with
//! its data encrypted (`87`), its status word (`99`) and a checksum (`8E`). Both
//! sides step the send sequence counter before each checksum. [`SmTransport`] is
//! itself a transport, so the layers above it do not see any of this.

use crate::atr::{Atr, AtrError};
use crate::ber::{law_tlv_layout, law_tlv_sequence, length_octets, same_items, tlv, tlv_bytes, tlv_clean,
    tlv_items, BerBody, BerTlvAny, TlvView};
use crate::bytes::{be_nat, push_all};
use crate::crypto::symmetric::{aes256_cmac, aes256_block, aes256_cbc_decrypt_no_padding, aes256_cbc_decrypted,
    aes256_cbc_encrypt_no_padding, aes256_cbc_encrypted, aes256_cmac_truncated,
    aes256_ecb_encrypt_block, ct_equal, mac8, Aes256Key, AES_BLOCK};
use crate::der::slice_view;
use crate::pace::{counter_next, law_counter_adds_one, zeros, PaceSession, SessionView, Ssc};
use crate::transport::{outcome_view, sent, CardTransport, CommandApdu, Exchange,
    OutcomeView, ResponseApdu, ResponseView, TransportErrorExt, TransportErrorKind,
    TransportOutcome};
use vstd::prelude::*;
use vstd::slice::{slice_subrange, slice_to_vec};
use vstd::string::*;

pub mod wire;

verus! {

/// Tag of an encrypted data field.
pub const TAG_DO87: u8 = 0x87;

/// Tag of a protected expected length.
pub const TAG_DO97: u8 = 0x97;

/// Tag of a protected status word.
pub const TAG_DO99: u8 = 0x99;

/// Tag of a checksum.
pub const TAG_DO8E: u8 = 0x8E;

/// Indicator in front of a ciphertext: padded with a marker and zeros.
pub const DO87_PADDING_INDICATOR: u8 = 0x01;

/// First padding byte.
pub const ISO7816_PAD_MARKER: u8 = 0x80;

/// Why a protected exchange failed.
#[derive(Debug)]
pub enum SmError<TE> {
    /// Transport-layer failure.
    Transport(TE),
    /// A command or a reply does not have the shape it must have.
    Malformed(&'static str),
    /// The card's checksum does not match.
    MacMismatch,
    /// The protected command does not fit a short command.
    CommandTooLong,
}

/// What a secure-messaging error says.
pub enum SmErrorView<E> {
    Transport(E),
    Malformed(Seq<char>),
    MacMismatch,
    CommandTooLong,
}

impl<TE> View for SmError<TE> {
    type V = SmErrorView<TE>;

    open spec fn view(&self) -> SmErrorView<TE> {
        match self {
            SmError::Transport(e) => SmErrorView::Transport(*e),
            SmError::Malformed(w) => SmErrorView::Malformed(w@),
            SmError::MacMismatch => SmErrorView::MacMismatch,
            SmError::CommandTooLong => SmErrorView::CommandTooLong,
        }
    }
}

impl<TE> SmError<TE> {
    /// The diagnostic text of the error, given that of the transport error it
    /// may wrap.
    pub fn message(&self, transport: &str) -> (r: String)
        ensures
            r@ == match *self {
                SmError::Transport(_) => "SM transport: "@ + transport@,
                SmError::Malformed(w) => "SM: malformed response - "@ + w@,
                SmError::MacMismatch => "SM: card MAC did not match"@,
                SmError::CommandTooLong => "SM: wrapped command exceeds 255 bytes"@,
            },
    {
        match self {
            SmError::Transport(_) => "SM transport: ".to_owned().concat(transport),
            SmError::Malformed(w) => "SM: malformed response - ".to_owned().concat(w),
            SmError::MacMismatch => "SM: card MAC did not match".to_owned(),
            SmError::CommandTooLong => "SM: wrapped command exceeds 255 bytes".to_owned(),
        }
    }
}

impl<TE: TransportErrorExt> TransportErrorExt for SmError<TE> {
    fn kind(&self) -> (r: TransportErrorKind)
        ensures
            match *self {
                SmError::Transport(e) => call_ensures(TE::kind, (&e,), r),
                SmError::Malformed(_) => r == TransportErrorKind::ProtocolDesync,
                SmError::MacMismatch => r == TransportErrorKind::ProtocolDesync,
                SmError::CommandTooLong => r == TransportErrorKind::Backend,
            },
    {
        match self {
            SmError::Transport(error) => error.kind(),
            SmError::Malformed(_) => TransportErrorKind::ProtocolDesync,
            SmError::MacMismatch => TransportErrorKind::ProtocolDesync,
            SmError::CommandTooLong => TransportErrorKind::Backend,
        }
    }
}

/// `data` with a marker byte and zeros up to the next whole block. At least one
/// byte is added.
pub open spec fn padded(data: Seq<u8>) -> Seq<u8> {
    data.push(ISO7816_PAD_MARKER) + zeros((15 - data.len() % 16) as nat)
}

/// Where the marker byte stands: behind it there are only zeros.
pub open spec fn marker_position(data: Seq<u8>) -> Option<int>
    decreases data.len(),
{
    if data.len() == 0 {
        None
    } else if data.last() == 0x00 {
        marker_position(data.drop_last())
    } else if data.last() == ISO7816_PAD_MARKER {
        Some(data.len() - 1)
    } else {
        None
    }
}

/// What precedes the marker byte; data without one is left as it is.
pub open spec fn unpadded(data: Seq<u8>) -> Seq<u8> {
    match marker_position(data) {
        Some(i) => data.take(i),
        None => data,
    }
}

/// Pad to whole blocks.
pub fn iso7816_4_pad(data: &[u8]) -> (r: Vec<u8>)
    ensures
        r@ == padded(data@),
        r@.len() % 16 == 0,
        r@.len() > data@.len(),
{
    let mut out = slice_to_vec(data);
    out.push(ISO7816_PAD_MARKER);
    let fill: usize = 15 - data.len() % AES_BLOCK;
    let mut i: usize = 0;
    while i < fill
        invariant
            i <= fill,
            out@ == data@.push(ISO7816_PAD_MARKER) + zeros(i as nat),
        decreases fill - i,
    {
        out.push(0x00);
        i += 1;
        assert(out@ =~= data@.push(ISO7816_PAD_MARKER) + zeros(i as nat));
    }
    out
}

proof fn lemma_marker_bounds(data: Seq<u8>)
    ensures
        marker_position(data) matches Some(i) ==> 0 <= i < data.len(),
    decreases data.len(),
{
    if data.len() > 0 && data.last() == 0x00 {
        lemma_marker_bounds(data.drop_last());
    }
}

/// Strip the padding.
pub fn iso7816_4_unpad(data: &[u8]) -> (r: Vec<u8>)
    ensures
        r@ == unpadded(data@),
{
    let mut end: usize = data.len();
    assert(data@.take(end as int) =~= data@);
    while end > 0
        invariant
            end <= data@.len(),
            marker_position(data@) == marker_position(data@.take(end as int)),
        decreases end,
    {
        let b: u8 = data[end - 1];
        let ghost head = data@.take(end as int);
        assert(head.last() == b);
        if b == ISO7816_PAD_MARKER {
            let kept = slice_subrange(data, 0, end - 1);
            assert(kept@ =~= data@.take(end - 1));
            return slice_to_vec(kept);
        }
        if b != 0x00 {
            return slice_to_vec(data);
        }
        assert(head.drop_last() =~= data@.take(end - 1));
        end -= 1;
    }
    slice_to_vec(data)
}

proof fn lemma_marker_behind_zeros(data: Seq<u8>, n: nat)
    ensures
        marker_position(data.push(ISO7816_PAD_MARKER) + zeros(n)) == Some(data.len() as int),
    decreases n,
{
    let all = data.push(ISO7816_PAD_MARKER) + zeros(n);
    if n == 0 {
        assert(all =~= data.push(ISO7816_PAD_MARKER));
    } else {
        assert(all.drop_last() =~= data.push(ISO7816_PAD_MARKER) + zeros((n - 1) as nat));
        lemma_marker_behind_zeros(data, (n - 1) as nat);
    }
}

/// Stripping undoes padding, for every byte string.
pub proof fn law_padding_round_trip(data: Seq<u8>)
    ensures
        unpadded(padded(data)) == data,
        padded(data).len() % 16 == 0,
        data.len() < padded(data).len() <= data.len() + 16,
{
    lemma_marker_behind_zeros(data, (15 - data.len() % 16) as nat);
    assert(padded(data).take(data.len() as int) =~= data);
}

/// The data field and the expected length of a short command; `None` when the
/// bytes are no short command.
pub open spec fn short_apdu(apdu: Seq<u8>) -> Option<(Seq<u8>, Option<u8>)> {
    if apdu.len() < 4 {
        None
    } else if apdu.len() == 4 {
        Some((Seq::empty(), None))
    } else if apdu.len() == 5 {
        Some((Seq::empty(), Some(apdu[4])))
    } else {
        let end = 5 + apdu[4];
        if apdu.len() == end {
            Some((apdu.subrange(5, end), None))
        } else if apdu.len() == end + 1 {
            Some((apdu.subrange(5, end), Some(apdu[end])))
        } else {
            None
        }
    }
}

/// Decode a short command into its data field and expected length.
pub fn decode_short_apdu(apdu: &[u8]) -> (r: Option<(&[u8], Option<u8>)>)
    ensures
        r is Some <==> short_apdu(apdu@) is Some,
        r matches Some((data, le)) ==> short_apdu(apdu@) == Some((data@, le)),
{
    if apdu.len() < 4 {
        return None;
    }
    if apdu.len() <= 5 {
        let none = slice_subrange(apdu, 4, 4);
        assert(none@ =~= Seq::<u8>::empty());
        if apdu.len() == 4 {
            return Some((none, None));
        }
        return Some((none, Some(apdu[4])));
    }
    let end: usize = 5 + apdu[4] as usize;
    if apdu.len() == end {
        Some((slice_subrange(apdu, 5, end), None))
    } else if apdu.len() == end + 1 {
        Some((slice_subrange(apdu, 5, end), Some(apdu[end])))
    } else {
        None
    }
}

/// The session after one step of its counter.
pub open spec fn stepped(session: SessionView) -> SessionView {
    SessionView { ssc: counter_next(session.ssc), ..session }
}

/// The initialisation vector of the current message: the encrypted counter.
pub open spec fn message_iv(session: SessionView) -> Seq<u8> {
    aes256_block(session.k_enc, session.ssc)
}

/// The encrypted form of a data field that is not empty.
pub open spec fn cryptogram(session: SessionView, data: Seq<u8>) -> Seq<u8> {
    aes256_cbc_encrypted(session.k_enc, message_iv(session), padded(data))
}

/// The object around an encrypted data field; an empty field has none.
pub open spec fn do87(session: SessionView, data: Seq<u8>) -> Seq<u8> {
    if data.len() == 0 {
        Seq::empty()
    } else {
        tlv_bytes(TAG_DO87, seq![DO87_PADDING_INDICATOR] + cryptogram(session, data))
    }
}

/// The object around an expected length.
pub open spec fn do97(le: Option<u8>) -> Seq<u8> {
    match le {
        Some(b) => tlv_bytes(TAG_DO97, seq![b]),
        None => Seq::empty(),
    }
}

/// The checksum over the counter and `content`.
pub open spec fn checksum(session: SessionView, content: Seq<u8>) -> Seq<u8> {
    mac8(session.k_mac, padded(session.ssc + content))
}

/// The class byte with the secure-messaging bits set.
pub open spec fn protected_class(cla: u8) -> u8 {
    cla | 0x0C
}

/// The header of a protected command.
pub open spec fn protected_header(plain: Seq<u8>) -> Seq<u8> {
    seq![protected_class(plain[0]), plain[1], plain[2], plain[3]]
}

/// The data objects of a protected command behind their checksum.
pub open spec fn sealed_objects(objects: Seq<u8>, tag: Seq<u8>) -> Seq<u8> {
    objects + tlv_bytes(TAG_DO8E, tag)
}

/// The data objects of a protected command.
pub open spec fn protected_objects(session: SessionView, plain: Seq<u8>) -> Seq<u8> {
    let (data, le) = short_apdu(plain)->Some_0;
    let objects = do87(session, data) + do97(le);
    sealed_objects(objects, checksum(session, padded(protected_header(plain)) + objects))
}

/// A protected command around its data objects; those must fit a short command.
pub open spec fn sealed_command<E>(header: Seq<u8>, objects: Seq<u8>) -> Result<
    Seq<u8>,
    SmErrorView<E>,
> {
    if objects.len() > 255 {
        Err(SmErrorView::CommandTooLong)
    } else {
        Ok((header.push(objects.len() as u8) + objects).push(0x00))
    }
}

/// Size of a data object with a value of `n` bytes.
pub open spec fn object_size(n: int) -> int {
    1 + length_octets(n).len() + n
}

/// Size of `n` bytes padded to whole blocks.
pub open spec fn padded_size(n: int) -> int {
    n + 16 - n % 16
}

/// Size of the data objects of a protected command whose data field has `n` bytes: the
/// indicator and the padded field in an object where there is a field, the expected length
/// where there is one, and the checksum.
pub open spec fn objects_size(n: int, le: Option<u8>) -> int {
    (if n == 0 {
        0
    } else {
        object_size(1 + padded_size(n))
    }) + (if le is Some {
        object_size(1)
    } else {
        0
    }) + object_size(8)
}

/// The emitted bytes of a protected command carry a valid checksum: the eight bytes in
/// front of the last one, in an object of their own, are the head of the CMAC over the
/// counter, the padded header and every object between the length and that object.
pub open spec fn is_sealed(session: SessionView, apdu: Seq<u8>) -> bool {
    let n = apdu.len() as int;
    &&& n >= 16
    &&& apdu[4] == n - 6
    &&& apdu[n - 1] == 0x00
    &&& apdu[n - 11] == 0x8E && apdu[n - 10] == 0x08
    &&& apdu.subrange(n - 9, n - 1) == aes256_cmac(
        session.k_mac,
        block_padded(session.ssc + block_padded(apdu.take(4)) + apdu.subrange(5, n - 11)),
    ).take(8)
}

/// `data`, the byte 80 and as few zeros as make whole blocks of sixteen bytes.
pub open spec fn block_padded(data: Seq<u8>) -> Seq<u8> {
    Seq::new(
        ((data.len() / 16 + 1) * 16) as nat,
        |i: int|
            if i < data.len() {
                data[i]
            } else if i == data.len() {
                0x80u8
            } else {
                0x00u8
            },
    )
}

/// What wrapping gives for a command.
pub open spec fn wrap_result<E>(session: SessionView, plain: Seq<u8>) -> Result<
    Seq<u8>,
    SmErrorView<E>,
> {
    if plain.len() < 4 {
        Err(SmErrorView::Malformed("APDU shorter than 4-byte header"@))
    } else if short_apdu(plain) is None {
        Err(SmErrorView::Malformed("APDU does not match a short-form case"@))
    } else {
        sealed_command(protected_header(plain), protected_objects(stepped(session), plain))
    }
}

/// A card in the same session reads back the data field of a command from its
/// encrypted form.
pub open spec fn field_readable<E>(session: SessionView, data: Seq<u8>) -> bool {
    data.len() > 0 ==> decrypted_field::<E>(
        session,
        seq![DO87_PADDING_INDICATOR] + cryptogram(session, data),
    ) == Ok::<Seq<u8>, SmErrorView<E>>(data)
}

/// The session after wrapping: only a short command steps the counter.
pub open spec fn session_after_wrap(session: SessionView, plain: Seq<u8>) -> SessionView {
    if short_apdu(plain) is Some {
        stepped(session)
    } else {
        session
    }
}

/// The value of the last data object that carries `tag`.
pub open spec fn last_value(items: Seq<TlvView>, tag: u16) -> Option<Seq<u8>>
    decreases items.len(),
{
    if items.len() == 0 {
        None
    } else if items.last().tag == tag {
        Some(items.last().value)
    } else {
        last_value(items.drop_last(), tag)
    }
}

/// What the checksum of a reply covers.
pub open spec fn reply_content(cryptogram: Option<Seq<u8>>, status: Seq<u8>) -> Seq<u8> {
    match cryptogram {
        Some(v) => tlv_bytes(TAG_DO87, v) + tlv_bytes(TAG_DO99, status),
        None => tlv_bytes(TAG_DO99, status),
    }
}

/// The ciphertext of an encrypted field: whole blocks behind the indicator.
pub open spec fn field_cipher<E>(value: Seq<u8>) -> Result<Seq<u8>, SmErrorView<E>> {
    if value.len() == 0 {
        Err(SmErrorView::Malformed("DO87 empty"@))
    } else if value[0] != DO87_PADDING_INDICATOR {
        Err(SmErrorView::Malformed("DO87 missing 0x01 indicator"@))
    } else if (value.len() - 1) % 16 != 0 {
        Err(SmErrorView::Malformed("DO87 cipher not whole blocks"@))
    } else {
        Ok(value.skip(1))
    }
}

/// The data that an encrypted field holds.
pub open spec fn decrypted_field<E>(session: SessionView, value: Seq<u8>) -> Result<
    Seq<u8>,
    SmErrorView<E>,
> {
    match field_cipher(value) {
        Ok(cipher) => Ok(
            unpadded(aes256_cbc_decrypted(session.k_enc, message_iv(session), cipher)),
        ),
        Err(e) => Err(e),
    }
}

/// Encrypted field, status and checksum of a reply.
#[verifier::ext_equal]
pub struct ReplyView {
    pub cryptogram: Option<Seq<u8>>,
    pub status: Seq<u8>,
    pub mac: Seq<u8>,
}

/// The parts of a protected reply: of repeated objects the last counts, others are
/// tolerated.
pub open spec fn reply_parts<E>(response: Seq<u8>) -> Result<ReplyView, SmErrorView<E>> {
    let items = tlv_items(response);
    if !tlv_clean(response) {
        Err(SmErrorView::Malformed("BER parse failed"@))
    } else {
        match (last_value(items, TAG_DO99 as u16), last_value(items, TAG_DO8E as u16)) {
            (None, _) => Err(SmErrorView::Malformed("no DO99"@)),
            (Some(_), None) => Err(SmErrorView::Malformed("no DO8E"@)),
            (Some(status), Some(mac)) => if status.len() != 2 {
                Err(SmErrorView::Malformed("DO99 not 2 bytes"@))
            } else if mac.len() != 8 {
                Err(SmErrorView::Malformed("DO8E not 8 bytes"@))
            } else {
                Ok(ReplyView { cryptogram: last_value(items, TAG_DO87 as u16), status, mac })
            },
        }
    }
}

/// What unwrapping gives for a reply under a session whose counter has been
/// stepped: the data and the status word, after the checksum was found to match.
pub open spec fn unwrap_result<E>(session: SessionView, response: Seq<u8>) -> Result<
    (Seq<u8>, int),
    SmErrorView<E>,
> {
    match reply_parts(response) {
        Err(e) => Err(e),
        Ok(parts) => if parts.mac != checksum(
            session,
            reply_content(parts.cryptogram, parts.status),
        ) {
            Err(SmErrorView::MacMismatch)
        } else {
            let sw = parts.status[0] * 256 + parts.status[1];
            match parts.cryptogram {
                None => Ok((Seq::empty(), sw)),
                Some(v) => match decrypted_field(session, v) {
                    Ok(body) => Ok((body, sw)),
                    Err(e) => Err(e),
                },
            }
        },
    }
}

/// A transport that protects every command under an established session.
pub struct SmTransport<T: CardTransport> {
    inner: T,
    k_enc: Aes256Key,
    k_mac: Aes256Key,
    ssc: Ssc,
    history: Ghost<Seq<Exchange<SmError<T::Error>>>>,
}

/// The view of an unwrapped reply.
pub open spec fn unwrapped_view<E>(r: Result<(Vec<u8>, u16), SmError<E>>) -> Result<
    (Seq<u8>, int),
    SmErrorView<E>,
> {
    match r {
        Ok((body, sw)) => Ok((body@, sw as int)),
        Err(e) => Err(e@),
    }
}

/// The view of a wrapped command.
pub open spec fn wrapped_view<E>(r: Result<Vec<u8>, SmError<E>>) -> Result<Seq<u8>, SmErrorView<E>> {
    match r {
        Ok(apdu) => Ok(apdu@),
        Err(e) => Err(e@),
    }
}

impl<T: CardTransport> SmTransport<T> {
    /// Keys and counter.
    pub closed spec fn session(&self) -> SessionView {
        SessionView { k_enc: self.k_enc@, k_mac: self.k_mac@, ssc: self.ssc@ }
    }

    /// The transport underneath.
    pub closed spec fn raw(&self) -> T {
        self.inner
    }

    /// The exchanges as the layers above see them.
    pub closed spec fn plain_log(&self) -> Seq<Exchange<SmError<T::Error>>> {
        self.history@
    }

    /// Adopt the keys and the counter of a handshake.
    pub fn new(inner: T, session: PaceSession) -> (r: Self)
        ensures
            r.session() == session@,
            r.raw() == inner,
            r.plain_log() == Seq::<Exchange<SmError<T::Error>>>::empty(),
    {
        SmTransport {
            inner,
            k_enc: session.k_enc,
            k_mac: session.k_mac,
            ssc: session.ssc,
            history: Ghost(Seq::empty()),
        }
    }

    /// Give up secure messaging and return the transport underneath.
    pub fn into_inner(self) -> (r: T)
        ensures
            r == self.raw(),
    {
        self.inner
    }

    /// Borrow the transport underneath.
    pub fn inner(&self) -> (r: &T)
        ensures
            *r == self.raw(),
    {
        &self.inner
    }

    /// Borrow the transport underneath mutably, to run the handshake that replaces
    /// the session.
    pub fn inner_mut(&mut self) -> (r: &mut T)
        ensures
            *r == old(self).raw(),
            final(self).raw() == *final(r),
            final(self).session() == old(self).session(),
            final(self).plain_log() == old(self).plain_log(),
    {
        &mut self.inner
    }

    /// The send sequence counter.
    pub fn ssc(&self) -> (r: Ssc)
        ensures
            r@ == self.session().ssc,
    {
        self.ssc
    }

    /// Replace keys and counter by those of a new handshake.
    pub fn replace_session(&mut self, session: PaceSession)
        ensures
            final(self).session() == session@,
            final(self).raw() == old(self).raw(),
            final(self).plain_log() == old(self).plain_log(),
    {
        self.k_enc = session.k_enc;
        self.k_mac = session.k_mac;
        self.ssc = session.ssc;
    }

    /// Replace the keys and reset the counter to zero.
    pub fn rekey(&mut self, k_enc: Aes256Key, k_mac: Aes256Key)
        ensures
            final(self).session() == (SessionView { k_enc: k_enc@, k_mac: k_mac@, ssc: zeros(16) }),
            final(self).raw() == old(self).raw(),
            final(self).plain_log() == old(self).plain_log(),
    {
        self.k_enc = k_enc;
        self.k_mac = k_mac;
        self.ssc = Ssc::initial();
    }

    /// Step the counter.
    pub fn increment_ssc(&mut self)
        ensures
            final(self).session() == stepped(old(self).session()),
            final(self).raw() == old(self).raw(),
            final(self).plain_log() == old(self).plain_log(),
    {
        self.ssc.increment();
    }
}

/// The last data object that carries `tag`.
fn find_last<'a>(items: &Vec<BerTlvAny<'a>>, tag: u16, Ghost(views): Ghost<Seq<TlvView>>) -> (r:
    Option<&'a [u8]>)
    requires
        same_items(items@, views),
    ensures
        r is Some <==> last_value(views, tag) is Some,
        r matches Some(v) ==> last_value(views, tag) == Some(v@),
{
    let mut i: usize = items.len();
    assert(views.take(i as int) =~= views);
    while i > 0
        invariant
            i <= items@.len(),
            same_items(items@, views),
            last_value(views, tag) == last_value(views.take(i as int), tag),
        decreases i,
    {
        let item = items[i - 1];
        proof {
            assert(items@[i - 1].tag == views[i - 1].tag);
            assert(views.take(i as int).last() == views[i - 1]);
            assert(views.take(i as int).drop_last() =~= views.take(i - 1));
        }
        if item.tag == tag {
            return Some(item.value);
        }
        i -= 1;
    }
    None
}

/// The parts of a protected reply, borrowed from it.
#[derive(Debug, Clone, Copy)]
pub struct ReplyParts<'a> {
    /// The encrypted field, where there is one.
    pub cryptogram: Option<&'a [u8]>,
    /// The two status bytes.
    pub status: &'a [u8],
    /// The eight bytes of the checksum.
    pub mac: &'a [u8],
}

impl<'a> View for ReplyParts<'a> {
    type V = ReplyView;

    open spec fn view(&self) -> ReplyView {
        ReplyView {
            cryptogram: slice_view(self.cryptogram),
            status: self.status@,
            mac: self.mac@,
        }
    }
}

/// The view of the parts of a reply.
pub open spec fn parts_view<E>(r: Result<ReplyParts<'_>, SmError<E>>) -> Result<
    ReplyView,
    SmErrorView<E>,
> {
    match r {
        Ok(p) => Ok(p@),
        Err(e) => Err(e@),
    }
}

impl<'a> ReplyParts<'a> {
    /// Take a protected reply apart.
    pub fn read<E>(response: &'a [u8]) -> (r: Result<ReplyParts<'a>, SmError<E>>)
        ensures
            parts_view(r) == reply_parts::<E>(response@),
    {
        let walk = BerBody::read(response);
        let ghost views = tlv_items(response@);
        if !walk.clean {
            return Err(SmError::Malformed("BER parse failed"));
        }
        let cryptogram = find_last(&walk.items, TAG_DO87 as u16, Ghost(views));
        let status = match find_last(&walk.items, TAG_DO99 as u16, Ghost(views)) {
            Some(status) => status,
            None => {
                return Err(SmError::Malformed("no DO99"));
            },
        };
        let mac = match find_last(&walk.items, TAG_DO8E as u16, Ghost(views)) {
            Some(mac) => mac,
            None => {
                return Err(SmError::Malformed("no DO8E"));
            },
        };
        if status.len() != 2 {
            return Err(SmError::Malformed("DO99 not 2 bytes"));
        }
        if mac.len() != 8 {
            return Err(SmError::Malformed("DO8E not 8 bytes"));
        }
        Ok(ReplyParts { cryptogram, status, mac })
    }

    /// What the checksum covers behind the counter.
    pub fn content(&self) -> (r: Vec<u8>)
        ensures
            r@ == reply_content(self@.cryptogram, self@.status),
    {
        let mut content = match self.cryptogram {
            Some(v) => tlv(TAG_DO87, v),
            None => Vec::new(),
        };
        let status_object = tlv(TAG_DO99, self.status);
        push_all(&mut content, status_object.as_slice());
        assert(content@ =~= reply_content(self@.cryptogram, self@.status));
        content
    }
}

/// The view of a ciphertext.
pub open spec fn cipher_view<E>(r: Result<&[u8], SmError<E>>) -> Result<Seq<u8>, SmErrorView<E>> {
    match r {
        Ok(c) => Ok(c@),
        Err(e) => Err(e@),
    }
}

/// The ciphertext of an encrypted field.
pub fn cipher_blocks<'a, E>(value: &'a [u8]) -> (r: Result<&'a [u8], SmError<E>>)
    ensures
        cipher_view(r) == field_cipher::<E>(value@),
{
    if value.len() == 0 {
        return Err(SmError::Malformed("DO87 empty"));
    }
    if value[0] != DO87_PADDING_INDICATOR {
        return Err(SmError::Malformed("DO87 missing 0x01 indicator"));
    }
    let cipher = slice_subrange(value, 1, value.len());
    assert(cipher@ =~= value@.skip(1));
    if cipher.len() % AES_BLOCK != 0 {
        return Err(SmError::Malformed("DO87 cipher not whole blocks"));
    }
    Ok(cipher)
}

/// A command around the tag that its session gives carries a valid checksum.
proof fn lemma_command_is_sealed<E>(
    session: SessionView,
    header: Seq<u8>,
    objects: Seq<u8>,
    tag: Seq<u8>,
    apdu: Seq<u8>,
)
    requires
        header.len() == 4,
        tag.len() == 8,
        tag == checksum(session, padded(header) + objects),
        sealed_command::<E>(header, sealed_objects(objects, tag)) == Ok::<Seq<u8>, SmErrorView<E>>(
            apdu,
        ),
    ensures
        is_sealed(session, apdu),
{
    let n = apdu.len() as int;
    law_padding_is_marker_and_zeros(header);
    law_padding_is_marker_and_zeros(session.ssc + (padded(header) + objects));
    law_tlv_layout(TAG_DO8E, tag);
    assert(apdu.take(4) =~= header);
    assert(apdu.subrange(5, n - 11) =~= objects);
    assert(apdu.subrange(n - 9, n - 1) =~= tag);
    assert(session.ssc + (padded(header) + objects) =~= session.ssc + block_padded(apdu.take(4))
        + apdu.subrange(5, n - 11));
}

/// Put a protected command together from its header, its data objects and the tag over
/// them.
pub fn seal_command<E>(header: &[u8; 4], objects: Vec<u8>, tag: &[u8; 8]) -> (r: Result<
    Vec<u8>,
    SmError<E>,
>)
    ensures
        wrapped_view(r) == sealed_command::<E>(header@, sealed_objects(objects@, tag@)),
{
    let mut objects = objects;
    let mac = tlv(TAG_DO8E, tag.as_slice());
    push_all(&mut objects, mac.as_slice());
    if objects.len() > 255 {
        return Err(SmError::CommandTooLong);
    }
    let mut apdu = slice_to_vec(header.as_slice());
    apdu.push(objects.len() as u8);
    push_all(&mut apdu, objects.as_slice());
    apdu.push(0x00);
    Ok(apdu)
}

impl<T: CardTransport> SmTransport<T> {
    /// Build the object around an encrypted data field.
    fn encrypt_field(&self, data: &[u8]) -> (r: Vec<u8>)
        requires
            data@.len() <= 255,
        ensures
            r@ == do87(self.session(), data@),
            r@.len() == if data@.len() == 0 {
                0
            } else {
                object_size(1 + padded_size(data@.len() as int))
            },
            data@.len() > 0 ==> cryptogram(self.session(), data@).len() == padded_size(
                data@.len() as int,
            ),
            field_readable::<T::Error>(self.session(), data@),
    {
        if data.len() == 0 {
            return Vec::new();
        }
        let padded_data = iso7816_4_pad(data);
        let iv: [u8; 16] = aes256_ecb_encrypt_block(self.k_enc.as_bytes(), self.ssc.as_bytes());
        match aes256_cbc_encrypt_no_padding(self.k_enc.as_bytes(), &iv, padded_data.as_slice()) {
            Ok(cipher) => {
                let mut value = vec![DO87_PADDING_INDICATOR];
                push_all(&mut value, cipher.as_slice());
                proof {
                    law_padding_round_trip(data@);
                    assert(value@ =~= seq![DO87_PADDING_INDICATOR] + cryptogram(
                        self.session(),
                        data@,
                    ));
                    assert(value@.skip(1) =~= cipher@);
                }
                tlv(TAG_DO87, value.as_slice())
            },
            Err(_) => Vec::new(),
        }
    }

    /// The checksum over the counter and `content`.
    fn compute_checksum(&self, content: &[u8]) -> (r: [u8; 8])
        ensures
            r@ == checksum(self.session(), content@),
    {
        let mut input = slice_to_vec(self.ssc.as_bytes().as_slice());
        push_all(&mut input, content);
        let whole = iso7816_4_pad(input.as_slice());
        aes256_cmac_truncated(self.k_mac.as_bytes(), whole.as_slice())
    }

    /// Wrap a plain short command into a protected one. The counter is stepped
    /// once the command is known to be a short one, even when the protected
    /// command then turns out too long. A card in the same session reads back the
    /// data field.
    #[verifier::rlimit(30)]
    pub fn wrap(&mut self, plain: &[u8]) -> (r: Result<Vec<u8>, SmError<T::Error>>)
        ensures
            wrapped_view(r) == wrap_result::<T::Error>(old(self).session(), plain@),
            ({
                let (data, le) = short_apdu(plain@)->Some_0;
                let size = objects_size(data.len() as int, le);
                &&& (r matches Err(SmError::CommandTooLong)) <==> short_apdu(plain@) is Some && size
                    > 255
                &&& r matches Ok(apdu) ==> apdu@.len() == 6 + size && is_sealed(
                    final(self).session(),
                    apdu@,
                )
                &&& short_apdu(plain@) is Some && data.len() > 0 ==> cryptogram(
                    final(self).session(),
                    data,
                ).len() == padded_size(data.len() as int)
                &&& short_apdu(plain@) is Some ==> checksum(
                    final(self).session(),
                    padded(protected_header(plain@)) + do87(final(self).session(), data) + do97(le),
                ).len() == 8
            }),
            r is Ok ==> field_readable::<T::Error>(
                final(self).session(),
                short_apdu(plain@)->Some_0.0,
            ),
            final(self).session() == session_after_wrap(old(self).session(), plain@),
            final(self).raw() == old(self).raw(),
            final(self).plain_log() == old(self).plain_log(),
    {
        if plain.len() < 4 {
            return Err(SmError::Malformed("APDU shorter than 4-byte header"));
        }
        let (data, le) = match decode_short_apdu(plain) {
            Some(parts) => parts,
            None => {
                return Err(SmError::Malformed("APDU does not match a short-form case"));
            },
        };
        assert(data@.len() <= 255);
        self.increment_ssc();
        let cla: u8 = plain[0] | 0x0C;
        let header: [u8; 4] = [cla, plain[1], plain[2], plain[3]];
        assert(header@ =~= protected_header(plain@));
        let mut objects = self.encrypt_field(data);
        match le {
            Some(b) => {
                let one: [u8; 1] = [b];
                let length = tlv(TAG_DO97, one.as_slice());
                assert(one@ =~= seq![b]);
                push_all(&mut objects, length.as_slice());
            },
            None => {},
        }
        assert(objects@ =~= do87(self.session(), data@) + do97(le));
        let mut content = iso7816_4_pad(header.as_slice());
        push_all(&mut content, objects.as_slice());
        let tag: [u8; 8] = self.compute_checksum(content.as_slice());
        assert(content@ =~= padded(protected_header(plain@)) + do87(self.session(), data@) + do97(
            le,
        ));
        let ghost inner = objects@;
        let r = seal_command(&header, objects, &tag);
        proof {
            if r is Ok {
                lemma_command_is_sealed::<T::Error>(
                    self.session(),
                    header@,
                    inner,
                    tag@,
                    r->Ok_0@,
                );
            }
        }
        r
    }

    /// Decrypt the field of a reply.
    fn decrypt_field(&self, value: &[u8]) -> (r: Result<Vec<u8>, SmError<T::Error>>)
        ensures
            wrapped_view(r) == decrypted_field::<T::Error>(self.session(), value@),
    {
        let cipher = match cipher_blocks(value) {
            Ok(cipher) => cipher,
            Err(e) => {
                return Err(e);
            },
        };
        let iv: [u8; 16] = aes256_ecb_encrypt_block(self.k_enc.as_bytes(), self.ssc.as_bytes());
        match aes256_cbc_decrypt_no_padding(self.k_enc.as_bytes(), &iv, cipher) {
            Ok(plain) => Ok(iso7816_4_unpad(plain.as_slice())),
            Err(_) => Err(SmError::Malformed("DO87 cipher not whole blocks")),
        }
    }

    /// Verify and decrypt a protected reply. The counter is stepped whatever the
    /// reply holds. Unknown data objects are tolerated; of repeated ones the last
    /// counts.
    pub fn unwrap(&mut self, response: &[u8]) -> (r: Result<(Vec<u8>, u16), SmError<T::Error>>)
        ensures
            unwrapped_view(r) == unwrap_result::<T::Error>(
                stepped(old(self).session()),
                response@,
            ),
            final(self).session() == stepped(old(self).session()),
            final(self).raw() == old(self).raw(),
            final(self).plain_log() == old(self).plain_log(),
    {
        self.increment_ssc();
        let parts = match ReplyParts::read(response) {
            Ok(parts) => parts,
            Err(e) => {
                return Err(e);
            },
        };
        let content = parts.content();
        let computed: [u8; 8] = self.compute_checksum(content.as_slice());
        if !ct_equal(computed.as_slice(), parts.mac) {
            return Err(SmError::MacMismatch);
        }
        let sw: u16 = parts.status[0] as u16 * 256 + parts.status[1] as u16;
        match parts.cryptogram {
            Some(v) => match self.decrypt_field(v) {
                Ok(body) => Ok((body, sw)),
                Err(e) => Err(e),
            },
            None => Ok((Vec::new(), sw)),
        }
    }
}

/// The outcome that a protected exchange passes on, for what the transport
/// underneath answered: outcomes without a response and responses without data
/// unchanged, everything else unwrapped whatever its outer status.
pub open spec fn unprotected<E>(session: SessionView, reply: Result<OutcomeView, E>) -> Result<
    OutcomeView,
    SmErrorView<E>,
> {
    match reply {
        Err(e) => Err(SmErrorView::Transport(e)),
        Ok(OutcomeView::Response(raw)) => if raw.body.len() == 0 {
            Ok(OutcomeView::Response(raw))
        } else {
            match unwrap_result::<E>(stepped(session), raw.body) {
                Ok((body, sw)) => Ok(
                    OutcomeView::Response(
                        ResponseView { body, sw1: (sw / 256) as u8, sw2: (sw % 256) as u8 },
                    ),
                ),
                Err(e) => Err(e),
            }
        },
        Ok(other) => Ok(other),
    }
}

/// The session after a reply: only data step the counter.
pub open spec fn session_after_reply<E>(session: SessionView, reply: Result<OutcomeView, E>) -> SessionView {
    match reply {
        Ok(OutcomeView::Response(raw)) => if raw.body.len() == 0 {
            session
        } else {
            stepped(session)
        },
        _ => session,
    }
}

/// The view of an exchange through secure messaging.
pub open spec fn sm_view<E>(r: Result<TransportOutcome, SmError<E>>) -> Result<
    OutcomeView,
    SmErrorView<E>,
> {
    match r {
        Ok(o) => Ok(o@),
        Err(e) => Err(e@),
    }
}

/// `r` is what an exchange of `plain` gives when it starts in `before` and ends in
/// `after`: a command that cannot be wrapped does not go out; otherwise its
/// protected form goes out once and the reply is unwrapped.
pub open spec fn protected_exchange<T: CardTransport>(
    before: SmTransport<T>,
    after: SmTransport<T>,
    plain: Seq<u8>,
    r: Result<TransportOutcome, SmError<T::Error>>,
) -> bool {
    let wrapped = wrap_result::<T::Error>(before.session(), plain);
    let session = session_after_wrap(before.session(), plain);
    match wrapped {
        Err(e) => {
            &&& sm_view(r) == Err::<OutcomeView, SmErrorView<T::Error>>(e)
            &&& after.raw() == before.raw()
            &&& after.session() == session
        },
        Ok(apdu) => {
            let reply = after.raw().log().last().reply;
            &&& sent(before.raw().log(), after.raw().log(), apdu)
            &&& sm_view(r) == unprotected(session, reply)
            &&& after.session() == session_after_reply(session, reply)
        },
    }
}

impl<T: CardTransport> SmTransport<T> {
    /// Exchange one command under protection.
    fn exchange(&mut self, apdu: &CommandApdu) -> (r: Result<TransportOutcome, SmError<T::Error>>)
        ensures
            protected_exchange(*old(self), *final(self), apdu@, r),
            final(self).plain_log() == old(self).plain_log(),
    {
        let wrapped = match self.wrap(apdu.as_bytes()) {
            Ok(wrapped) => wrapped,
            Err(e) => {
                return Err(e);
            },
        };
        let command = CommandApdu::new(wrapped);
        let ghost before = self.inner.log();
        let outcome = self.inner.transmit_outcome(&command);
        assert(self.inner.log().drop_last() =~= before);
        match outcome {
            Err(e) => Err(SmError::Transport(e)),
            Ok(TransportOutcome::Response(raw)) => {
                if raw.body.len() == 0 {
                    return Ok(TransportOutcome::Response(raw));
                }
                match self.unwrap(raw.body.as_slice()) {
                    Ok((body, sw)) => {
                        let sw1: u8 = (sw / 256) as u8;
                        let sw2: u8 = (sw % 256) as u8;
                        Ok(TransportOutcome::Response(ResponseApdu { body, sw1, sw2 }))
                    },
                    Err(e) => Err(e),
                }
            },
            Ok(other) => Ok(other),
        }
    }
}

impl<T: CardTransport> CardTransport for SmTransport<T> {
    type Error = SmError<T::Error>;

    closed spec fn log(&self) -> Seq<Exchange<SmError<T::Error>>> {
        self.history@
    }

    fn transmit_outcome(&mut self, apdu: &CommandApdu) -> (r: Result<
        TransportOutcome,
        SmError<T::Error>,
    >)
        ensures
            protected_exchange(*old(self), *final(self), apdu@, r),
    {
        let r = self.exchange(apdu);
        proof {
            self.history@ = self.history@.push(
                Exchange {
                    command: apdu@,
                    le_retry: apdu.permits_le_retry(),
                    reply: outcome_view(r),
                },
            );
        }
        r
    }

    fn atr(&self) -> (r: Result<Atr, AtrError>)
        ensures
            call_ensures(T::atr, (&self.raw(),), r),
    {
        self.inner.atr()
    }
}

/// The reply of a card that protects `body` and a status word under `session`,
/// whose counter has been stepped.
pub open spec fn protected_reply(session: SessionView, body: Seq<u8>, status: Seq<u8>) -> Seq<u8> {
    let objects = do87(session, body) + tlv_bytes(TAG_DO99, status);
    objects + tlv_bytes(TAG_DO8E, checksum(session, objects))
}

/// The cipher keeps the length of a padded `body` that is not empty and decryption
/// gives it back, and the checksum has eight bytes.
pub open spec fn cipher_holds(session: SessionView, body: Seq<u8>, content: Seq<u8>) -> bool {
    let c = cryptogram(session, body);
    &&& body.len() > 0 ==> c.len() == padded(body).len()
    &&& body.len() > 0 ==> aes256_cbc_decrypted(session.k_enc, message_iv(session), c) == padded(
        body,
    )
    &&& checksum(session, content).len() == 8
}

proof fn lemma_last_values(first: Option<TlvView>, status: TlvView, mac: TlvView)
    requires
        first matches Some(f) ==> f.tag == TAG_DO87,
        status.tag == TAG_DO99,
        mac.tag == TAG_DO8E,
    ensures
        ({
            let items = match first {
                Some(f) => seq![f, status, mac],
                None => seq![status, mac],
            };
            &&& last_value(items, TAG_DO99 as u16) == Some(status.value)
            &&& last_value(items, TAG_DO8E as u16) == Some(mac.value)
            &&& last_value(items, TAG_DO87 as u16) == match first {
                Some(f) => Some(f.value),
                None => None,
            }
        }),
{
    reveal_with_fuel(last_value, 4);
    match first {
        Some(f) => {
            assert(seq![f, status, mac].drop_last() =~= seq![f, status]);
            assert(seq![f, status].drop_last() =~= seq![f]);
        },
        None => {
            assert(seq![status, mac].drop_last() =~= seq![status]);
            assert(seq![status].drop_last() =~= Seq::<TlvView>::empty());
        },
    }
}

proof fn lemma_status_and_mac(status: Seq<u8>, mac: Seq<u8>)
    requires
        status.len() == 2,
        mac.len() == 8,
    ensures
        ({
            let bytes = tlv_bytes(TAG_DO99, status) + tlv_bytes(TAG_DO8E, mac);
            &&& tlv_clean(bytes)
            &&& tlv_items(bytes) == seq![
                TlvView {
                    tag: TAG_DO99 as u16,
                    value: status,
                    size: tlv_bytes(TAG_DO99, status).len() as int,
                },
                TlvView {
                    tag: TAG_DO8E as u16,
                    value: mac,
                    size: tlv_bytes(TAG_DO8E, mac).len() as int,
                },
            ]
        }),
{
    let none = Seq::<u8>::empty();
    let last = tlv_bytes(TAG_DO8E, mac);
    law_tlv_sequence(TAG_DO8E, mac, none);
    assert(last + none =~= last);
    assert(tlv_items(none) =~= Seq::empty());
    law_tlv_sequence(TAG_DO99, status, last);
    assert(tlv_items(tlv_bytes(TAG_DO99, status) + last) =~= seq![
        TlvView {
            tag: TAG_DO99 as u16,
            value: status,
            size: tlv_bytes(TAG_DO99, status).len() as int,
        },
        TlvView { tag: TAG_DO8E as u16, value: mac, size: last.len() as int },
    ]);
}

/// A reply put together from its parts is taken apart into them.
proof fn lemma_parts_read_back<E>(cryptogram: Option<Seq<u8>>, status: Seq<u8>, mac: Seq<u8>)
    requires
        status.len() == 2,
        mac.len() == 8,
        cryptogram matches Some(v) ==> v.len() <= 0xFFFF_FFFF,
    ensures
        reply_parts::<E>(reply_content(cryptogram, status) + tlv_bytes(TAG_DO8E, mac)) == Ok::<
            ReplyView,
            SmErrorView<E>,
        >(ReplyView { cryptogram, status, mac }),
{
    let tail = tlv_bytes(TAG_DO99, status) + tlv_bytes(TAG_DO8E, mac);
    let all = reply_content(cryptogram, status) + tlv_bytes(TAG_DO8E, mac);
    lemma_status_and_mac(status, mac);
    let items = tlv_items(tail);
    match cryptogram {
        Some(value) => {
            law_tlv_sequence(TAG_DO87, value, tail);
            let first = TlvView {
                tag: TAG_DO87 as u16,
                value,
                size: tlv_bytes(TAG_DO87, value).len() as int,
            };
            assert(all =~= tlv_bytes(TAG_DO87, value) + tail);
            assert(tlv_items(all) =~= seq![first, items[0], items[1]]);
            lemma_last_values(Some(first), items[0], items[1]);
        },
        None => {
            assert(items =~= seq![items[0], items[1]]);
            lemma_last_values(None, items[0], items[1]);
        },
    }
}

/// A terminal reads back what a card in the same session protects: the data and
/// the status word come out as they went in.
pub proof fn law_reply_round_trip<E>(session: SessionView, body: Seq<u8>, status: Seq<u8>)
    requires
        status.len() == 2,
        body.len() <= 0xFFFF_FF00,
        cipher_holds(session, body, do87(session, body) + tlv_bytes(TAG_DO99, status)),
    ensures
        unwrap_result::<E>(session, protected_reply(session, body, status)) == Ok::<
            (Seq<u8>, int),
            SmErrorView<E>,
        >((body, status[0] * 256 + status[1])),
{
    let objects = do87(session, body) + tlv_bytes(TAG_DO99, status);
    let mac = checksum(session, objects);
    if body.len() == 0 {
        assert(objects =~= reply_content(None, status));
        lemma_parts_read_back::<E>(None, status, mac);
        assert(body =~= Seq::empty());
    } else {
        let value = seq![DO87_PADDING_INDICATOR] + cryptogram(session, body);
        law_padding_round_trip(body);
        assert(objects =~= reply_content(Some(value), status));
        lemma_parts_read_back::<E>(Some(value), status, mac);
        assert(value.skip(1) =~= cryptogram(session, body));
    }
}

/// No data and no status word come out of a reply unless its checksum matches
/// under the session and the current counter.
pub proof fn law_unwrapped_is_authentic<E>(session: SessionView, response: Seq<u8>)
    ensures
        unwrap_result::<E>(session, response) is Ok ==> {
            let parts = reply_parts::<E>(response);
            &&& parts is Ok
            &&& parts->Ok_0.mac == checksum(
                session,
                reply_content(parts->Ok_0.cryptogram, parts->Ok_0.status),
            )
        },
{
}

/// A short command can be protected exactly if its data field is short enough: 239 bytes,
/// or 223 with an expected length.
pub proof fn law_longest_protected_field(n: int, le: Option<u8>)
    requires
        0 <= n <= 255,
    ensures
        objects_size(n, le) <= 255 <==> n <= if le is Some {
            223int
        } else {
            239int
        },
{
}

/// A wrapped command is itself a short command that asks for a full reply, and its
/// data field holds exactly the protected objects.
pub proof fn law_wrapped_is_short<E>(session: SessionView, plain: Seq<u8>)
    requires
        wrap_result::<E>(session, plain) is Ok,
    ensures
        short_apdu(wrap_result::<E>(session, plain)->Ok_0) == Some(
            (protected_objects(stepped(session), plain), Some(0x00u8)),
        ),
{
    let objects = protected_objects(stepped(session), plain);
    let apdu = wrap_result::<E>(session, plain)->Ok_0;
    assert(apdu.len() == 6 + objects.len());
    assert(objects.len() > 0);
    assert(apdu[4] == objects.len());
    assert(apdu.subrange(5, 5 + objects.len() as int) =~= objects);
    assert(apdu[5 + objects.len() as int] == 0x00);
}

/// The reply of an exchange carries data.
pub open spec fn answered_with_data<E>(x: Exchange<E>) -> bool {
    match x.reply {
        Ok(OutcomeView::Response(raw)) => raw.body.len() > 0,
        _ => false,
    }
}

/// A command that goes out and is answered with data moves the counter by exactly
/// two steps; one that cannot be wrapped as a short command does not move it.
pub proof fn law_counter_steps<T: CardTransport>(
    before: SmTransport<T>,
    after: SmTransport<T>,
    plain: Seq<u8>,
    r: Result<TransportOutcome, SmError<T::Error>>,
)
    requires
        protected_exchange(before, after, plain, r),
    ensures
        short_apdu(plain) is None ==> after.session() == before.session(),
        wrap_result::<T::Error>(before.session(), plain) is Ok && answered_with_data(
            after.raw().log().last(),
        ) ==> after.session().ssc == counter_next(counter_next(before.session().ssc)),
        after.session().k_enc == before.session().k_enc,
        after.session().k_mac == before.session().k_mac,
{
}

/// Padding adds the byte 80 and as few zeros as make whole blocks of sixteen bytes.
pub proof fn law_padding_is_marker_and_zeros(data: Seq<u8>)
    ensures
        padded(data) == block_padded(data),
{
    assert(padded(data) =~= block_padded(data));
}

/// Stripping takes the last byte 80 off that only zeros follow, with the zeros. Data in
/// which no such byte is stays as it is.
pub proof fn law_stripping_takes_marker_and_zeros(data: Seq<u8>)
    ensures
        forall|i: int|
            #![trigger data[i]]
            0 <= i < data.len() && data[i] == 0x80 && (forall|j: int|
                i < j < data.len() ==> #[trigger] data[j] == 0) ==> unpadded(data) == data.take(i),
        (forall|i: int|
            #![trigger data[i]]
            0 <= i < data.len() && data[i] == 0x80 ==> exists|j: int|
                i < j < data.len() && #[trigger] data[j] != 0) ==> unpadded(data) == data,
    decreases data.len(),
{
    lemma_marker(data);
    lemma_marker_bounds(data);
}

proof fn lemma_marker(data: Seq<u8>)
    ensures
        match marker_position(data) {
            Some(m) => {
                &&& 0 <= m < data.len() && data[m] == 0x80
                &&& forall|j: int| m < j < data.len() ==> #[trigger] data[j] == 0
            },
            None => forall|i: int|
                #![trigger data[i]]
                0 <= i < data.len() && data[i] == 0x80 ==> exists|j: int|
                    i < j < data.len() && #[trigger] data[j] != 0,
        },
    decreases data.len(),
{
    if data.len() > 0 {
        let front = data.drop_last();
        let last = data.len() - 1;
        if data[last] == 0x00 {
            lemma_marker(front);
            match marker_position(data) {
                Some(m) => {
                    assert(front[m] == data[m]);
                    assert forall|j: int| m < j < data.len() implies #[trigger] data[j] == 0 by {
                        if j < last {
                            assert(front[j] == data[j]);
                        }
                    }
                },
                None => {
                    assert forall|i: int|
                        #![trigger data[i]]
                        0 <= i < data.len() && data[i] == 0x80 implies exists|j: int|
                        i < j < data.len() && #[trigger] data[j] != 0 by {
                        assert(front[i] == data[i]);
                        let j = choose|j: int| i < j < front.len() && #[trigger] front[j] != 0;
                        assert(data[j] != 0);
                    }
                },
            }
        } else if data[last] != 0x80 {
            assert forall|i: int|
                #![trigger data[i]]
                0 <= i < data.len() && data[i] == 0x80 implies exists|j: int|
                i < j < data.len() && #[trigger] data[j] != 0 by {
                assert(data[last] != 0);
            }
        }
    }
}

/// A command in bytes: its header, then its data field behind a length where it has one,
/// then its expected length where it has one.
pub open spec fn command_bytes(header: Seq<u8>, data: Seq<u8>, le: Option<u8>) -> Seq<u8> {
    let body = if data.len() == 0 {
        header
    } else {
        header.push(data.len() as u8) + data
    };
    match le {
        Some(b) => body.push(b),
        None => body,
    }
}

/// Every short command is taken apart into the parts it was put together from.
pub proof fn law_short_command_read_back(header: Seq<u8>, data: Seq<u8>, le: Option<u8>)
    requires
        header.len() == 4,
        data.len() <= 255,
    ensures
        short_apdu(command_bytes(header, data, le)) == Some((data, le)),
{
    let all = command_bytes(header, data, le);
    if data.len() == 0 {
        assert(data =~= Seq::empty());
    } else {
        let end = 5 + data.len() as int;
        assert(all.subrange(5, end) =~= data);
    }
}

/// The counter that the next message is protected under.
pub open spec fn is_next_counter(before: Seq<u8>, after: Seq<u8>) -> bool {
    &&& before.len() == 16 && after.len() == 16
    &&& be_nat(after) == be_nat(before) + 1 || (forall|i: int|
        0 <= i < 16 ==> #[trigger] before[i] == 0xFF && after[i] == 0)
}

/// Object 87 around the ciphertext `c` of a data field: tag, length, the indicator 01 and
/// the ciphertext.
pub open spec fn field_object(c: Seq<u8>) -> Seq<u8> {
    let n = c.len() + 1;
    if n < 128 {
        seq![0x87u8, n as u8, 0x01u8] + c
    } else {
        seq![0x87u8, 0x81u8, n as u8, 0x01u8] + c
    }
}

/// Object 97 around an expected length.
pub open spec fn expected_object(le: Option<u8>) -> Seq<u8> {
    match le {
        Some(b) => seq![0x97u8, 0x01u8, b],
        None => Seq::empty(),
    }
}

/// The ciphertext of a data field under a counter: the field padded to whole blocks, in
/// cipher block chaining from the encrypted counter on.
pub open spec fn field_ciphertext(k_enc: Seq<u8>, counter: Seq<u8>, data: Seq<u8>) -> Seq<u8> {
    aes256_cbc_encrypted(k_enc, aes256_block(k_enc, counter), block_padded(data))
}

/// The protected command for a header, a data field and an expected length, byte by byte.
/// The header has the two secure-messaging bits of its class set. Object 87 has the
/// encrypted field, object 97 the expected length, and object 8E the head of the CMAC over
/// the counter, the padded header and the other objects. The last byte asks for a full
/// reply.
pub open spec fn protected_layout(
    session: SessionView,
    counter: Seq<u8>,
    header: Seq<u8>,
    data: Seq<u8>,
    le: Option<u8>,
) -> Seq<u8> {
    let first = seq![header[0] | 0x0C, header[1], header[2], header[3]];
    let field = if data.len() == 0 {
        Seq::empty()
    } else {
        field_object(field_ciphertext(session.k_enc, counter, data))
    };
    let expected = expected_object(le);
    let tag = aes256_cmac(
        session.k_mac,
        block_padded(counter + block_padded(first) + (field + expected)),
    ).take(8);
    first + seq![(field.len() + expected.len() + 10) as u8] + field + expected + seq![
        0x8Eu8,
        0x08u8,
    ] + tag + seq![0x00u8]
}

proof fn lemma_field_object(s: SessionView, data: Seq<u8>)
    requires
        0 < data.len() < 240,
        field_ciphertext(s.k_enc, s.ssc, data).len() == (data.len() / 16 + 1) * 16,
    ensures
        do87(s, data) == field_object(field_ciphertext(s.k_enc, s.ssc, data)),
{
    law_padding_is_marker_and_zeros(data);
    let c = cryptogram(s, data);
    let value = seq![0x01u8] + c;
    law_tlv_layout(0x87, value);
    if value.len() < 128 {
        assert(do87(s, data) =~= seq![0x87u8, value.len() as u8, 0x01u8] + c);
    } else {
        assert(do87(s, data) =~= seq![0x87u8, 0x81u8, value.len() as u8, 0x01u8] + c);
    }
}

proof fn lemma_expected_object(le: Option<u8>)
    ensures
        do97(le) == expected_object(le),
{
    match le {
        Some(b) => {
            law_tlv_layout(0x97, seq![b]);
            assert(do97(le) =~= seq![0x97u8, 0x01u8, b]);
        },
        None => {},
    }
}

proof fn lemma_sealed_layout<E>(
    first: Seq<u8>,
    field: Seq<u8>,
    expected: Seq<u8>,
    tag: Seq<u8>,
    apdu: Seq<u8>,
)
    requires
        tag.len() == 8,
        sealed_command::<E>(first, sealed_objects(field + expected, tag)) == Ok::<
            Seq<u8>,
            SmErrorView<E>,
        >(apdu),
    ensures
        apdu == first + seq![(field.len() + expected.len() + 10) as u8] + field + expected + seq![
            0x8Eu8,
            0x08u8,
        ] + tag + seq![0x00u8],
{
    law_tlv_layout(0x8E, tag);
    assert(apdu =~= first + seq![(field.len() + expected.len() + 10) as u8] + field + expected
        + seq![0x8Eu8, 0x08u8] + tag + seq![0x00u8]);
}

/// A protected command has exactly the bytes that [`protected_layout`] spells, under the
/// next counter.
pub proof fn law_protected_command_layout<E>(
    session: SessionView,
    header: Seq<u8>,
    data: Seq<u8>,
    le: Option<u8>,
    apdu: Seq<u8>,
    next: Seq<u8>,
)
    requires
        session.ssc.len() == 16,
        header.len() == 4,
        data.len() <= 255,
        wrap_result::<E>(session, command_bytes(header, data, le)) == Ok::<
            Seq<u8>,
            SmErrorView<E>,
        >(apdu),
        next == session_after_wrap(session, command_bytes(header, data, le)).ssc,
        data.len() > 0 ==> field_ciphertext(session.k_enc, next, data).len() == (data.len() / 16
            + 1) * 16,
        forall|input: Seq<u8>| #[trigger] aes256_cmac(session.k_mac, input).len() >= 8,
    ensures
        is_next_counter(session.ssc, next),
        apdu == protected_layout(session, next, header, data, le),
{
    let plain = command_bytes(header, data, le);
    law_short_command_read_back(header, data, le);
    law_counter_adds_one(session.ssc);
    if forall|i: int| 0 <= i < session.ssc.len() ==> session.ssc[i] == 0xFF {
        assert(next == zeros(16));
    }
    let first = protected_header(plain);
    assert(first =~= seq![header[0] | 0x0C, header[1], header[2], header[3]]);
    let s = stepped(session);
    if data.len() > 0 {
        law_padding_is_marker_and_zeros(data);
        assert(do87(s, data).len() >= cryptogram(s, data).len());
        assert(data.len() < 240);
        lemma_field_object(s, data);
    }
    lemma_expected_object(le);
    let inner = do87(s, data) + do97(le);
    law_padding_is_marker_and_zeros(first);
    law_padding_is_marker_and_zeros(next + (padded(first) + inner));
    assert(next + (padded(first) + inner) =~= next + padded(first) + inner);
    let tag = checksum(s, padded(first) + inner);
    assert(tag.len() == 8);
    lemma_sealed_layout::<E>(first, do87(s, data), do97(le), tag, apdu);
}

/// Protection covers the header: what the checksums of two commands are taken over differs
/// when the commands differ in their header alone.
pub proof fn law_header_is_authenticated(
    counter: Seq<u8>,
    one: Seq<u8>,
    other: Seq<u8>,
    objects: Seq<u8>,
)
    requires
        one.len() == 4,
        other.len() == 4,
        one != other,
    ensures
        block_padded(counter + block_padded(one) + objects) != block_padded(
            counter + block_padded(other) + objects,
        ),
{
    let i = choose|i: int| 0 <= i < 4 && one[i] != other[i];
    if forall|i: int| 0 <= i < 4 ==> one[i] == other[i] {
        assert(one =~= other);
    }
    let a = counter + block_padded(one) + objects;
    let b = counter + block_padded(other) + objects;
    let at = counter.len() + i;
    assert(a[at] == one[i]);
    assert(b[at] == other[i]);
    assert(block_padded(a)[at] == a[at]);
    assert(block_padded(b)[at] == b[at]);
}

/// A protected reply, byte by byte: object 87 with the indicator 01 and the ciphertext where
/// there is one, object 99 with the status word and object 8E with the checksum. It is
/// accepted exactly if the checksum is the head of the CMAC over the counter and the bytes
/// of the objects in front of it; then the ciphertext is decrypted under the encrypted
/// counter and stripped, and the status word is that of object 99.
pub proof fn law_protected_reply_layout<E>(
    session: SessionView,
    cipher: Option<Seq<u8>>,
    sw1: u8,
    sw2: u8,
    mac: Seq<u8>,
)
    requires
        mac.len() == 8,
        cipher matches Some(c) ==> c.len() % 16 == 0 && c.len() < 0xFFFF,
    ensures
        ({
            let front = (match cipher {
                Some(c) => tlv_bytes(0x87, seq![0x01u8] + c),
                None => Seq::empty(),
            }) + seq![0x99u8, 0x02u8, sw1, sw2];
            let response = front + seq![0x8Eu8, 0x08u8] + mac;
            let expected = aes256_cmac(session.k_mac, block_padded(session.ssc + front)).take(8);
            unwrap_result::<E>(session, response) == if mac != expected {
                Err(SmErrorView::<E>::MacMismatch)
            } else {
                let body = match cipher {
                    Some(c) => unpadded(
                        aes256_cbc_decrypted(
                            session.k_enc,
                            aes256_block(session.k_enc, session.ssc),
                            c,
                        ),
                    ),
                    None => Seq::empty(),
                };
                Ok((body, sw1 * 256 + sw2))
            }
        }),
{
    let status = seq![sw1, sw2];
    let value = match cipher {
        Some(c) => Some(seq![0x01u8] + c),
        None => None,
    };
    law_tlv_layout(0x99, status);
    law_tlv_layout(0x8E, mac);
    let front = (match cipher {
        Some(c) => tlv_bytes(0x87, seq![0x01u8] + c),
        None => Seq::empty(),
    }) + seq![0x99u8, 0x02u8, sw1, sw2];
    let response = front + seq![0x8Eu8, 0x08u8] + mac;
    assert(tlv_bytes(0x99, status) =~= seq![0x99u8, 0x02u8, sw1, sw2]);
    assert(reply_content(value, status) =~= front);
    assert(response =~= reply_content(value, status) + tlv_bytes(TAG_DO8E, mac));
    lemma_parts_read_back::<E>(value, status, mac);
    law_padding_is_marker_and_zeros(session.ssc + front);
    match cipher {
        Some(c) => {
            assert((seq![0x01u8] + c).skip(1) =~= c);
        },
        None => {},
    }
}

/// Of several objects of one kind in a reply the last counts: whatever readable object goes
/// in front of a reply that has that object, it changes nothing.
pub proof fn law_last_object_counts<E>(tag: u8, value: Seq<u8>, response: Seq<u8>)
    requires
        tag % 32 != 31,
        value.len() <= 0xFFFF_FFFF,
        reply_parts::<E>(response) is Ok,
        tag == 0x87 ==> reply_parts::<E>(response)->Ok_0.cryptogram is Some,
    ensures
        reply_parts::<E>(tlv_bytes(tag, value) + response) == reply_parts::<E>(response),
{
    law_tlv_sequence(tag, value, response);
    let item = TlvView { tag: tag as u16, value, size: tlv_bytes(tag, value).len() as int };
    let items = tlv_items(response);
    lemma_last_value_behind(item, items, 0x87);
    lemma_last_value_behind(item, items, 0x99);
    lemma_last_value_behind(item, items, 0x8E);
}

proof fn lemma_last_value_behind(item: TlvView, items: Seq<TlvView>, tag: u16)
    ensures
        last_value(items, tag) is Some ==> last_value(seq![item] + items, tag) == last_value(
            items,
            tag,
        ),
        item.tag != tag ==> last_value(seq![item] + items, tag) == last_value(items, tag),
    decreases items.len(),
{
    let all = seq![item] + items;
    if items.len() > 0 {
        assert(all.drop_last() =~= seq![item] + items.drop_last());
        lemma_last_value_behind(item, items.drop_last(), tag);
    } else {
        assert(all.drop_last() =~= Seq::<TlvView>::empty());
        assert(last_value(all.drop_last(), tag) is None);
    }
}

/// What passes through protection: a fault, an outcome without a response and a response
/// without data reach the caller as they came and leave the counter alone; a response with
/// data reaches the caller only unwrapped, with its protected status, and steps the counter.
pub proof fn law_only_data_is_unwrapped<E>(session: SessionView, reply: Result<OutcomeView, E>)
    requires
        session.ssc.len() == 16,
    ensures
        reply matches Err(e) ==> unprotected(session, reply) == Err::<OutcomeView, SmErrorView<E>>(
            SmErrorView::Transport(e),
        ),
        reply matches Ok(o) ==> !(o is Response) ==> unprotected(session, reply) == Ok::<
            OutcomeView,
            SmErrorView<E>,
        >(o),
        reply matches Ok(OutcomeView::Response(raw)) ==> raw.body.len() == 0 ==> unprotected(
            session,
            reply,
        ) == Ok::<OutcomeView, SmErrorView<E>>(OutcomeView::Response(raw)),
        reply matches Ok(OutcomeView::Response(raw)) ==> raw.body.len() > 0 ==> {
            let after = session_after_reply(session, reply);
            let inner = unwrap_result::<E>(after, raw.body);
            &&& is_next_counter(session.ssc, after.ssc)
            &&& after.k_enc == session.k_enc && after.k_mac == session.k_mac
            &&& inner matches Err(e) ==> unprotected(session, reply) == Err::<
                OutcomeView,
                SmErrorView<E>,
            >(e)
            &&& inner matches Ok((body, sw)) ==> (0 <= sw < 0x1_0000 ==> (unprotected(
                session,
                reply,
            ) matches Ok(OutcomeView::Response(r)) && r.body == body && r.sw1 * 256 + r.sw2 == sw))
        },
        !answered(reply) ==> session_after_reply(session, reply) == session,
{
    law_counter_adds_one(session.ssc);
    if forall|i: int| 0 <= i < session.ssc.len() ==> session.ssc[i] == 0xFF {
        assert(counter_next(session.ssc) == zeros(16));
    }
}

/// A reply carries data.
pub open spec fn answered<E>(reply: Result<OutcomeView, E>) -> bool {
    reply matches Ok(OutcomeView::Response(raw)) && raw.body.len() > 0
}

} // verus!
