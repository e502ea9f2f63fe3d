//! PACE: the password-authenticated handshake that a card demands on its
//! contactless interface.
//!
//! The handshake has five rounds. `MSE:Set AT` announces the mechanism. The card
//! then sends an encrypted nonce; both sides exchange two points, one to map the
//! nonce to a generator and one to agree on a key; finally each side proves the
//! derived key with a token over the other's point. The arithmetic on the curve
//! happens outside this module: a round takes the encoded point to send and hands
//! back the encoded point of the card, and the last round takes the x-coordinate
//! of the shared point.

use crate::ber::{law_tlv_round_trip, tagged, tagged_view, tlv, tlv2, tlv2_bytes, tlv_bytes, BerError, BerTlvAny};
use crate::bytes::{be_nat, push_all};
use crate::can::Can;
use crate::crypto::brainpool_p384::{generator_point, in_scalar_range, is_uncompressed, lemma_be_nat_leading_zeros,
    lemma_short_below_order, AffinePoint, Scalar, ORDER};
use crate::crypto::secret::Secret;
use crate::crypto::symmetric::{aes256_cbc_decrypt_no_padding, aes256_cbc_decrypted,
    aes256_cmac_truncated, ct_equal, kdf, kdf_aes256, mac8, Aes256Key, KdfParam};
use crate::oid::known::PACE_ECDH_GM_AES_CBC_CMAC_256;
use crate::pace::commands::{general_authenticate_bytes, mse_set_at_bytes, GeneralAuthenticate,
    MseSetAt};
use crate::render::{hex4, hex_text, lower_hex, push_hex4};
use crate::rng::{array, is_draw, Failure};
use crate::transport::{continues, lemma_continues, lemma_sent, news, sent, CardTransport,
    DispatchErrorView, Exchange, TransportDispatchError};
use vstd::prelude::*;
use vstd::slice::slice_subrange;
use vstd::string::*;

pub mod commands;
pub mod wire;

verus! {

/// Tag of the dynamic authentication data template around every round.
#[derive(Debug, Clone, Copy)]
pub struct DynamicAuthData;

impl DynamicAuthData {
    /// The tag.
    pub const TAG: u16 = 0x7C;
}

/// Tag of the card's encrypted nonce.
#[derive(Debug, Clone, Copy)]
pub struct EncryptedNonce;

impl EncryptedNonce {
    /// The tag.
    pub const TAG: u16 = 0x80;
}

/// Tag of the card's mapping point.
#[derive(Debug, Clone, Copy)]
pub struct MappingDataOut;

impl MappingDataOut {
    /// The tag.
    pub const TAG: u16 = 0x82;
}

/// Tag of the card's key-agreement point.
#[derive(Debug, Clone, Copy)]
pub struct KeyAgreeOut;

impl KeyAgreeOut {
    /// The tag.
    pub const TAG: u16 = 0x84;
}

/// Tag of the card's authentication token.
#[derive(Debug, Clone, Copy)]
pub struct AuthTokenOut;

impl AuthTokenOut {
    /// The tag.
    pub const TAG: u16 = 0x86;
}

/// Password reference of the machine-readable zone.
pub const PASSWORD_REF_MRZ: u8 = 0x01;

/// Password reference of the printed card access number.
pub const PASSWORD_REF_CAN: u8 = 0x02;

/// Password reference of the cardholder PIN.
pub const PASSWORD_REF_PIN: u8 = 0x03;

/// Password reference of the PUK.
pub const PASSWORD_REF_PUK: u8 = 0x04;

/// Domain-parameter reference that the cards use for brainpoolP384r1.
pub const DOMAIN_REF_BRAINPOOL_P384_R1: u8 = 0x10;

/// Length of the nonce.
pub const NONCE_LEN: usize = 16;

/// Send sequence counter: sixteen big-endian bytes, stepped before every
/// protected command and response.
#[derive(Debug, Clone, Copy, PartialEq, Eq)]
pub struct Ssc([u8; 16]);

impl View for Ssc {
    type V = Seq<u8>;

    closed spec fn view(&self) -> Seq<u8> {
        self.0@
    }
}

/// The next value of a big-endian counter, which wraps at its length.
pub open spec fn counter_next(s: Seq<u8>) -> Seq<u8>
    decreases s.len(),
{
    if s.len() == 0 {
        s
    } else if s.last() == 0xFF {
        counter_next(s.drop_last()).push(0x00)
    } else {
        s.drop_last().push((s.last() + 1) as u8)
    }
}

/// `n` zero bytes.
pub open spec fn zeros(n: nat) -> Seq<u8> {
    Seq::new(n, |i: int| 0u8)
}

proof fn lemma_counter_len(s: Seq<u8>)
    ensures
        counter_next(s).len() == s.len(),
    decreases s.len(),
{
    if s.len() > 0 {
        lemma_counter_len(s.drop_last());
    }
}

/// Stepping the counter adds one, except that the largest value is followed by
/// zero.
pub proof fn law_counter_adds_one(s: Seq<u8>)
    ensures
        counter_next(s).len() == s.len(),
        (exists|i: int| 0 <= i < s.len() && s[i] != 0xFF) ==> be_nat(counter_next(s)) == be_nat(s)
            + 1,
        (forall|i: int| 0 <= i < s.len() ==> s[i] == 0xFF) ==> counter_next(s) == zeros(s.len()),
    decreases s.len(),
{
    lemma_counter_len(s);
    if s.len() > 0 {
        let t = s.drop_last();
        law_counter_adds_one(t);
        if s.last() == 0xFF {
            assert(counter_next(s).drop_last() =~= counter_next(t));
            if exists|i: int| 0 <= i < s.len() && s[i] != 0xFF {
                let i = choose|i: int| 0 <= i < s.len() && s[i] != 0xFF;
                assert(t[i] != 0xFF);
            } else {
                assert forall|i: int| 0 <= i < t.len() implies t[i] == 0xFF by {
                    assert(s[i] == 0xFF);
                }
                assert(counter_next(s) =~= zeros(s.len()));
            }
        } else {
            assert(counter_next(s).drop_last() =~= t);
        }
    } else {
        assert(counter_next(s) =~= zeros(0));
    }
}

impl Ssc {
    /// The counter of a fresh session: all zero.
    pub fn initial() -> (r: Ssc)
        ensures
            r@ == zeros(16),
    {
        let r = Ssc([0u8; 16]);
        assert(r@ =~= zeros(16));
        r
    }

    /// Wrap raw counter bytes.
    pub fn from_bytes(bytes: [u8; 16]) -> (r: Ssc)
        ensures
            r@ == bytes@,
    {
        Ssc(bytes)
    }

    /// Step the counter by one, wrapping at its length.
    pub fn increment(&mut self)
        ensures
            final(self)@ == counter_next(old(self)@),
    {
        let ghost start = self.0@;
        let mut i: usize = 16;
        proof {
            assert(start.take(16) =~= start);
            assert(counter_next(start) + zeros(0) =~= counter_next(start));
        }
        while i > 0
            invariant_except_break
                i <= 16,
                start.len() == 16,
                self.0@.len() == 16,
                self.0@.take(i as int) == start.take(i as int),
                counter_next(start) == counter_next(start.take(i as int)) + zeros(
                    (16 - i) as nat,
                ),
                self.0@.skip(i as int) == zeros((16 - i) as nat),
            ensures
                self.0@ == counter_next(start),
            decreases i,
        {
            i -= 1;
            let b: u8 = self.0[i];
            let ghost head = start.take(i + 1);
            proof {
                assert(b == self.0@.take(i + 1)[i as int]);
                assert(head.last() == b);
                assert(head.drop_last() =~= start.take(i as int));
            }
            let ghost before = self.0@;
            if b == 0xFF {
                self.0[i] = 0;
                proof {
                    assert(self.0@.take(i as int) =~= start.take(i as int));
                    assert(self.0@.skip(i as int) =~= zeros((16 - i) as nat)) by {
                        assert forall|j: int| 0 <= j < 16 - i implies self.0@.skip(i as int)[j]
                            == 0 by {
                            if j > 0 {
                                assert(before.skip(i + 1)[j - 1] == 0);
                            }
                        }
                    }
                    assert(counter_next(head) + zeros((15 - i) as nat) =~= counter_next(
                        start.take(i as int),
                    ) + zeros((16 - i) as nat));
                }
            } else {
                self.0[i] = b + 1;
                proof {
                    assert(self.0@ =~= head.drop_last().push((b + 1) as u8) + zeros(
                        (15 - i) as nat,
                    )) by {
                        assert(before.skip(i + 1) == zeros((15 - i) as nat));
                        assert forall|j: int| 0 <= j < 16 implies self.0@[j]
                            == (head.drop_last().push((b + 1) as u8) + zeros((15 - i) as nat))[j] by {
                            if j < i {
                                assert(before.take(i + 1)[j] == start.take(i + 1)[j]);
                            } else if j > i {
                                assert(before.skip(i + 1)[j - i - 1] == 0);
                            }
                        }
                    }
                }
                break;
            }
        }
    }

    /// Borrow the counter bytes.
    pub fn as_bytes(&self) -> (r: &[u8; 16])
        ensures
            r@ == self@,
    {
        &self.0
    }
}

/// Outcome of a successful handshake. The keys are wiped when it is dropped.
pub struct PaceSession {
    /// Encryption key of secure messaging.
    pub k_enc: Aes256Key,
    /// Authentication key of secure messaging.
    pub k_mac: Aes256Key,
    /// Send sequence counter.
    pub ssc: Ssc,
}

/// What a session holds.
#[verifier::ext_equal]
pub struct SessionView {
    pub k_enc: Seq<u8>,
    pub k_mac: Seq<u8>,
    pub ssc: Seq<u8>,
}

impl View for PaceSession {
    type V = SessionView;

    open spec fn view(&self) -> SessionView {
        SessionView { k_enc: self.k_enc@, k_mac: self.k_mac@, ssc: self.ssc@ }
    }
}

impl Clone for PaceSession {
    fn clone(&self) -> (r: Self)
        ensures
            r@ == self@,
    {
        PaceSession { k_enc: self.k_enc.clone(), k_mac: self.k_mac.clone(), ssc: self.ssc }
    }
}

/// The first and the last four bytes in hexadecimal. Shorter byte strings show
/// all of themselves on either side.
pub open spec fn fingerprint_text(bytes: Seq<u8>) -> Seq<char> {
    if bytes.len() < 4 {
        lower_hex(bytes) + "..."@ + lower_hex(bytes)
    } else {
        lower_hex(bytes.take(4)) + "..."@ + lower_hex(bytes.skip(bytes.len() - 4))
    }
}

impl PaceSession {
    /// A rendering for traces: the counter in full, of the keys only their
    /// fingerprints.
    pub fn to_text(&self) -> (r: String)
        ensures
            r@ == "PaceSession { k_enc: \""@ + fingerprint_text(self.k_enc@) + "\", k_mac: \""@
                + fingerprint_text(self.k_mac@) + "\", ssc: \""@ + lower_hex(self.ssc@)
                + "\" }"@,
    {
        let mut out = "PaceSession { k_enc: \"".to_owned();
        let enc = fingerprint(self.k_enc.as_bytes().as_slice());
        out.append(enc.as_str());
        out.append("\", k_mac: \"");
        let mac = fingerprint(self.k_mac.as_bytes().as_slice());
        out.append(mac.as_str());
        out.append("\", ssc: \"");
        let ssc = hex_short(self.ssc.as_bytes().as_slice());
        out.append(ssc.as_str());
        out.append("\" }");
        out
    }
}

/// The first and the last four bytes in hexadecimal.
pub fn fingerprint(bytes: &[u8]) -> (r: String)
    ensures
        r@ == fingerprint_text(bytes@),
{
    let head: usize = if bytes.len() < 4 {
        bytes.len()
    } else {
        4
    };
    let first = slice_subrange(bytes, 0, head);
    let last = slice_subrange(bytes, bytes.len() - head, bytes.len());
    proof {
        if bytes@.len() < 4 {
            assert(first@ =~= bytes@);
            assert(last@ =~= bytes@);
        } else {
            assert(first@ =~= bytes@.take(4));
            assert(last@ =~= bytes@.skip(bytes@.len() - 4));
        }
    }
    let mut out = hex_text(first);
    out.append("...");
    let tail = hex_text(last);
    out.append(tail.as_str());
    out
}

/// All bytes in hexadecimal.
pub fn hex_short(bytes: &[u8]) -> (r: String)
    ensures
        r@ == lower_hex(bytes@),
{
    hex_text(bytes)
}

/// Why the handshake failed.
#[derive(Debug)]
pub enum PaceError<TE> {
    /// Transport-level failure.
    Transport(TE),
    /// A reply is no well-formed data object of the expected tag.
    Ber(BerError),
    /// The card returned a non-success status at the labelled round.
    Sw(&'static str, u16),
    /// The reply does not have the shape that the round calls for.
    UnexpectedResponse(&'static str),
    /// A point is at infinity, off the curve or wrongly encoded.
    InvalidPoint,
    /// The card's token does not match: both sides derived different keys,
    /// almost always because of a wrong access number.
    AuthMismatch,
    /// No random bytes.
    Random(Failure),
    /// No draw gave a number below the group order.
    NoScalar,
}

/// What a handshake error says.
pub enum PaceErrorView<E> {
    Transport(DispatchErrorView<E>),
    Ber(BerError),
    Sw(Seq<char>, int),
    UnexpectedResponse(Seq<char>),
    InvalidPoint,
    AuthMismatch,
    Random(Failure),
    NoScalar,
}

/// The view of a handshake error.
pub open spec fn pace_error_view<E>(e: PaceError<TransportDispatchError<E>>) -> PaceErrorView<E> {
    match e {
        PaceError::Transport(t) => PaceErrorView::Transport(t@),
        PaceError::Ber(b) => PaceErrorView::Ber(b),
        PaceError::Sw(stage, sw) => PaceErrorView::Sw(stage@, sw as int),
        PaceError::UnexpectedResponse(w) => PaceErrorView::UnexpectedResponse(w@),
        PaceError::InvalidPoint => PaceErrorView::InvalidPoint,
        PaceError::AuthMismatch => PaceErrorView::AuthMismatch,
        PaceError::Random(f) => PaceErrorView::Random(f),
        PaceError::NoScalar => PaceErrorView::NoScalar,
    }
}

/// The view of a handshake result.
pub open spec fn pace_view<A: View, E>(r: Result<A, PaceError<TransportDispatchError<E>>>) -> Result<
    A::V,
    PaceErrorView<E>,
> {
    match r {
        Ok(a) => Ok(a@),
        Err(e) => Err(pace_error_view(e)),
    }
}

impl<TE> PaceError<TE> {
    /// The diagnostic text of the error, given that of the error it may wrap.
    pub fn message(&self, cause: &str) -> (r: String)
        ensures
            r@ == match *self {
                PaceError::Transport(_) => "PACE transport: "@ + cause@,
                PaceError::Ber(_) => "PACE BER: "@ + cause@,
                PaceError::Sw(stage, sw) => "PACE "@ + stage@ + ": card returned SW=0x"@ + hex4(sw),
                PaceError::UnexpectedResponse(w) => "PACE unexpected response: "@ + w@,
                PaceError::InvalidPoint => "PACE: card sent an off-curve EC point"@,
                PaceError::AuthMismatch => "PACE: mutual auth tag did not match"@,
                PaceError::Random(_) => "PACE random: "@ + cause@,
                PaceError::NoScalar => "PACE random: no scalar in range"@,
            },
    {
        match self {
            PaceError::Transport(_) => "PACE transport: ".to_owned().concat(cause),
            PaceError::Ber(_) => "PACE BER: ".to_owned().concat(cause),
            PaceError::Sw(stage, sw) => {
                let mut out = "PACE ".to_owned();
                out.append(stage);
                out.append(": card returned SW=0x");
                push_hex4(&mut out, *sw);
                out
            },
            PaceError::UnexpectedResponse(w) => "PACE unexpected response: ".to_owned().concat(w),
            PaceError::InvalidPoint => "PACE: card sent an off-curve EC point".to_owned(),
            PaceError::AuthMismatch => "PACE: mutual auth tag did not match".to_owned(),
            PaceError::Random(_) => "PACE random: ".to_owned().concat(cause),
            PaceError::NoScalar => "PACE random: no scalar in range".to_owned(),
        }
    }
}

/// The arithmetic of the group that the handshake runs in. Nothing is taken for
/// granted about it: the rounds below hold whatever it answers.
pub trait CurveArithmetic {
    /// The multiple of a point by a big-endian number.
    fn scalar_mul(&self, point: &AffinePoint, scalar: &[u8; 48]) -> AffinePoint;

    /// The sum of two points.
    fn sum(&self, a: &AffinePoint, b: &AffinePoint) -> AffinePoint;

    /// Whether the coordinates satisfy the curve equation.
    fn on_curve(&self, point: &AffinePoint) -> bool;
}

/// The draw gave a number that is zero or not below the group order.
pub open spec fn out_of_range(draw: Result<[u8; 48], Failure>) -> bool {
    draw matches Ok(bytes) && !in_scalar_range(bytes@)
}

/// `draws` are random draws, none of which ended the search for a scalar.
pub open spec fn all_missed(draws: Seq<Result<[u8; 48], Failure>>) -> bool {
    forall|i: int| 0 <= i < draws.len() ==> is_draw(#[trigger] draws[i]) && out_of_range(draws[i])
}

/// `r` is what the search for a scalar comes to after the draws `missed` and then, where
/// there is one, the draw `last`: its number or its error, and nothing once all
/// attempts are used up.
pub open spec fn search_result(
    attempts: u64,
    missed: Seq<Result<[u8; 48], Failure>>,
    last: Option<Result<[u8; 48], Failure>>,
    r: Result<Option<Scalar>, Failure>,
) -> bool {
    &&& all_missed(missed)
    &&& match last {
        None => missed.len() == attempts && r == Ok::<Option<Scalar>, Failure>(None),
        Some(draw) => {
            &&& missed.len() < attempts
            &&& is_draw(draw)
            &&& match draw {
                Ok(bytes) => in_scalar_range(bytes@) && (r matches Ok(Some(s)) && s@ == bytes@),
                Err(e) => r == Err::<Option<Scalar>, Failure>(e),
            }
        },
    }
}

/// Draw up to `attempts` numbers from the operating system and take the first that is
/// above zero and below the group order. `None` when no draw was in range; each is
/// with a chance of more than one half, whatever came before.
pub fn search_scalar(attempts: u64) -> (r: Result<Option<Scalar>, Failure>)
    ensures
        exists|
            missed: Seq<Result<[u8; 48], Failure>>,
            last: Option<Result<[u8; 48], Failure>>,
        | #[trigger]
            search_result(attempts, missed, last, r),
        attempts == 0 ==> r == Ok::<Option<Scalar>, Failure>(None),
        r matches Ok(Some(s)) ==> in_scalar_range(s@),
{
    let ghost mut missed: Seq<Result<[u8; 48], Failure>> = Seq::empty();
    let mut left: u64 = attempts;
    while left > 0
        invariant
            left <= attempts,
            missed.len() == attempts - left,
            all_missed(missed),
        decreases left,
    {
        let draw: Result<[u8; 48], Failure> = array();
        match draw {
            Ok(bytes) => match Scalar::from_be_bytes(bytes) {
                Some(s) => {
                    let r = Ok(Some(s));
                    assert(search_result(attempts, missed, Some(draw), r));
                    return r;
                },
                None => {},
            },
            Err(f) => {
                let r = Err(f);
                assert(search_result(attempts, missed, Some(draw), r));
                return r;
            },
        }
        proof {
            missed = missed.push(draw);
        }
        left -= 1;
    }
    assert(search_result(attempts, missed, None, Ok(None)));
    Ok(None)
}

/// `found` is what a search with as many attempts as can be counted comes to.
pub open spec fn is_search(found: Result<Option<Scalar>, Failure>) -> bool {
    exists|missed: Seq<Result<[u8; 48], Failure>>, last: Option<Result<[u8; 48], Failure>>|
        #[trigger] search_result(u64::MAX, missed, last, found)
}

/// The scalar that a search gives, or the error it comes to.
pub open spec fn scalar_of<E>(found: Result<Option<Scalar>, Failure>) -> Result<
    Scalar,
    PaceErrorView<E>,
> {
    match found {
        Ok(Some(s)) => Ok(s),
        Ok(None) => Err(PaceErrorView::NoScalar),
        Err(f) => Err(PaceErrorView::Random(f)),
    }
}

/// The view of a drawn scalar.
pub open spec fn scalar_view<E>(r: Result<Scalar, PaceError<TransportDispatchError<E>>>) -> Result<
    Scalar,
    PaceErrorView<E>,
> {
    match r {
        Ok(s) => Ok(s),
        Err(e) => Err(pace_error_view(e)),
    }
}

/// A random number above zero and below the group order, from the operating system. Draws
/// that are out of range are repeated; no more of them than a `u64` can count.
pub fn random_scalar_mod_n<E>() -> (r: Result<Scalar, PaceError<TransportDispatchError<E>>>)
    ensures
        exists|found: Result<Option<Scalar>, Failure>| #[trigger]
            is_search(found) && scalar_view(r) == scalar_of::<E>(found),
{
    let found = search_scalar(u64::MAX);
    assert(is_search(found));
    match found {
        Ok(Some(s)) => Ok(s),
        Ok(None) => Err(PaceError::NoScalar),
        Err(f) => Err(PaceError::Random(f)),
    }
}

/// The outcome of a round that needs a reply: its data, or the failure of the
/// labelled round.
pub open spec fn round_body<E>(x: Exchange<E>, stage: Seq<char>) -> Result<
    Seq<u8>,
    PaceErrorView<E>,
> {
    match x.dispatched() {
        Err(e) => Err(PaceErrorView::Transport(e)),
        Ok(r) => if r.is_ok() {
            Ok(r.body)
        } else {
            Err(PaceErrorView::Sw(stage, r.sw()))
        },
    }
}

/// Send one command and require `9000`.
fn round<T: CardTransport>(transport: &mut T, apdu: &[u8], label: &'static str) -> (r: Result<
    Vec<u8>,
    PaceError<TransportDispatchError<T::Error>>,
>)
    ensures
        sent(old(transport).log(), final(transport).log(), apdu@),
        pace_view(r) == round_body(final(transport).log().last(), label@),
{
    match transport.transmit(apdu) {
        Err(e) => Err(PaceError::Transport(e)),
        Ok(reply) => if reply.is_ok() {
            Ok(reply.body)
        } else {
            Err(PaceError::Sw(label, reply.sw()))
        },
    }
}

/// The references that select mechanism, password and domain.
pub open spec fn template_data(password_ref: u8) -> Seq<u8> {
    tlv_bytes(0x80, PACE_ECDH_GM_AES_CBC_CMAC_256@) + tlv_bytes(0x83, seq![password_ref])
        + tlv_bytes(0x84, seq![DOMAIN_REF_BRAINPOOL_P384_R1])
}

/// The data field of `MSE:Set AT`.
pub fn authentication_template(password_ref: u8) -> (r: Vec<u8>)
    ensures
        r@ == template_data(password_ref),
        r@.len() == 18,
{
    let mut data = tlv(0x80, PACE_ECDH_GM_AES_CBC_CMAC_256.as_slice());
    let password = tlv(0x83, [password_ref].as_slice());
    let domain = tlv(0x84, [DOMAIN_REF_BRAINPOOL_P384_R1].as_slice());
    push_all(&mut data, password.as_slice());
    push_all(&mut data, domain.as_slice());
    proof {
        assert([password_ref]@ =~= seq![password_ref]);
        assert([DOMAIN_REF_BRAINPOOL_P384_R1]@ =~= seq![DOMAIN_REF_BRAINPOOL_P384_R1]);
    }
    data
}

/// Round 1: announce mechanism, password and domain parameters.
pub fn set_authentication_template<T: CardTransport>(transport: &mut T, password_ref: u8) -> (r:
    Result<(), PaceError<TransportDispatchError<T::Error>>>)
    ensures
        sent(
            old(transport).log(),
            final(transport).log(),
            mse_set_at_bytes(template_data(password_ref)),
        ),
        template_done(final(transport).log().last(), r),
{
    let apdu = MseSetAt { data: authentication_template(password_ref) }.into_apdu();
    match round(transport, apdu.as_bytes(), "MSE:Set AT") {
        Ok(_) => Ok(()),
        Err(e) => Err(e),
    }
}

/// The outcome of round 1.
pub open spec fn template_done<E>(
    x: Exchange<E>,
    r: Result<(), PaceError<TransportDispatchError<E>>>,
) -> bool {
    match round_body(x, "MSE:Set AT"@) {
        Ok(_) => r is Ok,
        Err(e) => r matches Err(f) && pace_error_view(f) == e,
    }
}

/// GENERAL AUTHENTICATE around a data object.
pub fn wrap_general_authenticate(chain: bool, payload: &[u8]) -> (r: Vec<u8>)
    requires
        payload@.len() <= 255,
    ensures
        r@ == general_authenticate_bytes(chain, payload@),
{
    GeneralAuthenticate {
        chain,
        payload: vstd::slice::slice_to_vec(payload),
    }.into_apdu().into_bytes()
}

/// What the data object `tag` inside the authentication template holds.
pub open spec fn authentication_data(body: Seq<u8>, tag: u16) -> Result<Seq<u8>, BerError> {
    match tagged(body, DynamicAuthData::TAG) {
        Ok(inner) => tagged(inner, tag),
        Err(e) => Err(e),
    }
}

fn read_authentication_data<'a>(body: &'a [u8], tag: u16) -> (r: Result<&'a [u8], BerError>)
    ensures
        tagged_view(r) == authentication_data(body@, tag),
{
    match BerTlvAny::parse_tagged(body, DynamicAuthData::TAG) {
        Ok(inner) => BerTlvAny::parse_tagged(inner, tag),
        Err(e) => Err(e),
    }
}

/// The command of round 2: an empty authentication template.
pub open spec fn nonce_command() -> Seq<u8> {
    general_authenticate_bytes(true, tlv_bytes(0x7C, Seq::empty()))
}

/// The encrypted nonce in the reply of round 2: sixteen bytes.
pub open spec fn nonce_field<E>(body: Seq<u8>) -> Result<Seq<u8>, PaceErrorView<E>> {
    match authentication_data(body, EncryptedNonce::TAG) {
        Err(e) => Err(PaceErrorView::Ber(e)),
        Ok(z) => if z.len() != NONCE_LEN {
            Err(PaceErrorView::UnexpectedResponse("encrypted nonce wrong length"@))
        } else {
            Ok(z)
        },
    }
}

/// The outcome of round 2: the sixteen bytes of the reply, decrypted under the
/// key of the access number.
pub open spec fn nonce_result<E>(x: Exchange<E>, can: Seq<u8>) -> Result<Seq<u8>, PaceErrorView<E>> {
    match round_body(x, "GA-1 encrypted nonce"@) {
        Err(e) => Err(e),
        Ok(body) => match nonce_field(body) {
            Err(e) => Err(e),
            Ok(z) => Ok(aes256_cbc_decrypted(kdf(can, KdfParam::Password), zeros(16), z)),
        },
    }
}

/// The view of a field of a reply.
pub open spec fn field_view<E>(r: Result<&[u8], PaceError<TransportDispatchError<E>>>) -> Result<
    Seq<u8>,
    PaceErrorView<E>,
> {
    match r {
        Ok(v) => Ok(v@),
        Err(e) => Err(pace_error_view(e)),
    }
}

/// The encrypted nonce in the reply of round 2.
pub fn read_encrypted_nonce<'a, E>(body: &'a [u8]) -> (r: Result<
    &'a [u8],
    PaceError<TransportDispatchError<E>>,
>)
    ensures
        field_view(r) == nonce_field::<E>(body@),
{
    match read_authentication_data(body, EncryptedNonce::TAG) {
        Ok(z) => if z.len() != NONCE_LEN {
            Err(PaceError::UnexpectedResponse("encrypted nonce wrong length"))
        } else {
            Ok(z)
        },
        Err(e) => Err(PaceError::Ber(e)),
    }
}

fn nonce_array(bytes: &[u8]) -> (r: [u8; 16])
    requires
        bytes@.len() == 16,
    ensures
        r@ == bytes@,
{
    let mut r: [u8; 16] = [0; 16];
    let mut i: usize = 0;
    while i < 16
        invariant
            i <= 16,
            bytes@.len() == 16,
            forall|j: int| 0 <= j < i ==> r@[j] == bytes@[j],
        decreases 16 - i,
    {
        r[i] = bytes[i];
        i += 1;
    }
    assert(r@ =~= bytes@);
    r
}

/// Round 2: fetch the card's nonce and decrypt it. A wrong access number goes
/// unnoticed here; it gives another nonce.
pub fn get_encrypted_nonce<T: CardTransport>(transport: &mut T, can: &Can) -> (r: Result<
    [u8; NONCE_LEN],
    PaceError<TransportDispatchError<T::Error>>,
>)
    ensures
        sent(old(transport).log(), final(transport).log(), nonce_command()),
        pace_view(r) == nonce_result(final(transport).log().last(), can@),
{
    let payload = tlv(0x7C, [].as_slice());
    assert(payload@ == tlv_bytes(0x7C, Seq::empty())) by {
        assert([0u8; 0]@ =~= Seq::<u8>::empty());
    }
    let apdu = wrap_general_authenticate(true, payload.as_slice());
    let body = match round(transport, apdu.as_slice(), "GA-1 encrypted nonce") {
        Ok(body) => body,
        Err(e) => {
            return Err(e);
        },
    };
    let z = match read_encrypted_nonce(body.as_slice()) {
        Ok(z) => z,
        Err(e) => {
            return Err(e);
        },
    };
    let k_pi = kdf_aes256(can.as_bytes().as_slice(), KdfParam::Password);
    let iv: [u8; 16] = [0; 16];
    assert(iv@ =~= zeros(16));
    match aes256_cbc_decrypt_no_padding(k_pi.as_bytes(), &iv, z) {
        Ok(plain) => Ok(nonce_array(plain.as_slice())),
        Err(_) => Err(PaceError::UnexpectedResponse("encrypted nonce not block-aligned")),
    }
}

/// The command of a round that sends a point.
pub open spec fn point_command(tag: u8, point: Seq<u8>) -> Seq<u8> {
    general_authenticate_bytes(true, tlv_bytes(0x7C, tlv_bytes(tag, point)))
}

/// The outcome of a round that fetches a point: its encoding.
pub open spec fn point_result<E>(x: Exchange<E>, stage: Seq<char>, tag: u16) -> Result<
    Seq<u8>,
    PaceErrorView<E>,
> {
    match round_body(x, stage) {
        Err(e) => Err(e),
        Ok(body) => match authentication_data(body, tag) {
            Err(e) => Err(PaceErrorView::Ber(e)),
            Ok(point) => if is_uncompressed(point) {
                Ok(point)
            } else {
                Err(PaceErrorView::InvalidPoint)
            },
        },
    }
}

/// Send a point and read the card's. The point at infinity is not sent.
pub fn exchange_point<T: CardTransport>(
    transport: &mut T,
    point: &AffinePoint,
    tag_out: u8,
    tag_in: u16,
    label: &'static str,
) -> (r: Result<AffinePoint, PaceError<TransportDispatchError<T::Error>>>)
    ensures
        point@ is None ==> final(transport).log() == old(transport).log() && r matches Err(
            PaceError::InvalidPoint,
        ),
        point@ matches Some(bytes) ==> {
            let x = final(transport).log().last();
            &&& sent(old(transport).log(), final(transport).log(), point_command(tag_out, bytes))
            &&& match point_result(x, label@, tag_in) {
                Ok(p) => r matches Ok(q) && q@ == Some(p),
                Err(e) => r matches Err(f) && pace_error_view(f) == e,
            }
        },
{
    let encoded = match point.encode_uncompressed() {
        Some(encoded) => encoded,
        None => {
            return Err(PaceError::InvalidPoint);
        },
    };
    let inner = tlv(tag_out, encoded.as_slice());
    let payload = tlv(0x7C, inner.as_slice());
    let apdu = wrap_general_authenticate(true, payload.as_slice());
    let body = match round(transport, apdu.as_slice(), label) {
        Ok(body) => body,
        Err(e) => {
            return Err(e);
        },
    };
    match read_authentication_data(body.as_slice(), tag_in) {
        Ok(bytes) => match AffinePoint::decode_uncompressed(bytes) {
            Some(p) => Ok(p),
            None => Err(PaceError::InvalidPoint),
        },
        Err(e) => Err(PaceError::Ber(e)),
    }
}

/// The nonce as a scalar: sixteen bytes behind zeros.
pub open spec fn nonce_scalar(nonce: Seq<u8>) -> Seq<u8> {
    zeros(32) + nonce
}

/// Lift a nonce to a scalar.
pub fn scalar_from_nonce(nonce: &[u8; NONCE_LEN]) -> (r: [u8; 48])
    ensures
        r@ == nonce_scalar(nonce@),
        be_nat(r@) == be_nat(nonce@),
        be_nat(r@) < be_nat(ORDER@),
{
    let mut r: [u8; 48] = [0; 48];
    let mut i: usize = 0;
    while i < 16
        invariant
            i <= 16,
            forall|j: int| 0 <= j < 32 ==> r@[j] == 0,
            forall|j: int| 32 <= j < 32 + i ==> r@[j] == nonce@[j - 32],
        decreases 16 - i,
    {
        r[32 + i] = nonce[i];
        i += 1;
    }
    proof {
        assert(r@ =~= nonce_scalar(nonce@));
        lemma_be_nat_leading_zeros(zeros(32), nonce@);
        lemma_short_below_order(nonce@);
    }
    r
}

/// Outcome of the first four rounds.
pub struct PaceMidwayState {
    /// The mapped generator.
    pub mapped_g: AffinePoint,
    /// The card's public point.
    pub v_picc: AffinePoint,
    /// The terminal's private scalar.
    pub u_pcd: Scalar,
    /// The terminal's public point.
    pub u_pcd_pub: AffinePoint,
}

/// `r` is the error `e`.
pub open spec fn pace_fails<A, E>(
    r: Result<A, PaceError<TransportDispatchError<E>>>,
    e: PaceErrorView<E>,
) -> bool {
    r matches Err(f) && pace_error_view(f) == e
}

/// The arithmetic answered `r` for a multiple.
pub open spec fn multiple<G: CurveArithmetic>(
    group: &G,
    point: AffinePoint,
    scalar: [u8; 48],
    r: AffinePoint,
) -> bool {
    call_ensures(G::scalar_mul, (group, &point, &scalar), r)
}

/// The arithmetic answered `r` for the curve equation.
pub open spec fn curve_answer<G: CurveArithmetic>(group: &G, point: AffinePoint, r: bool) -> bool {
    call_ensures(G::on_curve, (group, &point), r)
}

/// The arithmetic answered `r` for a sum.
pub open spec fn point_sum<G: CurveArithmetic>(
    group: &G,
    a: AffinePoint,
    b: AffinePoint,
    r: AffinePoint,
) -> bool {
    call_ensures(G::sum, (group, &a, &b), r)
}

/// What the arithmetic answered over round 3. A run that ends early leaves the later
/// answers open.
pub struct Mapping {
    /// The terminal's public point.
    pub x_pub: AffinePoint,
    /// The card's public point and its multiple by the terminal's scalar.
    pub y: AffinePoint,
    pub h: AffinePoint,
    /// The nonce as a scalar and the multiple of the generator by it.
    pub s: [u8; 48],
    pub s_g: AffinePoint,
    /// The mapped generator.
    pub mapped: AffinePoint,
}

impl Mapping {
    /// The generator that round 3 leads to: the multiple of the old one by the
    /// nonce plus the multiple of the card's point by the terminal's scalar.
    pub open spec fn maps<G: CurveArithmetic>(self, group: &G, nonce: Seq<u8>, x: [u8; 48]) -> bool {
        &&& curve_answer(group, self.y, true)
        &&& multiple(group, self.y, x, self.h)
        &&& self.s@ == nonce_scalar(nonce)
        &&& multiple(group, generator_point(), self.s, self.s_g)
        &&& point_sum(group, self.s_g, self.h, self.mapped)
    }
}

/// `new` are the exchanges and `r` is the result of round 3 with the terminal's scalar
/// `x`, for the answers `m` of the arithmetic.
pub open spec fn mapping_fits<G: CurveArithmetic, E>(
    group: &G,
    nonce: Seq<u8>,
    x: [u8; 48],
    m: Mapping,
    new: Seq<Exchange<E>>,
    r: Result<AffinePoint, PaceError<TransportDispatchError<E>>>,
) -> bool {
    &&& multiple(group, generator_point(), x, m.x_pub)
    &&& match m.x_pub@ {
        None => new.len() == 0 && pace_fails(r, PaceErrorView::InvalidPoint),
        Some(point) => {
            &&& new.len() == 1
            &&& new[0].command == point_command(0x81, point) && !new[0].le_retry
            &&& match point_result(new[0], "GA-2 map nonce"@, MappingDataOut::TAG) {
                Err(e) => pace_fails(r, e),
                Ok(y) => m.y@ == Some(y) && {
                    ||| curve_answer(group, m.y, false) && pace_fails(r, PaceErrorView::InvalidPoint)
                    ||| m.maps(group, nonce, x) && r == Ok::<
                        AffinePoint,
                        PaceError<TransportDispatchError<E>>,
                    >(m.mapped)
                },
            }
        },
    }
}

/// `new` are the exchanges and `r` is the result of round 3 with the terminal's scalar
/// `x`.
pub open spec fn mapping_run<G: CurveArithmetic, E>(
    group: &G,
    nonce: Seq<u8>,
    x: [u8; 48],
    new: Seq<Exchange<E>>,
    r: Result<AffinePoint, PaceError<TransportDispatchError<E>>>,
) -> bool {
    exists|m: Mapping| #[trigger] mapping_fits(group, nonce, x, m, new, r)
}

/// Round 3: map the nonce to a generator with the terminal's scalar `x`, which serves this
/// round alone.
pub fn map_nonce<T: CardTransport, G: CurveArithmetic>(
    transport: &mut T,
    group: &G,
    nonce: &[u8; NONCE_LEN],
    x: Scalar,
) -> (r: Result<AffinePoint, PaceError<TransportDispatchError<T::Error>>>)
    ensures
        continues(old(transport).log(), final(transport).log()),
        mapping_run(
            group,
            nonce@,
            x.array(),
            news(old(transport).log(), final(transport).log()),
            r,
        ),
{
    let ghost start = transport.log();
    let ghost mut m: Mapping = arbitrary();
    proof {
        assert(start.take(start.len() as int) =~= start);
        assert(news(start, start) =~= Seq::empty());
    }
    let g = AffinePoint::generator();
    let x_pub = group.scalar_mul(&g, x.as_bytes());
    proof {
        m.x_pub = x_pub;
    }
    let reply = exchange_point(transport, &x_pub, 0x81, MappingDataOut::TAG, "GA-2 map nonce");
    proof {
        if x_pub@ is Some {
            lemma_sent(start, transport.log(), point_command(0x81, x_pub@->Some_0));
        }
    }
    let y = match reply {
        Ok(y) => y,
        Err(e) => {
            let r = Err(e);
            assert(mapping_fits(group, nonce@, x.array(), m, news(start, transport.log()), r));
            return r;
        },
    };
    proof {
        m.y = y;
    }
    if !group.on_curve(&y) {
        let r = Err(PaceError::InvalidPoint);
        assert(mapping_fits(group, nonce@, x.array(), m, news(start, transport.log()), r));
        return r;
    }
    let h = group.scalar_mul(&y, x.as_bytes());
    let s: [u8; 48] = scalar_from_nonce(nonce);
    let s_g = group.scalar_mul(&g, &s);
    let mapped_g = group.sum(&s_g, &h);
    let r = Ok(mapped_g);
    proof {
        m.h = h;
        m.s = s;
        m.s_g = s_g;
        m.mapped = mapped_g;
        assert(m.maps(group, nonce@, x.array()));
        assert(mapping_fits(group, nonce@, x.array(), m, news(start, transport.log()), r));
    }
    r
}

/// `new` are the exchanges and `r` is the result of round 4 over the generator `mapped`
/// with the terminal's scalar `u`, for the answers `u_pub` and `v`.
pub open spec fn key_fits<G: CurveArithmetic, E>(
    group: &G,
    mapped: AffinePoint,
    u: Scalar,
    u_pub: AffinePoint,
    v: AffinePoint,
    new: Seq<Exchange<E>>,
    r: Result<PaceMidwayState, PaceError<TransportDispatchError<E>>>,
) -> bool {
    &&& multiple(group, mapped, u.array(), u_pub)
    &&& match u_pub@ {
        None => new.len() == 0 && pace_fails(r, PaceErrorView::InvalidPoint),
        Some(point) => {
            &&& new.len() == 1
            &&& new[0].command == point_command(0x83, point) && !new[0].le_retry
            &&& match point_result(new[0], "GA-3 key agreement"@, KeyAgreeOut::TAG) {
                Err(e) => pace_fails(r, e),
                Ok(received) => v@ == Some(received) && {
                    ||| curve_answer(group, v, false) && pace_fails(r, PaceErrorView::InvalidPoint)
                    ||| {
                        &&& curve_answer(group, v, true)
                        &&& r matches Ok(state)
                        &&& state.mapped_g == mapped
                        &&& state.v_picc == v
                        &&& state.u_pcd == u
                        &&& state.u_pcd_pub == u_pub
                    }
                },
            }
        },
    }
}

/// `new` are the exchanges and `r` is the result of round 4 over the generator `mapped`
/// with the terminal's scalar `u`.
pub open spec fn key_run<G: CurveArithmetic, E>(
    group: &G,
    mapped: AffinePoint,
    u: Scalar,
    new: Seq<Exchange<E>>,
    r: Result<PaceMidwayState, PaceError<TransportDispatchError<E>>>,
) -> bool {
    exists|u_pub: AffinePoint, v: AffinePoint|
        #[trigger] key_fits(group, mapped, u, u_pub, v, new, r)
}

/// Round 4: agree on a key over the mapped generator with the terminal's scalar `u_pcd`.
pub fn agree_on_key<T: CardTransport, G: CurveArithmetic>(
    transport: &mut T,
    group: &G,
    mapped_g: AffinePoint,
    u_pcd: Scalar,
) -> (r: Result<PaceMidwayState, PaceError<TransportDispatchError<T::Error>>>)
    ensures
        continues(old(transport).log(), final(transport).log()),
        key_run(group, mapped_g, u_pcd, news(old(transport).log(), final(transport).log()), r),
{
    let ghost start = transport.log();
    proof {
        assert(start.take(start.len() as int) =~= start);
        assert(news(start, start) =~= Seq::empty());
    }
    let ghost u = u_pcd;
    let u_pcd_pub = group.scalar_mul(&mapped_g, u_pcd.as_bytes());
    let reply = exchange_point(transport, &u_pcd_pub, 0x83, KeyAgreeOut::TAG, "GA-3 key agreement");
    proof {
        if u_pcd_pub@ is Some {
            lemma_sent(start, transport.log(), point_command(0x83, u_pcd_pub@->Some_0));
        }
    }
    let v_picc = match reply {
        Ok(v) => v,
        Err(e) => {
            let r = Err(e);
            proof {
                let v: AffinePoint = arbitrary();
                let new = news(start, transport.log());
                assert(key_fits(group, mapped_g, u, u_pcd_pub, v, new, r));
            }
            return r;
        },
    };
    let ghost new = news(start, transport.log());
    if !group.on_curve(&v_picc) {
        let r = Err(PaceError::InvalidPoint);
        assert(key_fits(group, mapped_g, u, u_pcd_pub, v_picc, new, r));
        return r;
    }
    let r = Ok(PaceMidwayState { mapped_g, v_picc, u_pcd, u_pcd_pub });
    assert(key_fits(group, mapped_g, u, u_pcd_pub, v_picc, new, r));
    r
}

/// `new` are the exchanges and `r` is the result of rounds 3 and 4, each with a scalar
/// that was searched for it: round 3 takes up the first `k` exchanges and comes to
/// `mapped`.
pub open spec fn agreement_fits<G: CurveArithmetic, E>(
    group: &G,
    nonce: Seq<u8>,
    first: Result<Option<Scalar>, Failure>,
    k: int,
    mapped: Result<AffinePoint, PaceError<TransportDispatchError<E>>>,
    second: Result<Option<Scalar>, Failure>,
    new: Seq<Exchange<E>>,
    r: Result<PaceMidwayState, PaceError<TransportDispatchError<E>>>,
) -> bool {
    &&& is_search(first)
    &&& match scalar_of::<E>(first) {
        Err(e) => new.len() == 0 && pace_fails(r, e),
        Ok(x) => {
            &&& 0 <= k <= new.len()
            &&& mapping_run(group, nonce, x.array(), new.take(k), mapped)
            &&& match mapped {
                Err(e) => k == new.len() && pace_fails(r, pace_error_view(e)),
                Ok(generator) => {
                    &&& is_search(second)
                    &&& match scalar_of::<E>(second) {
                        Err(e) => k == new.len() && pace_fails(r, e),
                        Ok(u) => key_run(group, generator, u, new.skip(k), r),
                    }
                },
            }
        },
    }
}

/// `new` are the exchanges and `r` is the result of rounds 3 and 4.
pub open spec fn agreement_run<G: CurveArithmetic, E>(
    group: &G,
    nonce: Seq<u8>,
    new: Seq<Exchange<E>>,
    r: Result<PaceMidwayState, PaceError<TransportDispatchError<E>>>,
) -> bool {
    exists|
        first: Result<Option<Scalar>, Failure>,
        k: int,
        mapped: Result<AffinePoint, PaceError<TransportDispatchError<E>>>,
        second: Result<Option<Scalar>, Failure>,
    | #[trigger]
        agreement_fits(group, nonce, first, k, mapped, second, new, r)
}

/// Rounds 3 and 4: map the nonce to a generator and agree on a key over it. Each round
/// has a random scalar of its own.
pub fn map_nonce_and_key_agreement<T: CardTransport, G: CurveArithmetic>(
    transport: &mut T,
    group: &G,
    nonce: &[u8; NONCE_LEN],
) -> (r: Result<PaceMidwayState, PaceError<TransportDispatchError<T::Error>>>)
    ensures
        continues(old(transport).log(), final(transport).log()),
        agreement_run(group, nonce@, news(old(transport).log(), final(transport).log()), r),
{
    let ghost start = transport.log();
    proof {
        assert(start.take(start.len() as int) =~= start);
        assert(news(start, start) =~= Seq::empty());
    }
    let drawn = random_scalar_mod_n::<T::Error>();
    let ghost first = choose|found: Result<Option<Scalar>, Failure>| #[trigger]
        is_search(found) && scalar_view(drawn) == scalar_of::<T::Error>(found);
    let ghost unknown: Result<AffinePoint, PaceError<TransportDispatchError<T::Error>>> = arbitrary();
    let x = match drawn {
        Ok(x) => x,
        Err(e) => {
            let r = Err(e);
            proof {
                let new = news(start, transport.log());
                assert(agreement_fits(group, nonce@, first, 0, unknown, first, new, r));
            }
            return r;
        },
    };
    let mapped = map_nonce(transport, group, nonce, x);
    let ghost middle = transport.log();
    let ghost k = news(start, middle).len() as int;
    proof {
        assert(news(start, middle).take(k) =~= news(start, middle));
    }
    let mapped_g = match mapped {
        Ok(mapped_g) => mapped_g,
        Err(e) => {
            let r = Err(e);
            proof {
                let new = news(start, middle);
                let mapped = Err::<AffinePoint, PaceError<TransportDispatchError<T::Error>>>(e);
                assert(agreement_fits(group, nonce@, first, k, mapped, first, new, r));
            }
            return r;
        },
    };
    let drawn = random_scalar_mod_n::<T::Error>();
    let ghost second = choose|found: Result<Option<Scalar>, Failure>| #[trigger]
        is_search(found) && scalar_view(drawn) == scalar_of::<T::Error>(found);
    let u_pcd = match drawn {
        Ok(u_pcd) => u_pcd,
        Err(e) => {
            let r = Err(e);
            proof {
                let new = news(start, middle);
                assert(agreement_fits(group, nonce@, first, k, Ok(mapped_g), second, new, r));
            }
            return r;
        },
    };
    let r = agree_on_key(transport, group, mapped_g, u_pcd);
    proof {
        lemma_continues(start, middle, transport.log());
        let new = news(start, transport.log());
        assert(new.take(k) =~= news(start, middle));
        assert(new.skip(k) =~= news(middle, transport.log()));
        assert(agreement_fits(group, nonce@, first, k, Ok(mapped_g), second, new, r));
    }
    r
}

/// What the tokens authenticate: the mechanism and a point in a public-key
/// template.
pub open spec fn auth_token_input(point: Seq<u8>) -> Seq<u8> {
    tlv2_bytes(0x7F49, tlv_bytes(0x06, PACE_ECDH_GM_AES_CBC_CMAC_256@) + tlv_bytes(0x86, point))
}

/// Build the token input over a point, `None` at infinity.
pub fn encode_auth_token(point: &AffinePoint) -> (r: Option<Vec<u8>>)
    ensures
        r is Some <==> point@ is Some,
        r matches Some(v) ==> v@ == auth_token_input(point@->Some_0),
{
    let encoded = match point.encode_uncompressed() {
        Some(encoded) => encoded,
        None => {
            return None;
        },
    };
    let mut inner = tlv(0x06, PACE_ECDH_GM_AES_CBC_CMAC_256.as_slice());
    let point_object = tlv(0x86, encoded.as_slice());
    push_all(&mut inner, point_object.as_slice());
    Some(tlv2(0x7F49, inner.as_slice()))
}

/// The command of round 5: the terminal's token over the card's point.
pub open spec fn token_command(shared_x: Seq<u8>, v: Seq<u8>) -> Seq<u8> {
    general_authenticate_bytes(
        false,
        tlv_bytes(0x7C, tlv_bytes(0x85, mac8(kdf(shared_x, KdfParam::Mac), auth_token_input(v)))),
    )
}

/// The session that a shared secret opens.
pub open spec fn session_of(shared_x: Seq<u8>) -> SessionView {
    SessionView {
        k_enc: kdf(shared_x, KdfParam::Encryption),
        k_mac: kdf(shared_x, KdfParam::Mac),
        ssc: zeros(16),
    }
}

/// The card's token in the reply of round 5: eight bytes.
pub open spec fn token_field<E>(body: Seq<u8>) -> Result<Seq<u8>, PaceErrorView<E>> {
    match authentication_data(body, AuthTokenOut::TAG) {
        Err(e) => Err(PaceErrorView::Ber(e)),
        Ok(token) => if token.len() != 8 {
            Err(PaceErrorView::UnexpectedResponse("card auth tag wrong length"@))
        } else {
            Ok(token)
        },
    }
}

/// The card's token in the reply of round 5.
pub fn read_card_token<'a, E>(body: &'a [u8]) -> (r: Result<
    &'a [u8],
    PaceError<TransportDispatchError<E>>,
>)
    ensures
        field_view(r) == token_field::<E>(body@),
{
    match read_authentication_data(body, AuthTokenOut::TAG) {
        Ok(token) => if token.len() != 8 {
            Err(PaceError::UnexpectedResponse("card auth tag wrong length"))
        } else {
            Ok(token)
        },
        Err(e) => Err(PaceError::Ber(e)),
    }
}

/// The outcome of round 5: the session when the card's token over the terminal's
/// point `u` is the expected one.
pub open spec fn session_result<E>(x: Exchange<E>, shared_x: Seq<u8>, u: Option<Seq<u8>>) -> Result<
    SessionView,
    PaceErrorView<E>,
> {
    match round_body(x, "GA-4 mutual auth"@) {
        Err(e) => Err(e),
        Ok(body) => match token_field(body) {
            Err(e) => Err(e),
            Ok(token) => match u {
                None => Err(PaceErrorView::InvalidPoint),
                Some(point) => if token == mac8(
                    kdf(shared_x, KdfParam::Mac),
                    auth_token_input(point),
                ) {
                    Ok(session_of(shared_x))
                } else {
                    Err(PaceErrorView::AuthMismatch)
                },
            },
        },
    }
}

/// `new` are the exchanges and `r` is the result of round 5 for the x-coordinate
/// of the shared point.
pub open spec fn token_run<E>(
    new: Seq<Exchange<E>>,
    shared_x: Seq<u8>,
    v: Option<Seq<u8>>,
    u: Option<Seq<u8>>,
    r: Result<PaceSession, PaceError<TransportDispatchError<E>>>,
) -> bool {
    match v {
        None => new.len() == 0 && pace_fails(r, PaceErrorView::InvalidPoint),
        Some(point) => {
            &&& new.len() == 1
            &&& new[0].command == token_command(shared_x, point) && !new[0].le_retry
            &&& pace_view(r) == session_result(new[0], shared_x, u)
        },
    }
}

/// Round 5 from the x-coordinate of the shared point: exchange the tokens and
/// derive the session keys. Tokens are compared in constant time.
pub fn exchange_tokens<T: CardTransport>(
    transport: &mut T,
    shared_x: &[u8],
    v_picc: &AffinePoint,
    u_pcd_pub: &AffinePoint,
) -> (r: Result<PaceSession, PaceError<TransportDispatchError<T::Error>>>)
    ensures
        continues(old(transport).log(), final(transport).log()),
        token_run(
            news(old(transport).log(), final(transport).log()),
            shared_x@,
            v_picc@,
            u_pcd_pub@,
            r,
        ),
{
    let ghost start = transport.log();
    proof {
        assert(start.take(start.len() as int) =~= start);
        assert(news(start, start) =~= Seq::empty());
    }
    let k_enc = kdf_aes256(shared_x, KdfParam::Encryption);
    let k_mac = kdf_aes256(shared_x, KdfParam::Mac);
    let input = match encode_auth_token(v_picc) {
        Some(input) => input,
        None => {
            return Err(PaceError::InvalidPoint);
        },
    };
    let token: [u8; 8] = aes256_cmac_truncated(k_mac.as_bytes(), input.as_slice());
    let inner = tlv(0x85, token.as_slice());
    let payload = tlv(0x7C, inner.as_slice());
    let apdu = wrap_general_authenticate(false, payload.as_slice());
    let answer = round(transport, apdu.as_slice(), "GA-4 mutual auth");
    proof {
        lemma_sent(start, transport.log(), token_command(shared_x@, v_picc@->Some_0));
    }
    let body = match answer {
        Ok(body) => body,
        Err(e) => {
            return Err(e);
        },
    };
    let card_token = match read_card_token(body.as_slice()) {
        Ok(card_token) => card_token,
        Err(e) => {
            return Err(e);
        },
    };
    let own_input = match encode_auth_token(u_pcd_pub) {
        Some(own_input) => own_input,
        None => {
            return Err(PaceError::InvalidPoint);
        },
    };
    let expected: [u8; 8] = aes256_cmac_truncated(k_mac.as_bytes(), own_input.as_slice());
    if !ct_equal(expected.as_slice(), card_token) {
        return Err(PaceError::AuthMismatch);
    }
    Ok(PaceSession { k_enc, k_mac, ssc: Ssc::initial() })
}

/// `new` are the exchanges and `r` is the result of round 5: the shared point is
/// what the arithmetic gives for the card's point and the terminal's scalar.
pub open spec fn step_5_run<G: CurveArithmetic, E>(
    group: &G,
    state: PaceMidwayState,
    new: Seq<Exchange<E>>,
    r: Result<PaceSession, PaceError<TransportDispatchError<E>>>,
) -> bool {
    exists|shared: AffinePoint|
        #[trigger] multiple(group, state.v_picc, state.u_pcd.array(), shared)
            && match shared.coords {
            None => new.len() == 0 && pace_fails(r, PaceErrorView::InvalidPoint),
            Some((x, _)) => token_run(new, x@, state.v_picc@, state.u_pcd_pub@, r),
        }
}

/// Round 5: derive the shared point, exchange the tokens and open the session.
/// The state is consumed: its ephemeral values serve one session.
pub fn run_pace_step_5<T: CardTransport, G: CurveArithmetic>(
    transport: &mut T,
    group: &G,
    state: PaceMidwayState,
) -> (r: Result<PaceSession, PaceError<TransportDispatchError<T::Error>>>)
    ensures
        continues(old(transport).log(), final(transport).log()),
        step_5_run(group, state, news(old(transport).log(), final(transport).log()), r),
{
    let shared = group.scalar_mul(&state.v_picc, state.u_pcd.as_bytes());
    assert(multiple(group, state.v_picc, state.u_pcd.array(), shared));
    match shared.coords {
        Some((x, _)) => {
            let secret = Secret::new(x);
            exchange_tokens(
                transport,
                secret.as_bytes().as_slice(),
                &state.v_picc,
                &state.u_pcd_pub,
            )
        },
        None => {
            proof {
                let start = transport.log();
                assert(start.take(start.len() as int) =~= start);
                assert(news(start, start) =~= Seq::empty());
            }
            Err(PaceError::InvalidPoint)
        },
    }
}

/// `new` are the exchanges and `r` is the result of rounds 1 to 4.
pub open spec fn midway_run<G: CurveArithmetic, E>(
    group: &G,
    can: Seq<u8>,
    new: Seq<Exchange<E>>,
    r: Result<PaceMidwayState, PaceError<TransportDispatchError<E>>>,
) -> bool {
    &&& new.len() >= 1
    &&& new[0].command == mse_set_at_bytes(template_data(PASSWORD_REF_CAN)) && !new[0].le_retry
    &&& match round_body(new[0], "MSE:Set AT"@) {
        Err(e) => new.len() == 1 && pace_fails(r, e),
        Ok(_) => {
            &&& new.len() >= 2
            &&& new[1].command == nonce_command() && !new[1].le_retry
            &&& match nonce_result(new[1], can) {
                Err(e) => new.len() == 2 && pace_fails(r, e),
                Ok(nonce) => agreement_run(group, nonce, new.skip(2), r),
            }
        },
    }
}

/// Rounds 1 to 4.
pub fn run_pace_with_can_through_step_4<T: CardTransport, G: CurveArithmetic>(
    transport: &mut T,
    group: &G,
    can: &Can,
) -> (r: Result<PaceMidwayState, PaceError<TransportDispatchError<T::Error>>>)
    ensures
        continues(old(transport).log(), final(transport).log()),
        midway_run(group, can@, news(old(transport).log(), final(transport).log()), r),
{
    let ghost start = transport.log();
    let announced = set_authentication_template(transport, PASSWORD_REF_CAN);
    let ghost first = transport.log();
    proof {
        lemma_sent(start, first, mse_set_at_bytes(template_data(PASSWORD_REF_CAN)));
    }
    match announced {
        Ok(()) => {},
        Err(e) => {
            return Err(e);
        },
    }
    let fetched = get_encrypted_nonce(transport, can);
    let ghost second = transport.log();
    proof {
        lemma_sent(first, second, nonce_command());
        lemma_continues(start, first, second);
    }
    let nonce: [u8; 16] = match fetched {
        Ok(nonce) => nonce,
        Err(e) => {
            return Err(e);
        },
    };
    let r = map_nonce_and_key_agreement(transport, group, &nonce);
    proof {
        lemma_continues(start, second, transport.log());
        assert(news(start, transport.log()).skip(2) =~= news(second, transport.log()));
    }
    r
}

/// `new` are the exchanges and `r` is the result of the whole handshake: rounds 1
/// to 4 come to a state, and round 5 goes on from it.
pub open spec fn handshake_run<G: CurveArithmetic, E>(
    group: &G,
    can: Seq<u8>,
    new: Seq<Exchange<E>>,
    r: Result<PaceSession, PaceError<TransportDispatchError<E>>>,
) -> bool {
    exists|k: int, mid: Result<PaceMidwayState, PaceError<TransportDispatchError<E>>>|
        0 <= k <= new.len() && #[trigger] midway_run(group, can, new.take(k), mid) && match mid {
            Err(e) => k == new.len() && pace_fails(r, pace_error_view(e)),
            Ok(state) => step_5_run(group, state, new.skip(k), r),
        }
}

/// Run the handshake with the access number printed on the card. The card must be
/// at its root: it refuses the opening command inside an application.
pub fn run_pace_with_can<T: CardTransport, G: CurveArithmetic>(
    transport: &mut T,
    group: &G,
    can: &Can,
) -> (r: Result<PaceSession, PaceError<TransportDispatchError<T::Error>>>)
    ensures
        continues(old(transport).log(), final(transport).log()),
        handshake_run(group, can@, news(old(transport).log(), final(transport).log()), r),
{
    let ghost start = transport.log();
    let mid = run_pace_with_can_through_step_4(transport, group, can);
    let ghost middle = transport.log();
    let ghost k = news(start, middle).len() as int;
    match mid {
        Ok(state) => {
            let r = run_pace_step_5(transport, group, state);
            proof {
                lemma_continues(start, middle, transport.log());
                let new = news(start, transport.log());
                assert(new.take(k) =~= news(start, middle));
                assert(new.skip(k) =~= news(middle, transport.log()));
                assert(midway_run(
                    group,
                    can@,
                    new.take(k),
                    Ok::<PaceMidwayState, PaceError<TransportDispatchError<T::Error>>>(state),
                ));
            }
            r
        },
        Err(e) => {
            proof {
                let new = news(start, middle);
                assert(new.take(k) =~= new);
                assert(midway_run(
                    group,
                    can@,
                    new.take(k),
                    Err::<PaceMidwayState, PaceError<TransportDispatchError<T::Error>>>(e),
                ));
            }
            Err(e)
        },
    }
}

/// A session opens exactly when the card answers round 5 with the token that the
/// shared secret gives over the terminal's point; a card that proves another key
/// is refused.
pub proof fn law_session_needs_the_token<E>(x: Exchange<E>, shared_x: Seq<u8>, u: Seq<u8>)
    ensures
        ({
            let answer = round_body(x, "GA-4 mutual auth"@);
            let token = token_field::<E>(answer->Ok_0);
            let expected = mac8(kdf(shared_x, KdfParam::Mac), auth_token_input(u));
            let result = session_result(x, shared_x, Some(u));
            &&& result is Ok <==> answer is Ok && token is Ok && token->Ok_0 == expected
            &&& result is Ok ==> result->Ok_0 == session_of(shared_x)
            &&& answer is Ok && token is Ok && token->Ok_0 != expected ==> result == Err::<SessionView, PaceErrorView<E>>(PaceErrorView::AuthMismatch)
        }),
{
}

/// Both sides of the handshake agree: a card that wraps its token over the
/// terminal's point as the protocol says opens the session of the shared secret.
pub proof fn law_honest_card_opens_session<E>(x: Exchange<E>, shared_x: Seq<u8>, u: Seq<u8>)
    requires
        ({
            let token = mac8(kdf(shared_x, KdfParam::Mac), auth_token_input(u));
            &&& token.len() == 8
            &&& round_body(x, "GA-4 mutual auth"@) == Ok::<Seq<u8>, PaceErrorView<E>>(
                tlv_bytes(0x7C, tlv_bytes(0x86, token)),
            )
        }),
    ensures
        session_result(x, shared_x, Some(u)) == Ok::<SessionView, PaceErrorView<E>>(
            session_of(shared_x),
        ),
{
    let token = mac8(kdf(shared_x, KdfParam::Mac), auth_token_input(u));
    let inner = tlv_bytes(0x86, token);
    law_tlv_round_trip(0x86, token, Seq::empty());
    assert(inner + Seq::<u8>::empty() =~= inner);
    law_tlv_round_trip(0x7C, inner, Seq::empty());
    assert(tlv_bytes(0x7C, inner) + Seq::<u8>::empty() =~= tlv_bytes(0x7C, inner));
}

/// The number that a search finds is above zero and below the group order, and it is the
/// first draw that is; the draws before it were none. A search that finds none has used up
/// its attempts.
pub proof fn law_first_draw_in_range_counts(
    attempts: u64,
    missed: Seq<Result<[u8; 48], Failure>>,
    last: Option<Result<[u8; 48], Failure>>,
    r: Result<Option<Scalar>, Failure>,
)
    requires
        search_result(attempts, missed, last, r),
    ensures
        r matches Ok(Some(s)) ==> {
            &&& 0 < be_nat(s@) < be_nat(ORDER@)
            &&& last matches Some(Ok(bytes)) && s@ == bytes@
            &&& missed.len() < attempts
        },
        r matches Ok(None) ==> last is None && missed.len() == attempts,
        r matches Err(e) ==> last == Some(Err::<[u8; 48], Failure>(e)),
        forall|i: int|
            0 <= i < missed.len() ==> (#[trigger] missed[i]) is Ok && !(0 < be_nat(
                missed[i]->Ok_0@,
            ) < be_nat(ORDER@)),
{
    assert forall|i: int| 0 <= i < missed.len() implies (#[trigger] missed[i]) is Ok && !(0
        < be_nat(missed[i]->Ok_0@) < be_nat(ORDER@)) by {
        assert(out_of_range(missed[i]));
    }
}

/// Of a key a trace shows the first four and the last four bytes, and nothing between them.
pub proof fn law_traces_show_the_ends(head: Seq<u8>, middle: Seq<u8>, tail: Seq<u8>)
    requires
        head.len() == 4,
        tail.len() == 4,
    ensures
        fingerprint_text(head + middle + tail) == lower_hex(head) + "..."@ + lower_hex(tail),
{
    let all = head + middle + tail;
    assert(all.take(4) =~= head);
    assert(all.skip(all.len() - 4) =~= tail);
}

} // verus!
