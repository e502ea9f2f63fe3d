//! The handshake on the wire: what goes over the line in every round, byte for byte, and
//! what the replies lead to.

use crate::ber::{law_tlv_layout, law_tlv_round_trip, tlv_bytes};
use crate::bytes::be4;
use crate::crypto::brainpool_p384::{generator_point, AffinePoint, Scalar};
use crate::crypto::digest::sha256_of;
use crate::crypto::symmetric::{aes256_cbc_decrypted, aes256_cmac, kdf, mac8, KdfParam};
use crate::pace::commands::mse_set_at_bytes;
use crate::pace::{agreement_fits, agreement_run, auth_token_input, authentication_data,
    curve_answer, handshake_run, key_fits, key_run, mapping_fits, mapping_run, midway_run,
    multiple, nonce_command, nonce_result, point_command, point_result, point_sum, round_body,
    session_result, step_5_run, template_data, token_command, token_run, zeros, CurveArithmetic, Mapping, PaceError,
    PaceErrorView, PaceMidwayState, PaceSession, SessionView};
use crate::rng::Failure;
use crate::transport::{Exchange, OutcomeView, ResponseView, TransportDispatchError};
use vstd::prelude::*;

verus! {

/// The card answered the exchange with `body` and these status bytes.
pub open spec fn answers<E>(x: Exchange<E>, body: Seq<u8>, sw1: u8, sw2: u8) -> bool {
    x.reply == Ok::<OutcomeView, E>(OutcomeView::Response(ResponseView { body, sw1, sw2 }))
}

/// The mechanism: `0.4.0.127.0.7.2.2.4.2.4`.
pub open spec fn mechanism() -> Seq<u8> {
    seq![0x04u8, 0x00, 0x7F, 0x00, 0x07, 0x02, 0x02, 0x04, 0x02, 0x04]
}

/// The three keys of a secret are the digests of the secret with 1, 2 and 3 behind it, in
/// four bytes: for encryption, for authentication and for the password.
pub proof fn law_keys_are_digests(secret: Seq<u8>)
    ensures
        kdf(secret, KdfParam::Encryption) == sha256_of(secret + seq![0x00u8, 0x00, 0x00, 0x01]),
        kdf(secret, KdfParam::Mac) == sha256_of(secret + seq![0x00u8, 0x00, 0x00, 0x02]),
        kdf(secret, KdfParam::Password) == sha256_of(secret + seq![0x00u8, 0x00, 0x00, 0x03]),
{
    assert(be4(1) =~= seq![0x00u8, 0x00, 0x00, 0x01]);
    assert(be4(2) =~= seq![0x00u8, 0x00, 0x00, 0x02]);
    assert(be4(3) =~= seq![0x00u8, 0x00, 0x00, 0x03]);
}

/// Round 1 announces the mechanism, the password and the domain parameters.
pub proof fn law_announcement_in_bytes(password_ref: u8)
    ensures
        mse_set_at_bytes(template_data(password_ref)) == seq![
            0x00u8, 0x22, 0xC1, 0xA4, 0x12, 0x80, 0x0A,
        ] + mechanism() + seq![0x83u8, 0x01, password_ref, 0x84, 0x01, 0x10],
{
    law_tlv_layout(0x80, mechanism());
    law_tlv_layout(0x83, seq![password_ref]);
    law_tlv_layout(0x84, seq![0x10u8]);
    assert(crate::oid::known::PACE_ECDH_GM_AES_CBC_CMAC_256@ =~= mechanism());
    assert(mse_set_at_bytes(template_data(password_ref)) =~= seq![
        0x00u8, 0x22, 0xC1, 0xA4, 0x12, 0x80, 0x0A,
    ] + mechanism() + seq![0x83u8, 0x01, password_ref, 0x84, 0x01, 0x10]);
}

/// Rounds 2, 3 and 4 are links of a chain: the first asks with an empty template, the
/// others send a point under a tag.
pub proof fn law_links_in_bytes(tag: u8, point: Seq<u8>)
    requires
        point.len() == 97,
    ensures
        nonce_command() == seq![0x10u8, 0x86, 0x00, 0x00, 0x02, 0x7C, 0x00, 0x00],
        point_command(tag, point) == seq![
            0x10u8, 0x86, 0x00, 0x00, 0x65, 0x7C, 0x63, tag, 0x61,
        ] + point + seq![0x00u8],
{
    law_tlv_layout(0x7C, Seq::empty());
    law_tlv_layout(tag, point);
    law_tlv_layout(0x7C, tlv_bytes(tag, point));
    assert(nonce_command() =~= seq![0x10u8, 0x86, 0x00, 0x00, 0x02, 0x7C, 0x00, 0x00]);
    assert(point_command(tag, point) =~= seq![
        0x10u8, 0x86, 0x00, 0x00, 0x65, 0x7C, 0x63, tag, 0x61,
    ] + point + seq![0x00u8]);
}

/// A token is taken over the mechanism and an encoded point in a public-key template.
pub proof fn law_token_input_in_bytes(point: Seq<u8>)
    requires
        point.len() == 97,
    ensures
        auth_token_input(point) == seq![0x7Fu8, 0x49, 0x6F, 0x06, 0x0A] + mechanism() + seq![
            0x86u8, 0x61,
        ] + point,
{
    law_tlv_layout(0x06, mechanism());
    law_tlv_layout(0x86, point);
    assert(crate::oid::known::PACE_ECDH_GM_AES_CBC_CMAC_256@ =~= mechanism());
    assert(auth_token_input(point) =~= seq![0x7Fu8, 0x49, 0x6F, 0x06, 0x0A] + mechanism() + seq![
        0x86u8, 0x61,
    ] + point);
}

/// The eight bytes that prove a shared secret over a point.
pub open spec fn is_token(shared_x: Seq<u8>, point: Seq<u8>, token: Seq<u8>) -> bool {
    let mac = aes256_cmac(
        sha256_of(shared_x + seq![0x00u8, 0x00, 0x00, 0x02]),
        seq![0x7Fu8, 0x49, 0x6F, 0x06, 0x0A] + mechanism() + seq![0x86u8, 0x61] + point,
    );
    token.len() == 8 && forall|i: int| 0 <= i < 8 ==> token[i] == #[trigger] mac[i]
}

/// Whole messages are authenticated with sixteen bytes.
pub open spec fn mac_is_whole(shared_x: Seq<u8>, point: Seq<u8>) -> bool {
    aes256_cmac(kdf(shared_x, KdfParam::Mac), auth_token_input(point)).len() == 16
}

/// Round 5 ends the chain with the terminal's token, which is taken over the card's point.
pub proof fn law_token_command_in_bytes(shared_x: Seq<u8>, v: Seq<u8>)
    requires
        v.len() == 97,
        mac_is_whole(shared_x, v),
    ensures
        exists|token: Seq<u8>|
            #![trigger is_token(shared_x, v, token)]
            is_token(shared_x, v, token) && token_command(shared_x, v) == seq![
                0x00u8, 0x86, 0x00, 0x00, 0x0C, 0x7C, 0x0A, 0x85, 0x08,
            ] + token + seq![0x00u8],
{
    law_keys_are_digests(shared_x);
    law_token_input_in_bytes(v);
    let token = mac8(kdf(shared_x, KdfParam::Mac), auth_token_input(v));
    law_tlv_layout(0x85, token);
    law_tlv_layout(0x7C, tlv_bytes(0x85, token));
    assert(is_token(shared_x, v, token));
    assert(token_command(shared_x, v) =~= seq![
        0x00u8, 0x86, 0x00, 0x00, 0x0C, 0x7C, 0x0A, 0x85, 0x08,
    ] + token + seq![0x00u8]);
}

proof fn lemma_field(tag: u8, value: Seq<u8>)
    requires
        value.len() < 0x7E,
        tag % 32 != 31,
    ensures
        authentication_data(
            seq![0x7Cu8, (value.len() + 2) as u8, tag, value.len() as u8] + value,
            tag as u16,
        ) == Ok::<Seq<u8>, crate::ber::BerError>(value),
{
    let inner = tlv_bytes(tag, value);
    law_tlv_layout(tag, value);
    law_tlv_layout(0x7C, inner);
    law_tlv_round_trip(tag, value, Seq::empty());
    assert(inner + Seq::<u8>::empty() =~= inner);
    law_tlv_round_trip(0x7C, inner, Seq::empty());
    assert(tlv_bytes(0x7C, inner) + Seq::<u8>::empty() =~= tlv_bytes(0x7C, inner));
    assert(tlv_bytes(0x7C, inner) =~= seq![
        0x7Cu8,
        (value.len() + 2) as u8,
        tag,
        value.len() as u8,
    ] + value);
}

/// The sixteen bytes of the reply of round 2 are decrypted under the key of the access
/// number, from a vector of zeros.
pub proof fn law_nonce_is_decrypted<E>(x: Exchange<E>, can: Seq<u8>, z: Seq<u8>)
    requires
        z.len() == 16,
        answers(x, seq![0x7Cu8, 0x12, 0x80, 0x10] + z, 0x90, 0x00),
    ensures
        nonce_result(x, can) == Ok::<Seq<u8>, PaceErrorView<E>>(
            aes256_cbc_decrypted(
                sha256_of(can + seq![0x00u8, 0x00, 0x00, 0x03]),
                seq![0u8, 0, 0, 0, 0, 0, 0, 0, 0, 0, 0, 0, 0, 0, 0, 0],
                z,
            ),
        ),
{
    law_keys_are_digests(can);
    lemma_field(0x80, z);
    assert(zeros(16) =~= seq![0u8, 0, 0, 0, 0, 0, 0, 0, 0, 0, 0, 0, 0, 0, 0, 0]);
}

/// The card's point of a round is the 97 bytes behind the tag; they begin with `04` or are
/// no point.
pub proof fn law_point_is_received<E>(x: Exchange<E>, stage: Seq<char>, tag: u8, point: Seq<u8>)
    requires
        tag == 0x82 || tag == 0x84,
        point.len() < 0x7E,
        answers(
            x,
            seq![0x7Cu8, (point.len() + 2) as u8, tag, point.len() as u8] + point,
            0x90,
            0x00,
        ),
    ensures
        point_result(x, stage, tag as u16) == if point.len() == 97 && point[0] == 0x04 {
            Ok::<Seq<u8>, PaceErrorView<E>>(point)
        } else {
            Err(PaceErrorView::InvalidPoint)
        },
{
    lemma_field(tag, point);
}

/// A session opens when the card answers round 5 with the token over the terminal's point,
/// and on no other eight bytes. Its keys are the digests of the secret with 1 and 2 behind
/// it, and its counter is zero.
pub proof fn law_token_decides<E>(x: Exchange<E>, shared_x: Seq<u8>, u: Seq<u8>, token: Seq<u8>)
    requires
        u.len() == 97,
        token.len() == 8,
        mac_is_whole(shared_x, u),
        answers(x, seq![0x7Cu8, 0x0A, 0x86, 0x08] + token, 0x90, 0x00),
    ensures
        session_result(x, shared_x, Some(u)) == if is_token(shared_x, u, token) {
            Ok::<SessionView, PaceErrorView<E>>(
                SessionView {
                    k_enc: sha256_of(shared_x + seq![0x00u8, 0x00, 0x00, 0x01]),
                    k_mac: sha256_of(shared_x + seq![0x00u8, 0x00, 0x00, 0x02]),
                    ssc: seq![0u8, 0, 0, 0, 0, 0, 0, 0, 0, 0, 0, 0, 0, 0, 0, 0],
                },
            )
        } else {
            Err(PaceErrorView::AuthMismatch)
        },
{
    law_keys_are_digests(shared_x);
    law_token_input_in_bytes(u);
    lemma_field(0x86, token);
    let expected = mac8(kdf(shared_x, KdfParam::Mac), auth_token_input(u));
    assert(is_token(shared_x, u, expected));
    if is_token(shared_x, u, token) {
        let mac = aes256_cmac(kdf(shared_x, KdfParam::Mac), auth_token_input(u));
        assert forall|i: int| 0 <= i < 8 implies token[i] == expected[i] by {
            assert(token[i] == mac[i]);
        }
        assert(token =~= expected);
    }
    assert(zeros(16) =~= seq![0u8, 0, 0, 0, 0, 0, 0, 0, 0, 0, 0, 0, 0, 0, 0, 0]);
}

/// Every other status than `9000` ends the round that it answers, and so does a reply that
/// never came.
pub proof fn law_refused_round_fails<E>(x: Exchange<E>, stage: Seq<char>, can: Seq<u8>, tag: u16)
    requires
        !(x.reply matches Ok(OutcomeView::Response(r)) && r.sw1 == 0x90 && r.sw2 == 0x00),
    ensures
        round_body(x, stage) is Err,
        nonce_result(x, can) is Err,
        point_result(x, stage, tag) is Err,
        forall|shared_x: Seq<u8>, u: Option<Seq<u8>>|
            (#[trigger] session_result(x, shared_x, u)) is Err,
        x.reply matches Ok(OutcomeView::Response(r)) ==> round_body(x, stage) == Err::<
            Seq<u8>,
            PaceErrorView<E>,
        >(PaceErrorView::Sw(stage, 256 * r.sw1 + r.sw2)),
{
}

/// The points and numbers of a handshake that came to an end.
pub struct Agreement {
    /// The nonce of the card.
    pub nonce: Seq<u8>,
    /// The terminal's two numbers.
    pub x: [u8; 48],
    pub u: [u8; 48],
    /// The terminal's two points.
    pub x_pub: AffinePoint,
    pub u_pub: AffinePoint,
    /// The card's two points.
    pub y: AffinePoint,
    pub v: AffinePoint,
    /// The nonce as a number of 48 bytes, the multiple of the generator by it, the
    /// multiple of the card's first point by the terminal's first number, and their sum.
    pub s: [u8; 48],
    pub s_g: AffinePoint,
    pub h: AffinePoint,
    pub mapped: AffinePoint,
    /// The shared point.
    pub shared: AffinePoint,
}

impl Agreement {
    /// How the group relates them: the terminal's first point is the multiple of the
    /// generator by its first number; the mapped generator is the sum of the two
    /// multiples; the terminal's second point is the multiple of the mapped generator by
    /// its second number; the shared point is the multiple of the card's second point by
    /// it. The card's points are on the curve.
    pub open spec fn holds<G: CurveArithmetic>(self, group: &G) -> bool {
        &&& self.s@ == Seq::new(32, |i: int| 0u8) + self.nonce
        &&& multiple(group, generator_point(), self.x, self.x_pub)
        &&& curve_answer(group, self.y, true)
        &&& multiple(group, generator_point(), self.s, self.s_g)
        &&& multiple(group, self.y, self.x, self.h)
        &&& point_sum(group, self.s_g, self.h, self.mapped)
        &&& multiple(group, self.mapped, self.u, self.u_pub)
        &&& curve_answer(group, self.v, true)
        &&& multiple(group, self.v, self.u, self.shared)
    }

    /// How the exchanges carry them: five commands, in which the terminal's points go out
    /// under `81` and `83`, and five replies of success, in which the card's points come
    /// in under `82` and `84`.
    pub open spec fn carried<E>(self, can: Seq<u8>, new: Seq<Exchange<E>>) -> bool {
        &&& new.len() == 5
        &&& forall|i: int| 0 <= i < 5 ==> (#[trigger] new[i]).succeeded() && !new[i].le_retry
        &&& new[0].command == seq![0x00u8, 0x22, 0xC1, 0xA4, 0x12, 0x80, 0x0A] + mechanism()
            + seq![0x83u8, 0x01, 0x02, 0x84, 0x01, 0x10]
        &&& new[1].command == seq![0x10u8, 0x86, 0x00, 0x00, 0x02, 0x7C, 0x00, 0x00]
        &&& nonce_result(new[1], can) == Ok::<Seq<u8>, PaceErrorView<E>>(self.nonce)
        &&& self.x_pub@ is Some && new[2].command == point_command(0x81, self.x_pub@->Some_0)
        &&& self.y@ is Some && point_result(new[2], "GA-2 map nonce"@, 0x82) == Ok::<
            Seq<u8>,
            PaceErrorView<E>,
        >(self.y@->Some_0)
        &&& self.u_pub@ is Some && new[3].command == point_command(0x83, self.u_pub@->Some_0)
        &&& self.v@ is Some && point_result(new[3], "GA-3 key agreement"@, 0x84) == Ok::<
            Seq<u8>,
            PaceErrorView<E>,
        >(self.v@->Some_0)
        &&& self.shared.coords is Some
        &&& new[4].command == token_command(self.shared.coords->Some_0.0@, self.v@->Some_0)
    }
}

proof fn lemma_mapping<G: CurveArithmetic, E>(
    group: &G,
    nonce: Seq<u8>,
    x: [u8; 48],
    new: Seq<Exchange<E>>,
    r: Result<AffinePoint, PaceError<TransportDispatchError<E>>>,
) -> (m: Mapping)
    requires
        mapping_run(group, nonce, x, new, r),
        r is Ok,
    ensures
        mapping_fits(group, nonce, x, m, new, r),
        m.maps(group, nonce, x),
        m.mapped == r->Ok_0,
        new.len() == 1,
{
    choose|m: Mapping| #[trigger] mapping_fits(group, nonce, x, m, new, r)
}

/// A session that opens is the one that both sides agreed on: the five exchanges carry the
/// points of one agreement, the session's keys are the digests of the x-coordinate of its
/// shared point, and the card proved it over the terminal's second point.
pub proof fn law_session_is_agreed<G: CurveArithmetic, E>(
    group: &G,
    can: Seq<u8>,
    new: Seq<Exchange<E>>,
    r: Result<PaceSession, PaceError<TransportDispatchError<E>>>,
) -> (a: Agreement)
    requires
        handshake_run(group, can, new, r),
        r is Ok,
    ensures
        a.holds(group),
        a.carried(can, new),
        r->Ok_0@ == (SessionView {
            k_enc: sha256_of(a.shared.coords->Some_0.0@ + seq![0x00u8, 0x00, 0x00, 0x01]),
            k_mac: sha256_of(a.shared.coords->Some_0.0@ + seq![0x00u8, 0x00, 0x00, 0x02]),
            ssc: seq![0u8, 0, 0, 0, 0, 0, 0, 0, 0, 0, 0, 0, 0, 0, 0, 0],
        }),
        session_result(new[4], a.shared.coords->Some_0.0@, a.u_pub@) == Ok::<
            SessionView,
            PaceErrorView<E>,
        >(r->Ok_0@),
{
    let (k, mid): (int, Result<PaceMidwayState, PaceError<TransportDispatchError<E>>>) = choose|
        k: int,
        mid: Result<PaceMidwayState, PaceError<TransportDispatchError<E>>>,
    |
        0 <= k <= new.len() && #[trigger] midway_run(group, can, new.take(k), mid) && match mid {
            Err(e) => k == new.len() && crate::pace::pace_fails(r, crate::pace::pace_error_view(e)),
            Ok(state) => step_5_run(group, state, new.skip(k), r),
        };
    let state = mid->Ok_0;
    let head = new.take(k);
    let nonce = nonce_result(head[1], can)->Ok_0;
    let run = head.skip(2);
    let (first, j, mapped, second): (
        Result<Option<Scalar>, Failure>,
        int,
        Result<AffinePoint, PaceError<TransportDispatchError<E>>>,
        Result<Option<Scalar>, Failure>,
    ) = choose|
        first: Result<Option<Scalar>, Failure>,
        j: int,
        mapped: Result<AffinePoint, PaceError<TransportDispatchError<E>>>,
        second: Result<Option<Scalar>, Failure>,
    | #[trigger] agreement_fits(group, nonce, first, j, mapped, second, run, mid);
    assert(agreement_run(group, nonce, run, mid));
    let x = first->Ok_0->Some_0;
    let u = second->Ok_0->Some_0;
    let m = lemma_mapping(group, nonce, x.array(), run.take(j), mapped);
    let (u_pub, v): (AffinePoint, AffinePoint) = choose|u_pub: AffinePoint, v: AffinePoint|
        #[trigger] key_fits(group, m.mapped, u, u_pub, v, run.skip(j), mid);
    assert(key_run(group, m.mapped, u, run.skip(j), mid));
    let shared = choose|shared: AffinePoint|
        #[trigger] multiple(group, state.v_picc, state.u_pcd.array(), shared)
            && match shared.coords {
            None => new.skip(k).len() == 0 && crate::pace::pace_fails(
                r,
                PaceErrorView::InvalidPoint,
            ),
            Some((x, _)) => token_run(new.skip(k), x@, state.v_picc@, state.u_pcd_pub@, r),
        };
    let a = Agreement {
        nonce,
        x: x.array(),
        u: u.array(),
        x_pub: m.x_pub,
        u_pub,
        y: m.y,
        v,
        s: m.s,
        s_g: m.s_g,
        h: m.h,
        mapped: m.mapped,
        shared,
    };
    assert(run.take(j).len() == 1 && run.skip(j).len() == 1);
    assert(head.len() == 4 && new.skip(k).len() == 1);
    assert(head[0] == new[0] && head[1] == new[1]);
    assert(run.take(j)[0] == new[2]);
    assert(run.skip(j)[0] == new[3]);
    assert(new.skip(k)[0] == new[4]);
    assert(new[0].succeeded() && new[1].succeeded() && new[2].succeeded() && new[3].succeeded()
        && new[4].succeeded());
    assert forall|i: int| 0 <= i < 5 implies (#[trigger] new[i]).succeeded() && !new[i].le_retry by {
        assert(i == 0 || i == 1 || i == 2 || i == 3 || i == 4);
    }
    law_announcement_in_bytes(0x02);
    law_links_in_bytes(0x81, Seq::new(97, |i: int| 0u8));
    law_keys_are_digests(shared.coords->Some_0.0@);
    assert(zeros(16) =~= seq![0u8, 0, 0, 0, 0, 0, 0, 0, 0, 0, 0, 0, 0, 0, 0, 0]);
    assert(zeros(32) =~= Seq::new(32, |i: int| 0u8));
    a
}

/// A round that the card refuses is told by its name and the status, and a field of another
/// length than the round calls for is told as such.
pub proof fn law_failures_are_told<E>(
    x: Exchange<E>,
    body: Seq<u8>,
    sw1: u8,
    sw2: u8,
    can: Seq<u8>,
    shared_x: Seq<u8>,
    u: Option<Seq<u8>>,
    field: Seq<u8>,
)
    requires
        answers(x, body, sw1, sw2),
        field.len() < 0x7E,
    ensures
        256 * sw1 + sw2 != 0x9000 ==> {
            &&& nonce_result(x, can) == Err::<Seq<u8>, PaceErrorView<E>>(
                PaceErrorView::Sw("GA-1 encrypted nonce"@, 256 * sw1 + sw2),
            )
            &&& session_result(x, shared_x, u) == Err::<SessionView, PaceErrorView<E>>(
                PaceErrorView::Sw("GA-4 mutual auth"@, 256 * sw1 + sw2),
            )
        },
        sw1 == 0x90 && sw2 == 0x00 && field.len() != 16 && body == seq![
            0x7Cu8,
            (field.len() + 2) as u8,
            0x80,
            field.len() as u8,
        ] + field ==> nonce_result(x, can) == Err::<Seq<u8>, PaceErrorView<E>>(
            PaceErrorView::UnexpectedResponse("encrypted nonce wrong length"@),
        ),
        sw1 == 0x90 && sw2 == 0x00 && field.len() != 8 && body == seq![
            0x7Cu8,
            (field.len() + 2) as u8,
            0x86,
            field.len() as u8,
        ] + field ==> session_result(x, shared_x, u) == Err::<SessionView, PaceErrorView<E>>(
            PaceErrorView::UnexpectedResponse("card auth tag wrong length"@),
        ),
{
    lemma_field(0x80, field);
    lemma_field(0x86, field);
}

/// A session holds the keys and the counter that it was opened with.
pub proof fn law_session_fields(session: PaceSession)
    ensures
        session@.k_enc == session.k_enc@,
        session@.k_mac == session.k_mac@,
        session@.ssc == session.ssc@,
{
}

} // verus!
