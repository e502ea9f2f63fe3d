//! Card-side signing and decryption.
//!
//! A signature takes three commands: `MSE: SET` pins the algorithm and the key,
//! `PSO: HASH` ships the digest, `PSO: CDS` returns the signature. The matching
//! PIN must have been verified earlier in the card session.

use crate::apdu::ApduClass;
use crate::bytes::{be2, copy_range, push_all, u16_be};
use crate::crypto::container::{Ciphertext, EcdsaP256, EcdsaP384, Plaintext, RsaPkcs1, RsaPkcs1Sha256,
    Signature};
use crate::crypto::digest::{Sha1, Sha224, Sha256, Sha384, Sha512};
use crate::render::{dec, hex4, push_dec, push_hex4};
use crate::sign::commands::{alg_crdo, hash_value_tlv, key_crdo, pso_cds_bytes, pso_decipher_bytes,
    DecipherAlgRef, ExternalHashValue, HashAlgorithm, MseSet, MseSetTemplate,
    PsoComputeDigitalSignature, PsoDecipher, PsoHash, PsoHashMode, SignatureAlgRef,
    SignatureAlgorithm};
use crate::transport::{body_of, continues, lemma_continues, lemma_run_extends, lemma_run_stopped, lemma_sent,
    news, run_of, run_succeeded, sent, CardTransport, DispatchErrorView, Exchange,
    TransportDispatchError};
use vstd::prelude::*;
use vstd::string::*;

pub mod algorithms;
pub mod commands;
pub mod wire;

verus! {

/// Reference byte of the authentication key.
pub const KEY_REF_AUTH: u8 = 0x01;

/// Reference byte of the qualified-signature key.
pub const KEY_REF_SIGN: u8 = 0x02;

/// Private-key reference.
#[derive(Debug, Clone, Copy, PartialEq, Eq, Hash, Structural)]
pub enum KeyRef {
    /// Authentication key.
    Auth,
    /// Qualified-signature key.
    Sign,
}

impl KeyRef {
    /// The card-side reference byte.
    pub open spec fn wire(self) -> u8 {
        match self {
            KeyRef::Auth => KEY_REF_AUTH,
            KeyRef::Sign => KEY_REF_SIGN,
        }
    }

    /// The card-side reference byte.
    pub fn as_u8(self) -> (r: u8)
        ensures
            r == self.wire(),
    {
        match self {
            KeyRef::Auth => KEY_REF_AUTH,
            KeyRef::Sign => KEY_REF_SIGN,
        }
    }
}

/// Signature length of RSA-3072.
pub const RSA_3072_SIG_BYTES: usize = 384;

/// Signature length of ECDSA over secp384r1 in raw `r || s` form.
pub const ECDSA_P384_SIG_BYTES: usize = 96;

/// Signature length of ECDSA over secp256r1 in raw `r || s` form.
pub const ECDSA_P256_SIG_BYTES: usize = 64;

/// SHA-256 digest size.
pub const SHA256_DIGEST_LEN: usize = 32;

/// SHA-384 digest size.
pub const SHA384_DIGEST_LEN: usize = 48;

/// Padding indicator in front of a ciphertext.
pub const PADDING_INDICATOR: u8 = 0x81;

/// Longest data field of a short command.
pub const SHORT_DATA_MAX: usize = 255;

/// Sign-path errors.
#[derive(Debug)]
pub enum SignError<TE> {
    /// Transport-layer failure.
    Transport(TE),
    /// The card returned a non-success status at the labelled stage.
    Sw(&'static str, u16),
    /// The card returned a signature of an unexpected length, or a ciphertext
    /// had one.
    UnexpectedSignatureLength(usize),
    /// The input does not fit the length field of the command.
    InputTooLong(usize),
}

/// What a sign-path error says.
pub enum SignErrorView<E> {
    Transport(DispatchErrorView<E>),
    Sw(Seq<char>, int),
    UnexpectedSignatureLength(int),
    InputTooLong(int),
}

/// The view of a sign-path error.
pub open spec fn sign_error_view<E>(e: SignError<TransportDispatchError<E>>) -> SignErrorView<E> {
    match e {
        SignError::Transport(t) => SignErrorView::Transport(t@),
        SignError::Sw(stage, sw) => SignErrorView::Sw(stage@, sw as int),
        SignError::UnexpectedSignatureLength(n) => SignErrorView::UnexpectedSignatureLength(
            n as int,
        ),
        SignError::InputTooLong(n) => SignErrorView::InputTooLong(n as int),
    }
}

impl<TE> SignError<TE> {
    /// The diagnostic text of the error, given that of the transport error it
    /// may wrap.
    pub fn message(&self, transport: &str) -> (r: String)
        ensures
            r@ == match *self {
                SignError::Transport(_) => "sign transport: "@ + transport@,
                SignError::Sw(stage, sw) => "sign "@ + stage@ + ": card returned SW=0x"@ + hex4(sw),
                SignError::UnexpectedSignatureLength(n) => "sign: card returned "@ + dec(n as nat)
                    + "-byte signature; expected 384 (RSA-3072)"@,
                SignError::InputTooLong(n) => "sign: "@ + dec(n as nat)
                    + "-byte input exceeds the ISO 7816 signing command length"@,
            },
    {
        match self {
            SignError::Transport(_) => "sign transport: ".to_owned().concat(transport),
            SignError::Sw(stage, sw) => {
                let mut out = "sign ".to_owned();
                out.append(stage);
                out.append(": card returned SW=0x");
                push_hex4(&mut out, *sw);
                out
            },
            SignError::UnexpectedSignatureLength(n) => {
                let mut out = "sign: card returned ".to_owned();
                push_dec(&mut out, *n as u128);
                out.append("-byte signature; expected 384 (RSA-3072)");
                out
            },
            SignError::InputTooLong(n) => {
                let mut out = "sign: ".to_owned();
                push_dec(&mut out, *n as u128);
                out.append("-byte input exceeds the ISO 7816 signing command length");
                out
            },
        }
    }
}

/// The error of a stage whose exchange did not succeed.
pub open spec fn stage_failure<E>(x: Exchange<E>, stage: Seq<char>) -> SignErrorView<E> {
    match x.dispatched() {
        Err(e) => SignErrorView::Transport(e),
        Ok(r) => SignErrorView::Sw(stage, r.sw()),
    }
}

/// `r` is the error `e`.
pub open spec fn fails_with<T, E>(
    r: Result<T, SignError<TransportDispatchError<E>>>,
    e: SignErrorView<E>,
) -> bool {
    r matches Err(x) && sign_error_view(x) == e
}

/// A stage without result: done when its exchange succeeded, else its failure.
pub open spec fn stage_done<E>(
    r: Result<(), SignError<TransportDispatchError<E>>>,
    x: Exchange<E>,
    stage: Seq<char>,
) -> bool {
    if x.succeeded() {
        r is Ok
    } else {
        fails_with(r, stage_failure(x, stage))
    }
}

/// `00 22 41 <P2> 06 80 01 <alg> 84 01 <key>`.
pub open spec fn mse_pair_bytes(p2: u8, alg: u8, key_ref: KeyRef) -> Seq<u8> {
    seq![0x00u8, 0x22, 0x41, p2, 0x06] + alg_crdo(alg) + key_crdo(key_ref)
}

/// The three commands of a signature over a computed digest.
pub open spec fn sign_commands(alg: u8, key_ref: KeyRef, hash: Seq<u8>, le: u8) -> Seq<Seq<u8>> {
    seq![
        mse_pair_bytes(0xB6, alg, key_ref),
        external_hash_bytes(hash),
        pso_cds_bytes(ApduClass::Plain, le),
    ]
}

/// `00 2A 90 A0 Lc 90 L <hash>`.
pub open spec fn external_hash_bytes(hash: Seq<u8>) -> Seq<u8> {
    seq![0x00u8, 0x2A, 0x90, 0xA0, (hash.len() + 2) as u8] + hash_value_tlv(hash)
}

/// The labels of the three commands.
pub open spec fn sign_stages() -> Seq<Seq<char>> {
    seq!["MSE:Set DST"@, "PSO:HASH"@, "PSO:CDS"@]
}

/// `after` and `r` are the history and the result of a signature over `hash`
/// that started with the history `before`: the three commands go out in order up
/// to the first that fails, and that failure is the result; after three
/// successes the result is the data of the last reply, refused when `required`
/// names another length.
pub open spec fn signature_run<E, Alg>(
    before: Seq<Exchange<E>>,
    after: Seq<Exchange<E>>,
    alg: u8,
    key_ref: KeyRef,
    hash: Seq<u8>,
    le: u8,
    required: Option<int>,
    r: Result<Signature<Alg>, SignError<TransportDispatchError<E>>>,
) -> bool {
    let new = news(before, after);
    let commands = sign_commands(alg, key_ref, hash, le);
    &&& continues(before, after)
    &&& run_of(new, commands)
    &&& if !run_succeeded(new, commands) {
        fails_with(r, stage_failure(new.last(), sign_stages()[new.len() - 1]))
    } else {
        let body = body_of(new.last());
        if required is Some && body.len() != required->Some_0 {
            fails_with(r, SignErrorView::UnexpectedSignatureLength(body.len() as int))
        } else {
            r matches Ok(s) && s@ == body
        }
    }
}

/// `00 2A 9E 9A Lc <data> 00`.
pub open spec fn cds_short_bytes(data: Seq<u8>) -> Seq<u8> {
    (seq![0x00u8, 0x2A, 0x9E, 0x9A, data.len() as u8] + data).push(0x00)
}

/// `00 2A 9E 9A 00 <length> <data> 00 00`.
pub open spec fn cds_extended_bytes(data: Seq<u8>) -> Seq<u8> {
    seq![0x00u8, 0x2A, 0x9E, 0x9A, 0x00] + be2(data.len() as int) + data + seq![0x00u8, 0x00]
}

/// `10 2A 9E 9A Lc <data>`.
pub open spec fn cds_chained_bytes(data: Seq<u8>) -> Seq<u8> {
    seq![0x10u8, 0x2A, 0x9E, 0x9A, data.len() as u8] + data
}

/// The status word of a response, zero when there was none.
pub open spec fn sw_or_zero<E>(x: Exchange<E>) -> int {
    match x.dispatched() {
        Ok(r) => r.sw(),
        Err(_) => 0,
    }
}

/// The failure of the first chained part: the status of the extended form where
/// it has one, else that of the part.
pub open spec fn first_part_failure<E>(extended: Exchange<E>, part: Exchange<E>) -> SignErrorView<E> {
    if part.dispatched() is Ok && sw_or_zero(extended) != 0 {
        SignErrorView::Sw("PSO:CDS extended"@, sw_or_zero(extended))
    } else {
        stage_failure(part, "PSO:CDS chunk 1/2"@)
    }
}

/// The two commands of a block that goes out in chained halves.
pub open spec fn cds_halves(data: Seq<u8>) -> Seq<Seq<u8>> {
    let half = data.len() as int / 2;
    seq![cds_chained_bytes(data.take(half)), cds_short_bytes(data.skip(half))]
}

/// The labels of the two commands.
pub open spec fn cds_half_stages() -> Seq<Seq<char>> {
    seq!["PSO:CDS chunk 1/2"@, "PSO:CDS chunk 2/2"@]
}

/// Two halves of a block of `n` bytes fit short commands.
pub open spec fn halves_fit(n: int) -> bool {
    n - n / 2 <= SHORT_DATA_MAX
}

/// `new` are the exchanges and `r` is the result of a run of `commands` whose last reply
/// carries the signature.
pub open spec fn cds_run<E, Alg>(
    new: Seq<Exchange<E>>,
    commands: Seq<Seq<u8>>,
    stages: Seq<Seq<char>>,
    r: Result<Signature<Alg>, SignError<TransportDispatchError<E>>>,
) -> bool {
    &&& run_of(new, commands)
    &&& if run_succeeded(new, commands) {
        r matches Ok(s) && s@ == body_of(new.last())
    } else {
        fails_with(r, stage_failure(new.last(), stages[new.len() - 1]))
    }
}

/// `new` are the exchanges and `r` is the result of signing `data` directly. A short block
/// goes out in one short command, a longer one in two chained halves. A block whose halves
/// do not fit short commands does not go out.
pub open spec fn cds_data_run<E, Alg>(
    new: Seq<Exchange<E>>,
    data: Seq<u8>,
    r: Result<Signature<Alg>, SignError<TransportDispatchError<E>>>,
) -> bool {
    if data.len() <= SHORT_DATA_MAX {
        cds_run(new, seq![cds_short_bytes(data)], seq!["PSO:CDS data"@], r)
    } else if halves_fit(data.len() as int) {
        cds_run(new, cds_halves(data), cds_half_stages(), r)
    } else {
        new.len() == 0 && fails_with(r, SignErrorView::InputTooLong(data.len() as int))
    }
}

/// `new` are the exchanges and `r` is the result of signing `data` directly in one
/// command, an extended one where the block is not short. Where the extended command does
/// not succeed the block goes out in two chained halves, as far as they fit short commands.
pub open spec fn cds_extended_run<E, Alg>(
    new: Seq<Exchange<E>>,
    data: Seq<u8>,
    r: Result<Signature<Alg>, SignError<TransportDispatchError<E>>>,
) -> bool {
    if data.len() <= SHORT_DATA_MAX {
        cds_data_run(new, data, r)
    } else if data.len() > 0xFFFF {
        new.len() == 0 && fails_with(r, SignErrorView::InputTooLong(data.len() as int))
    } else {
        &&& new.len() > 0
        &&& new[0].command == cds_extended_bytes(data) && !new[0].le_retry
        &&& if new[0].succeeded() {
            new.len() == 1 && (r matches Ok(s) && s@ == body_of(new[0]))
        } else if !halves_fit(data.len() as int) {
            new.len() == 1 && fails_with(r, SignErrorView::InputTooLong(data.len() as int))
        } else {
            &&& run_of(new.skip(1), cds_halves(data))
            &&& if !new[1].succeeded() {
                fails_with(r, first_part_failure(new[0], new[1]))
            } else if new.last().succeeded() {
                r matches Ok(s) && s@ == body_of(new.last())
            } else {
                fails_with(r, stage_failure(new.last(), "PSO:CDS chunk 2/2"@))
            }
        }
    }
}

/// The padding indicator and the ciphertext.
pub open spec fn decipher_body(ciphertext: Seq<u8>) -> Seq<u8> {
    seq![PADDING_INDICATOR] + ciphertext
}

/// The commands that ship a ciphertext: one, or two chained halves.
pub open spec fn decipher_commands(ciphertext: Seq<u8>) -> Seq<Seq<u8>> {
    let body = decipher_body(ciphertext);
    let half = body.len() as int / 2;
    if body.len() <= SHORT_DATA_MAX {
        seq![pso_decipher_bytes(body, false)]
    } else {
        seq![
            pso_decipher_bytes(body.take(half), true),
            pso_decipher_bytes(body.skip(half), false),
        ]
    }
}

/// The labels of the commands that ship a ciphertext.
pub open spec fn decipher_stages(ciphertext: Seq<u8>) -> Seq<Seq<char>> {
    if decipher_body(ciphertext).len() <= SHORT_DATA_MAX {
        seq!["PSO:DECIPHER"@]
    } else {
        seq!["PSO:DECIPHER chunk 1/2"@, "PSO:DECIPHER chunk 2/2"@]
    }
}

/// `new` are the exchanges and `r` is the result of a run of `commands` that
/// yields the data of its last reply.
pub open spec fn plaintext_run<E>(
    new: Seq<Exchange<E>>,
    commands: Seq<Seq<u8>>,
    stages: Seq<Seq<char>>,
    r: Result<Plaintext<RsaPkcs1>, SignError<TransportDispatchError<E>>>,
) -> bool {
    &&& run_of(new, commands)
    &&& if run_succeeded(new, commands) {
        r matches Ok(p) && p@ == body_of(new.last())
    } else {
        fails_with(r, stage_failure(new.last(), stages[new.len() - 1]))
    }
}

/// The commands of a decryption.
pub open spec fn decrypt_commands(key_ref: KeyRef, ciphertext: Seq<u8>) -> Seq<Seq<u8>> {
    seq![mse_pair_bytes(0xB8, 0x1A, key_ref)] + decipher_commands(ciphertext)
}

/// The labels of the commands of a decryption.
pub open spec fn decrypt_stages(ciphertext: Seq<u8>) -> Seq<Seq<char>> {
    seq!["MSE:Set CT"@] + decipher_stages(ciphertext)
}

/// `after` and `r` are the history and the result of a decryption that started
/// with the history `before`.
pub open spec fn decrypt_run<E>(
    before: Seq<Exchange<E>>,
    after: Seq<Exchange<E>>,
    key_ref: KeyRef,
    ciphertext: Seq<u8>,
    r: Result<Plaintext<RsaPkcs1>, SignError<TransportDispatchError<E>>>,
) -> bool {
    if ciphertext.len() != RSA_3072_SIG_BYTES {
        after == before && fails_with(
            r,
            SignErrorView::UnexpectedSignatureLength(ciphertext.len() as int),
        )
    } else {
        continues(before, after) && plaintext_run(
            news(before, after),
            decrypt_commands(key_ref, ciphertext),
            decrypt_stages(ciphertext),
            r,
        )
    }
}

/// Send one raw command and require `9000`.
fn stage<T: CardTransport>(transport: &mut T, apdu: &[u8], label: &'static str) -> (r: Result<
    Vec<u8>,
    SignError<TransportDispatchError<T::Error>>,
>)
    ensures
        sent(old(transport).log(), final(transport).log(), apdu@),
        ({
            let x = final(transport).log().last();
            if x.succeeded() {
                r matches Ok(body) && body@ == body_of(x)
            } else {
                fails_with(r, stage_failure(x, label@))
            }
        }),
{
    match transport.transmit(apdu) {
        Err(e) => Err(SignError::Transport(e)),
        Ok(reply) => if reply.is_ok() {
            Ok(reply.body)
        } else {
            Err(SignError::Sw(label, reply.sw()))
        },
    }
}

/// Select a signature template.
fn select_signature_template<T: CardTransport>(
    transport: &mut T,
    alg_ref: SignatureAlgRef,
    key_ref: KeyRef,
) -> (r: Result<(), SignError<TransportDispatchError<T::Error>>>)
    ensures
        sent(
            old(transport).log(),
            final(transport).log(),
            mse_pair_bytes(0xB6, alg_ref.wire(), key_ref),
        ),
        stage_done(r, final(transport).log().last(), "MSE:Set DST"@),
{
    let template = MseSetTemplate::DigitalSignature { alg_ref, key_ref };
    let apdu = MseSet { class: ApduClass::Plain, template }.into_apdu();
    assert(apdu@ =~= mse_pair_bytes(0xB6, alg_ref.wire(), key_ref));
    match stage(transport, apdu.as_bytes(), "MSE:Set DST") {
        Ok(_) => Ok(()),
        Err(e) => Err(e),
    }
}

/// Ship a computed digest.
fn ship_hash<T: CardTransport>(transport: &mut T, hash: ExternalHashValue) -> (r: Result<
    (),
    SignError<TransportDispatchError<T::Error>>,
>)
    ensures
        sent(old(transport).log(), final(transport).log(), external_hash_bytes(hash@)),
        stage_done(r, final(transport).log().last(), "PSO:HASH"@),
{
    let apdu = PsoHash {
        class: ApduClass::Plain,
        mode: PsoHashMode::External { hash },
    }.into_apdu();
    assert(apdu@ =~= external_hash_bytes(hash@));
    match stage(transport, apdu.as_bytes(), "PSO:HASH") {
        Ok(_) => Ok(()),
        Err(e) => Err(e),
    }
}

/// Fetch the signature over the shipped digest.
fn compute_signature<T: CardTransport, Alg>(transport: &mut T, le: u8) -> (r: Result<
    Signature<Alg>,
    SignError<TransportDispatchError<T::Error>>,
>)
    ensures
        sent(old(transport).log(), final(transport).log(), pso_cds_bytes(ApduClass::Plain, le)),
        ({
            let x = final(transport).log().last();
            if x.succeeded() {
                r matches Ok(s) && s@ == body_of(x)
            } else {
                fails_with(r, stage_failure(x, "PSO:CDS"@))
            }
        }),
{
    let apdu = PsoComputeDigitalSignature { class: ApduClass::Plain }.into_apdu_with_le(le);
    match stage(transport, apdu.as_bytes(), "PSO:CDS") {
        Ok(body) => Ok(Signature::new(body)),
        Err(e) => Err(e),
    }
}

/// Drive the three commands of a signature.
fn sign_chain<T: CardTransport, Alg>(
    transport: &mut T,
    alg_ref: SignatureAlgRef,
    key_ref: KeyRef,
    hash: ExternalHashValue,
    le: u8,
    required: Option<usize>,
) -> (r: Result<Signature<Alg>, SignError<TransportDispatchError<T::Error>>>)
    ensures
        signature_run(
            old(transport).log(),
            final(transport).log(),
            alg_ref.wire(),
            key_ref,
            hash@,
            le,
            match required {
                Some(n) => Some(n as int),
                None => None,
            },
            r,
        ),
{
    let ghost l0 = transport.log();
    let ghost commands = sign_commands(alg_ref.wire(), key_ref, hash@, le);
    let ghost c0 = seq![commands[0]];
    let ghost c1 = seq![commands[1]];
    let ghost c2 = seq![commands[2]];
    proof {
        assert(commands =~= c0 + (c1 + c2));
        assert(commands =~= (c0 + c1) + c2);
    }
    if let Err(e) = select_signature_template(transport, alg_ref, key_ref) {
        proof {
            lemma_sent(l0, transport.log(), commands[0]);
            lemma_run_stopped(news(l0, transport.log()), c0, c1 + c2);
        }
        return Err(e);
    }
    let ghost l1 = transport.log();
    proof {
        lemma_sent(l0, l1, commands[0]);
    }
    if let Err(e) = ship_hash(transport, hash) {
        proof {
            let l2 = transport.log();
            lemma_sent(l1, l2, commands[1]);
            lemma_continues(l0, l1, l2);
            lemma_run_extends(news(l0, l1), c0, news(l1, l2), c1);
            lemma_run_stopped(news(l0, l2), c0 + c1, c2);
        }
        return Err(e);
    }
    let ghost l2 = transport.log();
    proof {
        lemma_sent(l1, l2, commands[1]);
        lemma_continues(l0, l1, l2);
        lemma_run_extends(news(l0, l1), c0, news(l1, l2), c1);
    }
    let result = compute_signature::<T, Alg>(transport, le);
    proof {
        let l3 = transport.log();
        lemma_sent(l2, l3, commands[2]);
        lemma_continues(l0, l2, l3);
        lemma_run_extends(news(l0, l2), c0 + c1, news(l2, l3), c2);
    }
    match result {
        Err(e) => Err(e),
        Ok(signature) => match required {
            Some(n) => if signature.len() != n {
                Err(SignError::UnexpectedSignatureLength(signature.len()))
            } else {
                Ok(signature)
            },
            None => Ok(signature),
        },
    }
}

/// Send a block in two chained halves. Also tells whether the first half did not succeed.
fn sign_halves<T: CardTransport, Alg>(transport: &mut T, data: &[u8]) -> (r: (
    Result<Signature<Alg>, SignError<TransportDispatchError<T::Error>>>,
    bool,
))
    requires
        halves_fit(data@.len() as int),
    ensures
        continues(old(transport).log(), final(transport).log()),
        ({
            let new = news(old(transport).log(), final(transport).log());
            cds_run(new, cds_halves(data@), cds_half_stages(), r.0) && r.1 == !new[0].succeeded()
        }),
{
    let ghost l0 = transport.log();
    let half: usize = data.len() / 2;
    let first = copy_range(data, 0, half);
    let second = copy_range(data, half, data.len());
    let ghost parts = cds_halves(data@);
    proof {
        assert(first@ =~= data@.take(half as int));
        assert(second@ =~= data@.skip(half as int));
        assert(parts =~= seq![parts[0]] + seq![parts[1]]);
    }
    let mut apdu1 = vec![0x10, 0x2A, 0x9E, 0x9A, first.len() as u8];
    push_all(&mut apdu1, first.as_slice());
    assert(apdu1@ =~= parts[0]);
    let r1 = stage(transport, apdu1.as_slice(), "PSO:CDS chunk 1/2");
    let ghost l1 = transport.log();
    proof {
        lemma_sent(l0, l1, parts[0]);
        assert(news(l0, l1)[0] == l1.last());
    }
    match r1 {
        Ok(_) => {},
        Err(e) => {
            proof {
                lemma_run_stopped(news(l0, l1), seq![parts[0]], seq![parts[1]]);
            }
            return (Err(e), true);
        },
    }
    let mut apdu2 = vec![0x00, 0x2A, 0x9E, 0x9A, second.len() as u8];
    push_all(&mut apdu2, second.as_slice());
    apdu2.push(0x00);
    assert(apdu2@ =~= parts[1]);
    let r2 = stage(transport, apdu2.as_slice(), "PSO:CDS chunk 2/2");
    proof {
        let l2 = transport.log();
        lemma_sent(l1, l2, parts[1]);
        lemma_continues(l0, l1, l2);
        lemma_run_extends(news(l0, l1), seq![parts[0]], news(l1, l2), seq![parts[1]]);
        assert(news(l0, l2)[0] == l1.last());
    }
    match r2 {
        Ok(body) => (Ok(Signature::new(body)), false),
        Err(e) => (Err(e), false),
    }
}

/// The signing and decryption operations of every card transport.
pub trait SignOps: CardTransport {
    /// `MSE:Set DST`: pin the security environment for the next signature.
    fn mse_set_dst(&mut self, alg_ref: SignatureAlgRef, key_ref: KeyRef) -> (r: Result<
        (),
        SignError<TransportDispatchError<Self::Error>>,
    >) where Self: Sized
        ensures
            sent(
                old(self).log(),
                final(self).log(),
                mse_pair_bytes(0xB6, alg_ref.wire(), key_ref),
            ),
            stage_done(r, final(self).log().last(), "MSE:Set DST"@),
    {
        select_signature_template(self, alg_ref, key_ref)
    }

    /// `MSE:Set CT`: pin the security environment for the next decipherment.
    fn mse_set_ct(&mut self, alg_ref: DecipherAlgRef, key_ref: KeyRef) -> (r: Result<
        (),
        SignError<TransportDispatchError<Self::Error>>,
    >) where Self: Sized
        ensures
            sent(
                old(self).log(),
                final(self).log(),
                mse_pair_bytes(0xB8, alg_ref.wire(), key_ref),
            ),
            stage_done(r, final(self).log().last(), "MSE:Set CT"@),
    {
        let template = MseSetTemplate::DeciphermentRsa { alg_ref, key_ref };
        let apdu = MseSet { class: ApduClass::Plain, template }.into_apdu();
        assert(apdu@ =~= mse_pair_bytes(0xB8, alg_ref.wire(), key_ref));
        match stage(self, apdu.as_bytes(), "MSE:Set CT") {
            Ok(_) => Ok(()),
            Err(e) => Err(e),
        }
    }

    /// `MSE:Set AT`: pin the security environment for raw signing with the
    /// authentication key.
    fn mse_set_at(&mut self, alg_ref: SignatureAlgRef, key_ref: KeyRef) -> (r: Result<
        (),
        SignError<TransportDispatchError<Self::Error>>,
    >) where Self: Sized
        ensures
            sent(
                old(self).log(),
                final(self).log(),
                mse_pair_bytes(0xA4, alg_ref.wire(), key_ref),
            ),
            stage_done(r, final(self).log().last(), "MSE:Set AT"@),
    {
        let template = MseSetTemplate::Authentication { alg_ref, key_ref };
        let apdu = MseSet { class: ApduClass::Plain, template }.into_apdu();
        assert(apdu@ =~= mse_pair_bytes(0xA4, alg_ref.wire(), key_ref));
        match stage(self, apdu.as_bytes(), "MSE:Set AT") {
            Ok(_) => Ok(()),
            Err(e) => Err(e),
        }
    }

    /// `PSO:HASH` with a computed digest.
    fn pso_hash_external(&mut self, hash: ExternalHashValue) -> (r: Result<
        (),
        SignError<TransportDispatchError<Self::Error>>,
    >) where Self: Sized
        ensures
            sent(old(self).log(), final(self).log(), external_hash_bytes(hash@)),
            stage_done(r, final(self).log().last(), "PSO:HASH"@),
    {
        ship_hash(self, hash)
    }

    /// `PSO:CDS` over the stored hash with an explicit expected length. The
    /// length of the signature is not checked here.
    fn pso_cds_empty<Alg>(&mut self, le: u8) -> (r: Result<
        Signature<Alg>,
        SignError<TransportDispatchError<Self::Error>>,
    >) where Self: Sized
        ensures
            sent(old(self).log(), final(self).log(), pso_cds_bytes(ApduClass::Plain, le)),
            ({
                let x = final(self).log().last();
                if x.succeeded() {
                    r matches Ok(s) && s@ == body_of(x)
                } else {
                    fails_with(r, stage_failure(x, "PSO:CDS"@))
                }
            }),
    {
        compute_signature::<Self, Alg>(self, le)
    }

    /// `PSO:CDS` over a block that the host encoded. A block longer than a short command
    /// goes out in two chained halves, the last of which asks for the full signature.
    fn pso_cds_with_data<Alg>(&mut self, data: &[u8]) -> (r: Result<
        Signature<Alg>,
        SignError<TransportDispatchError<Self::Error>>,
    >) where Self: Sized
        ensures
            continues(old(self).log(), final(self).log()),
            cds_data_run(news(old(self).log(), final(self).log()), data@, r),
    {
        let ghost l0 = self.log();
        if data.len() <= SHORT_DATA_MAX {
            let mut apdu = vec![0x00, 0x2A, 0x9E, 0x9A, data.len() as u8];
            push_all(&mut apdu, data);
            apdu.push(0x00);
            assert(apdu@ =~= cds_short_bytes(data@));
            let result = stage(self, apdu.as_slice(), "PSO:CDS data");
            proof {
                lemma_sent(l0, self.log(), apdu@);
            }
            return match result {
                Ok(body) => Ok(Signature::new(body)),
                Err(e) => Err(e),
            };
        }
        let half: usize = data.len() / 2;
        if data.len() - half > SHORT_DATA_MAX {
            assert(self.log().take(l0.len() as int) =~= l0);
            return Err(SignError::InputTooLong(data.len()));
        }
        sign_halves::<Self, Alg>(self, data).0
    }

    /// `PSO:CDS` over a block that the host encoded, in one command: a block longer than a
    /// short command goes out in an extended-length command, for cards that take the whole
    /// block at once and refuse chained halves. Where the
    /// extended command does not succeed, be it that the reader cannot ship it, the block
    /// goes out in two chained halves. If the card refuses the first half too, the status of
    /// the extended command is reported.
    fn pso_cds_extended<Alg>(&mut self, data: &[u8]) -> (r: Result<
        Signature<Alg>,
        SignError<TransportDispatchError<Self::Error>>,
    >) where Self: Sized
        ensures
            continues(old(self).log(), final(self).log()),
            cds_extended_run(news(old(self).log(), final(self).log()), data@, r),
    {
        let ghost l0 = self.log();
        if data.len() <= SHORT_DATA_MAX {
            return self.pso_cds_with_data(data);
        }
        if data.len() > 0xFFFF {
            assert(self.log().take(l0.len() as int) =~= l0);
            return Err(SignError::InputTooLong(data.len()));
        }
        let mut ext = vec![0x00, 0x2A, 0x9E, 0x9A, 0x00];
        let length = u16_be(data.len() as u16);
        push_all(&mut ext, length.as_slice());
        push_all(&mut ext, data);
        ext.push(0x00);
        ext.push(0x00);
        assert(ext@ =~= cds_extended_bytes(data@));
        let ext_result = self.transmit(ext.as_slice());
        let ghost l1 = self.log();
        proof {
            lemma_sent(l0, l1, ext@);
        }
        let ext_sw: u16 = match ext_result {
            Ok(reply) => {
                if reply.is_ok() {
                    return Ok(Signature::new(reply.body));
                }
                reply.sw()
            },
            Err(_) => 0,
        };
        let half: usize = data.len() / 2;
        if data.len() - half > SHORT_DATA_MAX {
            return Err(SignError::InputTooLong(data.len()));
        }
        let (r, first_refused) = sign_halves::<Self, Alg>(self, data);
        proof {
            let l2 = self.log();
            lemma_continues(l0, l1, l2);
            assert(news(l0, l2).skip(1) =~= news(l1, l2));
            assert(news(l0, l2)[0] == l1.last());
            assert(news(l0, l2)[1] == news(l1, l2)[0]);
            assert(news(l0, l2).last() == news(l1, l2).last());
        }
        match r {
            Err(SignError::Sw(label, sw)) => if first_refused && ext_sw != 0 {
                Err(SignError::Sw("PSO:CDS extended", ext_sw))
            } else {
                Err(SignError::Sw(label, sw))
            },
            other => other,
        }
    }

    /// Raw RSA private-key operation over a block that the host encoded. The
    /// authentication key is selected through the authentication template, the
    /// qualified-signature key through the signature template.
    fn sign_rsa_raw(&mut self, key_ref: KeyRef, encoded: &[u8]) -> (r: Result<
        Signature<RsaPkcs1>,
        SignError<TransportDispatchError<Self::Error>>,
    >) where Self: Sized
        ensures
            continues(old(self).log(), final(self).log()),
            ({
                let new = news(old(self).log(), final(self).log());
                let p2 = if key_ref is Auth {
                    0xA4u8
                } else {
                    0xB6u8
                };
                let label = if key_ref is Auth {
                    "MSE:Set AT"@
                } else {
                    "MSE:Set DST"@
                };
                &&& new.len() > 0
                &&& new[0].command == mse_pair_bytes(p2, 0x40, key_ref) && !new[0].le_retry
                &&& if new[0].succeeded() {
                    cds_data_run(new.skip(1), encoded@, r)
                } else {
                    new.len() == 1 && fails_with(r, stage_failure(new[0], label))
                }
            }),
    {
        let ghost l0 = self.log();
        let selected = match key_ref {
            KeyRef::Auth => self.mse_set_at(SignatureAlgRef::rsa_pkcs1_raw(), key_ref),
            KeyRef::Sign => self.mse_set_dst(SignatureAlgRef::rsa_pkcs1_raw(), key_ref),
        };
        let ghost l1 = self.log();
        proof {
            lemma_sent(l0, l1, l1.last().command);
        }
        match selected {
            Err(e) => return Err(e),
            Ok(_) => {},
        }
        let r = self.pso_cds_with_data::<RsaPkcs1>(encoded);
        proof {
            let l2 = self.log();
            lemma_continues(l0, l1, l2);
            assert(news(l0, l2).skip(1) =~= news(l1, l2));
            assert(news(l0, l2)[0] == l1.last());
        }
        r
    }

    /// `PSO:DECIPHER`: ship the ciphertext in one command, or in two chained
    /// halves.
    fn pso_decipher(&mut self, ciphertext: Ciphertext<RsaPkcs1>) -> (r: Result<
        Plaintext<RsaPkcs1>,
        SignError<TransportDispatchError<Self::Error>>,
    >) where Self: Sized
        requires
            ciphertext@.len() < 2 * SHORT_DATA_MAX,
        ensures
            continues(old(self).log(), final(self).log()),
            plaintext_run(
                news(old(self).log(), final(self).log()),
                decipher_commands(ciphertext@),
                decipher_stages(ciphertext@),
                r,
            ),
    {
        let ghost l0 = self.log();
        let ghost commands = decipher_commands(ciphertext@);
        let mut body = vec![PADDING_INDICATOR];
        push_all(&mut body, ciphertext.as_bytes());
        assert(body@ =~= decipher_body(ciphertext@));
        if body.len() <= SHORT_DATA_MAX {
            let apdu = PsoDecipher { body, chain: false }.into_apdu();
            let result = stage(self, apdu.as_bytes(), "PSO:DECIPHER");
            proof {
                lemma_sent(l0, self.log(), commands[0]);
            }
            return match result {
                Ok(plain) => Ok(Plaintext::new(plain)),
                Err(e) => Err(e),
            };
        }
        let half: usize = body.len() / 2;
        let first = copy_range(body.as_slice(), 0, half);
        let second = copy_range(body.as_slice(), half, body.len());
        proof {
            assert(first@ =~= body@.take(half as int));
            assert(second@ =~= body@.skip(half as int));
            assert(commands =~= seq![commands[0]] + seq![commands[1]]);
        }
        let apdu1 = PsoDecipher { body: first, chain: true }.into_apdu();
        let r1 = stage(self, apdu1.as_bytes(), "PSO:DECIPHER chunk 1/2");
        let ghost l1 = self.log();
        proof {
            lemma_sent(l0, l1, commands[0]);
        }
        match r1 {
            Ok(_) => {},
            Err(e) => {
                proof {
                    lemma_run_stopped(news(l0, l1), seq![commands[0]], seq![commands[1]]);
                }
                return Err(e);
            },
        }
        let apdu2 = PsoDecipher { body: second, chain: false }.into_apdu();
        let r2 = stage(self, apdu2.as_bytes(), "PSO:DECIPHER chunk 2/2");
        proof {
            let l2 = self.log();
            lemma_sent(l1, l2, commands[1]);
            lemma_continues(l0, l1, l2);
            lemma_run_extends(news(l0, l1), seq![commands[0]], news(l1, l2), seq![commands[1]]);
        }
        match r2 {
            Ok(plain) => Ok(Plaintext::new(plain)),
            Err(e) => Err(e),
        }
    }

    /// `PSO:HASH` with a computed SHA-256 digest.
    fn pso_hash_external_sha256(&mut self, hash: Sha256) -> (r: Result<
        (),
        SignError<TransportDispatchError<Self::Error>>,
    >) where Self: Sized
        ensures
            sent(old(self).log(), final(self).log(), external_hash_bytes(hash.value()@)),
            stage_done(r, final(self).log().last(), "PSO:HASH"@),
    {
        self.pso_hash_external(ExternalHashValue::Sha256(*hash.as_bytes()))
    }

    /// `PSO:HASH` with a computed SHA-1 digest.
    fn pso_hash_external_sha1(&mut self, hash: Sha1) -> (r: Result<
        (),
        SignError<TransportDispatchError<Self::Error>>,
    >) where Self: Sized
        ensures
            sent(old(self).log(), final(self).log(), external_hash_bytes(hash.value()@)),
            stage_done(r, final(self).log().last(), "PSO:HASH"@),
    {
        self.pso_hash_external(ExternalHashValue::Sha1(*hash.as_bytes()))
    }

    /// `PSO:HASH` with a computed SHA-384 digest.
    fn pso_hash_external_sha384(&mut self, hash: Sha384) -> (r: Result<
        (),
        SignError<TransportDispatchError<Self::Error>>,
    >) where Self: Sized
        ensures
            sent(old(self).log(), final(self).log(), external_hash_bytes(hash.value()@)),
            stage_done(r, final(self).log().last(), "PSO:HASH"@),
    {
        self.pso_hash_external(ExternalHashValue::Sha384(*hash.as_bytes()))
    }

    /// `PSO:HASH` with a computed SHA-512 digest.
    fn pso_hash_external_sha512(&mut self, hash: Sha512) -> (r: Result<
        (),
        SignError<TransportDispatchError<Self::Error>>,
    >) where Self: Sized
        ensures
            sent(old(self).log(), final(self).log(), external_hash_bytes(hash.value()@)),
            stage_done(r, final(self).log().last(), "PSO:HASH"@),
    {
        self.pso_hash_external(ExternalHashValue::Sha512(*hash.as_bytes()))
    }

    /// `PSO:HASH` with a computed SHA-224 digest.
    fn pso_hash_external_sha224(&mut self, hash: Sha224) -> (r: Result<
        (),
        SignError<TransportDispatchError<Self::Error>>,
    >) where Self: Sized
        ensures
            sent(old(self).log(), final(self).log(), external_hash_bytes(hash.value()@)),
            stage_done(r, final(self).log().last(), "PSO:HASH"@),
    {
        self.pso_hash_external(ExternalHashValue::Sha224(*hash.as_bytes()))
    }

    /// SHA-256 with RSA PKCS#1 v1.5 against `key_ref`.
    fn sign_pre_hashed_sha256_rsa(&mut self, key_ref: KeyRef, hash: Sha256) -> (r: Result<
        Signature<RsaPkcs1Sha256>,
        SignError<TransportDispatchError<Self::Error>>,
    >) where Self: Sized
        ensures
            signature_run(
                old(self).log(),
                final(self).log(),
                0x42,
                key_ref,
                hash.value()@,
                PsoComputeDigitalSignature::LE_MAX_SHORT,
                Some(RSA_3072_SIG_BYTES as int),
                r,
            ),
    {
        sign_chain::<Self, RsaPkcs1Sha256>(
            self,
            SignatureAlgRef::sha256_rsa_pkcs1_v1_5(),
            key_ref,
            ExternalHashValue::Sha256(*hash.as_bytes()),
            PsoComputeDigitalSignature::LE_MAX_SHORT,
            Some(RSA_3072_SIG_BYTES),
        )
    }

    /// SHA-384 with ECDSA P-384 against `key_ref`.
    fn sign_pre_hashed_sha384_ecdsa_p384(&mut self, key_ref: KeyRef, hash: Sha384) -> (r: Result<
        Signature<EcdsaP384>,
        SignError<TransportDispatchError<Self::Error>>,
    >) where Self: Sized
        ensures
            signature_run(
                old(self).log(),
                final(self).log(),
                0x54,
                key_ref,
                hash.value()@,
                PsoComputeDigitalSignature::LE_ECDSA_P384,
                Some(ECDSA_P384_SIG_BYTES as int),
                r,
            ),
    {
        sign_chain::<Self, EcdsaP384>(
            self,
            SignatureAlgRef::sha384_ecdsa(),
            key_ref,
            ExternalHashValue::Sha384(*hash.as_bytes()),
            PsoComputeDigitalSignature::LE_ECDSA_P384,
            Some(ECDSA_P384_SIG_BYTES),
        )
    }

    /// SHA-1 with ECDSA P-384 against `key_ref`.
    fn sign_pre_hashed_sha1_ecdsa_p384(&mut self, key_ref: KeyRef, hash: Sha1) -> (r: Result<
        Signature<EcdsaP384>,
        SignError<TransportDispatchError<Self::Error>>,
    >) where Self: Sized
        ensures
            signature_run(
                old(self).log(),
                final(self).log(),
                0x14,
                key_ref,
                hash.value()@,
                PsoComputeDigitalSignature::LE_ECDSA_P384,
                Some(ECDSA_P384_SIG_BYTES as int),
                r,
            ),
    {
        sign_chain::<Self, EcdsaP384>(
            self,
            SignatureAlgRef::from_parts(HashAlgorithm::Sha1, SignatureAlgorithm::Ecdsa),
            key_ref,
            ExternalHashValue::Sha1(*hash.as_bytes()),
            PsoComputeDigitalSignature::LE_ECDSA_P384,
            Some(ECDSA_P384_SIG_BYTES),
        )
    }

    /// SHA-224 with ECDSA P-384 against `key_ref`.
    fn sign_pre_hashed_sha224_ecdsa_p384(&mut self, key_ref: KeyRef, hash: Sha224) -> (r: Result<
        Signature<EcdsaP384>,
        SignError<TransportDispatchError<Self::Error>>,
    >) where Self: Sized
        ensures
            signature_run(
                old(self).log(),
                final(self).log(),
                0x34,
                key_ref,
                hash.value()@,
                PsoComputeDigitalSignature::LE_ECDSA_P384,
                Some(ECDSA_P384_SIG_BYTES as int),
                r,
            ),
    {
        sign_chain::<Self, EcdsaP384>(
            self,
            SignatureAlgRef::sha224_ecdsa(),
            key_ref,
            ExternalHashValue::Sha224(*hash.as_bytes()),
            PsoComputeDigitalSignature::LE_ECDSA_P384,
            Some(ECDSA_P384_SIG_BYTES),
        )
    }

    /// SHA-512 with ECDSA P-384 against `key_ref`.
    fn sign_pre_hashed_sha512_ecdsa_p384(&mut self, key_ref: KeyRef, hash: Sha512) -> (r: Result<
        Signature<EcdsaP384>,
        SignError<TransportDispatchError<Self::Error>>,
    >) where Self: Sized
        ensures
            signature_run(
                old(self).log(),
                final(self).log(),
                0x64,
                key_ref,
                hash.value()@,
                PsoComputeDigitalSignature::LE_ECDSA_P384,
                Some(ECDSA_P384_SIG_BYTES as int),
                r,
            ),
    {
        sign_chain::<Self, EcdsaP384>(
            self,
            SignatureAlgRef::from_parts(HashAlgorithm::Sha512, SignatureAlgorithm::Ecdsa),
            key_ref,
            ExternalHashValue::Sha512(*hash.as_bytes()),
            PsoComputeDigitalSignature::LE_ECDSA_P384,
            Some(ECDSA_P384_SIG_BYTES),
        )
    }

    /// SHA-256 with ECDSA P-384 against `key_ref`.
    fn sign_pre_hashed_sha256_ecdsa_p384(&mut self, key_ref: KeyRef, hash: Sha256) -> (r: Result<
        Signature<EcdsaP384>,
        SignError<TransportDispatchError<Self::Error>>,
    >) where Self: Sized
        ensures
            signature_run(
                old(self).log(),
                final(self).log(),
                0x44,
                key_ref,
                hash.value()@,
                PsoComputeDigitalSignature::LE_ECDSA_P384,
                Some(ECDSA_P384_SIG_BYTES as int),
                r,
            ),
    {
        sign_chain::<Self, EcdsaP384>(
            self,
            SignatureAlgRef::sha256_ecdsa(),
            key_ref,
            ExternalHashValue::Sha256(*hash.as_bytes()),
            PsoComputeDigitalSignature::LE_ECDSA_P384,
            Some(ECDSA_P384_SIG_BYTES),
        )
    }

    /// SHA-256 with ECDSA P-256 against `key_ref`.
    fn sign_pre_hashed_sha256_ecdsa_p256(&mut self, key_ref: KeyRef, hash: Sha256) -> (r: Result<
        Signature<EcdsaP256>,
        SignError<TransportDispatchError<Self::Error>>,
    >) where Self: Sized
        ensures
            signature_run(
                old(self).log(),
                final(self).log(),
                0x44,
                key_ref,
                hash.value()@,
                PsoComputeDigitalSignature::LE_ECDSA_P256,
                Some(ECDSA_P256_SIG_BYTES as int),
                r,
            ),
    {
        sign_chain::<Self, EcdsaP256>(
            self,
            SignatureAlgRef::sha256_ecdsa(),
            key_ref,
            ExternalHashValue::Sha256(*hash.as_bytes()),
            PsoComputeDigitalSignature::LE_ECDSA_P256,
            Some(ECDSA_P256_SIG_BYTES),
        )
    }

    /// RSA PKCS#1 v1.5 over any digest against `key_ref`. The signature length is
    /// key-dependent and not checked here.
    fn sign_pre_hashed_rsa_pkcs1(&mut self, key_ref: KeyRef, hash: ExternalHashValue) -> (r: Result<
        Signature<RsaPkcs1>,
        SignError<TransportDispatchError<Self::Error>>,
    >) where Self: Sized
        ensures
            signature_run(
                old(self).log(),
                final(self).log(),
                (hash.algorithm().nibble() * 16 + 2) as u8,
                key_ref,
                hash@,
                PsoComputeDigitalSignature::LE_MAX_SHORT,
                None,
                r,
            ),
    {
        sign_chain::<Self, RsaPkcs1>(
            self,
            SignatureAlgRef::from_parts(hash.hash_algorithm(), SignatureAlgorithm::RsaPkcs1V1_5),
            key_ref,
            hash,
            PsoComputeDigitalSignature::LE_MAX_SHORT,
            None,
        )
    }

    /// RSA PSS over any digest against `key_ref`; the card pads.
    fn sign_pre_hashed_rsa_pss(&mut self, key_ref: KeyRef, hash: ExternalHashValue) -> (r: Result<
        Signature<RsaPkcs1>,
        SignError<TransportDispatchError<Self::Error>>,
    >) where Self: Sized
        ensures
            signature_run(
                old(self).log(),
                final(self).log(),
                (hash.algorithm().nibble() * 16 + 5) as u8,
                key_ref,
                hash@,
                PsoComputeDigitalSignature::LE_MAX_SHORT,
                Some(RSA_3072_SIG_BYTES as int),
                r,
            ),
    {
        sign_chain::<Self, RsaPkcs1>(
            self,
            SignatureAlgRef::from_parts(hash.hash_algorithm(), SignatureAlgorithm::RsaPss),
            key_ref,
            hash,
            PsoComputeDigitalSignature::LE_MAX_SHORT,
            Some(RSA_3072_SIG_BYTES),
        )
    }

    /// [`SignOps::sign_pre_hashed_sha256_rsa`] with the authentication key.
    fn sign_pre_hashed_sha256_rsa_auth(&mut self, hash: Sha256) -> (r: Result<
        Signature<RsaPkcs1Sha256>,
        SignError<TransportDispatchError<Self::Error>>,
    >) where Self: Sized
        ensures
            signature_run(
                old(self).log(),
                final(self).log(),
                0x42,
                KeyRef::Auth,
                hash.value()@,
                PsoComputeDigitalSignature::LE_MAX_SHORT,
                Some(RSA_3072_SIG_BYTES as int),
                r,
            ),
    {
        self.sign_pre_hashed_sha256_rsa(KeyRef::Auth, hash)
    }

    /// [`SignOps::sign_pre_hashed_sha256_rsa`] with the qualified-signature key.
    fn sign_pre_hashed_sha256_rsa_qualified(&mut self, hash: Sha256) -> (r: Result<
        Signature<RsaPkcs1Sha256>,
        SignError<TransportDispatchError<Self::Error>>,
    >) where Self: Sized
        ensures
            signature_run(
                old(self).log(),
                final(self).log(),
                0x42,
                KeyRef::Sign,
                hash.value()@,
                PsoComputeDigitalSignature::LE_MAX_SHORT,
                Some(RSA_3072_SIG_BYTES as int),
                r,
            ),
    {
        self.sign_pre_hashed_sha256_rsa(KeyRef::Sign, hash)
    }

    /// RSA PKCS#1 v1.5 decryption against `key_ref`. A ciphertext of another
    /// length than that of an RSA-3072 block is refused before anything is sent.
    fn decrypt_rsa_pkcs1(&mut self, key_ref: KeyRef, ciphertext: Ciphertext<RsaPkcs1>) -> (r: Result<
        Plaintext<RsaPkcs1>,
        SignError<TransportDispatchError<Self::Error>>,
    >) where Self: Sized
        ensures
            decrypt_run(old(self).log(), final(self).log(), key_ref, ciphertext@, r),
    {
        let ghost l0 = self.log();
        if ciphertext.len() != RSA_3072_SIG_BYTES {
            return Err(SignError::UnexpectedSignatureLength(ciphertext.len()));
        }
        let ghost text = ciphertext@;
        let ghost first = mse_pair_bytes(0xB8, 0x1A, key_ref);
        let ghost commands = decrypt_commands(key_ref, text);
        assert(commands =~= seq![first] + decipher_commands(text));
        if let Err(e) = self.mse_set_ct(DecipherAlgRef::RsassaPkcs1V1_5, key_ref) {
            proof {
                lemma_sent(l0, self.log(), first);
                lemma_run_stopped(news(l0, self.log()), seq![first], decipher_commands(text));
            }
            return Err(e);
        }
        let ghost l1 = self.log();
        let r = self.pso_decipher(ciphertext);
        proof {
            let l2 = self.log();
            lemma_sent(l0, l1, first);
            lemma_continues(l0, l1, l2);
            lemma_run_extends(news(l0, l1), seq![first], news(l1, l2), decipher_commands(text));
        }
        r
    }

    /// [`SignOps::decrypt_rsa_pkcs1`] with the authentication key.
    fn decrypt_rsa_pkcs1_auth(&mut self, ciphertext: Ciphertext<RsaPkcs1>) -> (r: Result<
        Plaintext<RsaPkcs1>,
        SignError<TransportDispatchError<Self::Error>>,
    >) where Self: Sized
        ensures
            decrypt_run(old(self).log(), final(self).log(), KeyRef::Auth, ciphertext@, r),
    {
        self.decrypt_rsa_pkcs1(KeyRef::Auth, ciphertext)
    }
}

impl<T: CardTransport> SignOps for T {

}

/// No signature without three successful commands: a result means that the template
/// was set, the digest was shipped and the signature was fetched, in this order and
/// nothing else, and that the result is what the card sent last.
pub proof fn law_signature_takes_three_successes<E, Alg>(
    before: Seq<Exchange<E>>,
    after: Seq<Exchange<E>>,
    alg: u8,
    key_ref: KeyRef,
    hash: Seq<u8>,
    le: u8,
    required: Option<int>,
    r: Result<Signature<Alg>, SignError<TransportDispatchError<E>>>,
)
    requires
        signature_run(before, after, alg, key_ref, hash, le, required, r),
        r is Ok,
    ensures
        ({
            let new = news(before, after);
            &&& new.len() == 3
            &&& new[0].command == mse_pair_bytes(0xB6, alg, key_ref) && new[0].succeeded()
            &&& new[1].command == external_hash_bytes(hash) && new[1].succeeded()
            &&& new[2].command == pso_cds_bytes(ApduClass::Plain, le) && new[2].succeeded()
            &&& r->Ok_0@ == body_of(new[2])
        }),
{
    let new = news(before, after);
    let commands = sign_commands(alg, key_ref, hash, le);
    assert(run_succeeded(new, commands));
    assert(new[0].command == commands[0]);
    assert(new[1].command == commands[1]);
    assert(new[2].command == commands[2]);
    assert(new[2] == new.last());
}

/// Splitting loses nothing: the halves of a block that goes out in two chained commands
/// make up the block, and each fits a short command.
pub proof fn law_chained_halves_make_up_the_block(data: Seq<u8>)
    requires
        SHORT_DATA_MAX < data.len(),
        data.len() - data.len() as int / 2 <= SHORT_DATA_MAX,
    ensures
        data.take(data.len() as int / 2) + data.skip(data.len() as int / 2) == data,
        data.take(data.len() as int / 2).len() <= SHORT_DATA_MAX,
        data.skip(data.len() as int / 2).len() <= SHORT_DATA_MAX,
        cds_chained_bytes(data.take(data.len() as int / 2)).skip(5) + cds_short_bytes(
            data.skip(data.len() as int / 2),
        ).drop_last().skip(5) == data,
{
    let half = data.len() as int / 2;
    let first = data.take(half);
    let second = data.skip(half);
    assert(first + second =~= data);
    assert(cds_chained_bytes(first).skip(5) =~= first);
    assert(cds_short_bytes(second).drop_last().skip(5) =~= second);
}

} // verus!
