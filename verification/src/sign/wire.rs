//! Signing and deciphering on the wire: the commands byte for byte, and what a run of them
//! comes to.

use crate::apdu::ApduClass;
use crate::sign::commands::{mse_set_bytes, packed, pso_cds_bytes, pso_decipher_bytes,
    pso_hash_bytes, DecipherAlgRef, HashAlgorithm, MseSetTemplate, PsoHashMode, SignatureAlgorithm};
use crate::sign::{cds_chained_bytes, cds_data_run, cds_extended_bytes, cds_extended_run,
    cds_halves, cds_short_bytes, decipher_commands, decrypt_commands, decrypt_run,
    external_hash_bytes, fails_with, mse_pair_bytes, sign_commands,
    signature_run, KeyRef, Plaintext, RsaPkcs1, SignError, SignErrorView, Signature};
use crate::transport::{news, Exchange, OutcomeView, ResponseView, TransportDispatchError};
use vstd::prelude::*;

verus! {

/// The number of a key on the card: 1 authenticates, 2 signs.
pub open spec fn key_number(key_ref: KeyRef) -> u8 {
    if key_ref == KeyRef::Auth {
        1
    } else {
        2
    }
}

/// The card answered `9000`, with `body` as data.
pub open spec fn confirms<E>(x: Exchange<E>, body: Seq<u8>) -> bool {
    x.reply == Ok::<OutcomeView, E>(
        OutcomeView::Response(ResponseView { body, sw1: 0x90, sw2: 0x00 }),
    )
}

/// The byte of a reference: sixteen times the number of the hash plus the number of the
/// scheme. Hashes count 0 (none), 1 (SHA-1), 3 to 6 (SHA-224 to SHA-512); schemes count
/// from 1, ECDSA being 4.
pub proof fn law_reference_bytes(hash: HashAlgorithm, signature: SignatureAlgorithm)
    ensures
        packed(hash, SignatureAlgorithm::Ecdsa) % 16 == 4,
        packed(hash, SignatureAlgorithm::RsaPkcs1V1_5) % 16 == 2,
        packed(hash, SignatureAlgorithm::RsaIso9796V2) % 16 == 1,
        packed(hash, SignatureAlgorithm::RsaRfc2409) % 16 == 3,
        packed(hash, SignatureAlgorithm::RsaPss) % 16 == 5,
        packed(HashAlgorithm::NoHash, signature) / 16 == 0,
        packed(HashAlgorithm::Sha1, signature) / 16 == 1,
        packed(HashAlgorithm::Sha224, signature) / 16 == 3,
        packed(HashAlgorithm::Sha256, signature) / 16 == 4,
        packed(HashAlgorithm::Sha384, signature) / 16 == 5,
        packed(HashAlgorithm::Sha512, signature) / 16 == 6,
{
}

/// The references of the confidentiality template: OAEP has `D` behind the number of its
/// hash, PKCS#1 v1.5 is `1A`.
pub proof fn law_decipher_reference_bytes()
    ensures
        DecipherAlgRef::RsassaPkcs1V1_5.wire() == 0x1A,
        DecipherAlgRef::RsaesOaepSha1.wire() == 0x1D,
        DecipherAlgRef::RsaesOaepSha224.wire() == 0x3D,
        DecipherAlgRef::RsaesOaepSha256.wire() == 0x4D,
        DecipherAlgRef::RsaesOaepSha384.wire() == 0x5D,
        DecipherAlgRef::RsaesOaepSha512.wire() == 0x6D,
{
}

/// The class byte in front of a command.
pub open spec fn class_byte(class: ApduClass) -> u8 {
    if class == ApduClass::Plain {
        0x00
    } else if class == ApduClass::SecureMessaging {
        0x0C
    } else {
        0x10
    }
}

/// MANAGE SECURITY ENVIRONMENT names the algorithm under `80`, the key under `84`, and the
/// template in its second parameter.
pub proof fn law_template_commands(class: ApduClass, template: MseSetTemplate)
    ensures
        template matches MseSetTemplate::Hashing { alg_ref } ==> mse_set_bytes(class, template)
            == seq![class_byte(class), 0x22, 0x41, 0xAA, 0x03, 0x80, 0x01, alg_ref.wire()],
        template matches MseSetTemplate::DigitalSignature { alg_ref, key_ref } ==> mse_set_bytes(
            class,
            template,
        ) == seq![
            class_byte(class), 0x22, 0x41, 0xB6, 0x06, 0x80, 0x01, alg_ref.wire(), 0x84, 0x01,
            key_number(key_ref),
        ],
        template matches MseSetTemplate::Authentication { alg_ref, key_ref } ==> mse_set_bytes(
            class,
            template,
        ) == seq![
            class_byte(class), 0x22, 0x41, 0xA4, 0x06, 0x80, 0x01, alg_ref.wire(), 0x84, 0x01,
            key_number(key_ref),
        ],
        template matches MseSetTemplate::DeciphermentRsa { alg_ref, key_ref } ==> mse_set_bytes(
            class,
            template,
        ) == seq![
            class_byte(class), 0x22, 0x41, 0xB8, 0x06, 0x80, 0x01, alg_ref.wire(), 0x84, 0x01,
            key_number(key_ref),
        ],
        template matches MseSetTemplate::DeciphermentElc { key_ref } ==> mse_set_bytes(
            class,
            template,
        ) == seq![
            class_byte(class), 0x22, 0x41, 0xB8, 0x03, 0x84, 0x01, key_number(key_ref),
        ],
{
    let bytes = mse_set_bytes(class, template);
    match template {
        MseSetTemplate::Hashing { alg_ref } => {
            assert(bytes =~= seq![
                class_byte(class), 0x22, 0x41, 0xAA, 0x03, 0x80, 0x01, alg_ref.wire(),
            ]);
        },
        MseSetTemplate::DigitalSignature { alg_ref, key_ref } => {
            assert(bytes =~= seq![
                class_byte(class), 0x22, 0x41, 0xB6, 0x06, 0x80, 0x01, alg_ref.wire(), 0x84, 0x01,
                key_number(key_ref),
            ]);
        },
        MseSetTemplate::Authentication { alg_ref, key_ref } => {
            assert(bytes =~= seq![
                class_byte(class), 0x22, 0x41, 0xA4, 0x06, 0x80, 0x01, alg_ref.wire(), 0x84, 0x01,
                key_number(key_ref),
            ]);
        },
        MseSetTemplate::DeciphermentRsa { alg_ref, key_ref } => {
            assert(bytes =~= seq![
                class_byte(class), 0x22, 0x41, 0xB8, 0x06, 0x80, 0x01, alg_ref.wire(), 0x84, 0x01,
                key_number(key_ref),
            ]);
        },
        MseSetTemplate::DeciphermentElc { key_ref } => {
            assert(bytes =~= seq![
                class_byte(class), 0x22, 0x41, 0xB8, 0x03, 0x84, 0x01, key_number(key_ref),
            ]);
        },
    }
}

/// HASH takes a block as it is, a last block under `80`, a state or a value under `90`.
pub proof fn law_hash_commands(class: ApduClass, mode: PsoHashMode)
    ensures
        mode matches PsoHashMode::EntirelyByCardBlock { block } ==> pso_hash_bytes(class, mode)
            == seq![class_byte(class), 0x2A, 0x90, 0x80, block@.len() as u8] + block@,
        mode matches PsoHashMode::EntirelyByCardFinal { final_block } ==> pso_hash_bytes(
            class,
            mode,
        ) == seq![
            class_byte(class), 0x2A, 0x90, 0xA0, (final_block@.len() + 2) as u8, 0x80,
            final_block@.len() as u8,
        ] + final_block@,
        mode matches PsoHashMode::PartiallyByCard { state, final_block } ==> pso_hash_bytes(
            class,
            mode,
        ) == seq![
            class_byte(class), 0x2A, 0x90, 0xA0, (state@.len() + final_block@.len() + 4) as u8,
            0x90, state@.len() as u8,
        ] + state@ + seq![0x80u8, final_block@.len() as u8] + final_block@,
        mode matches PsoHashMode::External { hash } ==> pso_hash_bytes(class, mode) == seq![
            class_byte(class), 0x2A, 0x90, 0xA0, (hash@.len() + 2) as u8, 0x90, hash@.len() as u8,
        ] + hash@,
{
    let bytes = pso_hash_bytes(class, mode);
    match mode {
        PsoHashMode::EntirelyByCardBlock { block } => {},
        PsoHashMode::EntirelyByCardFinal { final_block } => {
            assert(bytes =~= seq![
                class_byte(class), 0x2A, 0x90, 0xA0, (final_block@.len() + 2) as u8, 0x80,
                final_block@.len() as u8,
            ] + final_block@);
        },
        PsoHashMode::PartiallyByCard { state, final_block } => {
            assert(bytes =~= seq![
                class_byte(class), 0x2A, 0x90, 0xA0, (state@.len() + final_block@.len() + 4) as u8,
                0x90, state@.len() as u8,
            ] + state@ + seq![0x80u8, final_block@.len() as u8] + final_block@);
        },
        PsoHashMode::External { hash } => {
            assert(bytes =~= seq![
                class_byte(class), 0x2A, 0x90, 0xA0, (hash@.len() + 2) as u8, 0x90,
                hash@.len() as u8,
            ] + hash@);
        },
    }
}

/// A signature over a digest takes three commands: the algorithm and the key are set, the
/// digest is shipped, the signature is fetched.
pub proof fn law_signature_commands(alg: u8, key_ref: KeyRef, hash: Seq<u8>, le: u8)
    requires
        hash.len() <= 253,
    ensures
        sign_commands(alg, key_ref, hash, le) == seq![
            seq![
                0x00u8, 0x22, 0x41, 0xB6, 0x06, 0x80, 0x01, alg, 0x84, 0x01, key_number(key_ref),
            ],
            seq![
                0x00u8, 0x2A, 0x90, 0xA0, (hash.len() + 2) as u8, 0x90, hash.len() as u8,
            ] + hash,
            seq![0x00u8, 0x2A, 0x9E, 0x9A, le],
        ],
{
    assert(mse_pair_bytes(0xB6, alg, key_ref) =~= seq![
        0x00u8, 0x22, 0x41, 0xB6, 0x06, 0x80, 0x01, alg, 0x84, 0x01, key_number(key_ref),
    ]);
    assert(external_hash_bytes(hash) =~= seq![
        0x00u8, 0x2A, 0x90, 0xA0, (hash.len() + 2) as u8, 0x90, hash.len() as u8,
    ] + hash);
    assert(pso_cds_bytes(ApduClass::Plain, le) =~= seq![0x00u8, 0x2A, 0x9E, 0x9A, le]);
}

/// Three confirmed commands give the data of the third reply as the signature, whatever
/// its length where none is required; a reply of another length than the required one is
/// refused.
pub proof fn law_confirmed_signature<E, Alg>(
    before: Seq<Exchange<E>>,
    after: Seq<Exchange<E>>,
    alg: u8,
    key_ref: KeyRef,
    hash: Seq<u8>,
    le: u8,
    required: Option<int>,
    r: Result<Signature<Alg>, SignError<TransportDispatchError<E>>>,
    bodies: (Seq<u8>, Seq<u8>, Seq<u8>),
)
    requires
        signature_run(before, after, alg, key_ref, hash, le, required, r),
        news(before, after).len() >= 1 ==> confirms(news(before, after)[0], bodies.0),
        news(before, after).len() >= 2 ==> confirms(news(before, after)[1], bodies.1),
        news(before, after).len() >= 3 ==> confirms(news(before, after)[2], bodies.2),
    ensures
        news(before, after).len() == 3,
        required is None || required == Some(bodies.2.len() as int) ==> (r matches Ok(s) && s@
            == bodies.2),
        required is Some && required != Some(bodies.2.len() as int) ==> fails_with(
            r,
            SignErrorView::UnexpectedSignatureLength(bodies.2.len() as int),
        ),
{
    let new = news(before, after);
    assert(new[new.len() - 1].succeeded());
}

/// A command that is not confirmed is the last one, and there is no signature.
pub proof fn law_refused_signature<E, Alg>(
    before: Seq<Exchange<E>>,
    after: Seq<Exchange<E>>,
    alg: u8,
    key_ref: KeyRef,
    hash: Seq<u8>,
    le: u8,
    required: Option<int>,
    r: Result<Signature<Alg>, SignError<TransportDispatchError<E>>>,
    at: int,
    refusal: ResponseView,
)
    requires
        signature_run(before, after, alg, key_ref, hash, le, required, r),
        0 <= at < news(before, after).len(),
        news(before, after)[at].reply == Ok::<OutcomeView, E>(OutcomeView::Response(refusal)),
        256 * refusal.sw1 + refusal.sw2 != 0x9000,
    ensures
        news(before, after).len() == at + 1,
        fails_with(
            r,
            SignErrorView::Sw(
                if at == 0 {
                    "MSE:Set DST"@
                } else if at == 1 {
                    "PSO:HASH"@
                } else {
                    "PSO:CDS"@
                },
                256 * refusal.sw1 + refusal.sw2,
            ),
        ),
{
    let new = news(before, after);
    assert(!new[at].succeeded());
    assert(at == new.len() - 1);
}

/// The commands that sign a block directly: a short one, an extended one, and a pair of
/// which the first is chained and carries the first half.
pub proof fn law_direct_commands(data: Seq<u8>)
    requires
        data.len() <= 0xFFFF,
    ensures
        data.len() <= 255 ==> cds_short_bytes(data) == seq![
            0x00u8, 0x2A, 0x9E, 0x9A, data.len() as u8,
        ] + data + seq![0x00u8],
        cds_extended_bytes(data) == seq![
            0x00u8, 0x2A, 0x9E, 0x9A, 0x00, (data.len() as int / 256) as u8,
            (data.len() as int % 256) as u8,
        ] + data + seq![0x00u8, 0x00],
        data.len() <= 510 ==> cds_halves(data) == seq![
            seq![0x10u8, 0x2A, 0x9E, 0x9A, (data.len() as int / 2) as u8] + data.subrange(
                0,
                data.len() as int / 2,
            ),
            seq![0x00u8, 0x2A, 0x9E, 0x9A, ((data.len() + 1) as int / 2) as u8] + data.subrange(
                data.len() as int / 2,
                data.len() as int,
            ) + seq![0x00u8],
        ],
{
    assert(cds_short_bytes(data) =~= seq![0x00u8, 0x2A, 0x9E, 0x9A, data.len() as u8] + data
        + seq![0x00u8]);
    assert(cds_extended_bytes(data) =~= seq![
        0x00u8, 0x2A, 0x9E, 0x9A, 0x00, (data.len() as int / 256) as u8,
        (data.len() as int % 256) as u8,
    ] + data + seq![0x00u8, 0x00]);
    let half = data.len() as int / 2;
    let first = data.take(half);
    let second = data.skip(half);
    assert(first =~= data.subrange(0, half));
    assert(second =~= data.subrange(half, data.len() as int));
    assert(cds_chained_bytes(first) =~= seq![0x10u8, 0x2A, 0x9E, 0x9A, half as u8]
        + data.subrange(0, half));
    assert(cds_short_bytes(second) =~= seq![
        0x00u8, 0x2A, 0x9E, 0x9A, ((data.len() + 1) as int / 2) as u8,
    ] + data.subrange(half, data.len() as int) + seq![0x00u8]);
}

/// A block of up to 255 bytes is signed with one command, one of up to 510 bytes with two,
/// and a longer one not at all.
pub proof fn law_direct_signature<E, Alg>(
    new: Seq<Exchange<E>>,
    data: Seq<u8>,
    r: Result<Signature<Alg>, SignError<TransportDispatchError<E>>>,
    first: Seq<u8>,
    second: Seq<u8>,
)
    requires
        cds_data_run(new, data, r),
        new.len() >= 1 ==> confirms(new[0], first),
        new.len() >= 2 ==> confirms(new[1], second),
    ensures
        data.len() <= 255 ==> new.len() == 1 && new[0].command == cds_short_bytes(data) && (
        r matches Ok(s) && s@ == first),
        255 < data.len() <= 510 ==> new.len() == 2 && new[0].command == cds_halves(data)[0]
            && new[1].command == cds_halves(data)[1] && (r matches Ok(s) && s@ == second),
        data.len() > 510 ==> new.len() == 0 && fails_with(
            r,
            SignErrorView::InputTooLong(data.len() as int),
        ),
{
    if data.len() <= 255 {
        assert(new[0].succeeded());
    } else if data.len() <= 510 {
        assert(new[new.len() - 1].succeeded());
    }
}

/// A block that takes an extended command is signed with it where the card confirms it; a
/// card that does not is sent the two halves.
pub proof fn law_extended_signature<E, Alg>(
    new: Seq<Exchange<E>>,
    data: Seq<u8>,
    r: Result<Signature<Alg>, SignError<TransportDispatchError<E>>>,
    body: Seq<u8>,
)
    requires
        cds_extended_run(new, data, r),
        255 < data.len() <= 510,
    ensures
        new.len() >= 1 && new[0].command == cds_extended_bytes(data),
        confirms(new[0], body) ==> new.len() == 1 && (r matches Ok(s) && s@ == body),
        !new[0].succeeded() ==> new.len() >= 2 && new[1].command == cds_halves(data)[0],
        !new[0].succeeded() && new.len() == 3 && confirms(new[2], body) ==> new[2].command
            == cds_halves(data)[1] && (r matches Ok(s) && s@ == body),
        r is Ok ==> new.last().succeeded(),
{
    if !new[0].succeeded() {
        let rest = new.skip(1);
        assert(rest[0] == new[1]);
        if rest.len() == 2 {
            assert(rest[1] == new[2]);
            assert(rest[0].succeeded());
            assert(new.last() == new[2]);
        }
    }
}

/// A ciphertext of 384 bytes goes out behind the padding indicator `81` in two commands, of
/// 192 and 193 bytes, after the key and the algorithm are set.
pub proof fn law_decrypt_commands(key_ref: KeyRef, ciphertext: Seq<u8>)
    requires
        ciphertext.len() == 384,
    ensures
        decrypt_commands(key_ref, ciphertext) == seq![
            seq![
                0x00u8, 0x22, 0x41, 0xB8, 0x06, 0x80, 0x01, 0x1A, 0x84, 0x01, key_number(key_ref),
            ],
            seq![0x10u8, 0x2A, 0x80, 0x86, 0xC0, 0x81] + ciphertext.subrange(0, 191),
            seq![0x00u8, 0x2A, 0x80, 0x86, 0xC1] + ciphertext.subrange(191, 384) + seq![0x00u8],
        ],
{
    assert(mse_pair_bytes(0xB8, 0x1A, key_ref) =~= seq![
        0x00u8, 0x22, 0x41, 0xB8, 0x06, 0x80, 0x01, 0x1A, 0x84, 0x01, key_number(key_ref),
    ]);
    let body = seq![0x81u8] + ciphertext;
    assert(body.len() == 385);
    assert(pso_decipher_bytes(body.take(192), true) =~= seq![
        0x10u8, 0x2A, 0x80, 0x86, 0xC0, 0x81,
    ] + ciphertext.subrange(0, 191));
    assert(pso_decipher_bytes(body.skip(192), false) =~= seq![0x00u8, 0x2A, 0x80, 0x86, 0xC1]
        + ciphertext.subrange(191, 384) + seq![0x00u8]);
    assert(decrypt_commands(key_ref, ciphertext) =~= seq![
        seq![
            0x00u8, 0x22, 0x41, 0xB8, 0x06, 0x80, 0x01, 0x1A, 0x84, 0x01, key_number(key_ref),
        ],
        seq![0x10u8, 0x2A, 0x80, 0x86, 0xC0, 0x81] + ciphertext.subrange(0, 191),
        seq![0x00u8, 0x2A, 0x80, 0x86, 0xC1] + ciphertext.subrange(191, 384) + seq![0x00u8],
    ]);
}

/// A ciphertext whose indicator and bytes fit a short command goes out in one.
pub proof fn law_short_decipher_command(ciphertext: Seq<u8>)
    requires
        ciphertext.len() <= 254,
    ensures
        decipher_commands(ciphertext) == seq![
            seq![0x00u8, 0x2A, 0x80, 0x86, (ciphertext.len() + 1) as u8, 0x81] + ciphertext + seq![
                0x00u8,
            ],
        ],
{
    assert(pso_decipher_bytes(seq![0x81u8] + ciphertext, false) =~= seq![
        0x00u8, 0x2A, 0x80, 0x86, (ciphertext.len() + 1) as u8, 0x81,
    ] + ciphertext + seq![0x00u8]);
}

/// A decryption that the card confirms yields the data of the third reply. A ciphertext of
/// another length is refused, and nothing is sent.
pub proof fn law_confirmed_decryption<E>(
    before: Seq<Exchange<E>>,
    after: Seq<Exchange<E>>,
    key_ref: KeyRef,
    ciphertext: Seq<u8>,
    r: Result<Plaintext<RsaPkcs1>, SignError<TransportDispatchError<E>>>,
    bodies: (Seq<u8>, Seq<u8>, Seq<u8>),
)
    requires
        decrypt_run(before, after, key_ref, ciphertext, r),
        news(before, after).len() >= 1 ==> confirms(news(before, after)[0], bodies.0),
        news(before, after).len() >= 2 ==> confirms(news(before, after)[1], bodies.1),
        news(before, after).len() >= 3 ==> confirms(news(before, after)[2], bodies.2),
    ensures
        ciphertext.len() == 384 ==> news(before, after).len() == 3 && (r matches Ok(p) && p@
            == bodies.2),
        ciphertext.len() != 384 ==> after == before && r is Err,
{
    if ciphertext.len() == 384 {
        let new = news(before, after);
        law_decrypt_commands(key_ref, ciphertext);
        assert(new[new.len() - 1].succeeded());
    }
}

/// A command of a decryption that is refused is the last one, and there is no plaintext.
pub proof fn law_refused_decryption<E>(
    before: Seq<Exchange<E>>,
    after: Seq<Exchange<E>>,
    key_ref: KeyRef,
    ciphertext: Seq<u8>,
    r: Result<Plaintext<RsaPkcs1>, SignError<TransportDispatchError<E>>>,
    at: int,
    refusal: ResponseView,
)
    requires
        decrypt_run(before, after, key_ref, ciphertext, r),
        ciphertext.len() == 384,
        0 <= at < news(before, after).len(),
        news(before, after)[at].reply == Ok::<OutcomeView, E>(OutcomeView::Response(refusal)),
        256 * refusal.sw1 + refusal.sw2 != 0x9000,
    ensures
        news(before, after).len() == at + 1,
        fails_with(
            r,
            SignErrorView::Sw(
                if at == 0 {
                    "MSE:Set CT"@
                } else if at == 1 {
                    "PSO:DECIPHER chunk 1/2"@
                } else {
                    "PSO:DECIPHER chunk 2/2"@
                },
                256 * refusal.sw1 + refusal.sw2,
            ),
        ),
{
    let new = news(before, after);
    law_decrypt_commands(key_ref, ciphertext);
    assert(!new[at].succeeded());
    assert(at == new.len() - 1);
}

} // verus!
