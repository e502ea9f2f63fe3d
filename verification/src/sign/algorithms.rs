//! What the signing operations send for each algorithm, and what they hand back.

use crate::apdu::ApduClass;
use crate::crypto::container::{EcdsaP256, EcdsaP384, RsaPkcs1, RsaPkcs1Sha256, Signature};
use crate::crypto::digest::{Sha1, Sha224, Sha256, Sha384, Sha512};
use crate::sign::commands::ExternalHashValue;
use crate::sign::wire::{confirms, key_number, law_direct_commands, law_signature_commands};
use crate::sign::{law_signature_takes_three_successes, mse_pair_bytes, signature_run, KeyRef,
    SignError, SignOps};
use crate::transport::{body_of, news, Exchange, TransportDispatchError};
use vstd::prelude::*;

verus! {

/// `new` are the three exchanges of a signature: the algorithm `alg` and the key are set,
/// the digest is shipped, and the card answers the request for `le` bytes with the
/// signature.
pub open spec fn signed_with<E>(
    new: Seq<Exchange<E>>,
    alg: u8,
    key_ref: KeyRef,
    hash: Seq<u8>,
    le: u8,
    signature: Seq<u8>,
) -> bool {
    &&& new.len() == 3
    &&& new[0].command == seq![
        0x00u8, 0x22, 0x41, 0xB6, 0x06, 0x80, 0x01, alg, 0x84, 0x01, key_number(key_ref),
    ]
    &&& new[1].command == seq![
        0x00u8, 0x2A, 0x90, 0xA0, (hash.len() + 2) as u8, 0x90, hash.len() as u8,
    ] + hash
    &&& new[2].command == seq![0x00u8, 0x2A, 0x9E, 0x9A, le]
    &&& new[0].succeeded() && new[1].succeeded()
    &&& confirms(new[2], signature)
}

proof fn lemma_signed<E, Alg>(
    before: Seq<Exchange<E>>,
    after: Seq<Exchange<E>>,
    alg: u8,
    key_ref: KeyRef,
    hash: Seq<u8>,
    le: u8,
    required: Option<int>,
    r: Result<Signature<Alg>, SignError<TransportDispatchError<E>>>,
)
    requires
        signature_run(before, after, alg, key_ref, hash, le, required, r),
        hash.len() <= 253,
        r is Ok,
    ensures
        signed_with(news(before, after), alg, key_ref, hash, le, r->Ok_0@),
        required matches Some(n) ==> r->Ok_0@.len() == n,
{
    law_signature_takes_three_successes(before, after, alg, key_ref, hash, le, required, r);
    law_signature_commands(alg, key_ref, hash, le);
    let commands = crate::sign::sign_commands(alg, key_ref, hash, le);
    assert(commands[0] == mse_pair_bytes(0xB6, alg, key_ref));
    assert(commands[1] == crate::sign::external_hash_bytes(hash));
    assert(commands[2] == crate::sign::commands::pso_cds_bytes(ApduClass::Plain, le));
    let last = news(before, after)[2];
    assert(last.succeeded());
    assert(confirms(last, body_of(last)));
}

/// A signature with SHA-256 and RSA: algorithm `42`, 384 bytes.
pub proof fn law_sha256_rsa_signature<T: SignOps>(
    card: &mut T,
    key_ref: KeyRef,
    hash: Sha256,
    r: Result<Signature<RsaPkcs1Sha256>, SignError<TransportDispatchError<T::Error>>>,
)
    requires
        call_ensures(T::sign_pre_hashed_sha256_rsa, (card, key_ref, hash), r),
        r is Ok,
    ensures
        hash.value()@.len() == 32,
        r->Ok_0@.len() == 384,
        signed_with(
            news(old(card).log(), final(card).log()),
            0x42,
            key_ref,
            hash.value()@,
            0,
            r->Ok_0@,
        ),
{
    lemma_signed(
        old(card).log(),
        final(card).log(),
        0x42,
        key_ref,
        hash.value()@,
        0,
        Some(384),
        r,
    );
}

/// A signature with SHA-384 and ECDSA over P-384: algorithm `54`, 96 bytes.
pub proof fn law_sha384_ecdsa_p384_signature<T: SignOps>(
    card: &mut T,
    key_ref: KeyRef,
    hash: Sha384,
    r: Result<Signature<EcdsaP384>, SignError<TransportDispatchError<T::Error>>>,
)
    requires
        call_ensures(T::sign_pre_hashed_sha384_ecdsa_p384, (card, key_ref, hash), r),
        r is Ok,
    ensures
        hash.value()@.len() == 48,
        r->Ok_0@.len() == 96,
        signed_with(
            news(old(card).log(), final(card).log()),
            0x54,
            key_ref,
            hash.value()@,
            96,
            r->Ok_0@,
        ),
{
    lemma_signed(
        old(card).log(),
        final(card).log(),
        0x54,
        key_ref,
        hash.value()@,
        96,
        Some(96),
        r,
    );
}

/// A signature with SHA-1 and ECDSA over P-384: algorithm `14`, 96 bytes.
pub proof fn law_sha1_ecdsa_p384_signature<T: SignOps>(
    card: &mut T,
    key_ref: KeyRef,
    hash: Sha1,
    r: Result<Signature<EcdsaP384>, SignError<TransportDispatchError<T::Error>>>,
)
    requires
        call_ensures(T::sign_pre_hashed_sha1_ecdsa_p384, (card, key_ref, hash), r),
        r is Ok,
    ensures
        hash.value()@.len() == 20,
        r->Ok_0@.len() == 96,
        signed_with(
            news(old(card).log(), final(card).log()),
            0x14,
            key_ref,
            hash.value()@,
            96,
            r->Ok_0@,
        ),
{
    lemma_signed(
        old(card).log(),
        final(card).log(),
        0x14,
        key_ref,
        hash.value()@,
        96,
        Some(96),
        r,
    );
}

/// A signature with SHA-224 and ECDSA over P-384: algorithm `34`, 96 bytes.
pub proof fn law_sha224_ecdsa_p384_signature<T: SignOps>(
    card: &mut T,
    key_ref: KeyRef,
    hash: Sha224,
    r: Result<Signature<EcdsaP384>, SignError<TransportDispatchError<T::Error>>>,
)
    requires
        call_ensures(T::sign_pre_hashed_sha224_ecdsa_p384, (card, key_ref, hash), r),
        r is Ok,
    ensures
        hash.value()@.len() == 28,
        r->Ok_0@.len() == 96,
        signed_with(
            news(old(card).log(), final(card).log()),
            0x34,
            key_ref,
            hash.value()@,
            96,
            r->Ok_0@,
        ),
{
    lemma_signed(
        old(card).log(),
        final(card).log(),
        0x34,
        key_ref,
        hash.value()@,
        96,
        Some(96),
        r,
    );
}

/// A signature with SHA-512 and ECDSA over P-384: algorithm `64`, 96 bytes.
pub proof fn law_sha512_ecdsa_p384_signature<T: SignOps>(
    card: &mut T,
    key_ref: KeyRef,
    hash: Sha512,
    r: Result<Signature<EcdsaP384>, SignError<TransportDispatchError<T::Error>>>,
)
    requires
        call_ensures(T::sign_pre_hashed_sha512_ecdsa_p384, (card, key_ref, hash), r),
        r is Ok,
    ensures
        hash.value()@.len() == 64,
        r->Ok_0@.len() == 96,
        signed_with(
            news(old(card).log(), final(card).log()),
            0x64,
            key_ref,
            hash.value()@,
            96,
            r->Ok_0@,
        ),
{
    lemma_signed(
        old(card).log(),
        final(card).log(),
        0x64,
        key_ref,
        hash.value()@,
        96,
        Some(96),
        r,
    );
}

/// A signature with SHA-256 and ECDSA over P-384: algorithm `44`, 96 bytes.
pub proof fn law_sha256_ecdsa_p384_signature<T: SignOps>(
    card: &mut T,
    key_ref: KeyRef,
    hash: Sha256,
    r: Result<Signature<EcdsaP384>, SignError<TransportDispatchError<T::Error>>>,
)
    requires
        call_ensures(T::sign_pre_hashed_sha256_ecdsa_p384, (card, key_ref, hash), r),
        r is Ok,
    ensures
        hash.value()@.len() == 32,
        r->Ok_0@.len() == 96,
        signed_with(
            news(old(card).log(), final(card).log()),
            0x44,
            key_ref,
            hash.value()@,
            96,
            r->Ok_0@,
        ),
{
    lemma_signed(
        old(card).log(),
        final(card).log(),
        0x44,
        key_ref,
        hash.value()@,
        96,
        Some(96),
        r,
    );
}

/// A signature with SHA-256 and ECDSA over P-256: algorithm `44`, 64 bytes.
pub proof fn law_sha256_ecdsa_p256_signature<T: SignOps>(
    card: &mut T,
    key_ref: KeyRef,
    hash: Sha256,
    r: Result<Signature<EcdsaP256>, SignError<TransportDispatchError<T::Error>>>,
)
    requires
        call_ensures(T::sign_pre_hashed_sha256_ecdsa_p256, (card, key_ref, hash), r),
        r is Ok,
    ensures
        hash.value()@.len() == 32,
        r->Ok_0@.len() == 64,
        signed_with(
            news(old(card).log(), final(card).log()),
            0x44,
            key_ref,
            hash.value()@,
            64,
            r->Ok_0@,
        ),
{
    lemma_signed(
        old(card).log(),
        final(card).log(),
        0x44,
        key_ref,
        hash.value()@,
        64,
        Some(64),
        r,
    );
}

/// The first digit of the reference that stands for the hash of a digest.
pub open spec fn hash_digit(hash: ExternalHashValue) -> u8 {
    match hash {
        ExternalHashValue::Sha1(_) => 1,
        ExternalHashValue::Sha224(_) => 3,
        ExternalHashValue::Sha256(_) => 4,
        ExternalHashValue::Sha384(_) => 5,
        ExternalHashValue::Sha512(_) => 6,
    }
}

/// RSA signatures over any digest: the reference ends in 2 for PKCS#1 v1.5 and in 5 for PSS,
/// which has 384 bytes.
pub proof fn law_rsa_signatures<T: SignOps>(
    card: &mut T,
    other: &mut T,
    key_ref: KeyRef,
    hash: ExternalHashValue,
    pkcs1: Result<Signature<RsaPkcs1>, SignError<TransportDispatchError<T::Error>>>,
    pss: Result<Signature<RsaPkcs1>, SignError<TransportDispatchError<T::Error>>>,
)
    requires
        call_ensures(T::sign_pre_hashed_rsa_pkcs1, (card, key_ref, hash), pkcs1),
        call_ensures(T::sign_pre_hashed_rsa_pss, (other, key_ref, hash), pss),
        pkcs1 is Ok && pss is Ok,
    ensures
        signed_with(
            news(old(card).log(), final(card).log()),
            (16 * hash_digit(hash) + 2) as u8,
            key_ref,
            hash@,
            0,
            pkcs1->Ok_0@,
        ),
        signed_with(
            news(old(other).log(), final(other).log()),
            (16 * hash_digit(hash) + 5) as u8,
            key_ref,
            hash@,
            0,
            pss->Ok_0@,
        ),
        pss->Ok_0@.len() == 384,
{
    assert(hash@.len() <= 64);
    lemma_signed(
        old(card).log(),
        final(card).log(),
        (16 * hash_digit(hash) + 2) as u8,
        key_ref,
        hash@,
        0,
        None,
        pkcs1,
    );
    lemma_signed(
        old(other).log(),
        final(other).log(),
        (16 * hash_digit(hash) + 5) as u8,
        key_ref,
        hash@,
        0,
        Some(384),
        pss,
    );
}

/// Signing a block that the host encoded sets algorithm `40` with the template of the key,
/// `A4` for authentication and `B6` for signatures, and then sends the block: in one command
/// up to 255 bytes, in two up to 510.
pub proof fn law_raw_signature<T: SignOps>(
    card: &mut T,
    key_ref: KeyRef,
    encoded: &[u8],
    r: Result<Signature<RsaPkcs1>, SignError<TransportDispatchError<T::Error>>>,
    first: Seq<u8>,
    second: Seq<u8>,
)
    requires
        call_ensures(T::sign_rsa_raw, (card, key_ref, encoded), r),
    ensures
        ({
            let new = news(old(card).log(), final(card).log());
            let block = encoded@;
            let n = block.len() as int;
            &&& new.len() > 0
            &&& key_ref is Auth ==> new[0].command == seq![
                0x00u8, 0x22, 0x41, 0xA4, 0x06, 0x80, 0x01, 0x40, 0x84, 0x01, 0x01,
            ]
            &&& key_ref is Sign ==> new[0].command == seq![
                0x00u8, 0x22, 0x41, 0xB6, 0x06, 0x80, 0x01, 0x40, 0x84, 0x01, 0x02,
            ]
            &&& !new[0].succeeded() ==> new.len() == 1 && r is Err
            &&& new[0].succeeded() && n <= 255 ==> new.len() == 2 && new[1].command == seq![
                0x00u8, 0x2A, 0x9E, 0x9A, n as u8,
            ] + block + seq![0x00u8]
            &&& new[0].succeeded() && n <= 255 && confirms(new[1], first) ==> (r matches Ok(s)
                && s@ == first)
            &&& new[0].succeeded() && 255 < n <= 510 ==> new.len() >= 2 && new[1].command == seq![
                0x10u8, 0x2A, 0x9E, 0x9A, (n / 2) as u8,
            ] + block.subrange(0, n / 2)
            &&& new[0].succeeded() && 255 < n <= 510 && confirms(new[1], first) ==> new.len() == 3
                && new[2].command == seq![0x00u8, 0x2A, 0x9E, 0x9A, ((n + 1) / 2) as u8]
                + block.subrange(n / 2, n) + seq![0x00u8] && (confirms(new[2], second) ==> (
            r matches Ok(s) && s@ == second))
            &&& new[0].succeeded() && n > 510 ==> new.len() == 1 && r is Err
        }),
{
    let new = news(old(card).log(), final(card).log());
    let block = encoded@;
    assert(mse_pair_bytes(0xA4, 0x40, KeyRef::Auth) =~= seq![
        0x00u8, 0x22, 0x41, 0xA4, 0x06, 0x80, 0x01, 0x40, 0x84, 0x01, 0x01,
    ]);
    assert(mse_pair_bytes(0xB6, 0x40, KeyRef::Sign) =~= seq![
        0x00u8, 0x22, 0x41, 0xB6, 0x06, 0x80, 0x01, 0x40, 0x84, 0x01, 0x02,
    ]);
    if new[0].succeeded() {
        let rest = new.skip(1);
        if block.len() <= 255 {
            law_direct_commands(block);
            assert(rest[0] == new[1]);
        } else if block.len() <= 510 {
            law_direct_commands(block);
            assert(rest[0] == new[1]);
            if confirms(new[1], first) {
                assert(rest[0].succeeded());
                assert(rest[1] == new[2]);
            }
        }
    }
}

} // verus!
