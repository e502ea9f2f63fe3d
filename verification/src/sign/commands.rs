//! Typed commands for signing and decryption.
//!
//! - `MSE: SET` picks the security-environment template and the algorithm and
//!   key references.
//! - `PSO: HASH` ships a digest, or data to be digested, to the card.
//! - `PSO: CDS` returns the signature over the stored hash.
//! - `PSO: DECIPHER` sends ciphertext and receives plaintext.

use crate::apdu::ApduClass;
use crate::bytes::push_all;
use crate::sign::KeyRef;
use crate::transport::CommandApdu;
use vstd::prelude::*;

verus! {

/// Tag of the algorithm reference inside the `MSE: SET` data field.
pub const CRDO_TAG_ALG_REF: u8 = 0x80;

/// Tag of the key reference inside the `MSE: SET` data field.
pub const CRDO_TAG_KEY_REF: u8 = 0x84;

/// Length byte of both references.
pub const CRDO_VALUE_LEN_BYTE: u8 = 0x01;

/// Hash component of an algorithm reference: the high nibble.
#[derive(Debug, Clone, Copy, PartialEq, Eq, Hash, Structural)]
pub enum HashAlgorithm {
    /// No hash indicated.
    NoHash,
    /// SHA-1.
    Sha1,
    /// SHA-224.
    Sha224,
    /// SHA-256.
    Sha256,
    /// SHA-384.
    Sha384,
    /// SHA-512.
    Sha512,
}

impl HashAlgorithm {
    /// High nibble of the algorithm-reference byte.
    pub open spec fn nibble(self) -> u8 {
        match self {
            HashAlgorithm::NoHash => 0x0,
            HashAlgorithm::Sha1 => 0x1,
            HashAlgorithm::Sha224 => 0x3,
            HashAlgorithm::Sha256 => 0x4,
            HashAlgorithm::Sha384 => 0x5,
            HashAlgorithm::Sha512 => 0x6,
        }
    }

    /// High nibble of the algorithm-reference byte.
    pub fn high_nibble(self) -> (r: u8)
        ensures
            r == self.nibble(),
    {
        match self {
            HashAlgorithm::NoHash => 0x0,
            HashAlgorithm::Sha1 => 0x1,
            HashAlgorithm::Sha224 => 0x3,
            HashAlgorithm::Sha256 => 0x4,
            HashAlgorithm::Sha384 => 0x5,
            HashAlgorithm::Sha512 => 0x6,
        }
    }
}

/// Signature-scheme component of an algorithm reference: the low nibble.
#[derive(Debug, Clone, Copy, PartialEq, Eq, Hash, Structural)]
pub enum SignatureAlgorithm {
    /// RSA with padding per ISO 9796-2.
    RsaIso9796V2,
    /// RSASSA-PKCS1-v1_5.
    RsaPkcs1V1_5,
    /// RSA with padding per RFC 2409.
    RsaRfc2409,
    /// ECDSA.
    Ecdsa,
    /// RSA PSS.
    RsaPss,
}

impl SignatureAlgorithm {
    /// Low nibble of the algorithm-reference byte.
    pub open spec fn nibble(self) -> u8 {
        match self {
            SignatureAlgorithm::RsaIso9796V2 => 0x1,
            SignatureAlgorithm::RsaPkcs1V1_5 => 0x2,
            SignatureAlgorithm::RsaRfc2409 => 0x3,
            SignatureAlgorithm::Ecdsa => 0x4,
            SignatureAlgorithm::RsaPss => 0x5,
        }
    }

    /// Low nibble of the algorithm-reference byte.
    pub fn low_nibble(self) -> (r: u8)
        ensures
            r == self.nibble(),
    {
        match self {
            SignatureAlgorithm::RsaIso9796V2 => 0x1,
            SignatureAlgorithm::RsaPkcs1V1_5 => 0x2,
            SignatureAlgorithm::RsaRfc2409 => 0x3,
            SignatureAlgorithm::Ecdsa => 0x4,
            SignatureAlgorithm::RsaPss => 0x5,
        }
    }
}

/// Algorithm-reference byte of the signature templates: hash in the high
/// nibble, signature scheme in the low one.
#[derive(Debug, Clone, Copy, PartialEq, Eq, Hash, Structural)]
pub struct SignatureAlgRef {
    byte: u8,
}

/// The byte that packs a hash and a signature scheme.
pub open spec fn packed(hash: HashAlgorithm, signature: SignatureAlgorithm) -> u8 {
    (hash.nibble() * 16 + signature.nibble()) as u8
}

impl SignatureAlgRef {
    /// The wire byte.
    pub closed spec fn wire(self) -> u8 {
        self.byte
    }

    /// Compose a hash and a signature scheme.
    pub fn from_parts(hash: HashAlgorithm, signature: SignatureAlgorithm) -> (r: Self)
        ensures
            r.wire() == packed(hash, signature),
    {
        SignatureAlgRef { byte: hash.high_nibble() * 16 + signature.low_nibble() }
    }

    /// SHA-256 and RSASSA-PKCS1-v1_5: `42h`.
    pub fn sha256_rsa_pkcs1_v1_5() -> (r: Self)
        ensures
            r.wire() == 0x42,
    {
        SignatureAlgRef { byte: 0x42 }
    }

    /// SHA-384 and ECDSA: `54h`.
    pub fn sha384_ecdsa() -> (r: Self)
        ensures
            r.wire() == 0x54,
    {
        SignatureAlgRef { byte: 0x54 }
    }

    /// SHA-224 and ECDSA: `34h`.
    pub fn sha224_ecdsa() -> (r: Self)
        ensures
            r.wire() == 0x34,
    {
        SignatureAlgRef { byte: 0x34 }
    }

    /// SHA-256 and ECDSA: `44h`.
    pub fn sha256_ecdsa() -> (r: Self)
        ensures
            r.wire() == 0x44,
    {
        SignatureAlgRef { byte: 0x44 }
    }

    /// RSA over a block that the host has padded: `40h`.
    pub fn rsa_pkcs1_raw() -> (r: Self)
        ensures
            r.wire() == 0x40,
    {
        SignatureAlgRef { byte: 0x40 }
    }

    /// Wire byte.
    pub fn as_byte(self) -> (r: u8)
        ensures
            r == self.wire(),
    {
        self.byte
    }
}

/// A reference is its byte: two of them are equal exactly if their bytes are.
pub proof fn law_reference_is_its_byte(a: SignatureAlgRef, b: SignatureAlgRef)
    ensures
        a == b <==> a.wire() == b.wire(),
{
}

/// A reference packs its two parts without loss: the high nibble is that of the hash, the
/// low nibble that of the scheme, and references of different parts are different.
pub proof fn law_reference_keeps_its_parts(
    a: SignatureAlgRef,
    hash_a: HashAlgorithm,
    signature_a: SignatureAlgorithm,
    b: SignatureAlgRef,
    hash_b: HashAlgorithm,
    signature_b: SignatureAlgorithm,
)
    requires
        a.wire() == packed(hash_a, signature_a),
        b.wire() == packed(hash_b, signature_b),
    ensures
        a.wire() >> 4 == hash_a.nibble(),
        a.wire() & 0x0F == signature_a.nibble(),
        a == b <==> hash_a == hash_b && signature_a == signature_b,
{
    let byte = a.wire();
    let high = hash_a.nibble();
    let low = signature_a.nibble();
    assert(byte >> 4 == high && byte & 0x0F == low) by (bit_vector)
        requires
            high < 16u8,
            low < 16u8,
            byte == high * 16u8 + low,
    ;
}

/// Algorithm reference of the confidentiality template.
#[derive(Debug, Clone, Copy, PartialEq, Eq, Hash, Structural)]
pub enum DecipherAlgRef {
    /// RSA PKCS#1 v1.5.
    RsassaPkcs1V1_5,
    /// RSAES-OAEP with SHA-1.
    RsaesOaepSha1,
    /// RSAES-OAEP with SHA-224.
    RsaesOaepSha224,
    /// RSAES-OAEP with SHA-256.
    RsaesOaepSha256,
    /// RSAES-OAEP with SHA-384.
    RsaesOaepSha384,
    /// RSAES-OAEP with SHA-512.
    RsaesOaepSha512,
}

impl DecipherAlgRef {
    /// The wire byte.
    pub open spec fn wire(self) -> u8 {
        match self {
            DecipherAlgRef::RsassaPkcs1V1_5 => 0x1A,
            DecipherAlgRef::RsaesOaepSha1 => 0x1D,
            DecipherAlgRef::RsaesOaepSha224 => 0x3D,
            DecipherAlgRef::RsaesOaepSha256 => 0x4D,
            DecipherAlgRef::RsaesOaepSha384 => 0x5D,
            DecipherAlgRef::RsaesOaepSha512 => 0x6D,
        }
    }

    /// Wire byte.
    pub fn as_byte(self) -> (r: u8)
        ensures
            r == self.wire(),
    {
        match self {
            DecipherAlgRef::RsassaPkcs1V1_5 => 0x1A,
            DecipherAlgRef::RsaesOaepSha1 => 0x1D,
            DecipherAlgRef::RsaesOaepSha224 => 0x3D,
            DecipherAlgRef::RsaesOaepSha256 => 0x4D,
            DecipherAlgRef::RsaesOaepSha384 => 0x5D,
            DecipherAlgRef::RsaesOaepSha512 => 0x6D,
        }
    }
}

/// Which security-environment template `MSE: SET` targets. The variant picks
/// both the second parameter and the body shape.
#[allow(inconsistent_fields)]
#[derive(Debug, Clone, Copy, PartialEq, Eq, Hash, Structural)]
pub enum MseSetTemplate {
    /// Hashing template.
    Hashing {
        /// Hash algorithm reference.
        alg_ref: SignatureAlgRef,
    },
    /// Digital signature template.
    DigitalSignature {
        /// Signing algorithm reference.
        alg_ref: SignatureAlgRef,
        /// Private-key reference.
        key_ref: KeyRef,
    },
    /// Authentication template.
    Authentication {
        /// Signing algorithm reference.
        alg_ref: SignatureAlgRef,
        /// Private-key reference.
        key_ref: KeyRef,
    },
    /// Confidentiality template for RSA decipherment.
    DeciphermentRsa {
        /// Decipher algorithm reference.
        alg_ref: DecipherAlgRef,
        /// Private-key reference.
        key_ref: KeyRef,
    },
    /// Confidentiality template for elliptic-curve decipherment, which carries
    /// no algorithm reference.
    DeciphermentElc {
        /// Private-key reference.
        key_ref: KeyRef,
    },
}

impl MseSetTemplate {
    /// Second parameter of the command.
    pub open spec fn p2_spec(self) -> u8 {
        match self {
            MseSetTemplate::Hashing { .. } => 0xAA,
            MseSetTemplate::DigitalSignature { .. } => 0xB6,
            MseSetTemplate::Authentication { .. } => 0xA4,
            MseSetTemplate::DeciphermentRsa { .. } => 0xB8,
            MseSetTemplate::DeciphermentElc { .. } => 0xB8,
        }
    }

    /// Data field of the command: the references the template carries.
    pub open spec fn data(self) -> Seq<u8> {
        match self {
            MseSetTemplate::Hashing { alg_ref } => alg_crdo(alg_ref.wire()),
            MseSetTemplate::DigitalSignature { alg_ref, key_ref } => alg_crdo(alg_ref.wire())
                + key_crdo(key_ref),
            MseSetTemplate::Authentication { alg_ref, key_ref } => alg_crdo(alg_ref.wire())
                + key_crdo(key_ref),
            MseSetTemplate::DeciphermentRsa { alg_ref, key_ref } => alg_crdo(alg_ref.wire())
                + key_crdo(key_ref),
            MseSetTemplate::DeciphermentElc { key_ref } => key_crdo(key_ref),
        }
    }

    /// Second parameter of the command.
    pub fn p2(self) -> (r: u8)
        ensures
            r == self.p2_spec(),
    {
        match self {
            MseSetTemplate::Hashing { .. } => 0xAA,
            MseSetTemplate::DigitalSignature { .. } => 0xB6,
            MseSetTemplate::Authentication { .. } => 0xA4,
            MseSetTemplate::DeciphermentRsa { .. } | MseSetTemplate::DeciphermentElc { .. } => 0xB8,
        }
    }
}

/// `80 01 <alg>`.
pub open spec fn alg_crdo(alg: u8) -> Seq<u8> {
    seq![CRDO_TAG_ALG_REF, CRDO_VALUE_LEN_BYTE, alg]
}

/// `84 01 <key>`.
pub open spec fn key_crdo(key_ref: KeyRef) -> Seq<u8> {
    seq![CRDO_TAG_KEY_REF, CRDO_VALUE_LEN_BYTE, key_ref.wire()]
}

/// `CLA 22 41 <P2> Lc <references>`.
pub open spec fn mse_set_bytes(class: ApduClass, template: MseSetTemplate) -> Seq<u8> {
    seq![
        class.byte(),
        MseSet::INS,
        MseSet::P1_SET,
        template.p2_spec(),
        template.data().len() as u8,
    ] + template.data()
}

/// MANAGE SECURITY ENVIRONMENT: SET.
#[derive(Debug, Clone, Copy)]
pub struct MseSet {
    /// Class byte.
    pub class: ApduClass,
    /// Template selector.
    pub template: MseSetTemplate,
}

impl MseSet {
    /// Instruction byte.
    pub const INS: u8 = 0x22;

    /// First parameter: SET for computation and deciphering.
    pub const P1_SET: u8 = 0x41;

    /// Serialise into the wire APDU: five header bytes and the references.
    pub fn into_apdu(self) -> (r: CommandApdu)
        ensures
            r@ == mse_set_bytes(self.class, self.template),
            !r.permits_le_retry(),
    {
        let (lc, body): (u8, Vec<u8>) = match self.template {
            MseSetTemplate::Hashing { alg_ref } => (
                3,
                vec![CRDO_TAG_ALG_REF, CRDO_VALUE_LEN_BYTE, alg_ref.as_byte()],
            ),
            MseSetTemplate::DigitalSignature { alg_ref, key_ref }
            | MseSetTemplate::Authentication { alg_ref, key_ref } => (
                6,
                vec![
                    CRDO_TAG_ALG_REF,
                    CRDO_VALUE_LEN_BYTE,
                    alg_ref.as_byte(),
                    CRDO_TAG_KEY_REF,
                    CRDO_VALUE_LEN_BYTE,
                    key_ref.as_u8(),
                ],
            ),
            MseSetTemplate::DeciphermentRsa { alg_ref, key_ref } => (
                6,
                vec![
                    CRDO_TAG_ALG_REF,
                    CRDO_VALUE_LEN_BYTE,
                    alg_ref.as_byte(),
                    CRDO_TAG_KEY_REF,
                    CRDO_VALUE_LEN_BYTE,
                    key_ref.as_u8(),
                ],
            ),
            MseSetTemplate::DeciphermentElc { key_ref } => (
                3,
                vec![CRDO_TAG_KEY_REF, CRDO_VALUE_LEN_BYTE, key_ref.as_u8()],
            ),
        };
        assert(body@ =~= self.template.data());
        let mut out = vec![
            self.class.as_byte(),
            MseSet::INS,
            MseSet::P1_SET,
            self.template.p2(),
            lc,
        ];
        push_all(&mut out, body.as_slice());
        assert(out@ =~= mse_set_bytes(self.class, self.template));
        CommandApdu::new(out)
    }
}

/// Tag of a hash value: the intermediate hash with its counter, or the final
/// hash.
pub const PSO_HASH_TAG_HASH_VALUE: u8 = 0x90;

/// Tag of the final or only data block.
pub const PSO_HASH_TAG_FINAL_BLOCK: u8 = 0x80;

/// Hash value that the host computed. Each variant pins its length.
#[derive(Debug, Clone, Copy, PartialEq, Eq, Hash)]
pub enum ExternalHashValue {
    /// SHA-1 hash.
    Sha1([u8; 20]),
    /// SHA-224 hash.
    Sha224([u8; 28]),
    /// SHA-256 hash.
    Sha256([u8; 32]),
    /// SHA-384 hash.
    Sha384([u8; 48]),
    /// SHA-512 hash.
    Sha512([u8; 64]),
}

impl View for ExternalHashValue {
    type V = Seq<u8>;

    open spec fn view(&self) -> Seq<u8> {
        match self {
            ExternalHashValue::Sha1(b) => b@,
            ExternalHashValue::Sha224(b) => b@,
            ExternalHashValue::Sha256(b) => b@,
            ExternalHashValue::Sha384(b) => b@,
            ExternalHashValue::Sha512(b) => b@,
        }
    }
}

impl ExternalHashValue {
    /// The hash function of the digest.
    pub open spec fn algorithm(self) -> HashAlgorithm {
        match self {
            ExternalHashValue::Sha1(_) => HashAlgorithm::Sha1,
            ExternalHashValue::Sha224(_) => HashAlgorithm::Sha224,
            ExternalHashValue::Sha256(_) => HashAlgorithm::Sha256,
            ExternalHashValue::Sha384(_) => HashAlgorithm::Sha384,
            ExternalHashValue::Sha512(_) => HashAlgorithm::Sha512,
        }
    }

    /// Raw hash bytes.
    pub fn as_bytes(&self) -> (r: &[u8])
        ensures
            r@ == self@,
    {
        match self {
            ExternalHashValue::Sha1(b) => b.as_slice(),
            ExternalHashValue::Sha224(b) => b.as_slice(),
            ExternalHashValue::Sha256(b) => b.as_slice(),
            ExternalHashValue::Sha384(b) => b.as_slice(),
            ExternalHashValue::Sha512(b) => b.as_slice(),
        }
    }

    /// Length byte of the hash value.
    pub fn len_byte(&self) -> (r: u8)
        ensures
            r == self@.len(),
            r == match self.algorithm() {
                HashAlgorithm::Sha1 => 20u8,
                HashAlgorithm::Sha224 => 28u8,
                HashAlgorithm::Sha256 => 32u8,
                HashAlgorithm::Sha384 => 48u8,
                _ => 64u8,
            },
    {
        match self {
            ExternalHashValue::Sha1(_) => 20,
            ExternalHashValue::Sha224(_) => 28,
            ExternalHashValue::Sha256(_) => 32,
            ExternalHashValue::Sha384(_) => 48,
            ExternalHashValue::Sha512(_) => 64,
        }
    }

    /// The hash function of this digest.
    pub fn hash_algorithm(&self) -> (r: HashAlgorithm)
        ensures
            r == self.algorithm(),
    {
        match self {
            ExternalHashValue::Sha1(_) => HashAlgorithm::Sha1,
            ExternalHashValue::Sha224(_) => HashAlgorithm::Sha224,
            ExternalHashValue::Sha256(_) => HashAlgorithm::Sha256,
            ExternalHashValue::Sha384(_) => HashAlgorithm::Sha384,
            ExternalHashValue::Sha512(_) => HashAlgorithm::Sha512,
        }
    }
}

/// Intermediate hash and count of bits already hashed, for a hash that the card
/// finishes.
#[allow(inconsistent_fields)]
#[derive(Debug, Clone, Copy, PartialEq, Eq, Hash)]
pub enum IntermediateHashState {
    /// SHA-1.
    Sha1 {
        /// Intermediate hash.
        intermediate: [u8; 20],
        /// Big-endian bit count.
        counter: [u8; 8],
    },
    /// SHA-224.
    Sha224 {
        /// Intermediate hash.
        intermediate: [u8; 32],
        /// Big-endian bit count.
        counter: [u8; 8],
    },
    /// SHA-256.
    Sha256 {
        /// Intermediate hash.
        intermediate: [u8; 32],
        /// Big-endian bit count.
        counter: [u8; 8],
    },
    /// SHA-384 with an eight-byte counter.
    Sha384Counter8 {
        /// Intermediate hash.
        intermediate: [u8; 64],
        /// Big-endian bit count.
        counter: [u8; 8],
    },
    /// SHA-384 with a sixteen-byte counter.
    Sha384Counter16 {
        /// Intermediate hash.
        intermediate: [u8; 64],
        /// Big-endian bit count.
        counter: [u8; 16],
    },
    /// SHA-512 with an eight-byte counter.
    Sha512Counter8 {
        /// Intermediate hash.
        intermediate: [u8; 64],
        /// Big-endian bit count.
        counter: [u8; 8],
    },
    /// SHA-512 with a sixteen-byte counter.
    Sha512Counter16 {
        /// Intermediate hash.
        intermediate: [u8; 64],
        /// Big-endian bit count.
        counter: [u8; 16],
    },
}

impl View for IntermediateHashState {
    type V = Seq<u8>;

    /// The intermediate hash followed by the counter.
    open spec fn view(&self) -> Seq<u8> {
        match *self {
            IntermediateHashState::Sha1 { intermediate, counter } => intermediate@ + counter@,
            IntermediateHashState::Sha224 { intermediate, counter } => intermediate@ + counter@,
            IntermediateHashState::Sha256 { intermediate, counter } => intermediate@ + counter@,
            IntermediateHashState::Sha384Counter8 { intermediate, counter } => intermediate@
                + counter@,
            IntermediateHashState::Sha384Counter16 { intermediate, counter } => intermediate@
                + counter@,
            IntermediateHashState::Sha512Counter8 { intermediate, counter } => intermediate@
                + counter@,
            IntermediateHashState::Sha512Counter16 { intermediate, counter } => intermediate@
                + counter@,
        }
    }
}

impl IntermediateHashState {
    /// Length byte of the state.
    pub fn xx_byte(&self) -> (r: u8)
        ensures
            r == self@.len(),
    {
        match self {
            IntermediateHashState::Sha1 { .. } => 0x1C,
            IntermediateHashState::Sha224 { .. } | IntermediateHashState::Sha256 { .. } => 0x28,
            IntermediateHashState::Sha384Counter8 { .. }
            | IntermediateHashState::Sha512Counter8 { .. } => 0x48,
            IntermediateHashState::Sha384Counter16 { .. }
            | IntermediateHashState::Sha512Counter16 { .. } => 0x50,
        }
    }

    /// Append the intermediate hash and then the counter.
    pub fn extend_into(&self, out: &mut Vec<u8>)
        ensures
            final(out)@ == old(out)@ + self@,
    {
        let ghost start = out@;
        match self {
            IntermediateHashState::Sha1 { intermediate, counter } => {
                push_all(out, intermediate.as_slice());
                push_all(out, counter.as_slice());
            },
            IntermediateHashState::Sha224 { intermediate, counter }
            | IntermediateHashState::Sha256 { intermediate, counter } => {
                push_all(out, intermediate.as_slice());
                push_all(out, counter.as_slice());
            },
            IntermediateHashState::Sha384Counter8 { intermediate, counter }
            | IntermediateHashState::Sha512Counter8 { intermediate, counter } => {
                push_all(out, intermediate.as_slice());
                push_all(out, counter.as_slice());
            },
            IntermediateHashState::Sha384Counter16 { intermediate, counter }
            | IntermediateHashState::Sha512Counter16 { intermediate, counter } => {
                push_all(out, intermediate.as_slice());
                push_all(out, counter.as_slice());
            },
        }
        assert(out@ =~= start + self@);
    }
}

/// Longest block of any supported hash function.
pub const HASH_BLOCK_MAX_LEN: usize = 128;

/// Why a block was refused.
#[derive(Debug, Clone, Copy, PartialEq, Eq, Structural)]
pub enum HashBlockError {
    /// The block exceeded [`HASH_BLOCK_MAX_LEN`].
    Overlength {
        /// Length of the rejected block.
        got: usize,
    },
}

/// Raw block for the card to hash.
#[derive(Debug, PartialEq, Eq, Hash)]
pub struct HashBlock {
    bytes: Vec<u8>,
}

impl View for HashBlock {
    type V = Seq<u8>;

    closed spec fn view(&self) -> Seq<u8> {
        self.bytes@
    }
}

impl HashBlock {
    /// The block is no longer than the longest hash block.
    #[verifier::type_invariant]
    closed spec fn bounded(&self) -> bool {
        self.bytes@.len() <= HASH_BLOCK_MAX_LEN
    }

    /// Wrap a block after a length check.
    pub fn new(bytes: Vec<u8>) -> (r: Result<Self, HashBlockError>)
        ensures
            r is Ok <==> bytes@.len() <= HASH_BLOCK_MAX_LEN,
            r matches Ok(b) ==> b@ == bytes@,
            r matches Err(e) ==> e == (HashBlockError::Overlength { got: bytes@.len() as usize }),
    {
        if bytes.len() > HASH_BLOCK_MAX_LEN {
            return Err(HashBlockError::Overlength { got: bytes.len() });
        }
        Ok(HashBlock { bytes })
    }

    /// Borrow the block bytes.
    pub fn as_bytes(&self) -> (r: &[u8])
        ensures
            r@ == self@,
            r@.len() <= HASH_BLOCK_MAX_LEN,
    {
        proof {
            use_type_invariant(self);
        }
        self.bytes.as_slice()
    }

    /// Block length.
    pub fn len_byte(&self) -> (r: u8)
        ensures
            r == self@.len(),
    {
        proof {
            use_type_invariant(self);
        }
        self.bytes.len() as u8
    }
}

impl Clone for HashBlock {
    fn clone(&self) -> (r: Self)
        ensures
            r@ == self@,
    {
        proof {
            use_type_invariant(self);
        }
        HashBlock { bytes: vstd::slice::slice_to_vec(self.bytes.as_slice()) }
    }
}

/// How the hash reaches the card; selects the second parameter and the body.
#[derive(Debug, Clone)]
pub enum PsoHashMode {
    /// The card hashes everything; this block is not the last.
    EntirelyByCardBlock {
        /// Block to hash.
        block: HashBlock,
    },
    /// The card hashes everything; this block is the last or only one.
    EntirelyByCardFinal {
        /// Final block.
        final_block: HashBlock,
    },
    /// The card hashes only the final block.
    PartiallyByCard {
        /// The host's intermediate state.
        state: IntermediateHashState,
        /// Final block.
        final_block: HashBlock,
    },
    /// The host supplies the hash value.
    External {
        /// The hash value.
        hash: ExternalHashValue,
    },
}

/// `80 L <block>`.
pub open spec fn final_block_tlv(block: Seq<u8>) -> Seq<u8> {
    seq![PSO_HASH_TAG_FINAL_BLOCK, block.len() as u8] + block
}

/// `90 L <value>`.
pub open spec fn hash_value_tlv(value: Seq<u8>) -> Seq<u8> {
    seq![PSO_HASH_TAG_HASH_VALUE, value.len() as u8] + value
}

impl PsoHashMode {
    /// Second parameter of the command.
    pub open spec fn p2_spec(self) -> u8 {
        if self is EntirelyByCardBlock {
            0x80
        } else {
            0xA0
        }
    }

    /// Data field of the command.
    pub open spec fn data(self) -> Seq<u8> {
        match self {
            PsoHashMode::EntirelyByCardBlock { block } => block@,
            PsoHashMode::EntirelyByCardFinal { final_block } => final_block_tlv(final_block@),
            PsoHashMode::PartiallyByCard { state, final_block } => hash_value_tlv(state@)
                + final_block_tlv(final_block@),
            PsoHashMode::External { hash } => hash_value_tlv(hash@),
        }
    }

    /// Second parameter of the command.
    pub fn p2(&self) -> (r: u8)
        ensures
            r == self.p2_spec(),
    {
        match self {
            PsoHashMode::EntirelyByCardBlock { .. } => 0x80,
            PsoHashMode::EntirelyByCardFinal { .. }
            | PsoHashMode::PartiallyByCard { .. }
            | PsoHashMode::External { .. } => 0xA0,
        }
    }
}

/// `CLA 2A 90 <P2> Lc <data>`.
pub open spec fn pso_hash_bytes(class: ApduClass, mode: PsoHashMode) -> Seq<u8> {
    seq![class.byte(), PsoHash::INS, PsoHash::P1, mode.p2_spec(), mode.data().len() as u8]
        + mode.data()
}

/// PERFORM SECURITY OPERATION: HASH.
#[derive(Debug, Clone)]
pub struct PsoHash {
    /// Class byte.
    pub class: ApduClass,
    /// Mode selector.
    pub mode: PsoHashMode,
}

impl PsoHash {
    /// Instruction byte.
    pub const INS: u8 = 0x2A;

    /// First parameter: HASH.
    pub const P1: u8 = 0x90;

    /// Serialise into the wire APDU. The longest body is an intermediate state
    /// with a full final block, so every body fits a short command.
    pub fn into_apdu(self) -> (r: CommandApdu)
        ensures
            r@ == pso_hash_bytes(self.class, self.mode),
            self.mode.data().len() <= 255,
            !r.permits_le_retry(),
    {
        let p2: u8 = self.mode.p2();
        let mut body: Vec<u8> = Vec::new();
        match &self.mode {
            PsoHashMode::EntirelyByCardBlock { block } => {
                push_all(&mut body, block.as_bytes());
                assert(block@.len() <= HASH_BLOCK_MAX_LEN);
            },
            PsoHashMode::EntirelyByCardFinal { final_block } => {
                body.push(PSO_HASH_TAG_FINAL_BLOCK);
                body.push(final_block.len_byte());
                push_all(&mut body, final_block.as_bytes());
                assert(final_block@.len() <= HASH_BLOCK_MAX_LEN);
            },
            PsoHashMode::PartiallyByCard { state, final_block } => {
                body.push(PSO_HASH_TAG_HASH_VALUE);
                body.push(state.xx_byte());
                state.extend_into(&mut body);
                body.push(PSO_HASH_TAG_FINAL_BLOCK);
                body.push(final_block.len_byte());
                push_all(&mut body, final_block.as_bytes());
                assert(final_block@.len() <= HASH_BLOCK_MAX_LEN);
                assert(state@.len() <= 0x50);
            },
            PsoHashMode::External { hash } => {
                body.push(PSO_HASH_TAG_HASH_VALUE);
                body.push(hash.len_byte());
                push_all(&mut body, hash.as_bytes());
            },
        }
        assert(body@ =~= self.mode.data());
        let lc: u8 = body.len() as u8;
        let mut out = vec![self.class.as_byte(), PsoHash::INS, PsoHash::P1, p2, lc];
        push_all(&mut out, body.as_slice());
        assert(out@ =~= pso_hash_bytes(self.class, self.mode));
        CommandApdu::new(out)
    }
}

/// `10 2A 80 86 Lc <body>` inside a chain, `00 2A 80 86 Lc <body> 00` at its
/// end.
pub open spec fn pso_decipher_bytes(body: Seq<u8>, chain: bool) -> Seq<u8> {
    let start = seq![
        if chain {
            0x10u8
        } else {
            0x00u8
        },
        PsoDecipher::INS,
        PsoDecipher::P1,
        PsoDecipher::P2,
        body.len() as u8,
    ] + body;
    if chain {
        start
    } else {
        start.push(0x00)
    }
}

/// PERFORM SECURITY OPERATION: DECIPHER.
#[derive(Debug, Clone)]
pub struct PsoDecipher {
    /// One part, or the whole, of the padding indicator and ciphertext.
    pub body: Vec<u8>,
    /// More parts follow.
    pub chain: bool,
}

impl PsoDecipher {
    /// Instruction byte.
    pub const INS: u8 = 0x2A;

    /// First parameter: DECIPHER.
    pub const P1: u8 = 0x80;

    /// Second parameter: padding-content indicator.
    pub const P2: u8 = 0x86;

    /// Serialise into the wire APDU.
    pub fn into_apdu(self) -> (r: CommandApdu)
        requires
            self.body@.len() <= 255,
        ensures
            r@ == pso_decipher_bytes(self.body@, self.chain),
            !r.permits_le_retry(),
    {
        let lc: u8 = self.body.len() as u8;
        let cla: u8 = if self.chain {
            0x10
        } else {
            0x00
        };
        let mut out = vec![cla, PsoDecipher::INS, PsoDecipher::P1, PsoDecipher::P2, lc];
        push_all(&mut out, self.body.as_slice());
        if !self.chain {
            out.push(0x00);
        }
        assert(out@ =~= pso_decipher_bytes(self.body@, self.chain));
        CommandApdu::new(out)
    }
}

/// `CLA 2A 9E 9A Le`.
pub open spec fn pso_cds_bytes(class: ApduClass, le: u8) -> Seq<u8> {
    seq![
        class.byte(),
        PsoComputeDigitalSignature::INS,
        PsoComputeDigitalSignature::P1,
        PsoComputeDigitalSignature::P2,
        le,
    ]
}

/// PERFORM SECURITY OPERATION: COMPUTE DIGITAL SIGNATURE over the stored hash.
#[derive(Debug, Clone, Copy)]
pub struct PsoComputeDigitalSignature {
    /// Class byte.
    pub class: ApduClass,
}

impl PsoComputeDigitalSignature {
    /// Instruction byte.
    pub const INS: u8 = 0x2A;

    /// First parameter: digital signature returned.
    pub const P1: u8 = 0x9E;

    /// Second parameter: data to be signed.
    pub const P2: u8 = 0x9A;

    /// Expected length of up to 256 bytes.
    pub const LE_MAX_SHORT: u8 = 0x00;

    /// Expected length of a raw P-384 signature.
    pub const LE_ECDSA_P384: u8 = 96;

    /// Expected length of a raw P-256 signature.
    pub const LE_ECDSA_P256: u8 = 64;

    /// Serialise with the largest short expected length; the one
    /// corrected-length resend is permitted.
    pub fn into_apdu(self) -> (r: CommandApdu)
        ensures
            r@ == pso_cds_bytes(self.class, PsoComputeDigitalSignature::LE_MAX_SHORT),
            r.permits_le_retry(),
    {
        self.into_apdu_with_le(PsoComputeDigitalSignature::LE_MAX_SHORT)
    }

    /// Serialise with an explicit expected length; the one corrected-length
    /// resend is permitted.
    pub fn into_apdu_with_le(self, le: u8) -> (r: CommandApdu)
        ensures
            r@ == pso_cds_bytes(self.class, le),
            r.permits_le_retry(),
    {
        let out = vec![
            self.class.as_byte(),
            PsoComputeDigitalSignature::INS,
            PsoComputeDigitalSignature::P1,
            PsoComputeDigitalSignature::P2,
            le,
        ];
        assert(out@ =~= pso_cds_bytes(self.class, le));
        CommandApdu::new(out).allow_wrong_le_retry()
    }
}

} // verus!
