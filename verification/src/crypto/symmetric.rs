//! AES-256 primitives and the key derivation of the card protocols.

use crate::bytes::{be4, push_all, u32_be};
use crate::crypto::digest::{sha256, sha256_of};
use crate::crypto::secret::{all_zero, Secret};
use aes::cipher::block_padding::NoPadding;
use aes::cipher::{BlockCipherEncrypt, BlockModeDecrypt, BlockModeEncrypt, KeyInit, KeyIvInit};
use cmac::Mac;
use subtle::ConstantTimeEq;
use vstd::prelude::*;
use vstd::slice::slice_to_vec;

verus! {

/// AES block size in bytes.
pub const AES_BLOCK: usize = 16;

/// AES-256 key. The bytes are wiped when the key is dropped.
pub struct Aes256Key(Secret<32>);

impl View for Aes256Key {
    type V = Seq<u8>;

    closed spec fn view(&self) -> Seq<u8> {
        self.0@
    }
}

impl Aes256Key {
    /// Wrap key bytes; `None` for the all-zero key.
    pub fn from_bytes(bytes: [u8; 32]) -> (r: Option<Self>)
        ensures
            r is None <==> all_zero(bytes@),
            r matches Some(k) ==> k@ == bytes@,
    {
        let mut i: usize = 0;
        while i < 32
            invariant
                i <= 32,
                forall|j: int| 0 <= j < i ==> #[trigger] bytes@[j] == 0,
            decreases 32 - i,
        {
            if bytes[i] != 0 {
                assert(bytes@[i as int] != 0);
                return Some(Aes256Key(Secret::new(bytes)));
            }
            i += 1;
        }
        None
    }

    /// Borrow the key bytes.
    pub fn as_bytes(&self) -> (r: &[u8; 32])
        ensures
            r@ == self@,
    {
        self.0.as_bytes()
    }
}

impl Clone for Aes256Key {
    fn clone(&self) -> (r: Self)
        ensures
            r@ == self@,
    {
        Aes256Key(self.0.clone())
    }
}

/// Which key a shared secret is stretched into.
#[derive(Debug, Clone, Copy, PartialEq, Eq, Structural)]
pub enum KdfParam {
    /// Encryption key.
    Encryption,
    /// Authentication key.
    Mac,
    /// Password key.
    Password,
}

impl KdfParam {
    /// The counter of the key.
    pub open spec fn counter(self) -> int {
        match self {
            KdfParam::Encryption => 1,
            KdfParam::Mac => 2,
            KdfParam::Password => 3,
        }
    }
}

/// The key that `secret` is stretched into: the digest of the secret and the
/// counter in four bytes.
pub open spec fn kdf(secret: Seq<u8>, param: KdfParam) -> Seq<u8> {
    sha256_of(secret + be4(param.counter()))
}

/// Stretch `secret` into a key.
pub fn kdf_aes256(secret: &[u8], param: KdfParam) -> (r: Aes256Key)
    ensures
        r@ == kdf(secret@, param),
{
    let counter: u32 = match param {
        KdfParam::Encryption => 1,
        KdfParam::Mac => 2,
        KdfParam::Password => 3,
    };
    let mut input = slice_to_vec(secret);
    let tail = u32_be(counter);
    push_all(&mut input, tail.as_slice());
    assert(input@ =~= secret@ + be4(param.counter()));
    Aes256Key(Secret::new(sha256(input.as_slice())))
}

/// What [`aes::Aes256`] makes of one block.
pub uninterp spec fn aes256_block(key: Seq<u8>, block: Seq<u8>) -> Seq<u8>;

/// [`aes::Aes256`] encryption of one block.
#[verifier::external_body]
fn encrypt_block(key: &[u8; 32], block: &[u8; 16]) -> (r: [u8; 16])
    ensures
        r@ == aes256_block(key@, block@),
{
    let mut out = (*block).into();
    aes::Aes256::new(&(*key).into()).encrypt_block(&mut out);
    out.into()
}

/// AES-256 encryption of one block.
pub fn aes256_ecb_encrypt_block(key: &[u8; 32], block: &[u8; 16]) -> (r: [u8; 16])
    ensures
        r@ == aes256_block(key@, block@),
{
    encrypt_block(key, block)
}

/// What [`cbc::Encryptor`] over [`aes::Aes256`] makes of whole blocks.
pub uninterp spec fn aes256_cbc_encrypted(key: Seq<u8>, iv: Seq<u8>, data: Seq<u8>) -> Seq<u8>;

/// What [`cbc::Decryptor`] over [`aes::Aes256`] makes of whole blocks.
pub uninterp spec fn aes256_cbc_decrypted(key: Seq<u8>, iv: Seq<u8>, data: Seq<u8>) -> Seq<u8>;

/// [`cbc::Encryptor`] over [`aes::Aes256`] without padding: as many bytes come
/// out as go in, and decryption under the same key and vector gives them back.
#[verifier::external_body]
fn cbc_encrypt(key: &[u8; 32], iv: &[u8; 16], data: &[u8]) -> (r: Vec<u8>)
    requires
        data@.len() % 16 == 0,
    ensures
        r@ == aes256_cbc_encrypted(key@, iv@, data@),
        r@.len() == data@.len(),
        aes256_cbc_decrypted(key@, iv@, r@) == data@,
{
    let cipher = cbc::Encryptor::<aes::Aes256>::new(&(*key).into(), &(*iv).into());
    cipher.encrypt_padded_vec::<NoPadding>(data)
}

/// [`cbc::Decryptor`] over [`aes::Aes256`] without padding: as many bytes come
/// out as go in.
#[verifier::external_body]
fn cbc_decrypt(key: &[u8; 32], iv: &[u8; 16], data: &[u8]) -> (r: Vec<u8>)
    requires
        data@.len() % 16 == 0,
    ensures
        r@ == aes256_cbc_decrypted(key@, iv@, data@),
        r@.len() == data@.len(),
{
    let cipher = cbc::Decryptor::<aes::Aes256>::new(&(*key).into(), &(*iv).into());
    cipher.decrypt_padded_vec::<NoPadding>(data).unwrap_or_default()
}

/// Data that is not made of whole blocks.
#[derive(Debug, Clone, Copy, PartialEq, Eq, Structural)]
pub struct Unaligned;

/// AES-256-CBC encryption of whole blocks.
pub fn aes256_cbc_encrypt_no_padding(key: &[u8; 32], iv: &[u8; 16], data: &[u8]) -> (r: Result<
    Vec<u8>,
    Unaligned,
>)
    ensures
        r is Ok <==> data@.len() % 16 == 0,
        r matches Ok(c) ==> {
            &&& c@ == aes256_cbc_encrypted(key@, iv@, data@)
            &&& c@.len() == data@.len()
            &&& aes256_cbc_decrypted(key@, iv@, c@) == data@
        },
{
    if data.len() % 16 != 0 {
        return Err(Unaligned);
    }
    Ok(cbc_encrypt(key, iv, data))
}

/// AES-256-CBC decryption of whole blocks.
pub fn aes256_cbc_decrypt_no_padding(key: &[u8; 32], iv: &[u8; 16], data: &[u8]) -> (r: Result<
    Vec<u8>,
    Unaligned,
>)
    ensures
        r is Ok <==> data@.len() % 16 == 0,
        r matches Ok(p) ==> {
            &&& p@ == aes256_cbc_decrypted(key@, iv@, data@)
            &&& p@.len() == data@.len()
        },
{
    if data.len() % 16 != 0 {
        return Err(Unaligned);
    }
    Ok(cbc_decrypt(key, iv, data))
}

/// What [`cmac::Cmac`] over [`aes::Aes256`] computes of `data`.
pub uninterp spec fn aes256_cmac(key: Seq<u8>, data: Seq<u8>) -> Seq<u8>;

/// [`cmac::Cmac`] over [`aes::Aes256`] in one call.
#[verifier::external_body]
fn cmac_tag(key: &[u8; 32], data: &[u8]) -> (r: [u8; 16])
    ensures
        r@ == aes256_cmac(key@, data@),
{
    let mut mac = cmac::Cmac::<aes::Aes256>::new(&(*key).into());
    mac.update(data);
    mac.finalize().into_bytes().into()
}

/// The first eight bytes of the AES-256-CMAC of `data`.
pub open spec fn mac8(key: Seq<u8>, data: Seq<u8>) -> Seq<u8> {
    aes256_cmac(key, data).take(8)
}

/// AES-256-CMAC truncated to eight bytes.
pub fn aes256_cmac_truncated(key: &[u8; 32], data: &[u8]) -> (r: [u8; 8])
    ensures
        r@ == mac8(key@, data@),
{
    let t: [u8; 16] = cmac_tag(key, data);
    let r: [u8; 8] = [t[0], t[1], t[2], t[3], t[4], t[5], t[6], t[7]];
    assert(r@ =~= mac8(key@, data@));
    r
}

/// [`subtle::ConstantTimeEq`] on byte strings: whether they are equal, in time
/// that does not depend on where they differ.
#[verifier::external_body]
pub(crate) fn ct_equal(a: &[u8], b: &[u8]) -> (r: bool)
    ensures
        r == (a@ == b@),
{
    a.ct_eq(b).into()
}

} // verus!
