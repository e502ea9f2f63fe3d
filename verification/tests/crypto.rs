use refineid::crypto::digest::Sha256;
use refineid::crypto::symmetric::{
    aes256_cbc_decrypt_no_padding, aes256_cbc_encrypt_no_padding, aes256_cmac_truncated,
    aes256_ecb_encrypt_block, kdf_aes256, Aes256Key, KdfParam, Unaligned,
};
use refineid::render::hex_text;
use refineid::rng;
use refineid::x509::verify::HashKind;

fn hex<const N: usize>(text: &str) -> [u8; N] {
    let mut out = [0_u8; N];
    for (i, slot) in out.iter_mut().enumerate() {
        *slot = u8::from_str_radix(&text[2 * i..2 * i + 2], 16).expect("hex digits");
    }
    out
}

const KEY: &str = "603deb1015ca71be2b73aef0857d77811f352c073b6108d72d9810a30914dff4";

#[test]
fn sha256_of_abc() {
    assert_eq!(
        hex_text(Sha256::of(b"abc").as_bytes()),
        "ba7816bf8f01cfea414140de5dae2223b00361a396177a9cb410ff61f20015ad"
    );
    assert!(Sha256::of(b"abc").same(&Sha256::of(b"abc")));
    assert!(!Sha256::of(b"abc").same(&Sha256::of(b"abd")));
}

#[test]
fn longer_digests_of_abc() {
    assert_eq!(
        hex_text(&HashKind::Sha384.digest(b"abc")),
        "cb00753f45a35e8bb5a03d699ac65007272c32ab0eded1631a8b605a43ff5bed\
         8086072ba1e7cc2358baeca134c825a7"
    );
    assert_eq!(
        hex_text(&HashKind::Sha512.digest(b"abc")),
        "ddaf35a193617abacc417349ae20413112e6fa4e89a97ea20a9eeee64b55d39a\
         2192992a274fc1a836ba3c23a3feebbd454d4423643ce80e2a9ac94fa54ca49f"
    );
    assert_eq!(HashKind::Sha256.digest(b"abc"), Sha256::of(b"abc").as_bytes().to_vec());
}

#[test]
fn one_block_is_encrypted() {
    let key: [u8; 32] = core::array::from_fn(|i| u8::try_from(i).unwrap_or(0));
    let block = hex::<16>("00112233445566778899aabbccddeeff");
    assert_eq!(
        hex_text(&aes256_ecb_encrypt_block(&key, &block)),
        "8ea2b7ca516745bfeafc49904b496089"
    );
}

#[test]
fn chained_blocks_are_encrypted_and_decrypted() {
    let key = hex::<32>(KEY);
    let iv: [u8; 16] = core::array::from_fn(|i| u8::try_from(i).unwrap_or(0));
    let plain = hex::<32>("6bc1bee22e409f96e93d7e117393172aae2d8a571e03ac9c9eb76fac45af8e51");
    let cipher = aes256_cbc_encrypt_no_padding(&key, &iv, &plain).expect("whole blocks");
    assert_eq!(
        hex_text(&cipher),
        "f58c4c04d6e5f1ba779eabfb5f7bfbd69cfc4e967edb808d679f777bc6702c7d"
    );
    assert_eq!(
        aes256_cbc_decrypt_no_padding(&key, &iv, &cipher).expect("whole blocks"),
        plain.to_vec()
    );
}

#[test]
fn broken_blocks_are_refused() {
    let key = hex::<32>(KEY);
    assert_eq!(aes256_cbc_encrypt_no_padding(&key, &[0; 16], &[1; 15]), Err(Unaligned));
    assert_eq!(aes256_cbc_decrypt_no_padding(&key, &[0; 16], &[1; 17]), Err(Unaligned));
    assert_eq!(aes256_cbc_encrypt_no_padding(&key, &[0; 16], &[]), Ok(vec![]));
    assert_eq!(aes256_cbc_decrypt_no_padding(&key, &[0; 16], &[]), Ok(vec![]));
}

#[test]
fn checksums_are_cut_to_eight_bytes() {
    let key = hex::<32>(KEY);
    assert_eq!(hex_text(&aes256_cmac_truncated(&key, &[])), "028962f61b7bf89e");
    let block = hex::<16>("6bc1bee22e409f96e93d7e117393172a");
    assert_eq!(hex_text(&aes256_cmac_truncated(&key, &block)), "28a7023f452e8f82");
}

#[test]
fn keys_are_stretched_with_a_counter() {
    for (param, counter) in
        [(KdfParam::Encryption, 1_u8), (KdfParam::Mac, 2), (KdfParam::Password, 3)]
    {
        let mut input = b"123456".to_vec();
        input.extend_from_slice(&[0, 0, 0, counter]);
        assert_eq!(
            kdf_aes256(b"123456", param).as_bytes(),
            Sha256::of(&input).as_bytes()
        );
    }
}

#[test]
fn the_zero_key_is_no_key() {
    assert!(Aes256Key::from_bytes([0; 32]).is_none());
    let mut bytes = [0_u8; 32];
    bytes[31] = 1;
    let key = Aes256Key::from_bytes(bytes).expect("not all zero");
    assert_eq!(key.clone().as_bytes(), &bytes);
}

#[test]
fn random_bytes_differ() {
    let a: [u8; 32] = rng::array().expect("random bytes");
    let b: [u8; 32] = rng::array().expect("random bytes");
    assert_ne!(a, b);
    let mut short = [0_u8; 24];
    rng::fill(&mut short).expect("random bytes");
    assert_ne!(short, [0_u8; 24]);
}
