//! Byte containers that carry their algorithm in the type.

use core::marker::PhantomData;
use vstd::prelude::*;

verus! {

/// RSA PKCS#1 v1.5 without a fixed digest.
#[derive(Debug, Clone, Copy)]
pub struct RsaPkcs1;

/// RSA PKCS#1 v1.5 over SHA-256.
#[derive(Debug, Clone, Copy)]
pub struct RsaPkcs1Sha256;

/// ECDSA over secp256r1 in raw `r || s` form.
#[derive(Debug, Clone, Copy)]
pub struct EcdsaP256;

/// ECDSA over secp384r1 in raw `r || s` form.
#[derive(Debug, Clone, Copy)]
pub struct EcdsaP384;

/// Signature bytes made under `Alg`.
#[derive(Debug)]
#[verifier::reject_recursive_types(Alg)]
pub struct Signature<Alg> {
    bytes: Vec<u8>,
    algorithm: PhantomData<Alg>,
}

impl<Alg> View for Signature<Alg> {
    type V = Seq<u8>;

    closed spec fn view(&self) -> Seq<u8> {
        self.bytes@
    }
}

impl<Alg> Signature<Alg> {
    /// Wrap signature bytes.
    pub fn new(bytes: Vec<u8>) -> (r: Self)
        ensures
            r@ == bytes@,
    {
        Signature { bytes, algorithm: PhantomData }
    }

    /// Borrow the signature bytes.
    pub fn as_bytes(&self) -> (r: &[u8])
        ensures
            r@ == self@,
    {
        self.bytes.as_slice()
    }

    /// Number of signature bytes.
    pub fn len(&self) -> (r: usize)
        ensures
            r == self@.len(),
    {
        self.bytes.len()
    }
}

/// Ciphertext bytes under `Alg`.
#[derive(Debug)]
#[verifier::reject_recursive_types(Alg)]
pub struct Ciphertext<Alg> {
    bytes: Vec<u8>,
    algorithm: PhantomData<Alg>,
}

impl<Alg> View for Ciphertext<Alg> {
    type V = Seq<u8>;

    closed spec fn view(&self) -> Seq<u8> {
        self.bytes@
    }
}

impl<Alg> Ciphertext<Alg> {
    /// Wrap ciphertext bytes.
    pub fn new(bytes: Vec<u8>) -> (r: Self)
        ensures
            r@ == bytes@,
    {
        Ciphertext { bytes, algorithm: PhantomData }
    }

    /// Borrow the ciphertext bytes.
    pub fn as_bytes(&self) -> (r: &[u8])
        ensures
            r@ == self@,
    {
        self.bytes.as_slice()
    }

    /// Number of ciphertext bytes.
    pub fn len(&self) -> (r: usize)
        ensures
            r == self@.len(),
    {
        self.bytes.len()
    }
}

/// Plaintext bytes recovered under `Alg`.
#[derive(Debug)]
#[verifier::reject_recursive_types(Alg)]
pub struct Plaintext<Alg> {
    bytes: Vec<u8>,
    algorithm: PhantomData<Alg>,
}

impl<Alg> View for Plaintext<Alg> {
    type V = Seq<u8>;

    closed spec fn view(&self) -> Seq<u8> {
        self.bytes@
    }
}

impl<Alg> Plaintext<Alg> {
    /// Wrap plaintext bytes.
    pub fn new(bytes: Vec<u8>) -> (r: Self)
        ensures
            r@ == bytes@,
    {
        Plaintext { bytes, algorithm: PhantomData }
    }

    /// Borrow the plaintext bytes.
    pub fn as_bytes(&self) -> (r: &[u8])
        ensures
            r@ == self@,
    {
        self.bytes.as_slice()
    }
}

} // verus!
