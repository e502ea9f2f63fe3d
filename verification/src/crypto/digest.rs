//! Digest values, one type per hash function.

use sha2::Digest;
use vstd::prelude::*;

verus! {

/// SHA-1 digest.
#[derive(Debug, Clone, Copy, PartialEq, Eq)]
pub struct Sha1([u8; 20]);

/// SHA-224 digest.
#[derive(Debug, Clone, Copy, PartialEq, Eq)]
pub struct Sha224([u8; 28]);

/// SHA-256 digest.
#[derive(Debug, Clone, Copy, PartialEq, Eq)]
pub struct Sha256([u8; 32]);

/// SHA-384 digest.
#[derive(Debug, Clone, Copy, PartialEq, Eq)]
pub struct Sha384([u8; 48]);

/// SHA-512 digest.
#[derive(Debug, Clone, Copy, PartialEq, Eq)]
pub struct Sha512([u8; 64]);

impl Sha1 {
    /// The digest bytes.
    pub closed spec fn value(self) -> [u8; 20] {
        self.0
    }

    /// Wrap a computed digest.
    pub fn from_bytes(bytes: [u8; 20]) -> (r: Self)
        ensures
            r.value() == bytes,
    {
        Sha1(bytes)
    }

    /// Borrow the digest bytes.
    pub fn as_bytes(&self) -> (r: &[u8; 20])
        ensures
            *r == self.value(),
    {
        &self.0
    }
}

impl Sha224 {
    /// The digest bytes.
    pub closed spec fn value(self) -> [u8; 28] {
        self.0
    }

    /// Wrap a computed digest.
    pub fn from_bytes(bytes: [u8; 28]) -> (r: Self)
        ensures
            r.value() == bytes,
    {
        Sha224(bytes)
    }

    /// Borrow the digest bytes.
    pub fn as_bytes(&self) -> (r: &[u8; 28])
        ensures
            *r == self.value(),
    {
        &self.0
    }
}

impl Sha256 {
    /// The digest bytes.
    pub closed spec fn value(self) -> [u8; 32] {
        self.0
    }

    /// Wrap a computed digest.
    pub fn from_bytes(bytes: [u8; 32]) -> (r: Self)
        ensures
            r.value() == bytes,
    {
        Sha256(bytes)
    }

    /// Borrow the digest bytes.
    pub fn as_bytes(&self) -> (r: &[u8; 32])
        ensures
            *r == self.value(),
    {
        &self.0
    }

    /// Digest `data`.
    pub fn of(data: &[u8]) -> (r: Self)
        ensures
            r.value()@ == sha256_of(data@),
    {
        Sha256(sha256(data))
    }

    /// Whether two digests are the same.
    pub fn same(&self, other: &Sha256) -> (r: bool)
        ensures
            r == (self.value()@ == other.value()@),
    {
        crate::bytes::same_bytes(self.0.as_slice(), other.0.as_slice())
    }
}

impl Sha384 {
    /// The digest bytes.
    pub closed spec fn value(self) -> [u8; 48] {
        self.0
    }

    /// Wrap a computed digest.
    pub fn from_bytes(bytes: [u8; 48]) -> (r: Self)
        ensures
            r.value() == bytes,
    {
        Sha384(bytes)
    }

    /// Borrow the digest bytes.
    pub fn as_bytes(&self) -> (r: &[u8; 48])
        ensures
            *r == self.value(),
    {
        &self.0
    }
}

impl Sha512 {
    /// The digest bytes.
    pub closed spec fn value(self) -> [u8; 64] {
        self.0
    }

    /// Wrap a computed digest.
    pub fn from_bytes(bytes: [u8; 64]) -> (r: Self)
        ensures
            r.value() == bytes,
    {
        Sha512(bytes)
    }

    /// Borrow the digest bytes.
    pub fn as_bytes(&self) -> (r: &[u8; 64])
        ensures
            *r == self.value(),
    {
        &self.0
    }
}

/// What [`sha2::Sha256`] computes of `data`.
pub uninterp spec fn sha256_of(data: Seq<u8>) -> Seq<u8>;

/// [`sha2::Sha256`] applied to `data` in one call. The digest is named, not
/// described: it depends on `data` alone.
#[verifier::external_body]
pub(crate) fn sha256(data: &[u8]) -> (r: [u8; 32])
    ensures
        r@ == sha256_of(data@),
{
    sha2::Sha256::digest(data).into()
}

/// What [`sha2::Sha384`] computes of bytes.
pub uninterp spec fn sha384_of(data: Seq<u8>) -> Seq<u8>;

/// What [`sha2::Sha512`] computes of bytes.
pub uninterp spec fn sha512_of(data: Seq<u8>) -> Seq<u8>;

/// [`sha2::Sha384`] in one call.
#[verifier::external_body]
pub(crate) fn sha384(data: &[u8]) -> (r: [u8; 48])
    ensures
        r@ == sha384_of(data@),
{
    sha2::Sha384::digest(data).into()
}

/// [`sha2::Sha512`] in one call.
#[verifier::external_body]
pub(crate) fn sha512(data: &[u8]) -> (r: [u8; 64])
    ensures
        r@ == sha512_of(data@),
{
    sha2::Sha512::digest(data).into()
}

} // verus!
