//! Certificate bytes as read from a card.

use vstd::prelude::*;

verus! {

/// DER bytes of a certificate.
#[derive(Debug, PartialEq, Eq)]
pub struct CertDer {
    bytes: Vec<u8>,
}

impl View for CertDer {
    type V = Seq<u8>;

    closed spec fn view(&self) -> Seq<u8> {
        self.bytes@
    }
}

impl CertDer {
    /// Wrap the bytes.
    pub fn new(bytes: Vec<u8>) -> (r: Self)
        ensures
            r@ == bytes@,
    {
        CertDer { bytes }
    }

    /// Borrow the bytes.
    pub fn as_bytes(&self) -> (r: &[u8])
        ensures
            r@ == self@,
    {
        self.bytes.as_slice()
    }
}

} // verus!
