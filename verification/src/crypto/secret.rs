//! Byte arrays that are wiped when they are dropped.

use vstd::prelude::*;
use zeroize::Zeroize;

verus! {

/// Every byte is zero.
pub open spec fn all_zero(bytes: Seq<u8>) -> bool {
    forall|i: int| 0 <= i < bytes.len() ==> #[trigger] bytes[i] == 0
}

/// [`zeroize::Zeroize::zeroize`] on an array: every byte is zero afterwards.
#[verifier::external_body]
pub(crate) fn wipe<const N: usize>(bytes: &mut [u8; N])
    ensures
        all_zero(final(bytes)@),
    opens_invariants none
    no_unwind
{
    bytes.zeroize();
}

/// [`zeroize::Zeroize::zeroize`] on a vector: it is empty afterwards.
#[verifier::external_body]
pub(crate) fn wipe_vec(bytes: &mut Vec<u8>)
    ensures
        final(bytes)@.len() == 0,
{
    bytes.zeroize();
}

/// Secret bytes.
pub struct Secret<const N: usize>([u8; N]);

impl<const N: usize> View for Secret<N> {
    type V = Seq<u8>;

    closed spec fn view(&self) -> Seq<u8> {
        self.0@
    }
}

impl<const N: usize> Secret<N> {
    /// Wrap secret bytes.
    pub fn new(bytes: [u8; N]) -> (r: Self)
        ensures
            r@ == bytes@,
    {
        Secret(bytes)
    }

    /// Borrow the bytes.
    pub fn as_bytes(&self) -> (r: &[u8; N])
        ensures
            r@ == self@,
    {
        &self.0
    }
}

impl<const N: usize> Clone for Secret<N> {
    fn clone(&self) -> (r: Self)
        ensures
            r@ == self@,
    {
        Secret(self.0)
    }
}

impl<const N: usize> Drop for Secret<N> {
    fn drop(&mut self)
        opens_invariants none
        no_unwind
    {
        wipe(&mut self.0);
    }
}

} // verus!
