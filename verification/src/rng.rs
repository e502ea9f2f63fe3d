//! Random bytes from the operating system.

use vstd::array::ref_mut_array_unsizing_coercion;
use vstd::prelude::*;

verus! {

/// Why the operating system gave no random bytes.
#[verifier::external_type_specification]
#[verifier::external_body]
pub struct ExRandomError(getrandom::Error);

/// Why the operating system gave no random bytes.
pub type Failure = getrandom::Error;

/// [`getrandom::fill`]: fill `dest` with random bytes. Nothing is said of the
/// bytes but that there are as many as before.
#[verifier::external_body]
pub fn fill(dest: &mut [u8]) -> (r: Result<(), Failure>)
    ensures
        final(dest)@.len() == old(dest)@.len(),
{
    getrandom::fill(dest)
}

/// An array of random bytes: what one call of [`fill`] leaves of `N` zero bytes, or the
/// error of that call.
pub fn array<const N: usize>() -> (r: Result<[u8; N], Failure>)
    ensures
        exists|dest: &mut [u8], outcome: Result<(), Failure>| #[trigger]
            call_ensures(fill, (dest,), outcome) && (*dest)@.len() == N && (forall|i: int|
                0 <= i < N ==> #[trigger] (*dest)@[i] == 0) && match r {
                Ok(bytes) => outcome is Ok && bytes@ == (*final(dest))@,
                Err(e) => outcome == Err::<(), Failure>(e),
            },
{
    let mut out: [u8; N] = [0; N];
    match fill(ref_mut_array_unsizing_coercion(&mut out)) {
        Ok(()) => Ok(out),
        Err(e) => Err(e),
    }
}

/// `r` is what a call of [`array`] came to.
pub open spec fn is_draw<const N: usize>(r: Result<[u8; N], Failure>) -> bool {
    call_ensures(array::<N>, (), r)
}

} // verus!
