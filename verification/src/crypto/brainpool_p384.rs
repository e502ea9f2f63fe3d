//! Plain data of the curve brainpoolP384r1: points as coordinate pairs and
//! scalars as numbers below the group order.

use crate::bytes::{be_nat, push_all};
use crypto_bigint::U384;
use vstd::arithmetic::power::{lemma_pow0, lemma_pow_increases, lemma_pow_positive, pow};
use vstd::prelude::*;

verus! {

/// Length of a coordinate and of a scalar in bytes.
pub const SCALAR_LEN: usize = 48;

/// Length of an uncompressed point: `04 || X || Y`.
pub const POINT_LEN: usize = 97;

/// Order of the group.
pub const ORDER: [u8; 48] = [
    0x8C, 0xB9, 0x1E, 0x82, 0xA3, 0x38, 0x6D, 0x28, 0x0F, 0x5D, 0x6F, 0x7E, 0x50, 0xE6, 0x41, 0xDF,
    0x15, 0x2F, 0x71, 0x09, 0xED, 0x54, 0x56, 0xB3, 0x1F, 0x16, 0x6E, 0x6C, 0xAC, 0x04, 0x25, 0xA7,
    0xCF, 0x3A, 0xB6, 0xAF, 0x6B, 0x7F, 0xC3, 0x10, 0x3B, 0x88, 0x32, 0x02, 0xE9, 0x04, 0x65, 0x65,
];

/// X-coordinate of the generator.
pub const GENERATOR_X: [u8; 48] = [
    0x1D, 0x1C, 0x64, 0xF0, 0x68, 0xCF, 0x45, 0xFF, 0xA2, 0xA6, 0x3A, 0x81, 0xB7, 0xC1, 0x3F, 0x6B,
    0x88, 0x47, 0xA3, 0xE7, 0x7E, 0xF1, 0x4F, 0xE3, 0xDB, 0x7F, 0xCA, 0xFE, 0x0C, 0xBD, 0x10, 0xE8,
    0xE8, 0x26, 0xE0, 0x34, 0x36, 0xD6, 0x46, 0xAA, 0xEF, 0x87, 0xB2, 0xE2, 0x47, 0xD4, 0xAF, 0x1E,
];

/// Y-coordinate of the generator.
pub const GENERATOR_Y: [u8; 48] = [
    0x8A, 0xBE, 0x1D, 0x75, 0x20, 0xF9, 0xC2, 0xA4, 0x5C, 0xB1, 0xEB, 0x8E, 0x95, 0xCF, 0xD5, 0x52,
    0x62, 0xB7, 0x0B, 0x29, 0xFE, 0xEC, 0x58, 0x64, 0xE1, 0x9C, 0x05, 0x4F, 0xF9, 0x91, 0x29, 0x28,
    0x0E, 0x46, 0x46, 0x21, 0x77, 0x91, 0x81, 0x11, 0x42, 0x82, 0x03, 0x41, 0x26, 0x3C, 0x53, 0x15,
];

/// A point in affine coordinates; without coordinates it is the point at
/// infinity. Whether the coordinates satisfy the curve equation is not part of
/// the type.
#[derive(Debug, Clone, Copy, PartialEq, Eq)]
pub struct AffinePoint {
    /// The coordinates as big-endian numbers.
    pub coords: Option<([u8; 48], [u8; 48])>,
}

/// The uncompressed encoding of the point with the given coordinates.
pub open spec fn uncompressed(x: Seq<u8>, y: Seq<u8>) -> Seq<u8> {
    seq![0x04u8] + x + y
}

/// The uncompressed encoding, `None` for the point at infinity.
impl View for AffinePoint {
    type V = Option<Seq<u8>>;

    open spec fn view(&self) -> Option<Seq<u8>> {
        match self.coords {
            Some((x, y)) => Some(uncompressed(x@, y@)),
            None => None,
        }
    }
}

/// `bytes` have the shape of an uncompressed point.
pub open spec fn is_uncompressed(bytes: Seq<u8>) -> bool {
    bytes.len() == POINT_LEN && bytes[0] == 0x04
}

fn coordinate(bytes: &[u8], at: usize) -> (r: [u8; 48])
    requires
        at + 48 <= bytes@.len(),
    ensures
        r@ == bytes@.subrange(at as int, at + 48),
{
    let mut r: [u8; 48] = [0; 48];
    let len: usize = bytes.len();
    let mut i: usize = 0;
    while i < 48
        invariant
            i <= 48,
            at + 48 <= len,
            len == bytes@.len(),
            forall|j: int| 0 <= j < i ==> r@[j] == bytes@[at + j],
        decreases 48 - i,
    {
        r[i] = bytes[at + i];
        i += 1;
    }
    assert(r@ =~= bytes@.subrange(at as int, at + 48));
    r
}

/// The generator of the group.
pub open spec fn generator_point() -> AffinePoint {
    AffinePoint { coords: Some((GENERATOR_X, GENERATOR_Y)) }
}

impl AffinePoint {
    /// The generator of the group.
    pub fn generator() -> (r: AffinePoint)
        ensures
            r == generator_point(),
    {
        AffinePoint { coords: Some((GENERATOR_X, GENERATOR_Y)) }
    }

    /// `04 || X || Y`, or `None` for the point at infinity.
    pub fn encode_uncompressed(&self) -> (r: Option<Vec<u8>>)
        ensures
            r is Some <==> self@ is Some,
            r matches Some(v) ==> Some(v@) == self@ && is_uncompressed(v@),
    {
        match &self.coords {
            Some((x, y)) => {
                let mut out = vec![0x04];
                push_all(&mut out, x.as_slice());
                push_all(&mut out, y.as_slice());
                assert(out@ =~= uncompressed(x@, y@));
                Some(out)
            },
            None => None,
        }
    }

    /// The point whose uncompressed encoding is `bytes`, or `None` when they do
    /// not have that shape.
    pub fn decode_uncompressed(bytes: &[u8]) -> (r: Option<AffinePoint>)
        ensures
            r is Some <==> is_uncompressed(bytes@),
            r matches Some(p) ==> p@ == Some(bytes@),
    {
        if bytes.len() != POINT_LEN || bytes[0] != 0x04 {
            return None;
        }
        let x: [u8; 48] = coordinate(bytes, 1);
        let y: [u8; 48] = coordinate(bytes, 49);
        assert(uncompressed(x@, y@) =~= bytes@);
        Some(AffinePoint { coords: Some((x, y)) })
    }
}

/// [`crypto_bigint::U384::from_be_slice`] and its order: whether one big-endian
/// number is less than another.
#[verifier::external_body]
fn less(a: &[u8; 48], b: &[u8; 48]) -> (r: bool)
    ensures
        r == (be_nat(a@) < be_nat(b@)),
{
    U384::from_be_slice(a) < U384::from_be_slice(b)
}

/// A number above zero and below the group order, big-endian.
pub struct Scalar([u8; 48]);

impl View for Scalar {
    type V = Seq<u8>;

    open spec fn view(&self) -> Seq<u8> {
        self.array()@
    }
}

/// `bytes` spell a number above zero and below the group order.
pub open spec fn in_scalar_range(bytes: Seq<u8>) -> bool {
    0 < be_nat(bytes) < be_nat(ORDER@)
}

impl Scalar {
    /// The big-endian bytes.
    pub closed spec fn array(&self) -> [u8; 48] {
        self.0
    }

    /// The number is in range.
    #[verifier::type_invariant]
    closed spec fn in_range(&self) -> bool {
        in_scalar_range(self.0@)
    }

    /// The scalar that `bytes` spell, or `None` out of range.
    pub fn from_be_bytes(bytes: [u8; 48]) -> (r: Option<Scalar>)
        ensures
            r is Some <==> in_scalar_range(bytes@),
            r matches Some(s) ==> s@ == bytes@,
    {
        let zero: [u8; 48] = [0; 48];
        proof {
            lemma_be_nat_zeros(zero@);
        }
        if less(&zero, &bytes) && less(&bytes, &ORDER) {
            Some(Scalar(bytes))
        } else {
            None
        }
    }

    /// The big-endian bytes.
    pub fn as_bytes(&self) -> (r: &[u8; 48])
        ensures
            *r == self.array(),
            in_scalar_range(r@),
    {
        proof {
            use_type_invariant(self);
        }
        &self.0
    }
}

/// Zero bytes spell zero.
pub proof fn lemma_be_nat_zeros(s: Seq<u8>)
    requires
        forall|i: int| 0 <= i < s.len() ==> s[i] == 0,
    ensures
        be_nat(s) == 0,
    decreases s.len(),
{
    if s.len() > 0 {
        lemma_be_nat_zeros(s.drop_last());
    }
}

/// A big-endian number lies between its leading byte times the weight of that
/// byte and the weight of the byte before it.
pub proof fn lemma_be_nat_weight(s: Seq<u8>)
    ensures
        be_nat(s) < pow(256, s.len()),
        s.len() > 0 ==> be_nat(s) >= s[0] * pow(256, (s.len() - 1) as nat),
    decreases s.len(),
{
    lemma_pow0(256);
    if s.len() > 0 {
        let t = s.drop_last();
        lemma_be_nat_weight(t);
        let w = pow(256, t.len());
        assert(pow(256, s.len()) == 256 * w) by {
            reveal(pow);
        }
        if t.len() > 0 {
            let v = pow(256, (t.len() - 1) as nat);
            assert(w == 256 * v) by {
                reveal(pow);
            }
            assert(s[0] == t[0]);
            assert(s[0] * w == 256 * (s[0] * v)) by (nonlinear_arith)
                requires
                    w == 256 * v,
            ;
        } else {
            assert(be_nat(t) == 0);
        }
    }
}

/// Leading zeros do not change a number.
pub proof fn lemma_be_nat_leading_zeros(zeros: Seq<u8>, s: Seq<u8>)
    requires
        forall|i: int| 0 <= i < zeros.len() ==> zeros[i] == 0,
    ensures
        be_nat(zeros + s) == be_nat(s),
    decreases s.len(),
{
    if s.len() == 0 {
        assert(zeros + s =~= zeros);
        lemma_be_nat_zeros(zeros);
    } else {
        assert((zeros + s).drop_last() =~= zeros + s.drop_last());
        lemma_be_nat_leading_zeros(zeros, s.drop_last());
    }
}

/// A number of at most 47 bytes is below the group order.
pub proof fn lemma_short_below_order(s: Seq<u8>)
    requires
        s.len() <= 47,
    ensures
        be_nat(s) < be_nat(ORDER@),
{
    lemma_be_nat_weight(s);
    lemma_be_nat_weight(ORDER@);
    lemma_pow_increases(256, s.len(), 47);
    lemma_pow_positive(256, 47);
    let w = pow(256, 47);
    assert(ORDER@[0] == 0x8C);
    assert(0x8C * w >= w) by (nonlinear_arith)
        requires
            w > 0,
    ;
}

/// An encoded point is `04`, its x-coordinate and its y-coordinate, 48 bytes each; all 97
/// bytes behind a `04` are one.
pub proof fn law_point_layout(x: Seq<u8>, y: Seq<u8>, bytes: Seq<u8>)
    requires
        x.len() == 48,
        y.len() == 48,
    ensures
        uncompressed(x, y).len() == 97,
        uncompressed(x, y)[0] == 4,
        uncompressed(x, y).subrange(1, 49) == x,
        uncompressed(x, y).subrange(49, 97) == y,
        is_uncompressed(uncompressed(x, y)),
        is_uncompressed(bytes) <==> bytes.len() == 97 && bytes[0] == 4,
        is_uncompressed(bytes) ==> bytes == uncompressed(
            bytes.subrange(1, 49),
            bytes.subrange(49, 97),
        ),
{
    assert(uncompressed(x, y).subrange(1, 49) =~= x);
    assert(uncompressed(x, y).subrange(49, 97) =~= y);
    if is_uncompressed(bytes) {
        assert(bytes =~= uncompressed(bytes.subrange(1, 49), bytes.subrange(49, 97)));
    }
}

/// A point holds the coordinates that its encoding does.
pub proof fn law_point_is_its_encoding(point: AffinePoint, bytes: Seq<u8>)
    requires
        point@ == Some(bytes),
    ensures
        point.coords is Some,
        point.coords->Some_0.0@ == bytes.subrange(1, 49),
        point.coords->Some_0.1@ == bytes.subrange(49, 97),
{
    law_point_layout(point.coords->Some_0.0@, point.coords->Some_0.1@, bytes);
}

} // verus!
