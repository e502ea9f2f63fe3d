//! Object identifiers as their content bytes.

use crate::bytes::same_bytes;
use crate::render::{dec, push_dec};
use vstd::prelude::*;
use vstd::string::*;

pub mod known;

verus! {

/// Why bytes are no object identifier.
#[derive(Debug, Clone, Copy, PartialEq, Eq, Structural)]
pub enum OidError {
    /// There are no content bytes.
    Empty,
    /// The final byte has the high bit set, so its arc does not end.
    UnterminatedArc,
}

impl OidError {
    /// The diagnostic text of the error.
    pub fn message(&self) -> (r: String)
        ensures
            r@ == match *self {
                OidError::Empty => "OID content cannot be empty"@,
                OidError::UnterminatedArc => {
                    "OID's final byte has the high bit set (arc unterminated)"@
                },
            },
    {
        match self {
            OidError::Empty => "OID content cannot be empty".to_owned(),
            OidError::UnterminatedArc => {
                "OID's final byte has the high bit set (arc unterminated)".to_owned()
            },
        }
    }
}

/// Borrowed content bytes of an object identifier.
#[derive(Debug, Clone, Copy, PartialEq, Eq, Hash)]
pub struct Oid<'der>(&'der [u8]);

impl<'der> View for Oid<'der> {
    type V = Seq<u8>;

    closed spec fn view(&self) -> Seq<u8> {
        self.0@
    }
}

/// The first two arcs, packed in the first byte.
pub open spec fn first_arcs(first: u8) -> Seq<char> {
    let arc1 = if first / 40 > 2 {
        2
    } else {
        first / 40
    };
    dec(arc1 as nat) + "."@ + dec((first - arc1 * 40) as nat)
}

/// Seven more bits of an arc, which is kept to 128 bits.
pub open spec fn arc_step(acc: nat, b: u8) -> nat {
    (acc % 0x200_0000_0000_0000_0000_0000_0000_0000) * 128 + (b % 128) as nat
}

/// The arcs that `bytes` spell from `from` on, each behind a dot. A byte without
/// the high bit ends an arc.
pub open spec fn later_arcs(bytes: Seq<u8>, from: int, acc: nat) -> Seq<char>
    decreases bytes.len() - from,
{
    if from >= bytes.len() {
        Seq::empty()
    } else {
        let next = arc_step(acc, bytes[from]);
        if bytes[from] < 128 {
            "."@ + dec(next) + later_arcs(bytes, from + 1, 0)
        } else {
            later_arcs(bytes, from + 1, next)
        }
    }
}

/// Dotted-decimal notation.
pub open spec fn dotted(bytes: Seq<u8>) -> Seq<char> {
    if bytes.len() == 0 {
        "(empty-oid)"@
    } else {
        first_arcs(bytes[0]) + later_arcs(bytes, 1, 0)
    }
}

impl<'der> Oid<'der> {
    /// The content bytes.
    pub fn as_bytes(&self) -> (r: &'der [u8])
        ensures
            r@ == self@,
    {
        self.0
    }

    /// Wrap `bytes` without a check.
    pub fn const_new(bytes: &'der [u8]) -> (r: Self)
        ensures
            r@ == bytes@,
    {
        Oid(bytes)
    }

    /// Wrap `bytes` after a structural check: there is a last byte and it ends
    /// an arc.
    pub fn new(bytes: &'der [u8]) -> (r: Result<Self, OidError>)
        ensures
            r is Ok <==> bytes@.len() > 0 && bytes@.last() < 128,
            r matches Ok(o) ==> o@ == bytes@,
            r matches Err(e) ==> e == if bytes@.len() == 0 {
                OidError::Empty
            } else {
                OidError::UnterminatedArc
            },
    {
        if bytes.len() == 0 {
            return Err(OidError::Empty);
        }
        if bytes[bytes.len() - 1] >= 128 {
            return Err(OidError::UnterminatedArc);
        }
        Ok(Oid(bytes))
    }

    /// Dotted-decimal notation.
    pub fn to_text(&self) -> (r: String)
        ensures
            r@ == dotted(self@),
    {
        let bytes = self.0;
        if bytes.len() == 0 {
            return "(empty-oid)".to_owned();
        }
        let first: u8 = bytes[0];
        let arc1: u8 = if first / 40 > 2 {
            2
        } else {
            first / 40
        };
        let mut out = String::new();
        push_dec(&mut out, arc1 as u128);
        out.append(".");
        push_dec(&mut out, (first - arc1 * 40) as u128);
        assert(out@ =~= first_arcs(first));
        let mut acc: u128 = 0;
        let mut i: usize = 1;
        proof {
            assert(out@ + later_arcs(bytes@, 1, 0) =~= dotted(bytes@));
        }
        while i < bytes.len()
            invariant
                1 <= i <= bytes@.len(),
                bytes@ == self@,
                out@ + later_arcs(bytes@, i as int, acc as nat) == dotted(bytes@),
            decreases bytes@.len() - i,
        {
            let b: u8 = bytes[i];
            let ghost before = out@;
            let ghost next = arc_step(acc as nat, b);
            acc = (acc % 0x200_0000_0000_0000_0000_0000_0000_0000) * 128 + (b % 128) as u128;
            if b < 128 {
                out.append(".");
                push_dec(&mut out, acc);
                proof {
                    assert(out@ + later_arcs(bytes@, i + 1, 0) =~= before + ("."@ + dec(next)
                        + later_arcs(bytes@, i + 1, 0)));
                }
                acc = 0;
            }
            i += 1;
        }
        assert(out@ + later_arcs(bytes@, i as int, acc as nat) =~= out@);
        out
    }
}

impl<'der> PartialEq<&[u8]> for Oid<'der> {
    fn eq(&self, other: &&[u8]) -> (r: bool) {
        same_bytes(self.0, *other)
    }
}

impl<'der> vstd::std_specs::cmp::PartialEqSpecImpl<&[u8]> for Oid<'der> {
    open spec fn obeys_eq_spec() -> bool {
        true
    }

    open spec fn eq_spec(&self, other: &&[u8]) -> bool {
        self@ == (*other)@
    }
}

impl<'der> PartialEq<Oid<'der>> for &[u8] {
    fn eq(&self, other: &Oid<'der>) -> (r: bool) {
        same_bytes(*self, other.0)
    }
}

impl<'der> vstd::std_specs::cmp::PartialEqSpecImpl<Oid<'der>> for &[u8] {
    open spec fn obeys_eq_spec() -> bool {
        true
    }

    open spec fn eq_spec(&self, other: &Oid<'der>) -> bool {
        (*self)@ == other@
    }
}

/// The number that the seven lower bits of each byte make up.
pub open spec fn base128(arc: Seq<u8>) -> nat
    decreases arc.len(),
{
    if arc.len() == 0 {
        0
    } else {
        base128(arc.drop_last()) * 128 + (arc.last() % 128) as nat
    }
}

/// `arc` is one arc: only its last byte is without the high bit.
pub open spec fn is_arc(arc: Seq<u8>) -> bool {
    &&& arc.len() > 0
    &&& arc.last() < 128
    &&& forall|i: int| 0 <= i < arc.len() - 1 ==> #[trigger] arc[i] >= 128
}

proof fn lemma_arcs_apart(bytes: Seq<u8>, arc: Seq<u8>, from: int, acc: nat)
    requires
        0 <= from <= bytes.len(),
        from == bytes.len() ==> acc == 0,
        from < bytes.len() ==> bytes.last() < 128,
    ensures
        later_arcs(bytes + arc, from, acc) == later_arcs(bytes, from, acc) + later_arcs(
            bytes + arc,
            bytes.len() as int,
            0,
        ),
    decreases bytes.len() - from,
{
    if from < bytes.len() {
        let next = arc_step(acc, bytes[from]);
        if bytes[from] < 128 {
            lemma_arcs_apart(bytes, arc, from + 1, 0);
            let tail = later_arcs(bytes + arc, bytes.len() as int, 0);
            assert("."@ + dec(next) + (later_arcs(bytes, from + 1, 0) + tail) =~= "."@ + dec(next)
                + later_arcs(bytes, from + 1, 0) + tail);
        } else {
            lemma_arcs_apart(bytes, arc, from + 1, next);
        }
    } else {
        assert(later_arcs(bytes, from, acc) =~= Seq::empty());
        assert(Seq::<char>::empty() + later_arcs(bytes + arc, from, 0) =~= later_arcs(
            bytes + arc,
            from,
            0,
        ));
    }
}

proof fn lemma_seven_more_bits(x: nat, b: u8)
    ensures
        arc_step(x % (u128::MAX + 1) as nat, b) == (x * 128 + (b % 128) as nat) % (u128::MAX
            + 1) as nat,
{
    let part: int = 0x200_0000_0000_0000_0000_0000_0000_0000;
    let q = x as int / part;
    let r = x as int % part;
    assert(x == q * part + r);
    assert(u128::MAX + 1 == 128 * part);
    assert(x % (u128::MAX + 1) as nat == (q % 128) * part + r) by {
        assert(q == (q / 128) * 128 + q % 128);
        assert((q / 128) * 128 * part == (q / 128) * (128 * part)) by (nonlinear_arith);
        assert(x == (q / 128) * (128 * part) + ((q % 128) * part + r));
        vstd::arithmetic::div_mod::lemma_fundamental_div_mod_converse(
            x as int,
            128 * part,
            q / 128,
            (q % 128) * part + r,
        );
    }
    assert((x % (u128::MAX + 1) as nat) as int % part == r) by {
        vstd::arithmetic::div_mod::lemma_fundamental_div_mod_converse(
            (q % 128) * part + r,
            part,
            q % 128,
            r,
        );
    }
    let low = r * 128 + b as int % 128;
    assert(x * 128 + b as int % 128 == q * (128 * part) + low);
    vstd::arithmetic::div_mod::lemma_fundamental_div_mod_converse(
        x * 128 + b as int % 128,
        128 * part,
        q,
        low,
    );
}

proof fn lemma_one_arc(bytes: Seq<u8>, arc: Seq<u8>, k: int)
    requires
        is_arc(arc),
        0 <= k < arc.len(),
    ensures
        later_arcs(
            bytes + arc,
            bytes.len() + k,
            base128(arc.take(k)) % (u128::MAX + 1) as nat,
        ) == "."@ + dec(base128(arc) % (u128::MAX + 1) as nat),
    decreases arc.len() - k,
{
    let all = bytes + arc;
    let from = bytes.len() + k;
    let acc = base128(arc.take(k)) % (u128::MAX + 1) as nat;
    assert(all[from] == arc[k]);
    assert(arc.take(k + 1).drop_last() =~= arc.take(k));
    lemma_seven_more_bits(base128(arc.take(k)), arc[k]);
    assert(arc_step(acc, arc[k]) == base128(arc.take(k + 1))
        % (u128::MAX + 1) as nat);
    if k + 1 < arc.len() {
        lemma_one_arc(bytes, arc, k + 1);
    } else {
        assert(arc.take(k + 1) =~= arc);
        reveal_with_fuel(later_arcs, 2);
        assert("."@ + dec(arc_step(acc, arc[k])) + Seq::<char>::empty() =~= "."@ + dec(
            arc_step(acc, arc[k]),
        ));
    }
}

/// The first byte packs two arcs, of which the first is at most 2; each further arc stands
/// behind a dot, as the number that its bytes make up to the base 128, in the lower 128
/// bits.
pub proof fn law_dotted_arcs(a: u8, b: u8, bytes: Seq<u8>, arc: Seq<u8>)
    ensures
        a <= 1 && b < 40 || a == 2 && b < 176 ==> dotted(seq![(40 * a + b) as u8]) == dec(a as nat)
            + "."@ + dec(b as nat),
        (bytes.len() == 1 || bytes.len() > 1 && bytes.last() < 128) && is_arc(arc) ==> dotted(
            bytes + arc,
        ) == dotted(bytes) + "."@ + dec(
            base128(arc) % (u128::MAX + 1) as nat,
        ),
{
    if a <= 1 && b < 40 || a == 2 && b < 176 {
        let one = seq![(40 * a + b) as u8];
        assert(later_arcs(one, 1, 0) =~= Seq::empty());
        assert(one[0] == 40 * a + b);
        assert(dotted(one) =~= dec(a as nat) + "."@ + dec(b as nat));
    }
    if (bytes.len() == 1 || bytes.len() > 1 && bytes.last() < 128) && is_arc(arc) {
        lemma_arcs_apart(bytes, arc, 1, 0);
        lemma_one_arc(bytes, arc, 0);
        assert(arc.take(0) =~= Seq::empty());
        assert((bytes + arc)[0] == bytes[0]);
        assert(dotted(bytes + arc) =~= dotted(bytes) + "."@ + dec(
            base128(arc) % (u128::MAX + 1) as nat,
        ));
    }
}

} // verus!
