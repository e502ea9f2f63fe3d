//! Small operations on byte strings shared by the protocol modules.

use vstd::arithmetic::div_mod::{lemma_fundamental_div_mod, lemma_mod_multiples_vanish,
    lemma_small_mod};
use vstd::arithmetic::power::pow;
use vstd::prelude::*;
use vstd::slice::slice_to_vec;
use vstd::utf8::{encode_utf8, encode_utf8_decode_utf8, encode_utf8_valid_utf8, is_ascii_chars,
    is_ascii_chars_encode_utf8, valid_utf8};

verus! {

/// The big-endian number that `bytes` spells.
pub open spec fn be_nat(bytes: Seq<u8>) -> nat
    decreases bytes.len(),
{
    if bytes.len() == 0 {
        0
    } else {
        be_nat(bytes.drop_last()) * 256 + bytes.last() as nat
    }
}

/// The two big-endian bytes of `n`.
pub open spec fn be2(n: int) -> Seq<u8> {
    seq![(n / 256 % 256) as u8, (n % 256) as u8]
}

/// The four big-endian bytes of `n`.
pub open spec fn be4(n: int) -> Seq<u8> {
    seq![
        (n / 0x100_0000 % 256) as u8,
        (n / 0x1_0000 % 256) as u8,
        (n / 256 % 256) as u8,
        (n % 256) as u8,
    ]
}

/// `needle` occurs somewhere in `hay`.
pub open spec fn occurs_in<A>(needle: Seq<A>, hay: Seq<A>) -> bool {
    exists|i: int|
        #![trigger hay.subrange(i, i + needle.len())]
        0 <= i && i + needle.len() <= hay.len() && hay.subrange(i, i + needle.len()) == needle
}

/// Append `tail` to `out`.
pub fn push_all(out: &mut Vec<u8>, tail: &[u8])
    ensures
        final(out)@ == old(out)@ + tail@,
{
    out.extend_from_slice(tail);
    assert(out@ =~= old(out)@ + tail@);
}

/// An owned copy of `bytes[from..to]`.
pub fn copy_range(bytes: &[u8], from: usize, to: usize) -> (out: Vec<u8>)
    requires
        from <= to <= bytes@.len(),
    ensures
        out@ == bytes@.subrange(from as int, to as int),
{
    slice_to_vec(vstd::slice::slice_subrange(bytes, from, to))
}

/// Whether two byte strings are equal.
pub fn same_bytes(a: &[u8], b: &[u8]) -> (r: bool)
    ensures
        r == (a@ == b@),
{
    if a.len() != b.len() {
        return false;
    }
    let mut i: usize = 0;
    while i < a.len()
        invariant
            a@.len() == b@.len(),
            i <= a@.len(),
            forall|j: int| 0 <= j < i ==> a@[j] == b@[j],
        decreases a@.len() - i,
    {
        if a[i] != b[i] {
            return false;
        }
        i += 1;
    }
    assert(a@ =~= b@);
    true
}

/// Whether `bytes` holds `prefix` at offset `at`.
pub fn holds_at(bytes: &[u8], at: usize, prefix: &[u8]) -> (r: bool)
    requires
        at <= bytes@.len(),
    ensures
        r == (at + prefix@.len() <= bytes@.len() && bytes@.subrange(
            at as int,
            at + prefix@.len(),
        ) == prefix@),
{
    if bytes.len() - at < prefix.len() {
        return false;
    }
    same_bytes(vstd::slice::slice_subrange(bytes, at, at + prefix.len()), prefix)
}

/// Whether `needle` occurs in `hay`.
pub fn contains_bytes(hay: &[u8], needle: &[u8]) -> (r: bool)
    ensures
        r == occurs_in(needle@, hay@),
{
    if needle.len() > hay.len() {
        return false;
    }
    let last: usize = hay.len() - needle.len();
    let mut i: usize = 0;
    while i <= last
        invariant
            last == hay@.len() - needle@.len(),
            i <= last + 1,
            last < usize::MAX || i <= last,
            forall|j: int|
                #![trigger hay@.subrange(j, j + needle@.len())]
                0 <= j < i ==> hay@.subrange(j, j + needle@.len()) != needle@,
        decreases last + 1 - i,
    {
        if holds_at(hay, i, needle) {
            return true;
        }
        if i == last {
            return false;
        }
        i += 1;
    }
    false
}

/// The two big-endian bytes of a 16-bit number.
pub fn u16_be(n: u16) -> (r: Vec<u8>)
    ensures
        r@ == be2(n as int),
{
    let hi: u8 = (n / 256) as u8;
    let lo: u8 = (n % 256) as u8;
    let r = vec![hi, lo];
    assert(r@ =~= be2(n as int));
    r
}

/// The four big-endian bytes of a 32-bit number.
pub fn u32_be(n: u32) -> (r: Vec<u8>)
    ensures
        r@ == be4(n as int),
{
    let a: u8 = (n / 0x100_0000) as u8;
    let b: u8 = (n / 0x1_0000 % 256) as u8;
    let c: u8 = (n / 256 % 256) as u8;
    let d: u8 = (n % 256) as u8;
    let r = vec![a, b, c, d];
    assert(r@ =~= be4(n as int));
    r
}

/// Every byte is below 128.
pub open spec fn all_ascii(bytes: Seq<u8>) -> bool {
    forall|i: int| 0 <= i < bytes.len() ==> #[trigger] bytes[i] < 128
}

/// The characters that ASCII bytes spell.
pub open spec fn ascii_chars(bytes: Seq<u8>) -> Seq<char> {
    Seq::new(bytes.len(), |i: int| bytes[i] as char)
}

/// ASCII bytes are the UTF-8 encoding of their characters.
pub proof fn lemma_ascii_utf8(bytes: Seq<u8>)
    requires
        all_ascii(bytes),
    ensures
        encode_utf8(ascii_chars(bytes)) == bytes,
        valid_utf8(bytes),
{
    let chars = ascii_chars(bytes);
    assert(is_ascii_chars(chars)) by {
        assert forall|i: int| 0 <= i < chars.len() implies '\0' <= #[trigger] chars[i] <= '\u{7f}' by {
            assert(bytes[i] < 128);
        }
    }
    is_ascii_chars_encode_utf8(chars);
    assert(encode_utf8(chars) =~= bytes) by {
        assert forall|i: int| 0 <= i < bytes.len() implies encode_utf8(chars)[i] == bytes[i] by {
            assert(bytes[i] < 128);
        }
    }
    encode_utf8_valid_utf8(chars);
}

/// Text is determined by its UTF-8 encoding.
pub proof fn lemma_utf8_injective(a: Seq<char>, b: Seq<char>)
    requires
        encode_utf8(a) == encode_utf8(b),
    ensures
        a == b,
{
    encode_utf8_decode_utf8(a);
    encode_utf8_decode_utf8(b);
}

/// [`String::from_utf8`]: the text whose UTF-8 encoding is `bytes`, or `None`
/// when `bytes` is not well-formed UTF-8.
#[verifier::external_body]
pub(crate) fn text_from_utf8(bytes: Vec<u8>) -> (r: Option<String>)
    ensures
        r is Some <==> valid_utf8(bytes@),
        r matches Some(s) ==> encode_utf8(s@) == bytes@,
{
    String::from_utf8(bytes).ok()
}

/// What [`String::from_utf8_lossy`] makes of bytes.
pub uninterp spec fn utf8_lossy(bytes: Seq<u8>) -> Seq<char>;

/// [`String::from_utf8_lossy`]: the text that `bytes` encode, with a replacement
/// character for what is not UTF-8. Well-formed UTF-8 is taken as it is.
#[verifier::external_body]
pub(crate) fn text_from_utf8_lossy(bytes: &[u8]) -> (r: String)
    ensures
        r@ == utf8_lossy(bytes@),
        valid_utf8(bytes@) ==> encode_utf8(r@) == bytes@,
{
    String::from_utf8_lossy(bytes).into_owned()
}

/// The number that `bytes` spell, reduced by `modulus`.
pub fn be_mod(bytes: &[u8], modulus: u128) -> (r: u128)
    requires
        0 < modulus <= 0x1_0000_0000_0000_0000,
    ensures
        r == be_nat(bytes@) % (modulus as nat),
        r < modulus,
{
    let mut v: u128 = 0;
    let mut i: usize = 0;
    proof {
        assert(be_nat(bytes@.take(0)) == 0);
        lemma_small_mod(0, modulus as nat);
    }
    while i < bytes.len()
        invariant
            i <= bytes@.len(),
            0 < modulus <= 0x1_0000_0000_0000_0000,
            v < modulus,
            v == be_nat(bytes@.take(i as int)) % (modulus as nat),
        decreases bytes@.len() - i,
    {
        proof {
            let t = bytes@.take(i + 1);
            assert(t.drop_last() =~= bytes@.take(i as int));
            let whole = be_nat(t.drop_last()) as int;
            let m = modulus as int;
            let b = t.last() as int;
            lemma_mod_mul_add(whole, m, b);
        }
        v = (v * 256 + bytes[i] as u128) % modulus;
        i += 1;
    }
    assert(bytes@.take(i as int) =~= bytes@);
    v
}

proof fn lemma_mod_mul_add(whole: int, m: int, b: int)
    requires
        m > 0,
    ensures
        (whole % m * 256 + b) % m == (whole * 256 + b) % m,
{
    lemma_fundamental_div_mod(whole, m);
    let q = whole / m;
    assert(whole * 256 + b == m * (q * 256) + (whole % m * 256 + b)) by (nonlinear_arith)
        requires
            whole == m * q + whole % m,
    ;
    lemma_mod_multiples_vanish(q * 256, whole % m * 256 + b, m);
}

/// The text that ASCII bytes spell.
pub fn text_from_ascii(bytes: &[u8]) -> (r: String)
    requires
        all_ascii(bytes@),
    ensures
        r@ == ascii_chars(bytes@),
{
    proof {
        lemma_ascii_utf8(bytes@);
    }
    match text_from_utf8(slice_to_vec(bytes)) {
        Some(s) => {
            proof {
                lemma_utf8_injective(s@, ascii_chars(bytes@));
            }
            s
        },
        None => String::new(),
    }
}

/// The first byte of a big-endian number weighs 256 to the number of bytes behind it.
pub proof fn law_first_byte_weighs_most(first: u8, rest: Seq<u8>)
    ensures
        be_nat(seq![first]) == first,
        be_nat(seq![first] + rest) == first * pow(256, rest.len()) + be_nat(rest),
    decreases rest.len(),
{
    reveal_with_fuel(be_nat, 2);
    reveal(pow);
    assert(seq![first].drop_last() =~= Seq::<u8>::empty());
    if rest.len() == 0 {
        assert(seq![first] + rest =~= seq![first]);
    } else {
        let short = rest.drop_last();
        law_first_byte_weighs_most(first, short);
        assert((seq![first] + rest).drop_last() =~= seq![first] + short);
        let w = pow(256, short.len());
        assert(pow(256, rest.len()) == 256 * w);
        assert((first * w + be_nat(short)) * 256 == first * (256 * w) + be_nat(short) * 256)
            by (nonlinear_arith);
    }
}

/// Two and four bytes spell the number they were made of, most significant first.
pub proof fn law_numbers_spell_themselves(n: int)
    ensures
        be2(n).len() == 2 && be4(n).len() == 4,
        0 <= n < 0x1_0000 ==> be2(n)[0] * 256 + be2(n)[1] == n,
        0 <= n < 0x1_0000_0000 ==> be4(n)[0] * 0x100_0000 + be4(n)[1] * 0x1_0000 + be4(n)[2] * 256
            + be4(n)[3] == n,
{
}

} // verus!
