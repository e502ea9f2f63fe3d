//! Number rendering for messages and dotted names.

use vstd::prelude::*;
use vstd::string::*;

verus! {

/// The character of a digit below sixteen, letters in upper case.
pub open spec fn digit_char(d: int) -> char {
    if d < 10 {
        (48 + d) as char
    } else {
        (55 + d) as char
    }
}

/// The character of a digit below sixteen, letters in lower case.
pub open spec fn lower_digit_char(d: int) -> char {
    if d < 10 {
        (48 + d) as char
    } else {
        (87 + d) as char
    }
}

/// Decimal notation without leading zeros.
pub open spec fn dec(n: nat) -> Seq<char>
    decreases n,
{
    if n < 10 {
        seq![digit_char(n as int)]
    } else {
        dec(n / 10).push(digit_char((n % 10) as int))
    }
}

/// Two upper-case hexadecimal digits.
pub open spec fn hex2(b: u8) -> Seq<char> {
    seq![digit_char(b as int / 16), digit_char(b as int % 16)]
}

/// Two lower-case hexadecimal digits.
pub open spec fn lower_hex2(b: u8) -> Seq<char> {
    seq![lower_digit_char(b as int / 16), lower_digit_char(b as int % 16)]
}

/// Four upper-case hexadecimal digits.
pub open spec fn hex4(n: u16) -> Seq<char> {
    hex2((n / 256) as u8) + hex2((n % 256) as u8)
}

/// Lower-case hexadecimal notation of a byte string.
pub open spec fn lower_hex(bytes: Seq<u8>) -> Seq<char>
    decreases bytes.len(),
{
    if bytes.len() == 0 {
        Seq::empty()
    } else {
        lower_hex(bytes.drop_last()) + lower_hex2(bytes.last())
    }
}

fn digit_text(d: u8) -> (r: &'static str)
    requires
        d < 16,
    ensures
        r@ == seq![digit_char(d as int)],
{
    proof {
        reveal_strlit("0");
        reveal_strlit("1");
        reveal_strlit("2");
        reveal_strlit("3");
        reveal_strlit("4");
        reveal_strlit("5");
        reveal_strlit("6");
        reveal_strlit("7");
        reveal_strlit("8");
        reveal_strlit("9");
        reveal_strlit("A");
        reveal_strlit("B");
        reveal_strlit("C");
        reveal_strlit("D");
        reveal_strlit("E");
        reveal_strlit("F");
    }
    match d {
        0 => "0",
        1 => "1",
        2 => "2",
        3 => "3",
        4 => "4",
        5 => "5",
        6 => "6",
        7 => "7",
        8 => "8",
        9 => "9",
        10 => "A",
        11 => "B",
        12 => "C",
        13 => "D",
        14 => "E",
        _ => "F",
    }
}

fn lower_digit_text(d: u8) -> (r: &'static str)
    requires
        d < 16,
    ensures
        r@ == seq![lower_digit_char(d as int)],
{
    proof {
        reveal_strlit("a");
        reveal_strlit("b");
        reveal_strlit("c");
        reveal_strlit("d");
        reveal_strlit("e");
        reveal_strlit("f");
    }
    match d {
        10 => "a",
        11 => "b",
        12 => "c",
        13 => "d",
        14 => "e",
        15 => "f",
        _ => digit_text(d),
    }
}

/// [`String::push`]: append one character.
#[verifier::external_body]
pub(crate) fn push_char(out: &mut String, c: char)
    ensures
        final(out)@ == old(out)@.push(c),
{
    out.push(c);
}

/// A code point that is a character.
pub open spec fn is_scalar_value(code: u32) -> bool {
    code < 0xD800 || 0xE000 <= code <= 0x10_FFFF
}

/// [`char::from_u32`]: the character of a code point, `None` for surrogates and
/// numbers past the last code point.
#[verifier::external_body]
pub(crate) fn char_of(code: u32) -> (r: Option<char>)
    ensures
        r is Some <==> is_scalar_value(code),
        r matches Some(c) ==> c == code as char,
{
    char::from_u32(code)
}

/// Append `n` in decimal.
pub fn push_dec(out: &mut String, n: u128)
    ensures
        final(out)@ == old(out)@ + dec(n as nat),
    decreases n,
{
    let ghost start = out@;
    if n >= 10 {
        push_dec(out, n / 10);
    }
    let d: u8 = (n % 10) as u8;
    out.append(digit_text(d));
    proof {
        assert(dec(n as nat) =~= if n < 10 {
            seq![digit_char(n as int)]
        } else {
            dec(n as nat / 10).push(digit_char((n % 10) as int))
        });
        assert(out@ =~= start + dec(n as nat));
    }
}

/// Append two upper-case hexadecimal digits.
pub fn push_hex2(out: &mut String, b: u8)
    ensures
        final(out)@ == old(out)@ + hex2(b),
{
    let ghost start = out@;
    out.append(digit_text(b / 16));
    out.append(digit_text(b % 16));
    assert(out@ =~= start + hex2(b));
}

/// Append four upper-case hexadecimal digits.
pub fn push_hex4(out: &mut String, n: u16)
    ensures
        final(out)@ == old(out)@ + hex4(n),
{
    let ghost start = out@;
    push_hex2(out, (n / 256) as u8);
    push_hex2(out, (n % 256) as u8);
    assert(out@ =~= start + hex4(n));
}

/// Lower-case hexadecimal notation of a byte string.
pub fn hex_text(bytes: &[u8]) -> (r: String)
    ensures
        r@ == lower_hex(bytes@),
{
    let mut out = String::new();
    let mut i: usize = 0;
    while i < bytes.len()
        invariant
            i <= bytes@.len(),
            out@ == lower_hex(bytes@.take(i as int)),
        decreases bytes@.len() - i,
    {
        let b: u8 = bytes[i];
        out.append(lower_digit_text(b / 16));
        out.append(lower_digit_text(b % 16));
        i += 1;
        proof {
            let t = bytes@.take(i as int);
            assert(t.drop_last() =~= bytes@.take(i - 1));
            assert(out@ =~= lower_hex(t.drop_last()) + lower_hex2(t.last()));
        }
    }
    assert(bytes@.take(i as int) =~= bytes@);
    out
}

/// Every character of decimal notation is an ASCII digit.
pub proof fn lemma_dec_digits(n: nat)
    ensures
        dec(n).len() > 0,
        forall|i: int| 0 <= i < dec(n).len() ==> '0' <= #[trigger] dec(n)[i] <= '9',
    decreases n,
{
    if n >= 10 {
        lemma_dec_digits(n / 10);
    }
}

/// The number that decimal digits spell.
pub open spec fn spelled(digits: Seq<char>) -> int
    decreases digits.len(),
{
    if digits.len() == 0 {
        0
    } else {
        spelled(digits.drop_last()) * 10 + (digits.last() as int - '0' as int)
    }
}

/// Decimal notation spells its number with digits, without leading zeros.
pub proof fn law_decimal_spells_its_number(n: nat)
    ensures
        spelled(dec(n)) == n,
        dec(n).len() > 0,
        forall|i: int| 0 <= i < dec(n).len() ==> '0' <= #[trigger] dec(n)[i] <= '9',
        dec(n)[0] == '0' ==> n == 0 && dec(n).len() == 1,
    decreases n,
{
    if n < 10 {
        reveal_with_fuel(spelled, 2);
        assert(dec(n).drop_last() =~= Seq::<char>::empty());
    } else {
        law_decimal_spells_its_number(n / 10);
        assert(dec(n).drop_last() =~= dec(n / 10));
    }
}

/// The digits below sixteen.
pub proof fn law_digits(d: int)
    requires
        0 <= d < 16,
    ensures
        digit_char(d) == "0123456789ABCDEF"@[d],
        lower_digit_char(d) == "0123456789abcdef"@[d],
{
    reveal_strlit("0123456789ABCDEF");
    reveal_strlit("0123456789abcdef");
}

/// Hexadecimal notation spells each byte with two digits and each 16-bit number with four,
/// the most significant first.
pub proof fn law_hexadecimal_digits(b: u8, n: u16)
    ensures
        hex2(b) == seq!["0123456789ABCDEF"@[b as int / 16], "0123456789ABCDEF"@[b as int % 16]],
        hex4(n) == seq![
            "0123456789ABCDEF"@[n as int / 4096],
            "0123456789ABCDEF"@[n as int / 256 % 16],
            "0123456789ABCDEF"@[n as int / 16 % 16],
            "0123456789ABCDEF"@[n as int % 16],
        ],
{
    law_digits(b as int / 16);
    law_digits(b as int % 16);
    lemma_nibbles(n as int);
    law_digits(n as int / 4096);
    law_digits(n as int / 256 % 16);
    law_digits(n as int / 16 % 16);
    law_digits(n as int % 16);
    lemma_four_digits(n);
}

proof fn lemma_nibbles(n: int)
    requires
        0 <= n < 65536,
    ensures
        n / 256 / 16 == n / 4096,
        n % 256 / 16 == n / 16 % 16,
        n % 256 % 16 == n % 16,
        0 <= n / 4096 < 16,
{
}

proof fn lemma_four_digits(n: u16)
    ensures
        hex4(n) == seq![
            digit_char(n as int / 4096),
            digit_char(n as int / 256 % 16),
            digit_char(n as int / 16 % 16),
            digit_char(n as int % 16),
        ],
{
    lemma_nibbles(n as int);
    let high = (n / 256) as u8;
    let low = (n % 256) as u8;
    assert(high as int == n as int / 256);
    assert(low as int == n as int % 256);
    let a = hex2(high);
    let b = hex2(low);
    assert(a[0] == digit_char(n as int / 4096));
    assert(a[1] == digit_char(n as int / 256 % 16));
    assert(b[0] == digit_char(n as int / 16 % 16));
    assert(b[1] == digit_char(n as int % 16));
    assert(hex4(n) =~= seq![a[0], a[1], b[0], b[1]]);
}

/// A byte string takes two digits for each byte, in order.
pub proof fn law_hexadecimal_string(bytes: Seq<u8>, i: int)
    requires
        0 <= i < bytes.len(),
    ensures
        lower_hex(bytes).len() == 2 * bytes.len(),
        lower_hex(bytes)[2 * i] == "0123456789abcdef"@[bytes[i] as int / 16],
        lower_hex(bytes)[2 * i + 1] == "0123456789abcdef"@[bytes[i] as int % 16],
    decreases bytes.len(),
{
    let head = bytes.drop_last();
    law_digits(bytes.last() as int / 16);
    law_digits(bytes.last() as int % 16);
    assert(head.len() == 0 ==> lower_hex(head) =~= Seq::empty());
    if head.len() > 0 {
        law_hexadecimal_string(
            head,
            if i < head.len() {
                i
            } else {
                0
            },
        );
    }
}

} // verus!
