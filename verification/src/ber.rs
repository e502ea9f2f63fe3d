//! BER tag-length-value coding with one- and two-byte tags and definite lengths
//! of up to four length octets.

use crate::bytes::{be2, be4, be_nat, push_all, u16_be, u32_be};
use vstd::prelude::*;
use vstd::slice::slice_subrange;

verus! {

/// Universal BOOLEAN.
pub const TAG_BOOLEAN: u16 = 0x01;

/// Universal INTEGER.
pub const TAG_INTEGER: u16 = 0x02;

/// Universal BIT STRING.
pub const TAG_BIT_STRING: u16 = 0x03;

/// Universal OCTET STRING.
pub const TAG_OCTET_STRING: u16 = 0x04;

/// Universal OBJECT IDENTIFIER.
pub const TAG_OID: u16 = 0x06;

/// Universal UTF8String.
pub const TAG_UTF8_STRING: u16 = 0x0C;

/// Universal PrintableString.
pub const TAG_PRINTABLE_STRING: u16 = 0x13;

/// Universal SEQUENCE.
pub const TAG_SEQUENCE: u16 = 0x30;

/// Universal SET.
pub const TAG_SET: u16 = 0x31;

/// Why bytes hold no data object.
#[derive(Debug, Clone, Copy, PartialEq, Eq, Structural)]
pub enum BerError {
    /// The bytes end inside the tag, the length or the value.
    Truncated,
    /// The length is indefinite or has more than four octets.
    Length,
    /// The data object has another tag than the expected one.
    UnexpectedTag {
        /// The tag that was read.
        got: u16,
    },
}

/// A data object at the start of a byte string: its tag, its value and the
/// number of bytes it takes.
#[verifier::ext_equal]
pub struct TlvView {
    pub tag: u16,
    pub value: Seq<u8>,
    pub size: int,
}

/// Number of tag bytes: two when the low five bits of the first are all set.
pub open spec fn tag_size(first: u8) -> int {
    if first % 32 == 31 {
        2
    } else {
        1
    }
}

/// Number of length octets behind the first.
pub open spec fn extra_length_octets(first: u8) -> int {
    if first < 0x80 {
        0
    } else {
        first - 0x80
    }
}

/// The data object at the start of `bytes`.
pub open spec fn first_tlv(bytes: Seq<u8>) -> Result<TlvView, BerError> {
    if bytes.len() == 0 {
        Err(BerError::Truncated)
    } else {
        let t = tag_size(bytes[0]);
        if bytes.len() < t + 1 {
            Err(BerError::Truncated)
        } else {
            let tag = be_nat(bytes.take(t)) as u16;
            let extra = extra_length_octets(bytes[t]);
            if bytes[t] == 0x80 || extra > 4 {
                Err(BerError::Length)
            } else if bytes.len() < t + 1 + extra {
                Err(BerError::Truncated)
            } else {
                let start = t + 1 + extra;
                let len = if extra == 0 {
                    bytes[t] as int
                } else {
                    be_nat(bytes.subrange(t + 1, start)) as int
                };
                if bytes.len() < start + len {
                    Err(BerError::Truncated)
                } else {
                    Ok(
                        TlvView {
                            tag,
                            value: bytes.subrange(start, start + len),
                            size: start + len,
                        },
                    )
                }
            }
        }
    }
}

/// The data objects that `bytes` hold one after the other, up to the first place
/// where none can be read.
pub open spec fn tlv_items(bytes: Seq<u8>) -> Seq<TlvView>
    decreases bytes.len(),
{
    match first_tlv(bytes) {
        Err(_) => Seq::empty(),
        Ok(tlv) => if 0 < tlv.size <= bytes.len() {
            seq![tlv] + tlv_items(bytes.skip(tlv.size))
        } else {
            Seq::empty()
        },
    }
}

/// The data objects take up all of `bytes`.
pub open spec fn tlv_clean(bytes: Seq<u8>) -> bool
    decreases bytes.len(),
{
    bytes.len() == 0 || match first_tlv(bytes) {
        Err(_) => false,
        Ok(tlv) => 0 < tlv.size <= bytes.len() && tlv_clean(bytes.skip(tlv.size)),
    }
}

/// A data object borrowed from the bytes it was read from.
#[derive(Debug, Clone, Copy)]
pub struct BerTlvAny<'a> {
    /// The tag, one or two bytes.
    pub tag: u16,
    /// The value bytes.
    pub value: &'a [u8],
}

proof fn lemma_be_nat_2(a: u8, b: u8)
    ensures
        be_nat(seq![a, b]) == a * 256 + b,
        be_nat(seq![a]) == a,
{
    let s = seq![a, b];
    assert(s.drop_last() =~= seq![a]);
    assert(seq![a].drop_last() =~= Seq::<u8>::empty());
    reveal_with_fuel(be_nat, 3);
}

proof fn lemma_be_nat_push(s: Seq<u8>, b: u8)
    ensures
        be_nat(s.push(b)) == be_nat(s) * 256 + b,
{
    assert(s.push(b).drop_last() =~= s);
}

/// `s` with at most four bytes spells a number of 32 bits.
proof fn lemma_be_nat_bound(s: Seq<u8>)
    ensures
        s.len() == 0 ==> be_nat(s) == 0,
        s.len() == 1 ==> be_nat(s) < 0x100,
        s.len() == 2 ==> be_nat(s) < 0x1_0000,
        s.len() == 3 ==> be_nat(s) < 0x100_0000,
        s.len() == 4 ==> be_nat(s) < 0x1_0000_0000,
    decreases s.len(),
{
    if 0 < s.len() <= 4 {
        lemma_be_nat_bound(s.drop_last());
    }
}

impl<'a> BerTlvAny<'a> {
    /// Read the data object at the start of `bytes`; also gives the number of
    /// bytes it takes.
    pub fn read(bytes: &'a [u8]) -> (r: Result<(BerTlvAny<'a>, usize), BerError>)
        ensures
            r is Ok <==> first_tlv(bytes@) is Ok,
            r matches Ok((t, n)) ==> {
                &&& first_tlv(bytes@) == Ok::<TlvView, BerError>(
                    TlvView { tag: t.tag, value: t.value@, size: n as int },
                )
                &&& 0 < n <= bytes@.len()
            },
            r matches Err(e) ==> first_tlv(bytes@) == Err::<TlvView, BerError>(e),
    {
        if bytes.len() == 0 {
            return Err(BerError::Truncated);
        }
        let t: usize = if bytes[0] % 32 == 31 {
            2
        } else {
            1
        };
        if bytes.len() < t + 1 {
            return Err(BerError::Truncated);
        }
        let tag: u16 = if t == 2 {
            bytes[0] as u16 * 256 + bytes[1] as u16
        } else {
            bytes[0] as u16
        };
        proof {
            if t == 2 {
                assert(bytes@.take(2) =~= seq![bytes@[0], bytes@[1]]);
                lemma_be_nat_2(bytes@[0], bytes@[1]);
            } else {
                assert(bytes@.take(1) =~= seq![bytes@[0]]);
                lemma_be_nat_2(bytes@[0], 0);
            }
        }
        let first: u8 = bytes[t];
        let extra: usize = if first < 0x80 {
            0
        } else {
            (first - 0x80) as usize
        };
        if first == 0x80 || extra > 4 {
            return Err(BerError::Length);
        }
        if bytes.len() < t + 1 + extra {
            return Err(BerError::Truncated);
        }
        let start: usize = t + 1 + extra;
        let mut len: u64 = 0;
        if extra == 0 {
            len = first as u64;
        } else {
            let mut i: usize = 0;
            while i < extra
                invariant
                    i <= extra <= 4,
                    start == t + 1 + extra,
                    start <= bytes@.len(),
                    1 <= t <= 2,
                    len == be_nat(bytes@.subrange(t + 1, t + 1 + i)),
                decreases extra - i,
            {
                proof {
                    lemma_be_nat_bound(bytes@.subrange(t + 1, t + 1 + i));
                    lemma_be_nat_push(bytes@.subrange(t + 1, t + 1 + i), bytes@[t + 1 + i]);
                    assert(bytes@.subrange(t + 1, t + 1 + i).push(bytes@[t + 1 + i])
                        =~= bytes@.subrange(t + 1, t + 1 + i + 1));
                }
                len = len * 256 + bytes[t + 1 + i] as u64;
                i += 1;
            }
            assert(bytes@.subrange(t + 1, start as int) =~= bytes@.subrange(t + 1, t + 1 + i));
        }
        if ((bytes.len() - start) as u64) < len {
            return Err(BerError::Truncated);
        }
        let n: usize = start + len as usize;
        Ok((BerTlvAny { tag, value: slice_subrange(bytes, start, n) }, n))
    }

    /// Read the data object at the start of `bytes`. What follows it is ignored.
    pub fn parse(bytes: &'a [u8]) -> (r: Result<BerTlvAny<'a>, BerError>)
        ensures
            r is Ok <==> first_tlv(bytes@) is Ok,
            r matches Ok(t) ==> first_tlv(bytes@)->Ok_0.tag == t.tag && first_tlv(
                bytes@,
            )->Ok_0.value == t.value@,
            r matches Err(e) ==> first_tlv(bytes@) == Err::<TlvView, BerError>(e),
    {
        match BerTlvAny::read(bytes) {
            Ok((t, _)) => Ok(t),
            Err(e) => Err(e),
        }
    }

    /// Read the data object at the start of `bytes`, which must carry `tag`.
    pub fn parse_tagged(bytes: &'a [u8], tag: u16) -> (r: Result<&'a [u8], BerError>)
        ensures
            tagged_view(r) == tagged(bytes@, tag),
    {
        match BerTlvAny::read(bytes) {
            Ok((t, _)) => if t.tag == tag {
                Ok(t.value)
            } else {
                Err(BerError::UnexpectedTag { got: t.tag })
            },
            Err(e) => Err(e),
        }
    }
}

/// The value of the data object at the start of `bytes` when it carries `tag`.
pub open spec fn tagged(bytes: Seq<u8>, tag: u16) -> Result<Seq<u8>, BerError> {
    match first_tlv(bytes) {
        Ok(t) => if t.tag == tag {
            Ok(t.value)
        } else {
            Err(BerError::UnexpectedTag { got: t.tag })
        },
        Err(e) => Err(e),
    }
}

/// The view of a tagged read.
pub open spec fn tagged_view(r: Result<&[u8], BerError>) -> Result<Seq<u8>, BerError> {
    match r {
        Ok(v) => Ok(v@),
        Err(e) => Err(e),
    }
}

/// The data objects of a byte string, in order, and whether they take up all of
/// it.
#[derive(Debug)]
pub struct BerBody<'a> {
    /// The data objects.
    pub items: Vec<BerTlvAny<'a>>,
    /// No unreadable bytes follow them.
    pub clean: bool,
}

/// Two item lists say the same.
pub open spec fn same_items(items: Seq<BerTlvAny<'_>>, views: Seq<TlvView>) -> bool {
    &&& items.len() == views.len()
    &&& forall|i: int|
        0 <= i < items.len() ==> (#[trigger] items[i]).tag == views[i].tag && items[i].value@
            == views[i].value
}

impl<'a> BerBody<'a> {
    /// Read every data object of `bytes`.
    pub fn read(bytes: &'a [u8]) -> (r: BerBody<'a>)
        ensures
            same_items(r.items@, tlv_items(bytes@)),
            r.clean == tlv_clean(bytes@),
    {
        let mut items: Vec<BerTlvAny<'a>> = Vec::new();
        let mut at: usize = 0;
        let ghost mut views: Seq<TlvView> = Seq::empty();
        proof {
            assert(bytes@.skip(0) =~= bytes@);
            assert(views + tlv_items(bytes@) =~= tlv_items(bytes@));
        }
        while at < bytes.len()
            invariant
                at <= bytes@.len(),
                same_items(items@, views),
                views + tlv_items(bytes@.skip(at as int)) == tlv_items(bytes@),
                tlv_clean(bytes@.skip(at as int)) == tlv_clean(bytes@),
            decreases bytes@.len() - at,
        {
            let rest = slice_subrange(bytes, at, bytes.len());
            assert(rest@ =~= bytes@.skip(at as int));
            match BerTlvAny::read(rest) {
                Ok((tlv, n)) => {
                    proof {
                        let v = first_tlv(rest@)->Ok_0;
                        assert(rest@.skip(n as int) =~= bytes@.skip(at + n));
                        assert(views + tlv_items(rest@) =~= views.push(v) + tlv_items(
                            bytes@.skip(at + n),
                        ));
                        views = views.push(v);
                    }
                    items.push(tlv);
                    at += n;
                },
                Err(_) => {
                    assert(views + tlv_items(rest@) =~= views);
                    return BerBody { items, clean: false };
                },
            }
        }
        proof {
            assert(bytes@.skip(at as int) =~= Seq::<u8>::empty());
            assert(first_tlv(Seq::<u8>::empty()) is Err);
            assert(views + tlv_items(bytes@.skip(at as int)) =~= views);
        }
        BerBody { items, clean: true }
    }
}

/// The length octets of a value of `len` bytes in their shortest form. Past 32
/// bits there are none.
pub open spec fn length_octets(len: int) -> Seq<u8> {
    if len < 0x80 {
        seq![len as u8]
    } else if len <= 0xFF {
        seq![0x81u8, len as u8]
    } else if len <= 0xFFFF {
        seq![0x82u8] + be2(len)
    } else if len <= 0xFF_FFFF {
        seq![0x83u8] + be4(len).skip(1)
    } else if len <= 0xFFFF_FFFF {
        seq![0x84u8] + be4(len)
    } else {
        Seq::empty()
    }
}

/// A data object with a one-byte tag.
pub open spec fn tlv_bytes(tag: u8, value: Seq<u8>) -> Seq<u8> {
    seq![tag] + length_octets(value.len() as int) + value
}

/// A data object with a two-byte tag.
pub open spec fn tlv2_bytes(tag: u16, value: Seq<u8>) -> Seq<u8> {
    be2(tag as int) + length_octets(value.len() as int) + value
}

fn push_length(out: &mut Vec<u8>, len: usize)
    ensures
        final(out)@ == old(out)@ + length_octets(len as int),
{
    let ghost start = out@;
    if len < 0x80 {
        out.push(len as u8);
    } else if len <= 0xFF {
        out.push(0x81);
        out.push(len as u8);
    } else if len <= 0xFFFF {
        out.push(0x82);
        let octets = u16_be(len as u16);
        push_all(out, octets.as_slice());
    } else if len <= 0xFF_FFFF {
        out.push(0x83);
        let octets = u32_be(len as u32);
        push_all(out, slice_subrange(octets.as_slice(), 1, 4));
    } else if len <= 0xFFFF_FFFF {
        out.push(0x84);
        let octets = u32_be(len as u32);
        push_all(out, octets.as_slice());
    }
    assert(out@ =~= start + length_octets(len as int));
}

/// Encode a data object with a one-byte tag.
pub fn tlv(tag: u8, value: &[u8]) -> (r: Vec<u8>)
    ensures
        r@ == tlv_bytes(tag, value@),
{
    let mut out = vec![tag];
    push_length(&mut out, value.len());
    push_all(&mut out, value);
    assert(out@ =~= tlv_bytes(tag, value@));
    out
}

/// Encode a data object with a two-byte tag.
pub fn tlv2(tag: u16, value: &[u8]) -> (r: Vec<u8>)
    ensures
        r@ == tlv2_bytes(tag, value@),
{
    let mut out = u16_be(tag);
    push_length(&mut out, value.len());
    push_all(&mut out, value);
    assert(out@ =~= tlv2_bytes(tag, value@));
    out
}

proof fn lemma_be_nat_octets(len: int)
    requires
        0x80 <= len <= 0xFFFF_FFFF,
    ensures
        ({
            let octets = length_octets(len);
            let extra = extra_length_octets(octets[0]);
            &&& octets.len() == 1 + extra
            &&& 1 <= extra <= 4
            &&& octets[0] > 0x80
            &&& be_nat(octets.skip(1)) == len
        }),
{
    let octets = length_octets(len);
    let body = octets.skip(1);
    reveal_with_fuel(be_nat, 5);
    if len <= 0xFF {
        assert(body =~= seq![len as u8]);
        lemma_be_nat_2(len as u8, 0);
    } else if len <= 0xFFFF {
        assert(body =~= seq![(len / 256 % 256) as u8, (len % 256) as u8]);
        lemma_be_nat_2((len / 256 % 256) as u8, (len % 256) as u8);
    } else if len <= 0xFF_FFFF {
        let a = (len / 0x1_0000 % 256) as u8;
        let b = (len / 256 % 256) as u8;
        let c = (len % 256) as u8;
        assert(body =~= seq![a, b].push(c));
        lemma_be_nat_2(a, b);
        lemma_be_nat_push(seq![a, b], c);
    } else {
        let a = (len / 0x100_0000 % 256) as u8;
        let b = (len / 0x1_0000 % 256) as u8;
        let c = (len / 256 % 256) as u8;
        let d = (len % 256) as u8;
        assert(body =~= seq![a, b].push(c).push(d));
        lemma_be_nat_2(a, b);
        lemma_be_nat_push(seq![a, b], c);
        lemma_be_nat_push(seq![a, b].push(c), d);
    }
}

/// Reading gives back what encoding wrote: an encoded data object with a
/// one-byte tag is read back with its tag and value, whatever follows it.
pub proof fn law_tlv_round_trip(tag: u8, value: Seq<u8>, rest: Seq<u8>)
    requires
        tag % 32 != 31,
        value.len() <= 0xFFFF_FFFF,
    ensures
        first_tlv(tlv_bytes(tag, value) + rest) == Ok::<TlvView, BerError>(
            TlvView { tag: tag as u16, value, size: tlv_bytes(tag, value).len() as int },
        ),
{
    let octets = length_octets(value.len() as int);
    let all = tlv_bytes(tag, value) + rest;
    assert(all[0] == tag);
    assert(all.take(1) =~= seq![tag]);
    lemma_be_nat_2(tag, 0);
    let len = value.len() as int;
    if len < 0x80 {
        assert(octets =~= seq![len as u8]);
        assert(all[1] == len as u8);
        assert(all.subrange(2, 2 + len) =~= value);
    } else {
        lemma_be_nat_octets(len);
        let extra = extra_length_octets(octets[0]);
        assert(all[1] == octets[0]);
        assert(all.subrange(2, 2 + extra) =~= octets.skip(1));
        assert(all.subrange(2 + extra, 2 + extra + len) =~= value);
    }
}

/// The data objects of two encodings in a row are those of the first followed by
/// those of the second.
pub proof fn law_tlv_sequence(tag: u8, value: Seq<u8>, rest: Seq<u8>)
    requires
        tag % 32 != 31,
        value.len() <= 0xFFFF_FFFF,
    ensures
        tlv_items(tlv_bytes(tag, value) + rest) == seq![
            TlvView { tag: tag as u16, value, size: tlv_bytes(tag, value).len() as int },
        ] + tlv_items(rest),
        tlv_clean(tlv_bytes(tag, value) + rest) == tlv_clean(rest),
{
    law_tlv_round_trip(tag, value, rest);
    let one = tlv_bytes(tag, value);
    assert((one + rest).skip(one.len() as int) =~= rest);
}

/// The bytes of a data object: tag, length in the shortest form, value.
pub proof fn law_tlv_layout(tag: u8, value: Seq<u8>)
    ensures
        ({
            let n = value.len() as int;
            let all = tlv_bytes(tag, value);
            &&& n < 0x80 ==> all == seq![tag, n as u8] + value
            &&& 0x80 <= n < 0x100 ==> all == seq![tag, 0x81u8, n as u8] + value
            &&& 0x100 <= n < 0x1_0000 ==> all == seq![
                tag,
                0x82u8,
                (n / 256) as u8,
                (n % 256) as u8,
            ] + value
            &&& 0x1_0000 <= n < 0x100_0000 ==> all == seq![
                tag,
                0x83u8,
                (n / 0x1_0000) as u8,
                (n / 256 % 256) as u8,
                (n % 256) as u8,
            ] + value
            &&& 0x100_0000 <= n < 0x1_0000_0000 ==> all == seq![
                tag,
                0x84u8,
                (n / 0x100_0000) as u8,
                (n / 0x1_0000 % 256) as u8,
                (n / 256 % 256) as u8,
                (n % 256) as u8,
            ] + value
        }),
{
    let n = value.len() as int;
    let all = tlv_bytes(tag, value);
    if n < 0x80 {
        assert(all =~= seq![tag, n as u8] + value);
    } else if n < 0x100 {
        assert(all =~= seq![tag, 0x81u8, n as u8] + value);
    } else if n < 0x1_0000 {
        assert(all =~= seq![tag, 0x82u8, (n / 256) as u8, (n % 256) as u8] + value);
    } else if n < 0x100_0000 {
        assert(all =~= seq![
            tag,
            0x83u8,
            (n / 0x1_0000) as u8,
            (n / 256 % 256) as u8,
            (n % 256) as u8,
        ] + value);
    } else if n < 0x1_0000_0000 {
        assert(all =~= seq![
            tag,
            0x84u8,
            (n / 0x100_0000) as u8,
            (n / 0x1_0000 % 256) as u8,
            (n / 256 % 256) as u8,
            (n % 256) as u8,
        ] + value);
    }
}

/// What a header of one tag byte announces: a length below 128 in its own byte, or the
/// big-endian number in the announced count of one to four bytes. What is announced must be
/// there in full, and is the value.
pub proof fn law_header_announces_value(bytes: Seq<u8>)
    requires
        bytes.len() >= 2,
        bytes[0] % 32 != 31,
    ensures
        ({
            let b = bytes;
            let read = first_tlv(b);
            &&& b[1] < 0x80 ==> announces(read, b, 2, b[1] as int)
            &&& b[1] == 0x81 && b.len() >= 3 ==> announces(read, b, 3, b[2] as int)
            &&& b[1] == 0x82 && b.len() >= 4 ==> announces(read, b, 4, b[2] * 256 + b[3])
            &&& b[1] == 0x83 && b.len() >= 5 ==> announces(
                read,
                b,
                5,
                b[2] * 0x1_0000 + b[3] * 256 + b[4],
            )
            &&& b[1] == 0x84 && b.len() >= 6 ==> announces(
                read,
                b,
                6,
                b[2] * 0x100_0000 + b[3] * 0x1_0000 + b[4] * 256 + b[5],
            )
            &&& b[1] == 0x80 || b[1] > 0x84 ==> read == Err::<TlvView, BerError>(BerError::Length)
        }),
{
    reveal_with_fuel(be_nat, 5);
    let b = bytes;
    assert(b.take(1).drop_last() =~= Seq::<u8>::empty());
    assert(be_nat(b.take(1)) == b[0]);
    if 0x81 <= b[1] <= 0x84 && b.len() >= 2 + (b[1] - 0x80) {
        let o = b.subrange(2, 2 + (b[1] - 0x80));
        if b[1] == 0x81 {
            assert(o.drop_last() =~= Seq::<u8>::empty());
        } else if b[1] == 0x82 {
            assert(o.drop_last() =~= seq![b[2]]);
            assert(seq![b[2]].drop_last() =~= Seq::<u8>::empty());
        } else if b[1] == 0x83 {
            assert(o.drop_last() =~= seq![b[2], b[3]]);
            assert(seq![b[2], b[3]].drop_last() =~= seq![b[2]]);
            assert(seq![b[2]].drop_last() =~= Seq::<u8>::empty());
        } else {
            assert(o.drop_last() =~= seq![b[2], b[3], b[4]]);
            assert(seq![b[2], b[3], b[4]].drop_last() =~= seq![b[2], b[3]]);
            assert(seq![b[2], b[3]].drop_last() =~= seq![b[2]]);
            assert(seq![b[2]].drop_last() =~= Seq::<u8>::empty());
        }
    }
}

/// `read` is the data object of `bytes` whose value has `len` bytes behind `header` bytes,
/// or says that they are not all there.
pub open spec fn announces(
    read: Result<TlvView, BerError>,
    bytes: Seq<u8>,
    header: int,
    len: int,
) -> bool {
    if header + len <= bytes.len() {
        &&& read matches Ok(t)
        &&& t.tag == bytes[0]
        &&& t.value.len() == len && t.size == header + len
        &&& forall|i: int| 0 <= i < len ==> #[trigger] t.value[i] == bytes[header + i]
    } else {
        read == Err::<TlvView, BerError>(BerError::Truncated)
    }
}

/// A tag whose low five bits are all set has a second byte, and counts as the number of the
/// two; length and value follow as behind a tag of one byte.
pub proof fn law_two_byte_tags(high: u8, low: u8, rest: Seq<u8>)
    requires
        high % 32 == 31,
        rest.len() > 0,
    ensures
        first_tlv(seq![high, low] + rest) == match first_tlv(seq![0x04u8] + rest) {
            Ok(t) => Ok::<TlvView, BerError>(
                TlvView { tag: (256 * high + low) as u16, value: t.value, size: t.size + 1 },
            ),
            Err(e) => Err(e),
        },
        first_tlv(seq![high, low]) == Err::<TlvView, BerError>(BerError::Truncated),
        first_tlv(seq![high]) == Err::<TlvView, BerError>(BerError::Truncated),
{
    let long = seq![high, low] + rest;
    let short = seq![0x04u8] + rest;
    assert(long.take(2) =~= seq![high, low]);
    lemma_be_nat_2(high, low);
    assert(long[2] == rest[0] && short[1] == rest[0]);
    let extra = extra_length_octets(rest[0]);
    if rest[0] != 0x80 && extra <= 4 && rest.len() >= 1 + extra {
        assert(long.subrange(3, 3 + extra) =~= rest.subrange(1, 1 + extra));
        assert(short.subrange(2, 2 + extra) =~= rest.subrange(1, 1 + extra));
        let len = if extra == 0 {
            rest[0] as int
        } else {
            be_nat(rest.subrange(1, 1 + extra)) as int
        };
        if rest.len() >= 1 + extra + len {
            assert(long.subrange(3 + extra, 3 + extra + len) =~= rest.subrange(
                1 + extra,
                1 + extra + len,
            ));
            assert(short.subrange(2 + extra, 2 + extra + len) =~= rest.subrange(
                1 + extra,
                1 + extra + len,
            ));
        }
    }
}

/// A data object with a tag of two bytes is one with a tag of one byte behind the first.
pub proof fn law_two_byte_tag_layout(high: u8, low: u8, value: Seq<u8>)
    ensures
        tlv2_bytes((256 * high + low) as u16, value) == seq![high] + tlv_bytes(low, value),
{
    assert(tlv2_bytes((256 * high + low) as u16, value) =~= seq![high] + tlv_bytes(low, value));
}

} // verus!
