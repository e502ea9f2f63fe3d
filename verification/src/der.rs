//! DER elements, read with the `der` crate.
//!
//! A certificate is walked element by element. Where an element starts and what
//! it holds is asked of the reader of the `der` crate; the walk itself, with the
//! place where it ends, is here.

use crate::ber::{law_tlv_layout, tlv_bytes as encoded};
use crate::bytes::be_nat;
use spki::der::asn1::AnyRef;
use spki::der::{Decode, Reader, SliceReader};
use vstd::prelude::*;
use vstd::slice::slice_subrange;

verus! {

/// Longest input of the reader.
pub const DER_MAX_LEN: u32 = 0xFFFF_FFFF;

/// Identifier octets of a universal type that the reader knows.
pub open spec fn universal_tag(b: u8) -> bool {
    ||| 0x01 <= b <= 0x06
    ||| b == 0x09 || b == 0x0A || b == 0x0C || b == 0x0D
    ||| 0x12 <= b <= 0x18
    ||| b == 0x1A || b == 0x1B || b == 0x1E
    ||| b == 0x30 || b == 0x31
}

/// One identifier octet holds the whole tag.
pub open spec fn one_octet_tag(b: u8) -> bool {
    b % 32 != 31
}

/// Least length that takes `n` octets behind the first.
pub open spec fn least_long_length(n: int) -> int {
    if n == 1 {
        0x80
    } else if n == 2 {
        0x100
    } else if n == 3 {
        0x1_0000
    } else {
        0x100_0000
    }
}

/// The header at the start of `bytes` behind a one-octet tag: its size and the
/// size of the value. Lengths have their shortest form.
pub open spec fn der_header(bytes: Seq<u8>) -> Option<(int, int)> {
    if bytes.len() < 2 {
        None
    } else if !universal_tag(bytes[0]) && bytes[0] < 0x40 {
        None
    } else if bytes[1] < 0x80 {
        Some((2, bytes[1] as int))
    } else if bytes[1] == 0x80 || bytes[1] > 0x84 {
        None
    } else {
        let n = bytes[1] - 0x80;
        let len = be_nat(bytes.subrange(2, 2 + n)) as int;
        if bytes.len() < 2 + n || len < least_long_length(n) {
            None
        } else {
            Some((2 + n, len))
        }
    }
}

/// The tag at the start of `bytes` takes several octets.
pub open spec fn long_tag(bytes: Seq<u8>) -> bool {
    0 < bytes.len() <= DER_MAX_LEN && !one_octet_tag(bytes[0])
}

/// Size of the element at the start of `bytes` whose tag takes several octets.
pub uninterp spec fn long_tag_size(bytes: Seq<u8>) -> Option<nat>;

/// Value of the element that `bytes` are when its tag takes several octets.
pub uninterp spec fn long_tag_value(bytes: Seq<u8>) -> Option<Seq<u8>>;

/// Size of the element at the start of `bytes` whose tag takes one octet.
pub open spec fn short_tag_size(bytes: Seq<u8>) -> Option<nat> {
    match der_header(bytes) {
        None => None,
        Some((header, len)) => if header + len <= bytes.len() <= DER_MAX_LEN {
            Some((header + len) as nat)
        } else {
            None
        },
    }
}

/// Value of the element that `bytes` are when its tag takes one octet.
pub open spec fn short_tag_value(bytes: Seq<u8>) -> Option<Seq<u8>> {
    match der_header(bytes) {
        None => None,
        Some((header, len)) => if header + len == bytes.len() && bytes.len() <= DER_MAX_LEN {
            Some(bytes.skip(header))
        } else {
            None
        },
    }
}

/// Size of the element at the start of `bytes`.
pub open spec fn der_size(bytes: Seq<u8>) -> Option<nat> {
    if long_tag(bytes) {
        long_tag_size(bytes)
    } else {
        short_tag_size(bytes)
    }
}

/// Identifier octet and value of the element that `bytes` are, with nothing
/// behind it.
pub open spec fn der_any(bytes: Seq<u8>) -> Option<(u8, Seq<u8>)> {
    let value = if long_tag(bytes) {
        long_tag_value(bytes)
    } else {
        short_tag_value(bytes)
    };
    match value {
        Some(v) => Some((bytes[0], v)),
        None => None,
    }
}

/// The view of an optional slice.
pub open spec fn slice_view(r: Option<&[u8]>) -> Option<Seq<u8>> {
    match r {
        Some(s) => Some(s@),
        None => None,
    }
}

/// The length of an optional slice.
pub open spec fn slice_size(r: Option<&[u8]>) -> Option<nat> {
    match r {
        Some(s) => Some(s@.len()),
        None => None,
    }
}

/// [`spki::der::SliceReader`] and its `tlv_bytes`: the element at the start of
/// `bytes`, header included. The size is stated for tags of one octet and named
/// for longer ones.
#[verifier::external_body]
fn tlv_bytes<'a>(bytes: &'a [u8]) -> (r: Option<&'a [u8]>)
    ensures
        slice_size(r) == if long_tag(bytes@) {
            long_tag_size(bytes@)
        } else {
            short_tag_size(bytes@)
        },
        r matches Some(t) ==> 0 < t@.len() <= bytes@.len() && t@ == bytes@.take(t@.len() as int),
{
    let mut reader = SliceReader::new(bytes).ok()?;
    reader.tlv_bytes().ok()
}

/// [`spki::der::asn1::AnyRef`] decoded from exactly `bytes`: the value behind the
/// header, stated for tags of one octet and named for longer ones.
#[verifier::external_body]
fn any_value<'a>(bytes: &'a [u8]) -> (r: Option<&'a [u8]>)
    ensures
        slice_view(r) == if long_tag(bytes@) {
            long_tag_value(bytes@)
        } else {
            short_tag_value(bytes@)
        },
{
    AnyRef::from_der(bytes).ok().map(AnyRef::value)
}

/// An element: its identifier octet and its value.
#[derive(Debug, Clone, Copy)]
pub struct DerAny<'a> {
    /// The first identifier octet, which is the whole tag unless its low five bits
    /// are all set.
    pub tag: u8,
    /// The value.
    pub value: &'a [u8],
}

/// The view of an element.
pub open spec fn any_view(r: Option<DerAny<'_>>) -> Option<(u8, Seq<u8>)> {
    match r {
        Some(a) => Some((a.tag, a.value@)),
        None => None,
    }
}

impl<'a> DerAny<'a> {
    /// The element that `bytes` are, with nothing behind it.
    pub fn from_der(bytes: &'a [u8]) -> (r: Option<DerAny<'a>>)
        ensures
            any_view(r) == der_any(bytes@),
    {
        match any_value(bytes) {
            Some(value) => Some(DerAny { tag: bytes[0], value }),
            None => None,
        }
    }

    /// The value of the element that `bytes` are, when it carries `tag`.
    pub fn tagged(bytes: &'a [u8], tag: u8) -> (r: Option<&'a [u8]>)
        ensures
            slice_view(r) == der_tagged(bytes@, tag),
    {
        match DerAny::from_der(bytes) {
            Some(any) => if any.tag == tag {
                Some(any.value)
            } else {
                None
            },
            None => None,
        }
    }
}

/// The value of the element that `bytes` are, when it carries `tag`.
pub open spec fn der_tagged(bytes: Seq<u8>, tag: u8) -> Option<Seq<u8>> {
    match der_any(bytes) {
        Some((t, value)) => if t == tag {
            Some(value)
        } else {
            None
        },
        None => None,
    }
}

/// The elements that `bytes` hold one after the other, headers included, up to the
/// first place where none can be read.
pub open spec fn der_items(bytes: Seq<u8>) -> Seq<Seq<u8>>
    decreases bytes.len(),
{
    match der_size(bytes) {
        None => Seq::empty(),
        Some(n) => if 0 < n <= bytes.len() {
            seq![bytes.take(n as int)] + der_items(bytes.skip(n as int))
        } else {
            Seq::empty()
        },
    }
}

/// The elements take up all of `bytes`.
pub open spec fn der_complete(bytes: Seq<u8>) -> bool
    decreases bytes.len(),
{
    bytes.len() == 0 || match der_size(bytes) {
        None => false,
        Some(n) => 0 < n <= bytes.len() && der_complete(bytes.skip(n as int)),
    }
}

/// The elements of a byte string, headers included, and whether they take up all of
/// it.
#[derive(Debug)]
pub struct DerBody<'a> {
    /// The elements.
    pub items: Vec<&'a [u8]>,
    /// No unreadable bytes follow them.
    pub complete: bool,
}

/// Two element lists say the same.
pub open spec fn same_elements(items: Seq<&[u8]>, views: Seq<Seq<u8>>) -> bool {
    &&& items.len() == views.len()
    &&& forall|i: int| 0 <= i < items.len() ==> (#[trigger] items[i])@ == views[i]
}

impl<'a> DerBody<'a> {
    /// Read every element of `bytes`.
    pub fn read(bytes: &'a [u8]) -> (r: DerBody<'a>)
        ensures
            same_elements(r.items@, der_items(bytes@)),
            r.complete == der_complete(bytes@),
    {
        let mut items: Vec<&'a [u8]> = Vec::new();
        let mut at: usize = 0;
        let ghost mut views: Seq<Seq<u8>> = Seq::empty();
        proof {
            assert(bytes@.skip(0) =~= bytes@);
            assert(views + der_items(bytes@) =~= der_items(bytes@));
        }
        while at < bytes.len()
            invariant
                at <= bytes@.len(),
                same_elements(items@, views),
                views + der_items(bytes@.skip(at as int)) == der_items(bytes@),
                der_complete(bytes@.skip(at as int)) == der_complete(bytes@),
            decreases bytes@.len() - at,
        {
            let rest = slice_subrange(bytes, at, bytes.len());
            assert(rest@ =~= bytes@.skip(at as int));
            match tlv_bytes(rest) {
                Some(item) => {
                    proof {
                        let n = item@.len() as int;
                        assert(rest@.skip(n) =~= bytes@.skip(at + n));
                        assert(views + der_items(rest@) =~= views.push(item@) + der_items(
                            bytes@.skip(at + n),
                        ));
                        views = views.push(item@);
                    }
                    at += item.len();
                    items.push(item);
                },
                None => {
                    assert(views + der_items(rest@) =~= views);
                    return DerBody { items, complete: false };
                },
            }
        }
        proof {
            assert(bytes@.skip(at as int) =~= Seq::<u8>::empty());
            assert(views + der_items(bytes@.skip(at as int)) =~= views);
        }
        DerBody { items, complete: true }
    }
}

/// The first elements of a body are found again in every longer body: an element
/// in front of others is read as it stands.
pub proof fn law_element_is_read_back(item: Seq<u8>, rest: Seq<u8>)
    requires
        der_any(item) is Some,
        one_octet_tag(item[0]),
        item.len() + rest.len() <= DER_MAX_LEN,
    ensures
        der_items(item + rest) == seq![item] + der_items(rest),
        der_complete(item + rest) == der_complete(rest),
{
    let all = item + rest;
    let (header, len) = der_header(item)->Some_0;
    if item[1] >= 0x80 {
        let n = item[1] - 0x80;
        assert(all.subrange(2, 2 + n) =~= item.subrange(2, 2 + n));
    }
    assert(der_size(all) == Some(item.len()));
    assert(all.take(item.len() as int) =~= item);
    assert(all.skip(item.len() as int) =~= rest);
}

/// An element in bytes is read back: identifier octet, length in the shortest form, value.
pub proof fn law_encoded_element_is_read_back(tag: u8, value: Seq<u8>)
    requires
        universal_tag(tag) || tag >= 0x40,
        one_octet_tag(tag),
        value.len() <= 0xFFFF_FF00,
    ensures
        der_any(encoded(tag, value)) == Some((tag, value)),
{
    let n = value.len() as int;
    let all = encoded(tag, value);
    law_tlv_layout(tag, value);
    reveal_with_fuel(be_nat, 5);
    if n < 0x80 {
        assert(all.skip(2) =~= value);
    } else if n < 0x100 {
        let o = all.subrange(2, 3);
        assert(o.drop_last() =~= Seq::<u8>::empty());
        assert(all.skip(3) =~= value);
    } else if n < 0x1_0000 {
        let o = all.subrange(2, 4);
        assert(o.drop_last() =~= seq![all[2]]);
        assert(seq![all[2]].drop_last() =~= Seq::<u8>::empty());
        assert(all.skip(4) =~= value);
    } else if n < 0x100_0000 {
        let o = all.subrange(2, 5);
        assert(o.drop_last() =~= seq![all[2], all[3]]);
        assert(seq![all[2], all[3]].drop_last() =~= seq![all[2]]);
        assert(seq![all[2]].drop_last() =~= Seq::<u8>::empty());
        assert(be_nat(o) == n);
        assert(all.skip(5) =~= value);
    } else {
        let o = all.subrange(2, 6);
        assert(o.drop_last() =~= seq![all[2], all[3], all[4]]);
        assert(seq![all[2], all[3], all[4]].drop_last() =~= seq![all[2], all[3]]);
        assert(seq![all[2], all[3]].drop_last() =~= seq![all[2]]);
        assert(seq![all[2]].drop_last() =~= Seq::<u8>::empty());
        assert(be_nat(o) == n);
        assert(all.skip(6) =~= value);
    }
}

/// An encoded element in front of others is the first of them.
pub proof fn lemma_front_element(tag: u8, value: Seq<u8>, rest: Seq<u8>)
    requires
        universal_tag(tag) || tag >= 0x40,
        one_octet_tag(tag),
        value.len() + rest.len() <= 0xFFFF_FF00,
    ensures
        ({
            let items = der_items(encoded(tag, value) + rest);
            &&& items.len() == der_items(rest).len() + 1
            &&& items[0] == encoded(tag, value)
            &&& items.skip(1) == der_items(rest)
            &&& der_any(items[0]) == Some((tag, value))
        }),
        der_complete(encoded(tag, value) + rest) == der_complete(rest),
        encoded(tag, value).len() <= value.len() + 6,
{
    law_encoded_element_is_read_back(tag, value);
    let item = encoded(tag, value);
    law_element_is_read_back(item, rest);
    let items = der_items(item + rest);
    assert(items.skip(1) =~= der_items(rest));
}

/// An encoded element on its own is the only one.
pub proof fn lemma_only_element(tag: u8, value: Seq<u8>)
    requires
        universal_tag(tag) || tag >= 0x40,
        one_octet_tag(tag),
        value.len() <= 0xFFFF_FF00,
    ensures
        ({
            let items = der_items(encoded(tag, value));
            &&& items.len() == 1
            &&& items[0] == encoded(tag, value)
            &&& der_any(items[0]) == Some((tag, value))
        }),
        der_complete(encoded(tag, value)),
        encoded(tag, value).len() <= value.len() + 6,
{
    let none = Seq::<u8>::empty();
    lemma_front_element(tag, value, none);
    assert(encoded(tag, value) + none =~= encoded(tag, value));
    assert(der_items(none) =~= Seq::empty());
}

/// The identifier octets that are read: the universal types in use, and every class of its
/// own. Reserved and unknown universal types are no elements.
pub proof fn law_known_identifiers(b: u8)
    ensures
        universal_tag(b) <==> b == 0x01 || b == 0x02 || b == 0x03 || b == 0x04 || b == 0x05 || b
            == 0x06 || b == 0x09 || b == 0x0A || b == 0x0C || b == 0x0D || b == 0x12 || b == 0x13
            || b == 0x14 || b == 0x15 || b == 0x16 || b == 0x17 || b == 0x18 || b == 0x1A || b
            == 0x1B || b == 0x1E || b == 0x30 || b == 0x31,
{
}

/// A length that could be shorter is refused, and so is one without an end or of more than
/// four octets.
pub proof fn law_only_shortest_lengths(bytes: Seq<u8>)
    requires
        bytes.len() >= 3,
        one_octet_tag(bytes[0]),
    ensures
        bytes[1] == 0x80 || bytes[1] > 0x84 ==> der_size(bytes) is None,
        bytes[1] == 0x81 && bytes[2] < 0x80 ==> der_size(bytes) is None,
        bytes[1] == 0x82 && bytes[2] == 0 ==> der_size(bytes) is None,
{
    reveal_with_fuel(be_nat, 3);
    if bytes[1] == 0x81 {
        let o = bytes.subrange(2, 3);
        assert(o.drop_last() =~= Seq::<u8>::empty());
    } else if bytes[1] == 0x82 && bytes.len() >= 4 {
        let o = bytes.subrange(2, 4);
        assert(o.drop_last() =~= seq![bytes[2]]);
        assert(seq![bytes[2]].drop_last() =~= Seq::<u8>::empty());
    }
}

} // verus!
