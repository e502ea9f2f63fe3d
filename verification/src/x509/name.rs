//! Distinguished names.

use crate::bytes::{all_ascii, ascii_chars, same_bytes, text_from_ascii, text_from_utf8};
use crate::der::{der_any, der_complete, der_items, der_tagged, same_elements, DerAny, DerBody};
use crate::identity::{country_code, named, split_names, CommonName, IsoAlpha2, Peuin,
    SplitGivenNames, Surname};
use crate::oid::known::{COMMON_NAME, COUNTRY_NAME, GIVEN_NAME, SERIAL_NUMBER, SURNAME};
use crate::render::{char_of, is_scalar_value, push_char};
use crate::x509::X509Error;
use vstd::prelude::*;
use vstd::slice::slice_to_vec;
use vstd::utf8::{decode_utf8, encode_utf8_decode_utf8, valid_utf8};

verus! {

/// The two-byte code unit at position `i`.
pub open spec fn code_unit(value: Seq<u8>, i: int) -> u32 {
    (value[2 * i] * 256 + value[2 * i + 1]) as u32
}

/// The text of a directory string: UTF-8, ASCII in the three older string types,
/// two-byte characters in the fourth.
pub open spec fn directory_string(tag: u8, value: Seq<u8>) -> Option<Seq<char>> {
    if tag == 0x0C {
        if valid_utf8(value) {
            Some(decode_utf8(value))
        } else {
            None
        }
    } else if tag == 0x13 || tag == 0x16 || tag == 0x14 {
        if all_ascii(value) {
            Some(ascii_chars(value))
        } else {
            None
        }
    } else if tag == 0x1E {
        if value.len() % 2 == 0 && forall|i: int|
            0 <= i < value.len() / 2 ==> is_scalar_value(#[trigger] code_unit(value, i)) {
            Some(Seq::new(value.len() / 2, |i: int| code_unit(value, i) as char))
        } else {
            None
        }
    } else {
        None
    }
}

/// The characters of an optional text.
pub open spec fn text_of(t: Option<String>) -> Option<Seq<char>> {
    match t {
        Some(s) => Some(s@),
        None => None,
    }
}

fn decode_two_byte(value: &[u8]) -> (r: Option<String>)
    requires
        value@.len() % 2 == 0,
    ensures
        text_of(r) == directory_string(0x1E, value@),
{
    let len: usize = value.len();
    let units: usize = len / 2;
    let mut out = String::new();
    let mut i: usize = 0;
    while i < units
        invariant
            i <= units,
            units == len / 2,
            len == value@.len(),
            value@.len() % 2 == 0,
            forall|j: int| 0 <= j < i ==> is_scalar_value(#[trigger] code_unit(value@, j)),
            out@ == Seq::new(i as nat, |j: int| code_unit(value@, j) as char),
        decreases units - i,
    {
        let hi: u8 = value[2 * i];
        let lo: u8 = value[2 * i + 1];
        let code: u32 = hi as u32 * 256 + lo as u32;
        assert(code == code_unit(value@, i as int));
        match char_of(code) {
            Some(c) => push_char(&mut out, c),
            None => {
                return None;
            },
        }
        i += 1;
        assert(out@ =~= Seq::new(i as nat, |j: int| code_unit(value@, j) as char));
    }
    Some(out)
}

fn is_all_ascii(value: &[u8]) -> (r: bool)
    ensures
        r == all_ascii(value@),
{
    let mut i: usize = 0;
    while i < value.len()
        invariant
            i <= value@.len(),
            forall|j: int| 0 <= j < i ==> #[trigger] value@[j] < 128,
        decreases value@.len() - i,
    {
        if value[i] >= 128 {
            assert(value@[i as int] >= 128);
            return false;
        }
        i += 1;
    }
    true
}

/// Decode a directory string.
pub fn decode_directory_string(value: DerAny<'_>) -> (r: Option<String>)
    ensures
        text_of(r) == directory_string(value.tag, value.value@),
{
    match value.tag {
        0x0C => match text_from_utf8(slice_to_vec(value.value)) {
            Some(s) => {
                proof {
                    encode_utf8_decode_utf8(s@);
                }
                Some(s)
            },
            None => None,
        },
        0x13 | 0x16 | 0x14 => if is_all_ascii(value.value) {
            Some(text_from_ascii(value.value))
        } else {
            None
        },
        0x1E => if value.value.len() % 2 == 0 {
            decode_two_byte(value.value)
        } else {
            None
        },
        _ => None,
    }
}

/// What the attribute `atv` says of the attribute type `oid`: its text, nothing
/// when it is about something else, an error when it cannot be read.
pub open spec fn attribute_value(atv: Seq<u8>, oid: Seq<u8>) -> Result<Option<Seq<char>>, ()> {
    match der_any(atv) {
        None => Err(()),
        Some((tag, value)) => if tag != 0x30 {
            Ok(None)
        } else {
            let fields = der_items(value);
            if fields.len() < 2 {
                Err(())
            } else {
                match (der_any(fields[0]), der_any(fields[1])) {
                    (Some((t, o)), Some((st, sv))) => if t == 0x06 && o == oid {
                        Ok(directory_string(st, sv))
                    } else {
                        Ok(None)
                    },
                    _ => Err(()),
                }
            }
        },
    }
}

/// `earlier` where it has a text, else `later`.
pub open spec fn first_text(earlier: Option<Seq<char>>, later: Option<Seq<char>>) -> Option<
    Seq<char>,
> {
    if earlier is Some {
        earlier
    } else {
        later
    }
}

/// The first text among the attributes of one relative name.
pub open spec fn attributes_scan(items: Seq<Seq<u8>>, oid: Seq<u8>) -> Result<
    Option<Seq<char>>,
    (),
>
    decreases items.len(),
{
    if items.len() == 0 {
        Ok(None)
    } else {
        match (attributes_scan(items.drop_last(), oid), attribute_value(items.last(), oid)) {
            (Ok(a), Ok(b)) => Ok(first_text(a, b)),
            _ => Err(()),
        }
    }
}

/// The first text in one relative name.
pub open spec fn relative_name_scan(rdn: Seq<u8>, oid: Seq<u8>) -> Result<Option<Seq<char>>, ()> {
    match der_any(rdn) {
        None => Err(()),
        Some((tag, value)) => if tag != 0x31 {
            Ok(None)
        } else if !der_complete(value) {
            Err(())
        } else {
            attributes_scan(der_items(value), oid)
        },
    }
}

/// The first text among relative names.
pub open spec fn relative_names_scan(items: Seq<Seq<u8>>, oid: Seq<u8>) -> Result<
    Option<Seq<char>>,
    (),
>
    decreases items.len(),
{
    if items.len() == 0 {
        Ok(None)
    } else {
        match (relative_names_scan(items.drop_last(), oid), relative_name_scan(items.last(), oid)) {
            (Ok(a), Ok(b)) => Ok(first_text(a, b)),
            _ => Err(()),
        }
    }
}

/// The text of the first attribute of type `oid` in a distinguished name; none when
/// any part of the name cannot be read.
pub open spec fn name_attribute(dn: Seq<u8>, oid: Seq<u8>) -> Option<Seq<char>> {
    match der_tagged(dn, 0x30) {
        None => None,
        Some(body) => if !der_complete(body) {
            None
        } else {
            match relative_names_scan(der_items(body), oid) {
                Ok(text) => text,
                Err(_) => None,
            }
        },
    }
}

/// The view of a scan.
pub open spec fn scan_view(r: Result<Option<String>, ()>) -> Result<Option<Seq<char>>, ()> {
    match r {
        Ok(t) => Ok(text_of(t)),
        Err(_) => Err(()),
    }
}

fn read_attribute(atv: &[u8], oid: &[u8]) -> (r: Result<Option<String>, ()>)
    ensures
        scan_view(r) == attribute_value(atv@, oid@),
{
    let any = match DerAny::from_der(atv) {
        Some(any) => any,
        None => {
            return Err(());
        },
    };
    if any.tag != 0x30 {
        return Ok(None);
    }
    let fields = DerBody::read(any.value);
    if fields.items.len() < 2 {
        return Err(());
    }
    assert(fields.items@[0]@ == der_items(any.value@)[0]);
    assert(fields.items@[1]@ == der_items(any.value@)[1]);
    match (DerAny::from_der(fields.items[0]), DerAny::from_der(fields.items[1])) {
        (Some(kind), Some(value)) => if kind.tag == 0x06 && same_bytes(kind.value, oid) {
            Ok(decode_directory_string(value))
        } else {
            Ok(None)
        },
        _ => Err(()),
    }
}

proof fn lemma_attributes_prefix(items: Seq<Seq<u8>>, oid: Seq<u8>, n: int)
    requires
        0 <= n <= items.len(),
        attributes_scan(items.take(n), oid) is Err,
    ensures
        attributes_scan(items, oid) is Err,
    decreases items.len() - n,
{
    if n < items.len() {
        assert(items.take(n + 1).drop_last() =~= items.take(n));
        lemma_attributes_prefix(items, oid, n + 1);
    } else {
        assert(items.take(n) =~= items);
    }
}

fn read_relative_name(rdn: &[u8], oid: &[u8]) -> (r: Result<Option<String>, ()>)
    ensures
        scan_view(r) == relative_name_scan(rdn@, oid@),
{
    let any = match DerAny::from_der(rdn) {
        Some(any) => any,
        None => {
            return Err(());
        },
    };
    if any.tag != 0x31 {
        return Ok(None);
    }
    let body = DerBody::read(any.value);
    if !body.complete {
        return Err(());
    }
    let ghost views = der_items(any.value@);
    let mut found: Option<String> = None;
    let mut i: usize = 0;
    while i < body.items.len()
        invariant
            i <= body.items@.len(),
            same_elements(body.items@, views),
            attributes_scan(views.take(i as int), oid@) == Ok::<Option<Seq<char>>, ()>(
                text_of(found),
            ),
            relative_name_scan(rdn@, oid@) == attributes_scan(views, oid@),
        decreases body.items@.len() - i,
    {
        proof {
            assert(body.items@[i as int]@ == views[i as int]);
            assert(views.take(i + 1).drop_last() =~= views.take(i as int));
            assert(views.take(i + 1).last() == views[i as int]);
        }
        match read_attribute(body.items[i], oid) {
            Ok(text) => {
                if found.is_none() {
                    found = text;
                }
            },
            Err(()) => {
                proof {
                    lemma_attributes_prefix(views, oid@, i + 1);
                }
                return Err(());
            },
        }
        i += 1;
    }
    assert(views.take(i as int) =~= views);
    Ok(found)
}

proof fn lemma_relative_names_prefix(items: Seq<Seq<u8>>, oid: Seq<u8>, n: int)
    requires
        0 <= n <= items.len(),
        relative_names_scan(items.take(n), oid) is Err,
    ensures
        relative_names_scan(items, oid) is Err,
    decreases items.len() - n,
{
    if n < items.len() {
        assert(items.take(n + 1).drop_last() =~= items.take(n));
        lemma_relative_names_prefix(items, oid, n + 1);
    } else {
        assert(items.take(n) =~= items);
    }
}

/// A distinguished name, borrowed from the bytes it was read from.
#[derive(Debug, Clone, Copy)]
pub struct Name<'a> {
    dn_der: &'a [u8],
}

impl<'a> View for Name<'a> {
    type V = Seq<u8>;

    closed spec fn view(&self) -> Seq<u8> {
        self.dn_der@
    }
}

impl<'a> PartialEq for Name<'a> {
    fn eq(&self, other: &Name<'a>) -> (r: bool) {
        same_bytes(self.dn_der, other.dn_der)
    }
}

impl<'a> Eq for Name<'a> {

}

impl<'a> vstd::std_specs::cmp::PartialEqSpecImpl for Name<'a> {
    open spec fn obeys_eq_spec() -> bool {
        true
    }

    open spec fn eq_spec(&self, other: &Name<'a>) -> bool {
        self@ == other@
    }
}

impl<'a> Name<'a> {
    /// Wrap the bytes of a name without a check.
    pub fn from_validated(dn_der: &'a [u8]) -> (r: Name<'a>)
        ensures
            r@ == dn_der@,
    {
        Name { dn_der }
    }

    /// Wrap the bytes of a name after checking that they are one SEQUENCE.
    pub fn try_from_der(dn_der: &'a [u8]) -> (r: Result<Name<'a>, X509Error>)
        ensures
            r matches Ok(n) ==> n@ == dn_der@,
            r is Ok <==> der_tagged(dn_der@, 0x30) is Some,
            r matches Err(e) ==> e.is_structure(
                if der_any(dn_der@) is None {
                    "Name not a TLV"@
                } else {
                    "Name not SEQUENCE"@
                },
            ),
    {
        match DerAny::from_der(dn_der) {
            None => Err(X509Error::UnexpectedStructure("Name not a TLV")),
            Some(any) => if any.tag == 0x30 {
                Ok(Name { dn_der })
            } else {
                Err(X509Error::UnexpectedStructure("Name not SEQUENCE"))
            },
        }
    }

    /// The bytes of the name.
    pub fn as_der(&self) -> (r: &'a [u8])
        ensures
            r@ == self@,
    {
        self.dn_der
    }

    /// The text of the first attribute of a type.
    pub fn dn_attribute(&self, oid: &[u8]) -> (r: Option<String>)
        ensures
            text_of(r) == name_attribute(self@, oid@),
    {
        let body = match DerAny::tagged(self.dn_der, 0x30) {
            Some(body) => body,
            None => {
                return None;
            },
        };
        let names = DerBody::read(body);
        if !names.complete {
            return None;
        }
        let ghost views = der_items(body@);
        let mut found: Option<String> = None;
        let mut i: usize = 0;
        while i < names.items.len()
            invariant
                i <= names.items@.len(),
                same_elements(names.items@, views),
                relative_names_scan(views.take(i as int), oid@) == Ok::<Option<Seq<char>>, ()>(
                    text_of(found),
                ),
                name_attribute(self@, oid@) == match relative_names_scan(views, oid@) {
                    Ok(text) => text,
                    Err(_) => None,
                },
            decreases names.items@.len() - i,
        {
            proof {
                assert(names.items@[i as int]@ == views[i as int]);
                assert(views.take(i + 1).drop_last() =~= views.take(i as int));
                assert(views.take(i + 1).last() == views[i as int]);
            }
            match read_relative_name(names.items[i], oid) {
                Ok(text) => {
                    if found.is_none() {
                        found = text;
                    }
                },
                Err(()) => {
                    proof {
                        lemma_relative_names_prefix(views, oid@, i + 1);
                    }
                    return None;
                },
            }
            i += 1;
        }
        assert(views.take(i as int) =~= views);
        found
    }

    /// Common name.
    pub fn common_name(&self) -> (r: Option<CommonName>)
        ensures
            match r {
                Some(n) => named(name_attribute(self@, COMMON_NAME@)) == Some(n@),
                None => named(name_attribute(self@, COMMON_NAME@)) is None,
            },
    {
        match self.dn_attribute(COMMON_NAME.as_slice()) {
            Some(text) => CommonName::new(text),
            None => None,
        }
    }

    /// Surname.
    pub fn surname(&self) -> (r: Option<Surname>)
        ensures
            match r {
                Some(n) => named(name_attribute(self@, SURNAME@)) == Some(n@),
                None => named(name_attribute(self@, SURNAME@)) is None,
            },
    {
        match self.dn_attribute(SURNAME.as_slice()) {
            Some(text) => Surname::new(text),
            None => None,
        }
    }

    /// Given names, taken apart.
    pub fn given_names(&self) -> (r: SplitGivenNames)
        ensures
            r@ == split_names(name_attribute(self@, GIVEN_NAME@)),
    {
        match self.dn_attribute(GIVEN_NAME.as_slice()) {
            Some(text) => SplitGivenNames::split(text.as_str()),
            None => SplitGivenNames::default(),
        }
    }

    /// Personal identifier, which certificates carry as the serial number of the
    /// name.
    pub fn peuin(&self) -> (r: Option<Peuin>)
        ensures
            match r {
                Some(n) => named(name_attribute(self@, SERIAL_NUMBER@)) == Some(n@),
                None => named(name_attribute(self@, SERIAL_NUMBER@)) is None,
            },
    {
        match self.dn_attribute(SERIAL_NUMBER.as_slice()) {
            Some(text) => Peuin::new(text),
            None => None,
        }
    }

    /// Country, as a code of two letters.
    pub fn country(&self) -> (r: Option<IsoAlpha2>)
        ensures
            match name_attribute(self@, COUNTRY_NAME@) {
                Some(text) => match r {
                    Some(c) => country_code(text) == Some(c@),
                    None => country_code(text) is None,
                },
                None => r is None,
            },
    {
        match self.dn_attribute(COUNTRY_NAME.as_slice()) {
            Some(text) => IsoAlpha2::new(text.as_str()),
            None => None,
        }
    }
}

} // verus!
