//! What is read from certificates, stated over the bytes that encode it.

use crate::ber::{law_tlv_round_trip, tlv_bytes, tlv_items, TlvView};
use crate::bytes::{be_nat, law_first_byte_weighs_most};
use crate::der::{der_any, der_complete, der_items, der_tagged, lemma_front_element, lemma_only_element,
    law_encoded_element_is_read_back};
use crate::oid::{base128, is_arc};
use crate::oid::known::{AD_CA_ISSUERS, AD_OCSP, AUTHORITY_INFO_ACCESS, BASIC_CONSTRAINTS,
    BRAINPOOL_P256R1, BRAINPOOL_P384R1, COMMON_NAME, COUNTRY_NAME, CRL_DISTRIBUTION_POINTS,
    EC_PUBLIC_KEY, EXT_KEY_USAGE, GIVEN_NAME, KEY_USAGE, RSA_ENCRYPTION, SECP256R1, SECP384R1,
    SERIAL_NUMBER, SUBJECT_ALT_NAME, SURNAME};
use crate::identity::is_email;
use crate::render::{dec, is_scalar_value};
use crate::text::{uri_of, UriError, UriView};
use crate::pkcs15::reading::{lemma_front_object, lemma_size, lemma_two_objects};
use crate::x509::extensions::{access_uri, access_uris, aia_uris, constraint_fields,
    constraints_of, crl_uris, dot_notation, email_bytes, extension_of, extension_sequence,
    extension_step, extract_key_usage, full_name_uris, general_name_emails, general_name_uris, key_usage_of,
    point_uris, points_uris, purpose_name, purpose_names, purpose_oids, purposes_of, short_arc_step, short_arcs,
    uri_bytes, usage_in, BasicConstraints, ExtensionStep, KeyUsage};
use crate::x509::key::{bit_length, field_prime, is_uncompressed_point, key_algorithm, magnitude_bits, rsa_key_of, rsa_parts, spki_der_decoded,
    EcCurve, PublicKeyAlgorithm, SpkiView};
use crate::x509::name::{attributes_scan, code_unit, directory_string, first_text,
    name_attribute, relative_name_scan, relative_names_scan};
use crate::x509::{certificate_of, instant_of, outer_parts, tbs_algorithm, tbs_of,
    trailing_extensions, validity_decoded, Certificate, CertificateView, DateTimeView, OuterView, TbsView, X509Error, X509ErrorView};
use vstd::prelude::*;

verus! {

/// Flag `n` of a key usage, in the order of the named bits.
pub open spec fn usage_flag(u: KeyUsage, n: int) -> bool {
    if n == 0 {
        u.digital_signature
    } else if n == 1 {
        u.non_repudiation
    } else if n == 2 {
        u.key_encipherment
    } else if n == 3 {
        u.data_encipherment
    } else if n == 4 {
        u.key_agreement
    } else if n == 5 {
        u.key_cert_sign
    } else if n == 6 {
        u.crl_sign
    } else if n == 7 {
        u.encipher_only
    } else {
        u.decipher_only
    }
}

/// Bit `k` of a byte, counted from the least significant one.
pub open spec fn bit_of(b: u8, k: int) -> bool {
    let weight: int = if k == 0 {
        1
    } else if k == 1 {
        2
    } else if k == 2 {
        4
    } else if k == 3 {
        8
    } else if k == 4 {
        16
    } else if k == 5 {
        32
    } else if k == 6 {
        64
    } else {
        128
    };
    b as int / weight % 2 == 1
}

/// Key usages are the named bits of a bit string: flag `n` is set exactly if bit `n` is,
/// counted from the most significant bit of the byte behind the count of unused bits. Bits
/// that are not there are not set.
pub proof fn law_key_usage_bits(bits: Seq<u8>, n: int)
    requires
        bits.len() <= 0xFFFF_FFFF,
        0 <= n <= 8,
    ensures
        bits.len() == 0 ==> usage_in(tlv_bytes(0x03, bits)) is None,
        bits.len() > 0 ==> (usage_in(tlv_bytes(0x03, bits)) matches Some(u) && usage_flag(u, n) == (
        1 + n / 8 < bits.len() && bit_of(bits[1 + n / 8], 7 - n % 8))),
{
    let none = Seq::<u8>::empty();
    law_tlv_round_trip(0x03, bits, none);
    assert(tlv_bytes(0x03, bits) + none =~= tlv_bytes(0x03, bits));
    if bits.len() > 0 {
        let b0: u8 = if bits.len() > 1 {
            bits[1]
        } else {
            0
        };
        let b1: u8 = if bits.len() > 2 {
            bits[2]
        } else {
            0
        };
        lemma_bits(b0);
        lemma_bits(b1);
    }
}

proof fn lemma_bits(b: u8)
    ensures
        (b & 0x80 != 0) == (b / 128 % 2 == 1),
        (b & 0x40 != 0) == (b / 64 % 2 == 1),
        (b & 0x20 != 0) == (b / 32 % 2 == 1),
        (b & 0x10 != 0) == (b / 16 % 2 == 1),
        (b & 0x08 != 0) == (b / 8 % 2 == 1),
        (b & 0x04 != 0) == (b / 4 % 2 == 1),
        (b & 0x02 != 0) == (b / 2 % 2 == 1),
        (b & 0x01 != 0) == (b % 2 == 1),
{
    assert((b & 0x80u8 != 0) == ((b / 128u8) % 2 == 1) && (b & 0x40u8 != 0) == ((b / 64u8) % 2 == 1)
        && (b & 0x20u8 != 0) == ((b / 32u8) % 2 == 1) && (b & 0x10u8 != 0) == ((b / 16u8) % 2 == 1)
        && (b & 0x08u8 != 0) == ((b / 8u8) % 2 == 1) && (b & 0x04u8 != 0) == ((b / 4u8) % 2 == 1)
        && (b & 0x02u8 != 0) == ((b / 2u8) % 2 == 1) && (b & 0x01u8 != 0) == (b % 2 == 1))
        by (bit_vector);
}

/// An extension in bytes: its object identifier, its critical flag where it has one, and
/// its value in an octet string.
pub open spec fn extension_bytes(oid: Seq<u8>, critical: Option<u8>, value: Seq<u8>) -> Seq<u8> {
    let flag = match critical {
        Some(b) => tlv_bytes(0x01, seq![b]),
        None => Seq::empty(),
    };
    tlv_bytes(0x30, tlv_bytes(0x06, oid) + (flag + tlv_bytes(0x04, value)))
}

/// The extension that is looked for is found where it stands in front, with its value and
/// its critical flag, which a missing one leaves unset; an extension of another kind in
/// front is passed over.
pub proof fn law_extension_read_back(
    oid: Seq<u8>,
    critical: Option<u8>,
    value: Seq<u8>,
    rest: Seq<u8>,
    target: Seq<u8>,
)
    requires
        oid.len() + value.len() + rest.len() <= 0xFF_FFFF,
    ensures
        target == oid ==> extension_of(extension_bytes(oid, critical, value) + rest, target)
            == Some((value, critical matches Some(b) && b != 0)),
        target != oid ==> extension_of(extension_bytes(oid, critical, value) + rest, target)
            == extension_of(rest, target),
{
    let flag = match critical {
        Some(b) => tlv_bytes(0x01, seq![b]),
        None => Seq::empty(),
    };
    let octets = tlv_bytes(0x04, value);
    let body = tlv_bytes(0x06, oid) + (flag + octets);
    lemma_only_element(0x04, value);
    match critical {
        Some(b) => {
            lemma_front_element(0x01, seq![b], octets);
        },
        None => {
            assert(flag + octets =~= octets);
        },
    }
    lemma_front_element(0x06, oid, flag + octets);
    lemma_front_element(0x30, body, rest);
    let fields = der_items(body);
    assert(fields.skip(1)[0] == fields[1]);
    if critical is Some {
        assert(fields.skip(1).skip(1)[0] == fields[2]);
        assert(der_items(flag + octets).skip(1)[0] == fields[2]);
    }
    let ext = extension_bytes(oid, critical, value);
    let items = der_items(ext + rest);
    assert(items[0] == ext);
    assert(items.drop_first() =~= items.skip(1));
    if target == oid {
        assert(extension_step(ext, target) == ExtensionStep::Found(
            value,
            critical matches Some(b) && b != 0,
        ));
    } else {
        assert(extension_step(ext, target) is Skip);
    }
}

/// The kinds of extensions, attributes, keys and curves are known by their identifiers.
pub proof fn law_identifiers()
    ensures
        KEY_USAGE@ == seq![0x55u8, 0x1D, 0x0F],
        BASIC_CONSTRAINTS@ == seq![0x55u8, 0x1D, 0x13],
        EXT_KEY_USAGE@ == seq![0x55u8, 0x1D, 0x25],
        CRL_DISTRIBUTION_POINTS@ == seq![0x55u8, 0x1D, 0x1F],
        SUBJECT_ALT_NAME@ == seq![0x55u8, 0x1D, 0x11],
        AUTHORITY_INFO_ACCESS@ == seq![0x2Bu8, 0x06, 0x01, 0x05, 0x05, 0x07, 0x01, 0x01],
        AD_OCSP@ == seq![0x2Bu8, 0x06, 0x01, 0x05, 0x05, 0x07, 0x30, 0x01],
        AD_CA_ISSUERS@ == seq![0x2Bu8, 0x06, 0x01, 0x05, 0x05, 0x07, 0x30, 0x02],
        COMMON_NAME@ == seq![0x55u8, 0x04, 0x03],
        SURNAME@ == seq![0x55u8, 0x04, 0x04],
        SERIAL_NUMBER@ == seq![0x55u8, 0x04, 0x05],
        COUNTRY_NAME@ == seq![0x55u8, 0x04, 0x06],
        GIVEN_NAME@ == seq![0x55u8, 0x04, 0x2A],
        RSA_ENCRYPTION@ == seq![0x2Au8, 0x86, 0x48, 0x86, 0xF7, 0x0D, 0x01, 0x01, 0x01],
        EC_PUBLIC_KEY@ == seq![0x2Au8, 0x86, 0x48, 0xCE, 0x3D, 0x02, 0x01],
        SECP256R1@ == seq![0x2Au8, 0x86, 0x48, 0xCE, 0x3D, 0x03, 0x01, 0x07],
        SECP384R1@ == seq![0x2Bu8, 0x81, 0x04, 0x00, 0x22],
        BRAINPOOL_P256R1@ == seq![0x2Bu8, 0x24, 0x03, 0x03, 0x02, 0x08, 0x01, 0x01, 0x07],
        BRAINPOOL_P384R1@ == seq![0x2Bu8, 0x24, 0x03, 0x03, 0x02, 0x08, 0x01, 0x01, 0x0B],
{
    assert(KEY_USAGE@ =~= seq![0x55u8, 0x1D, 0x0F]);
    assert(BASIC_CONSTRAINTS@ =~= seq![0x55u8, 0x1D, 0x13]);
    assert(EXT_KEY_USAGE@ =~= seq![0x55u8, 0x1D, 0x25]);
    assert(CRL_DISTRIBUTION_POINTS@ =~= seq![0x55u8, 0x1D, 0x1F]);
    assert(SUBJECT_ALT_NAME@ =~= seq![0x55u8, 0x1D, 0x11]);
    assert(AUTHORITY_INFO_ACCESS@ =~= seq![0x2Bu8, 0x06, 0x01, 0x05, 0x05, 0x07, 0x01, 0x01]);
    assert(AD_OCSP@ =~= seq![0x2Bu8, 0x06, 0x01, 0x05, 0x05, 0x07, 0x30, 0x01]);
    assert(AD_CA_ISSUERS@ =~= seq![0x2Bu8, 0x06, 0x01, 0x05, 0x05, 0x07, 0x30, 0x02]);
    assert(COMMON_NAME@ =~= seq![0x55u8, 0x04, 0x03]);
    assert(SURNAME@ =~= seq![0x55u8, 0x04, 0x04]);
    assert(SERIAL_NUMBER@ =~= seq![0x55u8, 0x04, 0x05]);
    assert(COUNTRY_NAME@ =~= seq![0x55u8, 0x04, 0x06]);
    assert(GIVEN_NAME@ =~= seq![0x55u8, 0x04, 0x2A]);
    assert(RSA_ENCRYPTION@ =~= seq![0x2Au8, 0x86, 0x48, 0x86, 0xF7, 0x0D, 0x01, 0x01, 0x01]);
    assert(EC_PUBLIC_KEY@ =~= seq![0x2Au8, 0x86, 0x48, 0xCE, 0x3D, 0x02, 0x01]);
    assert(SECP256R1@ =~= seq![0x2Au8, 0x86, 0x48, 0xCE, 0x3D, 0x03, 0x01, 0x07]);
    assert(SECP384R1@ =~= seq![0x2Bu8, 0x81, 0x04, 0x00, 0x22]);
    assert(BRAINPOOL_P256R1@ =~= seq![0x2Bu8, 0x24, 0x03, 0x03, 0x02, 0x08, 0x01, 0x01, 0x07]);
    assert(BRAINPOOL_P384R1@ =~= seq![0x2Bu8, 0x24, 0x03, 0x03, 0x02, 0x08, 0x01, 0x01, 0x0B]);
}

/// Basic constraints are read back: the authority flag from the BOOLEAN, the length of the
/// chain from the INTEGER.
pub proof fn law_basic_constraints_read_back(ca: u8, path: Seq<u8>)
    requires
        path.len() <= 0xFF_FFFF,
    ensures
        constraint_fields(tlv_items(Seq::empty())) == (false, None::<u32>),
        constraint_fields(tlv_items(tlv_bytes(0x01, seq![ca]))) == (ca != 0, None::<u32>),
        constraint_fields(tlv_items(tlv_bytes(0x01, seq![ca]) + tlv_bytes(0x02, path))) == (
            ca != 0,
            Some((be_nat(path) % 0x1_0000_0000) as u32),
        ),
{
    let none = Seq::<u8>::empty();
    assert(tlv_items(none) =~= Seq::empty());
    lemma_two_objects(0x01, seq![ca], 0x02, path);
    lemma_front_object(0x01, seq![ca], none);
    assert(tlv_bytes(0x01, seq![ca]) + none =~= tlv_bytes(0x01, seq![ca]));
    reveal_with_fuel(constraint_fields, 3);
    let one = tlv_items(tlv_bytes(0x01, seq![ca]));
    let two = tlv_items(tlv_bytes(0x01, seq![ca]) + tlv_bytes(0x02, path));
    assert(one.drop_last() =~= Seq::<TlvView>::empty());
    assert(two.drop_last().drop_last() =~= Seq::<TlvView>::empty());
    assert(two.drop_last().last() == two[0]);
}

/// The object identifiers of extended key usages come out in order, those that are
/// malformed left out.
pub proof fn law_purposes_in_order(items: Seq<TlvView>, item: TlvView)
    ensures
        purpose_oids(Seq::empty()) == Seq::<Seq<u8>>::empty(),
        purpose_oids(items.push(item)) == if item.tag == 0x06 && item.value.len() > 0
            && item.value.last() < 0x80 {
            purpose_oids(items).push(item.value)
        } else {
            purpose_oids(items)
        },
{
    assert(items.push(item).drop_last() =~= items);
}

/// The addresses where lists are published: every URI among the general names (tag 86) of a
/// full name (tag A0) of a point name (tag A0) of a distribution point (SEQUENCE) counts, in
/// order; whatever has another tag counts for nothing.
pub proof fn law_list_addresses_in_order(items: Seq<TlvView>, item: TlvView)
    ensures
        points_uris(items.push(item)) == points_uris(items) + if item.tag == 0x30 {
            point_uris(tlv_items(item.value))
        } else {
            Seq::empty()
        },
        point_uris(items.push(item)) == point_uris(items) + if item.tag == 0xA0 {
            full_name_uris(tlv_items(item.value))
        } else {
            Seq::empty()
        },
        full_name_uris(items.push(item)) == full_name_uris(items) + if item.tag == 0xA0 {
            general_name_uris(tlv_items(item.value))
        } else {
            Seq::empty()
        },
        item.tag == 0x86 && uri_bytes(item.value) is Some ==> general_name_uris(items.push(item))
            == general_name_uris(items).push(uri_bytes(item.value)->Some_0),
        item.tag != 0x86 || uri_bytes(item.value) is None ==> general_name_uris(items.push(item))
            == general_name_uris(items),
        item.tag == 0x81 && email_bytes(item.value) is Some ==> general_name_emails(
            items.push(item),
        ) == general_name_emails(items).push(email_bytes(item.value)->Some_0),
        item.tag != 0x81 || email_bytes(item.value) is None ==> general_name_emails(
            items.push(item),
        ) == general_name_emails(items),
{
    assert(items.push(item).drop_last() =~= items);
}

/// One distribution point with one address gives that address.
pub proof fn law_one_list_address(address: Seq<u8>)
    requires
        address.len() <= 0xFF_FFFF,
        uri_bytes(address) is Some,
    ensures
        points_uris(
            tlv_items(
                tlv_bytes(0x30, tlv_bytes(0xA0, tlv_bytes(0xA0, tlv_bytes(0x86, address)))),
            ),
        ) == seq![uri_bytes(address)->Some_0],
{
    let name = tlv_bytes(0x86, address);
    let full = tlv_bytes(0xA0, name);
    let point = tlv_bytes(0xA0, full);
    lemma_one_object(0x86, address);
    lemma_one_object(0xA0, name);
    lemma_one_object(0xA0, full);
    lemma_one_object(0x30, point);
    let none = Seq::<TlvView>::empty();
    let a = tlv_items(name)[0];
    let b = tlv_items(full)[0];
    let c = tlv_items(point)[0];
    let d = tlv_items(tlv_bytes(0x30, point))[0];
    law_list_addresses_in_order(none, a);
    law_list_addresses_in_order(none, b);
    law_list_addresses_in_order(none, c);
    law_list_addresses_in_order(none, d);
    assert(tlv_items(name) =~= none.push(a));
    assert(tlv_items(full) =~= none.push(b));
    assert(tlv_items(point) =~= none.push(c));
    assert(tlv_items(tlv_bytes(0x30, point)) =~= none.push(d));
    let u = uri_bytes(address)->Some_0;
    assert(general_name_uris(tlv_items(name)) =~= seq![u]);
    assert(full_name_uris(tlv_items(full)) =~= seq![u]);
    assert(point_uris(tlv_items(point)) =~= seq![u]);
    assert(points_uris(tlv_items(tlv_bytes(0x30, point))) =~= seq![u]);
}

proof fn lemma_one_object(tag: u8, value: Seq<u8>)
    requires
        tag % 32 != 31,
        value.len() <= 0xFFF_FFFF,
    ensures
        ({
            let items = tlv_items(tlv_bytes(tag, value));
            items.len() == 1 && items[0].tag == tag && items[0].value == value
        }),
        tlv_bytes(tag, value).len() <= value.len() + 6,
{
    let none = Seq::<u8>::empty();
    lemma_front_object(tag, value, none);
    assert(tlv_bytes(tag, value) + none =~= tlv_bytes(tag, value));
    assert(tlv_items(none) =~= Seq::empty());
    lemma_size(tag, value);
}

/// The address of an access description counts for its own method alone.
pub proof fn law_access_address(method: Seq<u8>, address: Seq<u8>, asked: Seq<u8>)
    requires
        method.len() + address.len() <= 0xFF_FFFF,
    ensures
        access_uri(tlv_bytes(0x30, tlv_bytes(0x06, method) + tlv_bytes(0x86, address)), asked)
            == if asked == method {
            uri_bytes(address)
        } else {
            None
        },
{
    let body = tlv_bytes(0x06, method) + tlv_bytes(0x86, address);
    lemma_only_element(0x86, address);
    lemma_front_element(0x06, method, tlv_bytes(0x86, address));
    law_encoded_element_is_read_back(0x30, body);
    let fields = der_items(body);
    assert(fields.skip(1)[0] == fields[1]);
}

/// Addresses of access descriptions come out in order.
pub proof fn law_access_addresses_in_order(items: Seq<Seq<u8>>, item: Seq<u8>, method: Seq<u8>)
    ensures
        access_uri(item, method) is Some ==> access_uris(items.push(item), method) == access_uris(
            items,
            method,
        ).push(access_uri(item, method)->Some_0),
        access_uri(item, method) is None ==> access_uris(items.push(item), method) == access_uris(
            items,
            method,
        ),
{
    assert(items.push(item).drop_last() =~= items);
}

/// An attribute in a relative name of its own.
pub open spec fn attribute_bytes(oid: Seq<u8>, tag: u8, text: Seq<u8>) -> Seq<u8> {
    tlv_bytes(0x31, tlv_bytes(0x30, tlv_bytes(0x06, oid) + tlv_bytes(tag, text)))
}

proof fn lemma_attribute(oid: Seq<u8>, tag: u8, text: Seq<u8>, asked: Seq<u8>)
    requires
        oid.len() + text.len() <= 0xFF_FFFF,
        tag == 0x0C || tag == 0x13 || tag == 0x14 || tag == 0x16 || tag == 0x1E,
    ensures
        relative_name_scan(attribute_bytes(oid, tag, text), asked) == Ok::<Option<Seq<char>>, ()>(
            if asked == oid {
                directory_string(tag, text)
            } else {
                None
            },
        ),
        der_any(attribute_bytes(oid, tag, text)) is Some,
        attribute_bytes(oid, tag, text).len() <= oid.len() + text.len() + 24,
{
    let pair = tlv_bytes(0x06, oid) + tlv_bytes(tag, text);
    let atv = tlv_bytes(0x30, pair);
    lemma_only_element(tag, text);
    lemma_front_element(0x06, oid, tlv_bytes(tag, text));
    lemma_only_element(0x30, pair);
    law_encoded_element_is_read_back(0x31, atv);
    lemma_size(0x31, atv);
    let fields = der_items(pair);
    assert(fields.skip(1)[0] == fields[1]);
    let items = der_items(atv);
    reveal_with_fuel(attributes_scan, 2);
    assert(items.drop_last() =~= Seq::<Seq<u8>>::empty());
    assert(items.last() == atv);
}

proof fn lemma_scan_front(first: Seq<u8>, items: Seq<Seq<u8>>, asked: Seq<u8>)
    requires
        relative_name_scan(first, asked) is Ok,
    ensures
        relative_names_scan(seq![first] + items, asked) == match relative_names_scan(items, asked) {
            Ok(later) => Ok(first_text(relative_name_scan(first, asked)->Ok_0, later)),
            Err(_) => Err(()),
        },
    decreases items.len(),
{
    reveal_with_fuel(relative_names_scan, 2);
    let all = seq![first] + items;
    if items.len() == 0 {
        assert(all.drop_last() =~= Seq::<Seq<u8>>::empty());
        assert(all.last() == first);
    } else {
        assert(all.drop_last() =~= seq![first] + items.drop_last());
        assert(all.last() == items.last());
        lemma_scan_front(first, items.drop_last(), asked);
    }
}

/// The attribute that is asked for is found where it stands in front, as its text; another
/// one in front is passed over, and so is one whose text cannot be read.
pub proof fn law_first_attribute_counts(
    oid: Seq<u8>,
    tag: u8,
    text: Seq<u8>,
    rest: Seq<u8>,
    asked: Seq<u8>,
)
    requires
        oid.len() + text.len() + rest.len() <= 0xFF_FFFF,
        tag == 0x0C || tag == 0x13 || tag == 0x14 || tag == 0x16 || tag == 0x1E,
        der_complete(rest),
        relative_names_scan(der_items(rest), asked) is Ok,
    ensures
        name_attribute(tlv_bytes(0x30, attribute_bytes(oid, tag, text) + rest), asked) == if asked
            == oid && directory_string(tag, text) is Some {
            directory_string(tag, text)
        } else {
            name_attribute(tlv_bytes(0x30, rest), asked)
        },
{
    let first = attribute_bytes(oid, tag, text);
    let inner = tlv_bytes(0x30, tlv_bytes(0x06, oid) + tlv_bytes(tag, text));
    lemma_attribute(oid, tag, text, asked);
    lemma_size(0x06, oid);
    lemma_size(tag, text);
    lemma_size(0x30, tlv_bytes(0x06, oid) + tlv_bytes(tag, text));
    lemma_front_element(0x31, inner, rest);
    law_encoded_element_is_read_back(0x30, first + rest);
    law_encoded_element_is_read_back(0x30, rest);
    let items = der_items(first + rest);
    assert(items =~= seq![first] + der_items(rest));
    lemma_scan_front(first, der_items(rest), asked);
}

/// Directory strings: UTF-8 text, seven-bit text in the three older types, and two bytes for
/// each character in the fourth; other types have no text.
pub proof fn law_directory_strings(tag: u8, value: Seq<u8>, i: int)
    ensures
        tag != 0x0C && tag != 0x13 && tag != 0x14 && tag != 0x16 && tag != 0x1E
            ==> directory_string(tag, value) is None,
        tag == 0x0C ==> (directory_string(tag, value) is Some <==> vstd::utf8::valid_utf8(value)),
        tag == 0x0C && vstd::utf8::valid_utf8(value) ==> vstd::utf8::encode_utf8(
            directory_string(tag, value)->Some_0,
        ) == value,
        tag == 0x13 || tag == 0x14 || tag == 0x16 ==> (directory_string(tag, value) is Some <==> (
        forall|k: int| 0 <= k < value.len() ==> #[trigger] value[k] < 0x80)),
        (tag == 0x13 || tag == 0x14 || tag == 0x16) && directory_string(tag, value) is Some ==> {
            let text = directory_string(tag, value)->Some_0;
            text.len() == value.len() && (0 <= i < value.len() ==> text[i] as u32 == value[i])
        },
        tag == 0x1E && directory_string(tag, value) is Some ==> {
            let text = directory_string(tag, value)->Some_0;
            &&& value.len() == 2 * text.len()
            &&& 0 <= i < text.len() ==> text[i] as u32 == value[2 * i] * 256 + value[2 * i + 1]
        },
{
    if tag == 0x0C && vstd::utf8::valid_utf8(value) {
        vstd::utf8::decode_utf8_encode_utf8(value);
    }
}

/// The magnitude of an integer without the zero in front.
pub open spec fn is_magnitude_of(magnitude: Seq<u8>, value: Seq<u8>) -> bool {
    &&& be_nat(magnitude) == be_nat(value)
    &&& magnitude == value || value == seq![0x00u8] + magnitude
}

/// Modulus and exponent of an RSA key are the two INTEGERs of its SEQUENCE, as numbers.
pub proof fn law_rsa_key_read_back(modulus: Seq<u8>, exponent: Seq<u8>)
    requires
        modulus.len() + exponent.len() <= 0xFF_FFFF,
    ensures
        rsa_parts(tlv_bytes(0x30, tlv_bytes(0x02, modulus) + tlv_bytes(0x02, exponent))) matches Some(
            (n, e),
        ) && is_magnitude_of(n, modulus) && is_magnitude_of(e, exponent) && (n.len() > 1 && modulus[0] == 0
            ==> n.len() == modulus.len() - 1),
{
    let body = tlv_bytes(0x02, modulus) + tlv_bytes(0x02, exponent);
    lemma_only_element(0x02, exponent);
    lemma_front_element(0x02, modulus, tlv_bytes(0x02, exponent));
    law_encoded_element_is_read_back(0x30, body);
    let fields = der_items(body);
    assert(fields.skip(1)[0] == fields[1]);
    lemma_magnitude(modulus);
    lemma_magnitude(exponent);
}

proof fn lemma_magnitude(value: Seq<u8>)
    ensures
        is_magnitude_of(crate::x509::key::integer_magnitude(value), value),
{
    if value.len() > 1 && value[0] == 0 {
        let rest = value.skip(1);
        assert(value =~= seq![0x00u8] + rest);
        law_first_byte_weighs_most(0x00, rest);
    }
}

/// The bits of a byte: the least number of binary digits that it takes.
pub proof fn law_bits_of_a_byte(b: u8)
    ensures
        b == 0 <==> bit_length(b) == 0,
        b == 1 <==> bit_length(b) == 1,
        2 <= b < 4 <==> bit_length(b) == 2,
        4 <= b < 8 <==> bit_length(b) == 3,
        8 <= b < 16 <==> bit_length(b) == 4,
        16 <= b < 32 <==> bit_length(b) == 5,
        32 <= b < 64 <==> bit_length(b) == 6,
        64 <= b < 128 <==> bit_length(b) == 7,
        128 <= b <==> bit_length(b) == 8,
{
    reveal_with_fuel(bit_length, 9);
}

/// The size of a number is eight bits for every byte behind the first and the bits of the
/// first.
pub proof fn law_size_of_a_number(bytes: Seq<u8>)
    requires
        0 < bytes.len() <= 0xFF_FFFF,
    ensures
        magnitude_bits(bytes) == Some((bytes.len() - 1) * 8 + bit_length(bytes[0])),
{
}

/// Public keys are told apart by their algorithm: RSA keys by the size of their modulus, keys
/// on a curve by the curve.
pub proof fn law_key_algorithms(parts: SpkiView, named: bool, modulus: Seq<u8>, exponent: Seq<u8>)
    requires
        0 < modulus.len() + exponent.len() <= 0xFF_FFFF,
        modulus.len() > 0 && modulus[0] != 0,
    ensures
        parts.algorithm == seq![0x2Au8, 0x86, 0x48, 0x86, 0xF7, 0x0D, 0x01, 0x01, 0x01] && parts.key
            == tlv_bytes(0x30, tlv_bytes(0x02, modulus) + tlv_bytes(0x02, exponent))
            ==> key_algorithm(parts, named) == Some(
            PublicKeyAlgorithm::Rsa {
                modulus_bits: ((modulus.len() - 1) * 8 + bit_length(modulus[0])) as usize,
            },
        ),
        parts.algorithm == seq![0x2Au8, 0x86, 0x48, 0xCE, 0x3D, 0x02, 0x01] && named ==> {
            let curve = |oid: Seq<u8>| parts.parameters == Some((true, oid));
            let found = key_algorithm(parts, named);
            &&& curve(seq![0x2Au8, 0x86, 0x48, 0xCE, 0x3D, 0x03, 0x01, 0x07]) ==> found == Some(
                PublicKeyAlgorithm::Ec(EcCurve::Secp256r1),
            )
            &&& curve(seq![0x2Bu8, 0x81, 0x04, 0x00, 0x22]) ==> found == Some(
                PublicKeyAlgorithm::Ec(EcCurve::Secp384r1),
            )
            &&& curve(seq![0x2Bu8, 0x24, 0x03, 0x03, 0x02, 0x08, 0x01, 0x01, 0x07]) ==> found
                == Some(PublicKeyAlgorithm::Ec(EcCurve::BrainpoolP256r1))
            &&& curve(seq![0x2Bu8, 0x24, 0x03, 0x03, 0x02, 0x08, 0x01, 0x01, 0x0B]) ==> found
                == Some(PublicKeyAlgorithm::Ec(EcCurve::BrainpoolP384r1))
        },
{
    law_identifiers();
    law_rsa_key_read_back(modulus, exponent);
    assert(RSA_ENCRYPTION@.len() != EC_PUBLIC_KEY@.len());
    assert(SECP256R1@.len() == 8 && SECP384R1@.len() == 5);
    assert(BRAINPOOL_P256R1@[8] != BRAINPOOL_P384R1@[8]);
    if parts.key == tlv_bytes(0x30, tlv_bytes(0x02, modulus) + tlv_bytes(0x02, exponent)) {
        let n = rsa_parts(parts.key)->Some_0.0;
        assert(n == modulus) by {
            if modulus == seq![0x00u8] + n {
                assert(modulus[0] == 0);
            }
        }
    }
}

/// The parts of a certificate, as they are encoded into one.
pub struct CertificateParts {
    /// The content of the version wrapper, where there is one.
    pub version: Option<Seq<u8>>,
    /// The content of the serial number.
    pub serial: Seq<u8>,
    /// The object identifier of the signature algorithm, and what follows it.
    pub oid: Seq<u8>,
    pub parameters: Seq<u8>,
    /// The contents of the issuer, the validity window, the subject and the public key.
    pub issuer: Seq<u8>,
    pub validity: Seq<u8>,
    pub subject: Seq<u8>,
    pub key: Seq<u8>,
    /// The list of extensions, where there is one.
    pub extensions: Option<Seq<u8>>,
    /// The signature.
    pub signature: Seq<u8>,
}

impl CertificateParts {
    /// The signature algorithm.
    pub open spec fn algorithm(self) -> Seq<u8> {
        tlv_bytes(0x30, tlv_bytes(0x06, self.oid) + self.parameters)
    }

    /// What follows the subject of the signed part.
    pub open spec fn tail(self) -> Seq<u8> {
        tlv_bytes(0x30, self.key) + match self.extensions {
            Some(list) => tlv_bytes(0xA3, tlv_bytes(0x30, list)),
            None => Seq::empty(),
        }
    }

    /// What follows the signature algorithm of the signed part.
    pub open spec fn middle(self) -> Seq<u8> {
        tlv_bytes(0x30, self.issuer) + (tlv_bytes(0x30, self.validity) + (tlv_bytes(
            0x30,
            self.subject,
        ) + self.tail()))
    }

    /// The content of the signed part.
    pub open spec fn signed(self) -> Seq<u8> {
        let numbered = tlv_bytes(0x02, self.serial) + (self.algorithm() + self.middle());
        match self.version {
            Some(v) => tlv_bytes(0xA0, v) + numbered,
            None => numbered,
        }
    }

    /// The certificate.
    pub open spec fn bytes(self) -> Seq<u8> {
        tlv_bytes(
            0x30,
            tlv_bytes(0x30, self.signed()) + (self.algorithm() + tlv_bytes(
                0x03,
                seq![0x00u8] + self.signature,
            )),
        )
    }

    /// The number of bytes of all parts.
    pub open spec fn size(self) -> int {
        (match self.version {
            Some(v) => v.len() as int,
            None => 0,
        }) + self.serial.len() + self.oid.len() + self.parameters.len() + self.issuer.len()
            + self.validity.len() + self.subject.len() + self.key.len() + (match self.extensions {
            Some(list) => list.len() as int,
            None => 0,
        }) + self.signature.len()
    }
}

proof fn lemma_tail(p: CertificateParts)
    requires
        p.size() <= 0xFF_FFFF,
    ensures
        ({
            let items = der_items(p.tail());
            &&& items.len() >= 1
            &&& items[0] == tlv_bytes(0x30, p.key)
            &&& trailing_extensions(items.skip(1)) == Ok::<Option<Seq<u8>>, X509ErrorView>(
                p.extensions,
            )
        }),
        der_complete(p.tail()),
        p.tail().len() <= p.size() + 32,
{
    let none = Seq::<u8>::empty();
    let ext = match p.extensions {
        Some(list) => tlv_bytes(0xA3, tlv_bytes(0x30, list)),
        None => none,
    };
    match p.extensions {
        Some(list) => {
            lemma_only_element(0x30, list);
            law_encoded_element_is_read_back(0x30, list);
            lemma_only_element(0xA3, tlv_bytes(0x30, list));
            lemma_front_element(0x30, p.key, ext);
            reveal_with_fuel(trailing_extensions, 2);
            let rest = der_items(p.tail()).skip(1);
            assert(rest =~= der_items(ext));
            assert(rest.drop_last() =~= Seq::<Seq<u8>>::empty());
            assert(rest.last() == ext);
        },
        None => {
            lemma_front_element(0x30, p.key, none);
            assert(der_items(none) =~= Seq::empty());
        },
    }
}

proof fn lemma_middle(p: CertificateParts)
    requires
        p.size() <= 0xFF_FFFF,
    ensures
        ({
            let items = der_items(p.middle());
            &&& items.len() >= 4
            &&& items[0] == tlv_bytes(0x30, p.issuer)
            &&& items[1] == tlv_bytes(0x30, p.validity)
            &&& items[2] == tlv_bytes(0x30, p.subject)
            &&& items[3] == tlv_bytes(0x30, p.key)
            &&& trailing_extensions(items.skip(4)) == Ok::<Option<Seq<u8>>, X509ErrorView>(
                p.extensions,
            )
        }),
        der_complete(p.middle()),
        p.middle().len() <= p.size() + 64,
{
    lemma_tail(p);
    lemma_size(0x30, p.issuer);
    lemma_size(0x30, p.validity);
    lemma_size(0x30, p.subject);
    let c = tlv_bytes(0x30, p.subject) + p.tail();
    let b = tlv_bytes(0x30, p.validity) + c;
    lemma_parts_size(p);
    lemma_front_element(0x30, p.subject, p.tail());
    lemma_front_element(0x30, p.validity, c);
    lemma_front_element(0x30, p.issuer, b);
    let items = der_items(p.middle());
    assert(items.skip(1)[0] == items[1]);
    assert(items.skip(1) == der_items(b));
    assert(der_items(b).skip(1) == der_items(c));
    assert(der_items(c).skip(1) == der_items(p.tail()));
    assert(items[2] == der_items(b)[1]);
    assert(items[3] == der_items(b)[2]);
    assert(der_items(b)[1] == der_items(b).skip(1)[0]);
    assert(der_items(b)[2] == der_items(b).skip(1)[1]);
    assert(der_items(c)[1] == der_items(c).skip(1)[0]);
    assert(items.skip(4) =~= der_items(p.tail()).skip(1));
}

/// The parts are no larger than they are encoded.
proof fn lemma_parts_size(p: CertificateParts)
    requires
        p.size() <= 0xFF_FFFF,
    ensures
        p.issuer.len() + p.validity.len() + p.subject.len() + p.tail().len() <= p.size() + 32,
{
    lemma_size(0x30, p.key);
    match p.extensions {
        Some(list) => {
            lemma_size(0x30, list);
            lemma_size(0xA3, tlv_bytes(0x30, list));
        },
        None => {},
    }
}

proof fn lemma_signed_items(p: CertificateParts)
    requires
        p.size() <= 0xFF_FFFF,
    ensures
        ({
            let items = der_items(p.signed());
            let v: int = if p.version is Some {
                1
            } else {
                0
            };
            &&& items.len() >= v + 6
            &&& v == 1 ==> der_any(items[0]) == Some((0xA0u8, p.version->Some_0))
            &&& der_any(items[v]) == Some((0x02u8, p.serial))
            &&& items[v + 1] == p.algorithm()
            &&& items[v + 2] == tlv_bytes(0x30, p.issuer)
            &&& items[v + 3] == tlv_bytes(0x30, p.validity)
            &&& items[v + 4] == tlv_bytes(0x30, p.subject)
            &&& items[v + 5] == tlv_bytes(0x30, p.key)
            &&& trailing_extensions(items.skip(v + 6)) == Ok::<Option<Seq<u8>>, X509ErrorView>(
                p.extensions,
            )
        }),
        der_complete(p.signed()),
        p.signed().len() <= 3 * p.size() + 160,
{
    lemma_middle(p);
    lemma_size(0x06, p.oid);
    let alg_body = tlv_bytes(0x06, p.oid) + p.parameters;
    lemma_size(0x30, alg_body);
    lemma_size(0x02, p.serial);
    let rest = p.algorithm() + p.middle();
    lemma_front_element(0x30, alg_body, p.middle());
    lemma_front_element(0x02, p.serial, rest);
    let numbered = tlv_bytes(0x02, p.serial) + rest;
    let inner = der_items(numbered);
    assert(inner.skip(1) == der_items(rest));
    assert(der_items(rest).skip(1) == der_items(p.middle()));
    let m = der_items(p.middle());
    assert(forall|k: int|
        0 <= k < m.len() ==> #[trigger] m[k] == der_items(rest).skip(1)[k]);
    assert(inner =~= seq![tlv_bytes(0x02, p.serial), p.algorithm()] + m) by {
        assert forall|k: int| 0 <= k < inner.len() implies inner[k] == (seq![
            tlv_bytes(0x02, p.serial),
            p.algorithm(),
        ] + m)[k] by {
            if k >= 1 {
                assert(inner[k] == inner.skip(1)[k - 1]);
                if k >= 2 {
                    assert(der_items(rest)[k - 1] == der_items(rest).skip(1)[k - 2]);
                }
            }
        }
    }
    match p.version {
        Some(ver) => {
            lemma_size(0xA0, ver);
            lemma_front_element(0xA0, ver, numbered);
            let items = der_items(p.signed());
            assert(items =~= seq![tlv_bytes(0xA0, ver)] + inner) by {
                assert forall|k: int| 0 <= k < items.len() implies items[k] == (seq![
                    tlv_bytes(0xA0, ver),
                ] + inner)[k] by {
                    if k >= 1 {
                        assert(items[k] == items.skip(1)[k - 1]);
                    }
                }
            }
            assert(items.skip(7) =~= m.skip(4));
        },
        None => {
            assert(inner.skip(6) =~= m.skip(4));
        },
    }
}

/// A certificate is read back from the parts it was encoded from, with and without a version
/// and extensions: the serial number behind the version, then issuer, validity window,
/// subject and key in their places behind the algorithm; the signed part as it stands; the
/// algorithm and the signature behind it.
pub proof fn law_certificate_read_back(p: CertificateParts)
    requires
        p.size() <= 0xF_FFFF,
        p.oid.len() > 0 && p.oid.last() < 0x80,
        validity_decoded(tlv_bytes(0x30, p.validity)) is Some,
        spki_der_decoded(tlv_bytes(0x30, p.key)) is Some,
    ensures
        certificate_of(p.bytes()) == Ok::<CertificateView, X509ErrorView>(
            CertificateView {
                raw: p.bytes(),
                tbs: tlv_bytes(0x30, p.signed()),
                fields: TbsView {
                    serial: p.serial,
                    issuer: tlv_bytes(0x30, p.issuer),
                    not_before: instant_of(
                        validity_decoded(tlv_bytes(0x30, p.validity))->Some_0.not_before,
                    ),
                    not_after: instant_of(
                        validity_decoded(tlv_bytes(0x30, p.validity))->Some_0.not_after,
                    ),
                    subject: tlv_bytes(0x30, p.subject),
                    spki: spki_der_decoded(tlv_bytes(0x30, p.key))->Some_0,
                    extensions: p.extensions,
                },
                signature_oid: p.oid,
                signature: p.signature,
            },
        ),
{
    lemma_tbs_read_back(p);
    lemma_outer_read_back(p);
}

proof fn lemma_tbs_read_back(p: CertificateParts)
    requires
        p.size() <= 0xF_FFFF,
        validity_decoded(tlv_bytes(0x30, p.validity)) is Some,
        spki_der_decoded(tlv_bytes(0x30, p.key)) is Some,
    ensures
        tbs_of(tlv_bytes(0x30, p.signed())) == Ok::<TbsView, X509ErrorView>(
            TbsView {
                serial: p.serial,
                issuer: tlv_bytes(0x30, p.issuer),
                not_before: instant_of(
                    validity_decoded(tlv_bytes(0x30, p.validity))->Some_0.not_before,
                ),
                not_after: instant_of(
                    validity_decoded(tlv_bytes(0x30, p.validity))->Some_0.not_after,
                ),
                subject: tlv_bytes(0x30, p.subject),
                spki: spki_der_decoded(tlv_bytes(0x30, p.key))->Some_0,
                extensions: p.extensions,
            },
        ),
        tbs_algorithm(tlv_bytes(0x30, p.signed())) == p.algorithm(),
{
    lemma_signed_items(p);
    law_encoded_element_is_read_back(0x30, p.signed());
    law_encoded_element_is_read_back(0x30, p.issuer);
    law_encoded_element_is_read_back(0x30, p.subject);
}

proof fn lemma_outer_read_back(p: CertificateParts)
    requires
        p.size() <= 0xF_FFFF,
        p.oid.len() > 0 && p.oid.last() < 0x80,
    ensures
        outer_parts(p.bytes()) == Ok::<OuterView, X509ErrorView>(
            OuterView {
                tbs: tlv_bytes(0x30, p.signed()),
                algorithm: p.algorithm(),
                oid: p.oid,
                signature: p.signature,
            },
        ),
{
    lemma_signed_items(p);
    let bits = seq![0x00u8] + p.signature;
    let sig = tlv_bytes(0x03, bits);
    let alg_body = tlv_bytes(0x06, p.oid) + p.parameters;
    lemma_size(0x06, p.oid);
    lemma_size(0x30, alg_body);
    lemma_size(0x30, p.signed());
    lemma_only_element(0x03, bits);
    lemma_front_element(0x30, alg_body, sig);
    lemma_front_element(0x30, p.signed(), p.algorithm() + sig);
    lemma_front_element(0x06, p.oid, p.parameters);
    let body = tlv_bytes(0x30, p.signed()) + (p.algorithm() + sig);
    law_encoded_element_is_read_back(0x30, body);
    let items = der_items(body);
    assert(items[1] == items.skip(1)[0]);
    assert(items[2] == items.skip(1)[1]);
    let two = der_items(p.algorithm() + sig);
    assert(two[1] == two.skip(1)[0]);
    assert(bits.skip(1) =~= p.signature);
}

/// The identifiers `2.5.29.n` of extensions.
pub open spec fn extension_kind(n: u8) -> Seq<u8> {
    seq![0x55u8, 0x1D, n]
}

/// Key usages are read from extension `2.5.29.15`, with its critical flag.
pub proof fn law_key_usage_is_extension_15(bits: Seq<u8>, critical: Option<u8>, rest: Seq<u8>, n: int)
    requires
        0 < bits.len(),
        bits.len() + rest.len() <= 0xFF_FF00,
        0 <= n <= 8,
    ensures
        ({
            let all = extension_bytes(extension_kind(15), critical, tlv_bytes(0x03, bits)) + rest;
            key_usage_of(all) matches Some((u, c)) && c == (critical matches Some(b) && b != 0)
                && usage_flag(u, n) == (1 + n / 8 < bits.len() && bit_of(
                bits[1 + n / 8],
                7 - n % 8,
            ))
        }),
{
    law_identifiers();
    lemma_size(0x03, bits);
    law_key_usage_bits(bits, n);
    law_extension_read_back(
        extension_kind(15),
        critical,
        tlv_bytes(0x03, bits),
        rest,
        extension_kind(15),
    );
}

proof fn lemma_sequence_value(body: Seq<u8>)
    requires
        body.len() <= 0xFFFF_FFFF,
    ensures
        crate::ber::tagged(tlv_bytes(0x30, body), 0x30) == Ok::<Seq<u8>, crate::ber::BerError>(
            body,
        ),
{
    let none = Seq::<u8>::empty();
    law_tlv_round_trip(0x30, body, none);
    assert(tlv_bytes(0x30, body) + none =~= tlv_bytes(0x30, body));
}

/// Basic constraints are read from extension `2.5.29.19`, extended key usages from
/// `2.5.29.37`, the addresses of lists from `2.5.29.31` and the alternative names of the
/// subject from `2.5.29.17`, each from the SEQUENCE it holds.
pub proof fn law_extension_kinds(body: Seq<u8>, critical: Option<u8>, rest: Seq<u8>)
    requires
        body.len() + rest.len() <= 0xFF_FF00,
    ensures
        ({
            let flag = critical matches Some(b) && b != 0;
            let value = tlv_bytes(0x30, body);
            let (ca, path_len) = constraint_fields(tlv_items(body));
            &&& constraints_of(extension_bytes(extension_kind(19), critical, value) + rest)
                == BasicConstraints { ca, path_len, critical: flag, present: true }
            &&& purposes_of(extension_bytes(extension_kind(37), critical, value) + rest) == Some(
                (purpose_oids(tlv_items(body)), flag),
            )
            &&& extension_sequence(
                extension_bytes(extension_kind(37), critical, value) + rest,
                EXT_KEY_USAGE@,
            ) == Some(body)
            &&& crl_uris(extension_bytes(extension_kind(31), critical, value) + rest)
                == points_uris(tlv_items(body))
            &&& extension_sequence(
                extension_bytes(extension_kind(17), critical, value) + rest,
                SUBJECT_ALT_NAME@,
            ) == Some(body)
        }),
{
    law_identifiers();
    lemma_size(0x30, body);
    lemma_sequence_value(body);
    let value = tlv_bytes(0x30, body);
    law_extension_read_back(extension_kind(19), critical, value, rest, extension_kind(19));
    law_extension_read_back(extension_kind(37), critical, value, rest, extension_kind(37));
    law_extension_read_back(extension_kind(31), critical, value, rest, extension_kind(31));
    law_extension_read_back(extension_kind(17), critical, value, rest, extension_kind(17));
}

/// The addresses of responders and of issuers are read from the information-access
/// extension, `1.3.6.1.5.5.7.1.1`.
pub proof fn law_access_is_one_extension(
    body: Seq<u8>,
    critical: Option<u8>,
    rest: Seq<u8>,
    method: Seq<u8>,
)
    requires
        body.len() + rest.len() <= 0xFF_FF00,
    ensures
        aia_uris(
            extension_bytes(
                seq![0x2Bu8, 0x06, 0x01, 0x05, 0x05, 0x07, 0x01, 0x01],
                critical,
                tlv_bytes(0x30, body),
            ) + rest,
            method,
        ) == access_uris(der_items(body), method),
{
    let oid = seq![0x2Bu8, 0x06, 0x01, 0x05, 0x05, 0x07, 0x01, 0x01];
    law_identifiers();
    lemma_size(0x30, body);
    law_encoded_element_is_read_back(0x30, body);
    law_extension_read_back(oid, critical, tlv_bytes(0x30, body), rest, oid);
}

/// The name of flag `n` of a key usage.
pub open spec fn usage_name(n: int) -> Seq<char> {
    if n == 0 {
        "digitalSignature"@
    } else if n == 1 {
        "nonRepudiation"@
    } else if n == 2 {
        "keyEncipherment"@
    } else if n == 3 {
        "dataEncipherment"@
    } else if n == 4 {
        "keyAgreement"@
    } else if n == 5 {
        "keyCertSign"@
    } else if n == 6 {
        "cRLSign"@
    } else if n == 7 {
        "encipherOnly"@
    } else {
        "decipherOnly"@
    }
}

/// A key usage without its flag `n`.
pub open spec fn without_flag(u: KeyUsage, n: int) -> KeyUsage {
    KeyUsage {
        digital_signature: u.digital_signature && n != 0,
        non_repudiation: u.non_repudiation && n != 1,
        key_encipherment: u.key_encipherment && n != 2,
        data_encipherment: u.data_encipherment && n != 3,
        key_agreement: u.key_agreement && n != 4,
        key_cert_sign: u.key_cert_sign && n != 5,
        crl_sign: u.crl_sign && n != 6,
        encipher_only: u.encipher_only && n != 7,
        decipher_only: u.decipher_only && n != 8,
    }
}

/// The label of a key usage names its set flags in order, with commas between them: the
/// last one stands behind the label of the others, alone where there are none.
pub proof fn law_usage_label(u: KeyUsage, n: int)
    requires
        0 <= n <= 8,
        usage_flag(u, n),
        forall|k: int| n < k <= 8 ==> !(#[trigger] usage_flag(u, k)),
    ensures
        u.names() == if without_flag(u, n).names().len() == 0 {
            usage_name(n)
        } else {
            without_flag(u, n).names() + ", "@ + usage_name(n)
        },
        (forall|k: int| 0 <= k < n ==> !(#[trigger] usage_flag(u, k))) ==> u.names()
            == usage_name(n),
{
    assert(forall|k: int| n < k <= 8 ==> !(#[trigger] usage_flag(u, k)));
    assert(1 > n ==> !usage_flag(u, 1));
    assert(2 > n ==> !usage_flag(u, 2));
    assert(3 > n ==> !usage_flag(u, 3));
    assert(4 > n ==> !usage_flag(u, 4));
    assert(5 > n ==> !usage_flag(u, 5));
    assert(6 > n ==> !usage_flag(u, 6));
    assert(7 > n ==> !usage_flag(u, 7));
    assert(8 > n ==> !usage_flag(u, 8));
    if forall|k: int| 0 <= k < n ==> !(#[trigger] usage_flag(u, k)) {
        assert(0 < n ==> !usage_flag(u, 0));
        assert(1 < n ==> !usage_flag(u, 1));
        assert(2 < n ==> !usage_flag(u, 2));
        assert(3 < n ==> !usage_flag(u, 3));
        assert(4 < n ==> !usage_flag(u, 4));
        assert(5 < n ==> !usage_flag(u, 5));
        assert(6 < n ==> !usage_flag(u, 6));
        assert(7 < n ==> !usage_flag(u, 7));
    }
}

/// The purposes `1.3.6.1.5.5.7.3.n`.
pub open spec fn purpose(n: u8) -> Seq<u8> {
    seq![0x2Bu8, 0x06, 0x01, 0x05, 0x05, 0x07, 0x03, n]
}

/// Six purposes have names; every other one is shown by its dotted notation.
pub proof fn law_purpose_names(oid: Seq<u8>)
    ensures
        oid == purpose(1) ==> purpose_name(oid) == "serverAuth"@,
        oid == purpose(2) ==> purpose_name(oid) == "clientAuth"@,
        oid == purpose(3) ==> purpose_name(oid) == "codeSigning"@,
        oid == purpose(4) ==> purpose_name(oid) == "emailProtection"@,
        oid == purpose(8) ==> purpose_name(oid) == "timeStamping"@,
        oid == purpose(9) ==> purpose_name(oid) == "ocspSigning"@,
        oid != purpose(1) && oid != purpose(2) && oid != purpose(3) && oid != purpose(4) && oid
            != purpose(8) && oid != purpose(9) ==> purpose_name(oid) == "oid:"@ + dot_notation(oid),
{
    assert(crate::oid::known::KP_SERVER_AUTH@ =~= purpose(1));
    assert(crate::oid::known::KP_CLIENT_AUTH@ =~= purpose(2));
    assert(crate::oid::known::KP_CODE_SIGNING@ =~= purpose(3));
    assert(crate::oid::known::KP_EMAIL_PROTECTION@ =~= purpose(4));
    assert(crate::oid::known::KP_TIME_STAMPING@ =~= purpose(8));
    assert(crate::oid::known::KP_OCSP_SIGNING@ =~= purpose(9));
    assert(purpose(1)[7] == 1 && purpose(2)[7] == 2 && purpose(3)[7] == 3 && purpose(4)[7] == 4
        && purpose(8)[7] == 8 && purpose(9)[7] == 9);
}

proof fn lemma_short_arcs_apart(bytes: Seq<u8>, arc: Seq<u8>, from: int, acc: nat)
    requires
        0 <= from <= bytes.len(),
        from == bytes.len() ==> acc == 0,
        from < bytes.len() ==> bytes.last() < 128,
    ensures
        short_arcs(bytes + arc, from, acc) == short_arcs(bytes, from, acc) + short_arcs(
            bytes + arc,
            bytes.len() as int,
            0,
        ),
    decreases bytes.len() - from,
{
    if from < bytes.len() {
        let next = short_arc_step(acc, bytes[from]);
        if bytes[from] < 128 {
            lemma_short_arcs_apart(bytes, arc, from + 1, 0);
            let tail = short_arcs(bytes + arc, bytes.len() as int, 0);
            assert("."@ + dec(next) + (short_arcs(bytes, from + 1, 0) + tail) =~= "."@ + dec(next)
                + short_arcs(bytes, from + 1, 0) + tail);
        } else {
            lemma_short_arcs_apart(bytes, arc, from + 1, next);
        }
    } else {
        assert(short_arcs(bytes, from, acc) =~= Seq::empty());
        assert(Seq::<char>::empty() + short_arcs(bytes + arc, from, 0) =~= short_arcs(
            bytes + arc,
            from,
            0,
        ));
    }
}

proof fn lemma_one_short_arc(bytes: Seq<u8>, arc: Seq<u8>, k: int)
    requires
        is_arc(arc),
        0 <= k < arc.len(),
    ensures
        short_arcs(bytes + arc, bytes.len() + k, base128(arc.take(k)) % 0x1_0000_0000) == "."@
            + dec(base128(arc) % 0x1_0000_0000),
    decreases arc.len() - k,
{
    let all = bytes + arc;
    let from = bytes.len() + k;
    let acc = base128(arc.take(k)) % 0x1_0000_0000;
    assert(all[from] == arc[k]);
    assert(arc.take(k + 1).drop_last() =~= arc.take(k));
    assert(short_arc_step(acc, arc[k]) == base128(arc.take(k + 1)) % 0x1_0000_0000);
    if k + 1 < arc.len() {
        lemma_one_short_arc(bytes, arc, k + 1);
    } else {
        assert(arc.take(k + 1) =~= arc);
        reveal_with_fuel(short_arcs, 2);
        assert("."@ + dec(short_arc_step(acc, arc[k])) + Seq::<char>::empty() =~= "."@ + dec(
            short_arc_step(acc, arc[k]),
        ));
    }
}

/// In the dotted notation of purposes the first byte packs two arcs; each further arc
/// stands behind a dot, as the number that its bytes make up to the base 128, in the lower
/// 32 bits.
pub proof fn law_purpose_arcs(a: u8, b: u8, bytes: Seq<u8>, arc: Seq<u8>)
    ensures
        40 * a + b < 256 && b < 40 ==> dot_notation(seq![(40 * a + b) as u8]) == dec(a as nat)
            + "."@ + dec(b as nat),
        (bytes.len() == 1 || bytes.len() > 1 && bytes.last() < 128) && is_arc(arc)
            ==> dot_notation(bytes + arc) == dot_notation(bytes) + "."@ + dec(
            base128(arc) % 0x1_0000_0000,
        ),
{
    if 40 * a + b < 256 && b < 40 {
        let one = seq![(40 * a + b) as u8];
        assert(short_arcs(one, 1, 0) =~= Seq::empty());
        assert(one[0] == 40 * a + b);
        assert(dot_notation(one) =~= dec(a as nat) + "."@ + dec(b as nat));
    }
    if (bytes.len() == 1 || bytes.len() > 1 && bytes.last() < 128) && is_arc(arc) {
        lemma_short_arcs_apart(bytes, arc, 1, 0);
        lemma_one_short_arc(bytes, arc, 0);
        assert(arc.take(0) =~= Seq::empty());
        assert((bytes + arc)[0] == bytes[0]);
        assert(dot_notation(bytes + arc) =~= dot_notation(bytes) + "."@ + dec(
            base128(arc) % 0x1_0000_0000,
        ));
    }
}

/// What a certificate that is accepted looks like: a SEQUENCE of at least three elements, of
/// which the second is the SEQUENCE of the algorithm and the third a BIT STRING; a signed
/// part that is read to its end, with the serial number as an INTEGER, behind the version
/// where there is one, the same algorithm, and issuer and subject as SEQUENCEs.
pub proof fn law_accepted_certificates(der: Seq<u8>)
    requires
        certificate_of(der) is Ok,
    ensures
        ({
            let cert = certificate_of(der)->Ok_0;
            let body = der_tagged(der, 0x30);
            let outer = der_items(body->Some_0);
            let signed = der_tagged(cert.tbs, 0x30);
            let parts = der_items(signed->Some_0);
            let bits = der_tagged(outer[2], 0x03);
            let v: int = if der_tagged(parts[0], 0xA0) is Some {
                1
            } else {
                0
            };
            &&& body is Some && outer.len() >= 3
            &&& cert.tbs == outer[0] && signed is Some && der_complete(signed->Some_0)
            &&& der_tagged(outer[1], 0x30) is Some
            &&& bits is Some && bits->Some_0.len() > 0 && cert.signature == bits->Some_0.skip(1)
            &&& parts.len() >= v + 6
            &&& der_tagged(parts[v], 0x02) == Some(cert.fields.serial)
            &&& parts[v + 1] == outer[1]
            &&& cert.fields.issuer == parts[v + 2] && der_tagged(parts[v + 2], 0x30) is Some
            &&& cert.fields.subject == parts[v + 4] && der_tagged(parts[v + 4], 0x30) is Some
            &&& spki_der_decoded(parts[v + 5]) == Some(cert.fields.spki)
            &&& validity_decoded(parts[v + 3]) is Some
        }),
{
}

/// The field prime of explicit curve parameters is the INTEGER in the second data object,
/// behind the kind of the field, without the zero in front.
pub proof fn law_field_prime_read_back(
    version: Seq<u8>,
    kind: Seq<u8>,
    prime: Seq<u8>,
    rest: Seq<u8>,
)
    requires
        version.len() + kind.len() + prime.len() + rest.len() <= 0xFF_FFFF,
        prime.len() > 0 ==> prime[0] != 0,
    ensures
        field_prime(
            tlv_bytes(0x02, version) + (tlv_bytes(
                0x30,
                tlv_bytes(0x06, kind) + tlv_bytes(0x02, seq![0x00u8] + prime),
            ) + rest),
        ) == Some(prime),
        field_prime(
            tlv_bytes(0x02, version) + (tlv_bytes(
                0x30,
                tlv_bytes(0x06, kind) + tlv_bytes(0x02, prime),
            ) + rest),
        ) == Some(prime),
{
    lemma_field_prime(version, kind, seq![0x00u8] + prime, rest);
    lemma_field_prime(version, kind, prime, rest);
    assert((seq![0x00u8] + prime).skip(1) =~= prime);
}

proof fn lemma_field_prime(version: Seq<u8>, kind: Seq<u8>, number: Seq<u8>, rest: Seq<u8>)
    requires
        version.len() + kind.len() + number.len() + rest.len() <= 0x100_0000,
    ensures
        field_prime(
            tlv_bytes(0x02, version) + (tlv_bytes(
                0x30,
                tlv_bytes(0x06, kind) + tlv_bytes(0x02, number),
            ) + rest),
        ) == Some(
            if number.len() > 0 && number[0] == 0 {
                number.skip(1)
            } else {
                number
            },
        ),
{
    let field = tlv_bytes(0x06, kind) + tlv_bytes(0x02, number);
    lemma_size(0x06, kind);
    lemma_size(0x02, number);
    lemma_size(0x30, field);
    lemma_two_objects(0x06, kind, 0x02, number);
    lemma_front_object(0x30, field, rest);
    lemma_front_object(0x02, version, tlv_bytes(0x30, field) + rest);
    let items = tlv_items(tlv_bytes(0x02, version) + (tlv_bytes(0x30, field) + rest));
    assert(items[1] == tlv_items(tlv_bytes(0x30, field) + rest)[0]);
}

/// An uncompressed point is `04` and two coordinates of the same length.
pub proof fn law_uncompressed_points(x: Seq<u8>, y: Seq<u8>, first: u8)
    ensures
        is_uncompressed_point(seq![first] + x + y) <==> first == 4 && (x.len() + y.len()) % 2 == 0
            && x.len() + y.len() > 0,
{
    assert((seq![first] + x + y)[0] == first);
}

/// The RSA key of a public key is that of its bits, for the algorithm `1.2.840.113549.1.1.1`
/// alone.
pub proof fn law_rsa_key_of_its_algorithm(parts: SpkiView)
    ensures
        parts.algorithm == seq![0x2Au8, 0x86, 0x48, 0x86, 0xF7, 0x0D, 0x01, 0x01, 0x01]
            ==> rsa_key_of(parts) == rsa_parts(parts.key),
        parts.algorithm != seq![0x2Au8, 0x86, 0x48, 0x86, 0xF7, 0x0D, 0x01, 0x01, 0x01]
            ==> rsa_key_of(parts) is None,
{
    law_identifiers();
}

/// The names of extended key usages come out in order, those that are malformed left out.
pub proof fn law_purpose_names_in_order(items: Seq<TlvView>, item: TlvView)
    ensures
        purpose_names(Seq::empty()) == Seq::<Seq<char>>::empty(),
        purpose_names(items.push(item)) == if item.tag == 0x06 && item.value.len() > 0
            && item.value.last() < 0x80 {
            purpose_names(items).push(purpose_name(item.value))
        } else {
            purpose_names(items)
        },
{
    assert(items.push(item).drop_last() =~= items);
}

/// Six numbers spell an instant from the year down to the second.
pub proof fn law_instants(year: u16, month: u8, day: u8, hour: u8, minutes: u8, seconds: u8)
    ensures
        instant_of((year, month, day, hour, minutes, seconds)) == (DateTimeView {
            year,
            month,
            day,
            hour,
            minutes,
            seconds,
        }),
{
}

/// Bytes are an address exactly if they are UTF-8 and parse as a URI, and an e-mail address
/// exactly if they are the UTF-8 of one.
pub proof fn law_addresses_are_parsed(value: Seq<u8>, text: Seq<char>)
    ensures
        uri_bytes(value) is Some <==> vstd::utf8::valid_utf8(value) && uri_of(value) is Ok,
        uri_bytes(value) matches Some(u) ==> uri_of(value) == Ok::<UriView, UriError>(u),
        email_bytes(vstd::utf8::encode_utf8(text)) == if is_email(text) {
            Some(text)
        } else {
            None
        },
        !vstd::utf8::valid_utf8(value) ==> email_bytes(value) is None,
{
    vstd::utf8::encode_utf8_valid_utf8(text);
    vstd::utf8::encode_utf8_decode_utf8(text);
}

/// A string of two-byte characters is text exactly if it has an even number of bytes and
/// none of its characters is a surrogate, D800 to DFFF.
pub proof fn law_two_byte_strings(value: Seq<u8>)
    ensures
        directory_string(0x1E, value) is Some <==> value.len() % 2 == 0 && forall|i: int|
            0 <= i < value.len() / 2 ==> !(0xD8 <= #[trigger] value[2 * i] <= 0xDF),
{
    if directory_string(0x1E, value) is Some {
        assert forall|i: int| 0 <= i < value.len() / 2 implies !(0xD8 <= #[trigger] value[2 * i]
            <= 0xDF) by {
            assert(is_scalar_value(code_unit(value, i)));
        }
    }
    if value.len() % 2 == 0 && forall|i: int|
        0 <= i < value.len() / 2 ==> !(0xD8 <= #[trigger] value[2 * i] <= 0xDF) {
        assert forall|i: int| 0 <= i < value.len() / 2 implies is_scalar_value(
            #[trigger] code_unit(value, i),
        ) by {
            assert(!(0xD8 <= value[2 * i] <= 0xDF));
        }
    }
}

/// Whatever [`extract_key_usage`] answers about an extension list that begins with key
/// usages: each flag is its named bit.
pub proof fn law_key_usage_answers(
    extensions: &[u8],
    bits: Seq<u8>,
    critical: Option<u8>,
    rest: Seq<u8>,
    r: Option<KeyUsage>,
)
    requires
        call_ensures(extract_key_usage, (extensions,), r),
        extensions@ == extension_bytes(extension_kind(15), critical, tlv_bytes(0x03, bits)) + rest,
        0 < bits.len(),
        bits.len() + rest.len() <= 0xFF_FF00,
    ensures
        r is Some,
        bits.len() > 1 ==> {
            let u = r->Some_0;
            &&& u.digital_signature == bit_of(bits[1], 7)
            &&& u.non_repudiation == bit_of(bits[1], 6)
            &&& u.key_encipherment == bit_of(bits[1], 5)
            &&& u.data_encipherment == bit_of(bits[1], 4)
            &&& u.key_agreement == bit_of(bits[1], 3)
            &&& u.key_cert_sign == bit_of(bits[1], 2)
            &&& u.crl_sign == bit_of(bits[1], 1)
            &&& u.encipher_only == bit_of(bits[1], 0)
        },
        bits.len() > 2 ==> r->Some_0.decipher_only == bit_of(bits[2], 7),
        bits.len() <= 2 ==> !r->Some_0.decipher_only,
{
    law_key_usage_is_extension_15(bits, critical, rest, 0);
    law_key_usage_is_extension_15(bits, critical, rest, 1);
    law_key_usage_is_extension_15(bits, critical, rest, 2);
    law_key_usage_is_extension_15(bits, critical, rest, 3);
    law_key_usage_is_extension_15(bits, critical, rest, 4);
    law_key_usage_is_extension_15(bits, critical, rest, 5);
    law_key_usage_is_extension_15(bits, critical, rest, 6);
    law_key_usage_is_extension_15(bits, critical, rest, 7);
    law_key_usage_is_extension_15(bits, critical, rest, 8);
}

/// Whatever [`Certificate::from_der`] gives for a certificate that was put together from
/// parts: each field holds its part.
pub proof fn law_certificate_fields<'a>(
    p: CertificateParts,
    der: &'a [u8],
    r: Result<Certificate<'a>, X509Error>,
)
    requires
        call_ensures(Certificate::from_der, (der,), r),
        der@ == p.bytes(),
        p.size() <= 0xF_FFFF,
        p.oid.len() > 0 && p.oid.last() < 0x80,
        validity_decoded(tlv_bytes(0x30, p.validity)) is Some,
        spki_der_decoded(tlv_bytes(0x30, p.key)) is Some,
    ensures
        r is Ok,
        ({
            let cert = r->Ok_0;
            let window = validity_decoded(tlv_bytes(0x30, p.validity))->Some_0;
            &&& cert.raw_der@ == der@
            &&& cert.tbs_der@ == tlv_bytes(0x30, p.signed())
            &&& cert.serial_der@ == p.serial
            &&& cert.issuer@ == tlv_bytes(0x30, p.issuer)
            &&& cert.subject@ == tlv_bytes(0x30, p.subject)
            &&& cert.not_before@ == instant_of(window.not_before)
            &&& cert.not_after@ == instant_of(window.not_after)
            &&& cert.spki@ == spki_der_decoded(tlv_bytes(0x30, p.key))->Some_0
            &&& cert.extensions is Some <==> p.extensions is Some
            &&& cert.extensions matches Some(list) ==> Some(list@) == p.extensions
            &&& cert.signature_alg_oid@ == p.oid
            &&& cert.signature_bits@ == p.signature
        }),
{
    law_certificate_read_back(p);
}

} // verus!
