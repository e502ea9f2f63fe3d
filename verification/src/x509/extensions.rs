//! Certificate extensions.

use crate::ber::{same_items, tagged, tlv_items, BerBody, BerTlvAny, TlvView, TAG_BIT_STRING,
    TAG_BOOLEAN, TAG_INTEGER, TAG_OID, TAG_SEQUENCE};
use crate::bytes::{be_mod, be_nat, same_bytes, text_from_utf8};
use crate::der::{der_any, der_items, der_tagged, same_elements, slice_view, DerAny, DerBody};
use crate::identity::{email_of, EmailAddress};
use crate::oid::known::{AD_CA_ISSUERS, AD_OCSP, AUTHORITY_INFO_ACCESS, BASIC_CONSTRAINTS,
    CRL_DISTRIBUTION_POINTS, EXT_KEY_USAGE, KEY_USAGE, KP_CLIENT_AUTH, KP_CODE_SIGNING,
    KP_EMAIL_PROTECTION, KP_OCSP_SIGNING, KP_SERVER_AUTH, KP_TIME_STAMPING, SUBJECT_ALT_NAME};
use crate::oid::Oid;
use crate::render::{dec, push_dec};
use crate::text::{uri_of, Uri, UriView};
use vstd::prelude::*;
use vstd::slice::slice_to_vec;
use vstd::string::*;
use vstd::utf8::{decode_utf8, encode_utf8_decode_utf8, valid_utf8};

verus! {

/// What one extension says about a search for an object identifier.
pub enum ExtensionStep {
    /// It is another extension.
    Skip,
    /// It cannot be read.
    Stop,
    /// It is the one: its value and whether it is critical.
    Found(Seq<u8>, bool),
}

/// What the fields behind the object identifier of an extension hold: a critical
/// flag, false where it is missing, and the value.
pub open spec fn extension_fields(fields: Seq<Seq<u8>>) -> ExtensionStep {
    if fields.len() < 2 {
        ExtensionStep::Stop
    } else {
        match der_any(fields[1]) {
            None => ExtensionStep::Stop,
            Some((tag, value)) => if tag == 0x01 {
                if fields.len() < 3 {
                    ExtensionStep::Stop
                } else {
                    match der_tagged(fields[2], 0x04) {
                        None => ExtensionStep::Stop,
                        Some(v) => ExtensionStep::Found(v, value.len() > 0 && value[0] != 0),
                    }
                }
            } else if tag == 0x04 {
                ExtensionStep::Found(value, false)
            } else {
                ExtensionStep::Stop
            },
        }
    }
}

/// What one extension says about a search for `oid`.
pub open spec fn extension_step(extension: Seq<u8>, oid: Seq<u8>) -> ExtensionStep {
    match der_any(extension) {
        None => ExtensionStep::Stop,
        Some((tag, body)) => if tag != 0x30 {
            ExtensionStep::Skip
        } else {
            let fields = der_items(body);
            if fields.len() < 1 {
                ExtensionStep::Stop
            } else {
                match der_any(fields[0]) {
                    None => ExtensionStep::Stop,
                    Some((t, id)) => if t != 0x06 || id != oid {
                        ExtensionStep::Skip
                    } else {
                        extension_fields(fields)
                    },
                }
            }
        },
    }
}

/// Value and critical flag of the first extension with `oid`; none when an
/// extension up to there cannot be read.
pub open spec fn extension_among(items: Seq<Seq<u8>>, oid: Seq<u8>) -> Option<(Seq<u8>, bool)>
    decreases items.len(),
{
    if items.len() == 0 {
        None
    } else {
        match extension_step(items[0], oid) {
            ExtensionStep::Skip => extension_among(items.drop_first(), oid),
            ExtensionStep::Stop => None,
            ExtensionStep::Found(value, critical) => Some((value, critical)),
        }
    }
}

/// Value and critical flag of the extension with `oid`.
pub open spec fn extension_of(extensions: Seq<u8>, oid: Seq<u8>) -> Option<(Seq<u8>, bool)> {
    extension_among(der_items(extensions), oid)
}

/// The lookup finds the first extension of its kind: those before it are others.
pub proof fn law_first_extension_counts(items: Seq<Seq<u8>>, oid: Seq<u8>, at: int)
    requires
        0 <= at < items.len(),
        forall|j: int| 0 <= j < at ==> extension_step(#[trigger] items[j], oid) is Skip,
        extension_step(items[at], oid) is Found,
    ensures
        extension_among(items, oid) is Some,
        extension_step(items[at], oid) == ExtensionStep::Found(
            extension_among(items, oid)->Some_0.0,
            extension_among(items, oid)->Some_0.1,
        ),
    decreases items.len(),
{
    if at > 0 {
        let rest = items.drop_first();
        assert(extension_step(items[0], oid) is Skip);
        assert forall|j: int| 0 <= j < at - 1 implies extension_step(
            #[trigger] rest[j],
            oid,
        ) is Skip by {
            assert(rest[j] == items[j + 1]);
        }
        law_first_extension_counts(rest, oid, at - 1);
    }
}

/// An extension that was looked up.
#[derive(Debug, Clone, Copy)]
pub struct ExtensionMeta<'a> {
    /// The value.
    pub value: &'a [u8],
    /// The extension is marked critical.
    pub critical: bool,
}

/// The view of a lookup.
pub open spec fn meta_view(r: Option<ExtensionMeta<'_>>) -> Option<(Seq<u8>, bool)> {
    match r {
        Some(m) => Some((m.value@, m.critical)),
        None => None,
    }
}

enum Lookup<'a> {
    Skip,
    Stop,
    Found(ExtensionMeta<'a>),
}

spec fn lookup_view(r: Lookup<'_>) -> ExtensionStep {
    match r {
        Lookup::Skip => ExtensionStep::Skip,
        Lookup::Stop => ExtensionStep::Stop,
        Lookup::Found(m) => ExtensionStep::Found(m.value@, m.critical),
    }
}

fn read_extension<'a>(extension: &'a [u8], oid: &[u8]) -> (r: Lookup<'a>)
    ensures
        lookup_view(r) == extension_step(extension@, oid@),
{
    let any = match DerAny::from_der(extension) {
        Some(any) => any,
        None => {
            return Lookup::Stop;
        },
    };
    if any.tag != 0x30 {
        return Lookup::Skip;
    }
    let fields = DerBody::read(any.value);
    let ghost views = der_items(any.value@);
    if fields.items.len() < 1 {
        return Lookup::Stop;
    }
    assert(fields.items@[0]@ == views[0]);
    let id = match DerAny::from_der(fields.items[0]) {
        Some(id) => id,
        None => {
            return Lookup::Stop;
        },
    };
    if id.tag != 0x06 || !same_bytes(id.value, oid) {
        return Lookup::Skip;
    }
    if fields.items.len() < 2 {
        return Lookup::Stop;
    }
    assert(fields.items@[1]@ == views[1]);
    let next = match DerAny::from_der(fields.items[1]) {
        Some(next) => next,
        None => {
            return Lookup::Stop;
        },
    };
    if next.tag == 0x04 {
        return Lookup::Found(ExtensionMeta { value: next.value, critical: false });
    }
    if next.tag != 0x01 || fields.items.len() < 3 {
        return Lookup::Stop;
    }
    assert(fields.items@[2]@ == views[2]);
    let critical = next.value.len() > 0 && next.value[0] != 0;
    match DerAny::tagged(fields.items[2], 0x04) {
        Some(value) => Lookup::Found(ExtensionMeta { value, critical }),
        None => Lookup::Stop,
    }
}

/// Look up an extension in a list of extensions.
pub fn find_extension_with_meta<'a>(extensions: &'a [u8], oid: &[u8]) -> (r: Option<
    ExtensionMeta<'a>,
>)
    ensures
        meta_view(r) == extension_of(extensions@, oid@),
{
    let walk = DerBody::read(extensions);
    let ghost views = der_items(extensions@);
    assert(views.skip(0) =~= views);
    let mut i: usize = 0;
    while i < walk.items.len()
        invariant
            i <= walk.items@.len(),
            same_elements(walk.items@, views),
            extension_of(extensions@, oid@) == extension_among(views.skip(i as int), oid@),
        decreases walk.items@.len() - i,
    {
        proof {
            assert(walk.items@[i as int]@ == views[i as int]);
            assert(views.skip(i as int)[0] == views[i as int]);
            assert(views.skip(i as int).drop_first() =~= views.skip(i + 1));
        }
        match read_extension(walk.items[i], oid) {
            Lookup::Skip => {},
            Lookup::Stop => {
                return None;
            },
            Lookup::Found(meta) => {
                return Some(meta);
            },
        }
        i += 1;
    }
    None
}

/// Look up the value of an extension.
pub fn find_extension<'a>(extensions: &'a [u8], oid: &[u8]) -> (r: Option<&'a [u8]>)
    ensures
        slice_view(r) == match extension_of(extensions@, oid@) {
            Some((value, _)) => Some(value),
            None => None,
        },
{
    match find_extension_with_meta(extensions, oid) {
        Some(meta) => Some(meta.value),
        None => None,
    }
}

/// The value of the SEQUENCE that the extension with `oid` holds.
pub open spec fn extension_sequence(extensions: Seq<u8>, oid: Seq<u8>) -> Option<Seq<u8>> {
    match extension_of(extensions, oid) {
        None => None,
        Some((value, _)) => match tagged(value, TAG_SEQUENCE) {
            Ok(body) => Some(body),
            Err(_) => None,
        },
    }
}

fn find_sequence<'a>(extensions: &'a [u8], oid: &[u8]) -> (r: Option<&'a [u8]>)
    ensures
        slice_view(r) == extension_sequence(extensions@, oid@),
{
    match find_extension(extensions, oid) {
        Some(value) => match BerTlvAny::parse_tagged(value, TAG_SEQUENCE) {
            Ok(body) => Some(body),
            Err(_) => None,
        },
        None => None,
    }
}

/// The views of addresses.
pub open spec fn uri_views(urls: Seq<Uri>) -> Seq<UriView> {
    Seq::new(urls.len(), |i: int| urls[i]@)
}

/// The address that UTF-8 bytes spell.
pub open spec fn uri_bytes(value: Seq<u8>) -> Option<UriView> {
    if valid_utf8(value) {
        match uri_of(value) {
            Ok(u) => Some(u),
            Err(_) => None,
        }
    } else {
        None
    }
}

/// `so_far` and, where there is one, one more address.
pub open spec fn with_uri(so_far: Seq<UriView>, more: Option<UriView>) -> Seq<UriView> {
    match more {
        Some(u) => so_far.push(u),
        None => so_far,
    }
}

fn read_uri(value: &[u8]) -> (r: Option<Uri>)
    ensures
        r is Some <==> uri_bytes(value@) is Some,
        r matches Some(u) ==> uri_bytes(value@) == Some(u@),
{
    match text_from_utf8(slice_to_vec(value)) {
        Some(text) => match Uri::parse(text) {
            Ok(u) => Some(u),
            Err(_) => None,
        },
        None => None,
    }
}

fn keep_uri(urls: &mut Vec<Uri>, more: Option<Uri>)
    ensures
        uri_views(final(urls)@) == with_uri(
            uri_views(old(urls)@),
            match more {
                Some(u) => Some(u@),
                None => None,
            },
        ),
{
    let ghost before = urls@;
    match more {
        Some(u) => {
            urls.push(u);
            assert(uri_views(urls@) =~= uri_views(before).push(u@));
        },
        None => {},
    }
}

/// The addresses among general names.
pub open spec fn general_name_uris(items: Seq<TlvView>) -> Seq<UriView>
    decreases items.len(),
{
    if items.len() == 0 {
        Seq::empty()
    } else {
        let name = items.last();
        with_uri(
            general_name_uris(items.drop_last()),
            if name.tag == 0x86 {
                uri_bytes(name.value)
            } else {
                None
            },
        )
    }
}

/// The addresses among the forms of a distribution-point name.
pub open spec fn full_name_uris(items: Seq<TlvView>) -> Seq<UriView>
    decreases items.len(),
{
    if items.len() == 0 {
        Seq::empty()
    } else {
        full_name_uris(items.drop_last()) + if items.last().tag == 0xA0 {
            general_name_uris(tlv_items(items.last().value))
        } else {
            Seq::empty()
        }
    }
}

/// The addresses among the fields of a distribution point.
pub open spec fn point_uris(items: Seq<TlvView>) -> Seq<UriView>
    decreases items.len(),
{
    if items.len() == 0 {
        Seq::empty()
    } else {
        point_uris(items.drop_last()) + if items.last().tag == 0xA0 {
            full_name_uris(tlv_items(items.last().value))
        } else {
            Seq::empty()
        }
    }
}

/// The addresses among distribution points.
pub open spec fn points_uris(items: Seq<TlvView>) -> Seq<UriView>
    decreases items.len(),
{
    if items.len() == 0 {
        Seq::empty()
    } else {
        points_uris(items.drop_last()) + if items.last().tag == TAG_SEQUENCE {
            point_uris(tlv_items(items.last().value))
        } else {
            Seq::empty()
        }
    }
}

fn collect_general_names(urls: &mut Vec<Uri>, body: &[u8])
    ensures
        uri_views(final(urls)@) == uri_views(old(urls)@) + general_name_uris(tlv_items(body@)),
{
    let walk = BerBody::read(body);
    let ghost views = tlv_items(body@);
    let ghost start = uri_views(urls@);
    let mut i: usize = 0;
    assert(start + general_name_uris(views.take(0)) =~= start);
    while i < walk.items.len()
        invariant
            i <= walk.items@.len(),
            same_items(walk.items@, views),
            uri_views(urls@) == start + general_name_uris(views.take(i as int)),
        decreases walk.items@.len() - i,
    {
        let name = walk.items[i];
        let ghost before = uri_views(urls@);
        proof {
            assert(walk.items@[i as int].tag == views[i as int].tag);
            assert(views.take(i + 1).drop_last() =~= views.take(i as int));
            assert(views.take(i + 1).last() == views[i as int]);
        }
        if name.tag == 0x86 {
            let u = read_uri(name.value);
            keep_uri(urls, u);
        }
        i += 1;
        proof {
            assert(uri_views(urls@) =~= start + general_name_uris(views.take(i as int)));
        }
    }
    assert(views.take(i as int) =~= views);
}

fn collect_full_names(urls: &mut Vec<Uri>, body: &[u8])
    ensures
        uri_views(final(urls)@) == uri_views(old(urls)@) + full_name_uris(tlv_items(body@)),
{
    let walk = BerBody::read(body);
    let ghost views = tlv_items(body@);
    let ghost start = uri_views(urls@);
    let mut i: usize = 0;
    assert(start + full_name_uris(views.take(0)) =~= start);
    while i < walk.items.len()
        invariant
            i <= walk.items@.len(),
            same_items(walk.items@, views),
            uri_views(urls@) == start + full_name_uris(views.take(i as int)),
        decreases walk.items@.len() - i,
    {
        let item = walk.items[i];
        proof {
            assert(walk.items@[i as int].tag == views[i as int].tag);
            assert(views.take(i + 1).drop_last() =~= views.take(i as int));
            assert(views.take(i + 1).last() == views[i as int]);
        }
        if item.tag == 0xA0 {
            collect_general_names(urls, item.value);
        }
        i += 1;
        assert(uri_views(urls@) =~= start + full_name_uris(views.take(i as int)));
    }
    assert(views.take(i as int) =~= views);
}

fn collect_point(urls: &mut Vec<Uri>, body: &[u8])
    ensures
        uri_views(final(urls)@) == uri_views(old(urls)@) + point_uris(tlv_items(body@)),
{
    let walk = BerBody::read(body);
    let ghost views = tlv_items(body@);
    let ghost start = uri_views(urls@);
    let mut i: usize = 0;
    assert(start + point_uris(views.take(0)) =~= start);
    while i < walk.items.len()
        invariant
            i <= walk.items@.len(),
            same_items(walk.items@, views),
            uri_views(urls@) == start + point_uris(views.take(i as int)),
        decreases walk.items@.len() - i,
    {
        let item = walk.items[i];
        proof {
            assert(walk.items@[i as int].tag == views[i as int].tag);
            assert(views.take(i + 1).drop_last() =~= views.take(i as int));
            assert(views.take(i + 1).last() == views[i as int]);
        }
        if item.tag == 0xA0 {
            collect_full_names(urls, item.value);
        }
        i += 1;
        assert(uri_views(urls@) =~= start + point_uris(views.take(i as int)));
    }
    assert(views.take(i as int) =~= views);
}

/// The addresses of the distribution-points extension.
pub open spec fn crl_uris(extensions: Seq<u8>) -> Seq<UriView> {
    match extension_sequence(extensions, CRL_DISTRIBUTION_POINTS@) {
        Some(body) => points_uris(tlv_items(body)),
        None => Seq::empty(),
    }
}

/// The addresses where revocation lists are published.
pub fn extract_crl_distribution_urls(extensions: &[u8]) -> (r: Vec<Uri>)
    ensures
        uri_views(r@) == crl_uris(extensions@),
{
    let mut urls: Vec<Uri> = Vec::new();
    let body = match find_sequence(extensions, CRL_DISTRIBUTION_POINTS.as_slice()) {
        Some(body) => body,
        None => {
            assert(uri_views(urls@) =~= Seq::empty());
            return urls;
        },
    };
    let walk = BerBody::read(body);
    let ghost views = tlv_items(body@);
    let mut i: usize = 0;
    assert(uri_views(urls@) =~= points_uris(views.take(0)));
    while i < walk.items.len()
        invariant
            i <= walk.items@.len(),
            same_items(walk.items@, views),
            uri_views(urls@) == points_uris(views.take(i as int)),
        decreases walk.items@.len() - i,
    {
        let item = walk.items[i];
        proof {
            assert(walk.items@[i as int].tag == views[i as int].tag);
            assert(views.take(i + 1).drop_last() =~= views.take(i as int));
            assert(views.take(i + 1).last() == views[i as int]);
        }
        if item.tag == TAG_SEQUENCE {
            collect_point(&mut urls, item.value);
        }
        i += 1;
        assert(uri_views(urls@) =~= points_uris(views.take(i as int)));
    }
    assert(views.take(i as int) =~= views);
    urls
}

/// The address that an access description gives for `method`.
pub open spec fn access_uri(description: Seq<u8>, method: Seq<u8>) -> Option<UriView> {
    match der_tagged(description, 0x30) {
        None => None,
        Some(body) => {
            let fields = der_items(body);
            if fields.len() < 2 || der_tagged(fields[0], 0x06) != Some(method) {
                None
            } else {
                match der_tagged(fields[1], 0x86) {
                    Some(value) => uri_bytes(value),
                    None => None,
                }
            }
        },
    }
}

/// The addresses among access descriptions.
pub open spec fn access_uris(items: Seq<Seq<u8>>, method: Seq<u8>) -> Seq<UriView>
    decreases items.len(),
{
    if items.len() == 0 {
        Seq::empty()
    } else {
        with_uri(access_uris(items.drop_last(), method), access_uri(items.last(), method))
    }
}

/// The addresses that the information-access extension gives for `method`.
pub open spec fn aia_uris(extensions: Seq<u8>, method: Seq<u8>) -> Seq<UriView> {
    match extension_of(extensions, AUTHORITY_INFO_ACCESS@) {
        None => Seq::empty(),
        Some((value, _)) => match der_tagged(value, 0x30) {
            None => Seq::empty(),
            Some(body) => access_uris(der_items(body), method),
        },
    }
}

fn read_access(description: &[u8], method: &[u8]) -> (r: Option<Uri>)
    ensures
        r is Some <==> access_uri(description@, method@) is Some,
        r matches Some(u) ==> access_uri(description@, method@) == Some(u@),
{
    let body = match DerAny::tagged(description, 0x30) {
        Some(body) => body,
        None => {
            return None;
        },
    };
    let fields = DerBody::read(body);
    if fields.items.len() < 2 {
        return None;
    }
    assert(fields.items@[0]@ == der_items(body@)[0]);
    assert(fields.items@[1]@ == der_items(body@)[1]);
    match DerAny::tagged(fields.items[0], 0x06) {
        Some(id) => if !same_bytes(id, method) {
            return None;
        },
        None => {
            return None;
        },
    }
    match DerAny::tagged(fields.items[1], 0x86) {
        Some(value) => read_uri(value),
        None => None,
    }
}

/// Collect the addresses that the information-access extension gives for an access
/// method.
pub fn aia_urls_for(extensions: &[u8], method: &[u8]) -> (r: Vec<Uri>)
    ensures
        uri_views(r@) == aia_uris(extensions@, method@),
{
    let mut urls: Vec<Uri> = Vec::new();
    assert(uri_views(urls@) =~= Seq::empty());
    let value = match find_extension(extensions, AUTHORITY_INFO_ACCESS.as_slice()) {
        Some(value) => value,
        None => {
            return urls;
        },
    };
    let body = match DerAny::tagged(value, 0x30) {
        Some(body) => body,
        None => {
            return urls;
        },
    };
    let walk = DerBody::read(body);
    let ghost views = der_items(body@);
    let mut i: usize = 0;
    while i < walk.items.len()
        invariant
            i <= walk.items@.len(),
            same_elements(walk.items@, views),
            uri_views(urls@) == access_uris(views.take(i as int), method@),
        decreases walk.items@.len() - i,
    {
        proof {
            assert(walk.items@[i as int]@ == views[i as int]);
            assert(views.take(i + 1).drop_last() =~= views.take(i as int));
            assert(views.take(i + 1).last() == views[i as int]);
        }
        let u = read_access(walk.items[i], method);
        keep_uri(&mut urls, u);
        i += 1;
    }
    assert(views.take(i as int) =~= views);
    urls
}

/// The addresses of status responders.
pub fn extract_ocsp_urls(extensions: &[u8]) -> (r: Vec<Uri>)
    ensures
        uri_views(r@) == aia_uris(extensions@, AD_OCSP@),
{
    aia_urls_for(extensions, AD_OCSP.as_slice())
}

/// The addresses of the issuer's certificate.
pub fn extract_ca_issuers_urls(extensions: &[u8]) -> (r: Vec<Uri>)
    ensures
        uri_views(r@) == aia_uris(extensions@, AD_CA_ISSUERS@),
{
    aia_urls_for(extensions, AD_CA_ISSUERS.as_slice())
}

/// The e-mail address that UTF-8 bytes spell.
pub open spec fn email_bytes(value: Seq<u8>) -> Option<Seq<char>> {
    if valid_utf8(value) {
        email_of(decode_utf8(value))
    } else {
        None
    }
}

/// The e-mail addresses among general names.
pub open spec fn general_name_emails(items: Seq<TlvView>) -> Seq<Seq<char>>
    decreases items.len(),
{
    if items.len() == 0 {
        Seq::empty()
    } else {
        let so_far = general_name_emails(items.drop_last());
        let name = items.last();
        if name.tag == 0x81 && email_bytes(name.value) is Some {
            so_far.push(email_bytes(name.value)->Some_0)
        } else {
            so_far
        }
    }
}

/// The views of e-mail addresses.
pub open spec fn email_views(emails: Seq<EmailAddress>) -> Seq<Seq<char>> {
    Seq::new(emails.len(), |i: int| emails[i]@)
}

fn read_email(value: &[u8]) -> (r: Option<EmailAddress>)
    ensures
        r is Some <==> email_bytes(value@) is Some,
        r matches Some(e) ==> email_bytes(value@) == Some(e@),
{
    match text_from_utf8(slice_to_vec(value)) {
        Some(text) => {
            proof {
                encode_utf8_decode_utf8(text@);
            }
            EmailAddress::new(text.as_str())
        },
        None => None,
    }
}

/// The e-mail addresses among the alternative names of the subject. Names that are
/// no e-mail address are left out.
pub fn extract_subject_alt_emails(extensions: &[u8]) -> (r: Vec<EmailAddress>)
    ensures
        email_views(r@) == match extension_sequence(extensions@, SUBJECT_ALT_NAME@) {
            Some(body) => general_name_emails(tlv_items(body)),
            None => Seq::empty(),
        },
{
    let mut emails: Vec<EmailAddress> = Vec::new();
    assert(email_views(emails@) =~= Seq::empty());
    let body = match find_sequence(extensions, SUBJECT_ALT_NAME.as_slice()) {
        Some(body) => body,
        None => {
            return emails;
        },
    };
    let walk = BerBody::read(body);
    let ghost views = tlv_items(body@);
    let mut i: usize = 0;
    while i < walk.items.len()
        invariant
            i <= walk.items@.len(),
            same_items(walk.items@, views),
            email_views(emails@) == general_name_emails(views.take(i as int)),
        decreases walk.items@.len() - i,
    {
        let name = walk.items[i];
        let ghost before = emails@;
        proof {
            assert(walk.items@[i as int].tag == views[i as int].tag);
            assert(views.take(i + 1).drop_last() =~= views.take(i as int));
            assert(views.take(i + 1).last() == views[i as int]);
        }
        if name.tag == 0x81 {
            match read_email(name.value) {
                Some(e) => {
                    emails.push(e);
                    assert(email_views(emails@) =~= email_views(before).push(e@));
                },
                None => {},
            }
        }
        i += 1;
    }
    assert(views.take(i as int) =~= views);
    emails
}

/// What a key may be used for.
#[derive(Debug, Clone, Copy, PartialEq, Eq, Structural)]
pub struct KeyUsage {
    /// Signatures for authentication.
    pub digital_signature: bool,
    /// Content commitment.
    pub non_repudiation: bool,
    /// Key transport.
    pub key_encipherment: bool,
    /// Encryption of user data.
    pub data_encipherment: bool,
    /// Key agreement.
    pub key_agreement: bool,
    /// Signatures on certificates.
    pub key_cert_sign: bool,
    /// Signatures on revocation lists.
    pub crl_sign: bool,
    /// Key agreement for encryption only.
    pub encipher_only: bool,
    /// Key agreement for decryption only.
    pub decipher_only: bool,
}

impl Default for KeyUsage {
    fn default() -> (r: KeyUsage)
        ensures
            r == usage_of(0, 0),
    {
        assert(0u8 & 0x80 == 0 && 0u8 & 0x40 == 0 && 0u8 & 0x20 == 0 && 0u8 & 0x10 == 0 && 0u8
            & 0x08 == 0 && 0u8 & 0x04 == 0 && 0u8 & 0x02 == 0 && 0u8 & 0x01 == 0) by (bit_vector);
        KeyUsage {
            digital_signature: false,
            non_repudiation: false,
            key_encipherment: false,
            data_encipherment: false,
            key_agreement: false,
            key_cert_sign: false,
            crl_sign: false,
            encipher_only: false,
            decipher_only: false,
        }
    }
}

/// The usages that two bytes of a bit string name, from the most significant bit.
pub open spec fn usage_of(b0: u8, b1: u8) -> KeyUsage {
    KeyUsage {
        digital_signature: b0 & 0x80 != 0,
        non_repudiation: b0 & 0x40 != 0,
        key_encipherment: b0 & 0x20 != 0,
        data_encipherment: b0 & 0x10 != 0,
        key_agreement: b0 & 0x08 != 0,
        key_cert_sign: b0 & 0x04 != 0,
        crl_sign: b0 & 0x02 != 0,
        encipher_only: b0 & 0x01 != 0,
        decipher_only: b1 & 0x80 != 0,
    }
}

/// The usages that a bit string in an extension names. The first byte of a bit
/// string counts its unused bits; missing bytes have no bits set.
pub open spec fn usage_in(value: Seq<u8>) -> Option<KeyUsage> {
    match tagged(value, TAG_BIT_STRING) {
        Err(_) => None,
        Ok(bits) => if bits.len() == 0 {
            None
        } else {
            Some(
                usage_of(
                    if bits.len() > 1 {
                        bits[1]
                    } else {
                        0
                    },
                    if bits.len() > 2 {
                        bits[2]
                    } else {
                        0
                    },
                ),
            )
        },
    }
}

/// `parts` and, where `on`, one more name behind a comma.
pub open spec fn with_flag(parts: Seq<char>, on: bool, name: Seq<char>) -> Seq<char> {
    if !on {
        parts
    } else if parts.len() == 0 {
        name
    } else {
        parts + ", "@ + name
    }
}

impl KeyUsage {
    /// The names of the usages, behind commas.
    pub open spec fn names(self) -> Seq<char> {
        let a = with_flag(Seq::empty(), self.digital_signature, "digitalSignature"@);
        let b = with_flag(a, self.non_repudiation, "nonRepudiation"@);
        let c = with_flag(b, self.key_encipherment, "keyEncipherment"@);
        let d = with_flag(c, self.data_encipherment, "dataEncipherment"@);
        let e = with_flag(d, self.key_agreement, "keyAgreement"@);
        let f = with_flag(e, self.key_cert_sign, "keyCertSign"@);
        let g = with_flag(f, self.crl_sign, "cRLSign"@);
        let h = with_flag(g, self.encipher_only, "encipherOnly"@);
        with_flag(h, self.decipher_only, "decipherOnly"@)
    }

    /// The names of the usages, behind commas.
    pub fn label(self) -> (r: String)
        ensures
            r@ == self.names(),
    {
        let mut out = String::new();
        push_flag(&mut out, self.digital_signature, "digitalSignature");
        push_flag(&mut out, self.non_repudiation, "nonRepudiation");
        push_flag(&mut out, self.key_encipherment, "keyEncipherment");
        push_flag(&mut out, self.data_encipherment, "dataEncipherment");
        push_flag(&mut out, self.key_agreement, "keyAgreement");
        push_flag(&mut out, self.key_cert_sign, "keyCertSign");
        push_flag(&mut out, self.crl_sign, "cRLSign");
        push_flag(&mut out, self.encipher_only, "encipherOnly");
        push_flag(&mut out, self.decipher_only, "decipherOnly");
        out
    }
}

fn push_flag(out: &mut String, on: bool, name: &str)
    ensures
        final(out)@ == with_flag(old(out)@, on, name@),
{
    if on {
        let ghost before = out@;
        if out.as_str().unicode_len() > 0 {
            out.append(", ");
            out.append(name);
        } else {
            out.append(name);
            assert(before + name@ =~= name@);
        }
    }
}

fn read_usage(value: &[u8]) -> (r: Option<KeyUsage>)
    ensures
        r == usage_in(value@),
{
    let bits = match BerTlvAny::parse_tagged(value, TAG_BIT_STRING) {
        Ok(bits) => bits,
        Err(_) => {
            return None;
        },
    };
    if bits.len() == 0 {
        return None;
    }
    let b0: u8 = if bits.len() > 1 {
        bits[1]
    } else {
        0
    };
    let b1: u8 = if bits.len() > 2 {
        bits[2]
    } else {
        0
    };
    Some(
        KeyUsage {
            digital_signature: b0 & 0x80 != 0,
            non_repudiation: b0 & 0x40 != 0,
            key_encipherment: b0 & 0x20 != 0,
            data_encipherment: b0 & 0x10 != 0,
            key_agreement: b0 & 0x08 != 0,
            key_cert_sign: b0 & 0x04 != 0,
            crl_sign: b0 & 0x02 != 0,
            encipher_only: b0 & 0x01 != 0,
            decipher_only: b1 & 0x80 != 0,
        },
    )
}

/// The usages that an extension list names.
pub open spec fn key_usage_of(extensions: Seq<u8>) -> Option<(KeyUsage, bool)> {
    match extension_of(extensions, KEY_USAGE@) {
        None => None,
        Some((value, critical)) => match usage_in(value) {
            Some(usage) => Some((usage, critical)),
            None => None,
        },
    }
}

/// What the key may be used for, `None` where the extension is missing or malformed.
pub fn extract_key_usage(extensions: &[u8]) -> (r: Option<KeyUsage>)
    ensures
        r == match key_usage_of(extensions@) {
            Some((usage, _)) => Some(usage),
            None => None,
        },
{
    match find_extension_with_meta(extensions, KEY_USAGE.as_slice()) {
        Some(meta) => read_usage(meta.value),
        None => None,
    }
}

/// What a key may be used for, and whether the extension is critical.
#[derive(Debug, Clone, Copy)]
pub struct KeyUsageMeta {
    /// The usages.
    pub key_usage: KeyUsage,
    /// The extension is marked critical.
    pub critical: bool,
}

/// What the key may be used for, with the critical flag.
pub fn extract_key_usage_meta(extensions: &[u8]) -> (r: Option<KeyUsageMeta>)
    ensures
        r is Some <==> key_usage_of(extensions@) is Some,
        r matches Some(m) ==> key_usage_of(extensions@) == Some((m.key_usage, m.critical)),
{
    match find_extension_with_meta(extensions, KEY_USAGE.as_slice()) {
        Some(meta) => match read_usage(meta.value) {
            Some(key_usage) => Some(KeyUsageMeta { key_usage, critical: meta.critical }),
            None => None,
        },
        None => None,
    }
}

/// Seven more bits of an arc, which is kept to 32 bits.
pub open spec fn short_arc_step(acc: nat, b: u8) -> nat {
    (acc % 0x200_0000) * 128 + (b % 128) as nat
}

/// The arcs from `from` on, each behind a dot.
pub open spec fn short_arcs(bytes: Seq<u8>, from: int, acc: nat) -> Seq<char>
    decreases bytes.len() - from,
{
    if from >= bytes.len() {
        Seq::empty()
    } else {
        let next = short_arc_step(acc, bytes[from]);
        if bytes[from] < 128 {
            "."@ + dec(next) + short_arcs(bytes, from + 1, 0)
        } else {
            short_arcs(bytes, from + 1, next)
        }
    }
}

/// Dotted notation with arcs of 32 bits; the first byte packs two arcs.
pub open spec fn dot_notation(bytes: Seq<u8>) -> Seq<char> {
    if bytes.len() == 0 {
        Seq::empty()
    } else {
        dec(bytes[0] as nat / 40) + "."@ + dec(bytes[0] as nat % 40) + short_arcs(bytes, 1, 0)
    }
}

/// Render an object identifier in dotted notation.
pub fn oid_dot_notation(oid: Oid<'_>) -> (r: String)
    ensures
        r@ == dot_notation(oid@),
{
    let bytes = oid.as_bytes();
    let mut out = String::new();
    if bytes.len() == 0 {
        assert(out@ =~= Seq::empty());
        return out;
    }
    let first: u8 = bytes[0];
    push_dec(&mut out, (first / 40) as u128);
    out.append(".");
    push_dec(&mut out, (first % 40) as u128);
    let mut acc: u32 = 0;
    let mut i: usize = 1;
    proof {
        assert(out@ + short_arcs(bytes@, 1, 0) =~= dot_notation(bytes@));
    }
    while i < bytes.len()
        invariant
            1 <= i <= bytes@.len(),
            bytes@ == oid@,
            out@ + short_arcs(bytes@, i as int, acc as nat) == dot_notation(bytes@),
        decreases bytes@.len() - i,
    {
        let b: u8 = bytes[i];
        let ghost before = out@;
        let ghost next = short_arc_step(acc as nat, b);
        acc = (acc % 0x200_0000) * 128 + (b % 128) as u32;
        if b < 128 {
            out.append(".");
            push_dec(&mut out, acc as u128);
            proof {
                assert(out@ + short_arcs(bytes@, i + 1, 0) =~= before + ("."@ + dec(next)
                    + short_arcs(bytes@, i + 1, 0)));
            }
            acc = 0;
        }
        i += 1;
    }
    assert(out@ + short_arcs(bytes@, i as int, acc as nat) =~= out@);
    out
}

/// The name of an extended key usage.
pub open spec fn purpose_name(oid: Seq<u8>) -> Seq<char> {
    if oid == KP_SERVER_AUTH@ {
        "serverAuth"@
    } else if oid == KP_CLIENT_AUTH@ {
        "clientAuth"@
    } else if oid == KP_CODE_SIGNING@ {
        "codeSigning"@
    } else if oid == KP_EMAIL_PROTECTION@ {
        "emailProtection"@
    } else if oid == KP_TIME_STAMPING@ {
        "timeStamping"@
    } else if oid == KP_OCSP_SIGNING@ {
        "ocspSigning"@
    } else {
        "oid:"@ + dot_notation(oid)
    }
}

/// The name of an extended key usage; unknown ones are named by their numbers.
pub fn eku_label(oid: Oid<'_>) -> (r: String)
    ensures
        r@ == purpose_name(oid@),
{
    let bytes = oid.as_bytes();
    if same_bytes(bytes, KP_SERVER_AUTH.as_slice()) {
        "serverAuth".to_owned()
    } else if same_bytes(bytes, KP_CLIENT_AUTH.as_slice()) {
        "clientAuth".to_owned()
    } else if same_bytes(bytes, KP_CODE_SIGNING.as_slice()) {
        "codeSigning".to_owned()
    } else if same_bytes(bytes, KP_EMAIL_PROTECTION.as_slice()) {
        "emailProtection".to_owned()
    } else if same_bytes(bytes, KP_TIME_STAMPING.as_slice()) {
        "timeStamping".to_owned()
    } else if same_bytes(bytes, KP_OCSP_SIGNING.as_slice()) {
        "ocspSigning".to_owned()
    } else {
        let dotted = oid_dot_notation(oid);
        "oid:".to_owned().concat(dotted.as_str())
    }
}

/// The bytes are the content of an object identifier: there are some, and the last arc
/// ends.
pub open spec fn is_oid_content(bytes: Seq<u8>) -> bool {
    bytes.len() > 0 && bytes.last() < 128
}

/// The names of the purposes among data objects; those that are no object
/// identifier are left out.
pub open spec fn purpose_names(items: Seq<TlvView>) -> Seq<Seq<char>>
    decreases items.len(),
{
    if items.len() == 0 {
        Seq::empty()
    } else {
        let so_far = purpose_names(items.drop_last());
        let item = items.last();
        if item.tag == TAG_OID && is_oid_content(item.value) {
            so_far.push(purpose_name(item.value))
        } else {
            so_far
        }
    }
}

/// The views of texts.
pub open spec fn string_views(texts: Seq<String>) -> Seq<Seq<char>> {
    Seq::new(texts.len(), |i: int| texts[i]@)
}

/// The names of the extended key usages, none where the extension is missing.
pub fn extract_extended_key_usage(extensions: &[u8]) -> (r: Vec<String>)
    ensures
        string_views(r@) == match extension_sequence(extensions@, EXT_KEY_USAGE@) {
            Some(body) => purpose_names(tlv_items(body)),
            None => Seq::empty(),
        },
{
    let mut out: Vec<String> = Vec::new();
    assert(string_views(out@) =~= Seq::empty());
    let body = match find_sequence(extensions, EXT_KEY_USAGE.as_slice()) {
        Some(body) => body,
        None => {
            return out;
        },
    };
    let walk = BerBody::read(body);
    let ghost views = tlv_items(body@);
    let mut i: usize = 0;
    while i < walk.items.len()
        invariant
            i <= walk.items@.len(),
            same_items(walk.items@, views),
            string_views(out@) == purpose_names(views.take(i as int)),
        decreases walk.items@.len() - i,
    {
        let item = walk.items[i];
        let ghost before = out@;
        proof {
            assert(walk.items@[i as int].tag == views[i as int].tag);
            assert(views.take(i + 1).drop_last() =~= views.take(i as int));
            assert(views.take(i + 1).last() == views[i as int]);
        }
        if item.tag == TAG_OID {
            match Oid::new(item.value) {
                Ok(oid) => {
                    let name = eku_label(oid);
                    out.push(name);
                    assert(string_views(out@) =~= string_views(before).push(name@));
                },
                Err(_) => {},
            }
        }
        i += 1;
    }
    assert(views.take(i as int) =~= views);
    out
}

/// The extended key usages as object identifiers, with the critical flag.
#[derive(Debug, Clone)]
pub struct ExtendedKeyUsageOwned {
    /// The object identifiers.
    pub oids: Vec<Vec<u8>>,
    /// The extension is marked critical.
    pub critical: bool,
}

/// The extended key usages as borrowed object identifiers, with the critical flag.
#[derive(Debug, Clone)]
pub struct ExtendedKeyUsage<'a> {
    /// The object identifiers.
    pub oids: Vec<Oid<'a>>,
    /// The extension is marked critical.
    pub critical: bool,
}

/// The views of byte strings.
pub open spec fn bytes_views(items: Seq<Vec<u8>>) -> Seq<Seq<u8>> {
    Seq::new(items.len(), |i: int| items[i]@)
}

impl ExtendedKeyUsageOwned {
    /// Whether one of the object identifiers is `target`.
    pub fn contains(&self, target: Oid<'_>) -> (r: bool)
        ensures
            r == bytes_views(self.oids@).contains(target@),
    {
        let mut i: usize = 0;
        while i < self.oids.len()
            invariant
                i <= self.oids@.len(),
                forall|j: int| 0 <= j < i ==> #[trigger] bytes_views(self.oids@)[j] != target@,
            decreases self.oids@.len() - i,
        {
            assert(bytes_views(self.oids@)[i as int] == self.oids@[i as int]@);
            if same_bytes(self.oids[i].as_slice(), target.as_bytes()) {
                return true;
            }
            i += 1;
        }
        false
    }
}

/// The well-formed object identifiers among data objects.
pub open spec fn purpose_oids(items: Seq<TlvView>) -> Seq<Seq<u8>>
    decreases items.len(),
{
    if items.len() == 0 {
        Seq::empty()
    } else {
        let so_far = purpose_oids(items.drop_last());
        if items.last().tag == TAG_OID && is_oid_content(items.last().value) {
            so_far.push(items.last().value)
        } else {
            so_far
        }
    }
}

/// The extended key usages of an extension list.
pub open spec fn purposes_of(extensions: Seq<u8>) -> Option<(Seq<Seq<u8>>, bool)> {
    match extension_of(extensions, EXT_KEY_USAGE@) {
        None => None,
        Some((value, critical)) => match tagged(value, TAG_SEQUENCE) {
            Ok(body) => Some((purpose_oids(tlv_items(body)), critical)),
            Err(_) => None,
        },
    }
}

/// The extended key usages with the critical flag, `None` where the extension is
/// missing or malformed.
pub fn extract_extended_key_usage_meta(extensions: &[u8]) -> (r: Option<ExtendedKeyUsageOwned>)
    ensures
        r is Some <==> purposes_of(extensions@) is Some,
        r matches Some(u) ==> purposes_of(extensions@) == Some((bytes_views(u.oids@), u.critical)),
{
    let meta = match find_extension_with_meta(extensions, EXT_KEY_USAGE.as_slice()) {
        Some(meta) => meta,
        None => {
            return None;
        },
    };
    let body = match BerTlvAny::parse_tagged(meta.value, TAG_SEQUENCE) {
        Ok(body) => body,
        Err(_) => {
            return None;
        },
    };
    let mut oids: Vec<Vec<u8>> = Vec::new();
    let walk = BerBody::read(body);
    let ghost views = tlv_items(body@);
    let mut i: usize = 0;
    assert(bytes_views(oids@) =~= Seq::empty());
    while i < walk.items.len()
        invariant
            i <= walk.items@.len(),
            same_items(walk.items@, views),
            bytes_views(oids@) == purpose_oids(views.take(i as int)),
        decreases walk.items@.len() - i,
    {
        let item = walk.items[i];
        let ghost before = oids@;
        proof {
            assert(walk.items@[i as int].tag == views[i as int].tag);
            assert(views.take(i + 1).drop_last() =~= views.take(i as int));
            assert(views.take(i + 1).last() == views[i as int]);
        }
        if item.tag == TAG_OID {
            match Oid::new(item.value) {
                Ok(_) => {
                    let oid = slice_to_vec(item.value);
                    oids.push(oid);
                    assert(bytes_views(oids@) =~= bytes_views(before).push(oid@));
                },
                Err(_) => {},
            }
        }
        i += 1;
    }
    assert(views.take(i as int) =~= views);
    Some(ExtendedKeyUsageOwned { oids, critical: meta.critical })
}

/// Whether the subject may issue certificates, and how long a chain of them.
#[derive(Debug, Clone, Copy, PartialEq, Eq, Structural)]
pub struct BasicConstraints {
    /// The subject is an authority.
    pub ca: bool,
    /// Longest chain of intermediate certificates.
    pub path_len: Option<u32>,
    /// The extension is marked critical.
    pub critical: bool,
    /// The extension is there.
    pub present: bool,
}

/// Authority flag and path length that data objects give: the last of each kind
/// counts.
pub open spec fn constraint_fields(items: Seq<TlvView>) -> (bool, Option<u32>)
    decreases items.len(),
{
    if items.len() == 0 {
        (false, None)
    } else {
        let so_far = constraint_fields(items.drop_last());
        let item = items.last();
        if item.tag == TAG_BOOLEAN {
            (item.value.len() > 0 && item.value[0] != 0, so_far.1)
        } else if item.tag == TAG_INTEGER {
            (so_far.0, Some((be_nat(item.value) % 0x1_0000_0000) as u32))
        } else {
            so_far
        }
    }
}

/// The constraints of an extension list.
pub open spec fn constraints_of(extensions: Seq<u8>) -> BasicConstraints {
    let absent = BasicConstraints { ca: false, path_len: None, critical: false, present: false };
    match extension_of(extensions, BASIC_CONSTRAINTS@) {
        None => absent,
        Some((value, critical)) => match tagged(value, TAG_SEQUENCE) {
            Err(_) => absent,
            Ok(body) => {
                let (ca, path_len) = constraint_fields(tlv_items(body));
                BasicConstraints { ca, path_len, critical, present: true }
            },
        },
    }
}

/// The constraints of a certificate; a missing or malformed extension is the same as
/// none.
pub fn extract_basic_constraints(extensions: &[u8]) -> (r: BasicConstraints)
    ensures
        r == constraints_of(extensions@),
{
    let absent = BasicConstraints { ca: false, path_len: None, critical: false, present: false };
    let meta = match find_extension_with_meta(extensions, BASIC_CONSTRAINTS.as_slice()) {
        Some(meta) => meta,
        None => {
            return absent;
        },
    };
    let body = match BerTlvAny::parse_tagged(meta.value, TAG_SEQUENCE) {
        Ok(body) => body,
        Err(_) => {
            return absent;
        },
    };
    let walk = BerBody::read(body);
    let ghost views = tlv_items(body@);
    let mut ca = false;
    let mut path_len: Option<u32> = None;
    let mut i: usize = 0;
    while i < walk.items.len()
        invariant
            i <= walk.items@.len(),
            same_items(walk.items@, views),
            (ca, path_len) == constraint_fields(views.take(i as int)),
        decreases walk.items@.len() - i,
    {
        let item = walk.items[i];
        proof {
            assert(walk.items@[i as int].tag == views[i as int].tag);
            assert(views.take(i + 1).drop_last() =~= views.take(i as int));
            assert(views.take(i + 1).last() == views[i as int]);
        }
        if item.tag == TAG_BOOLEAN {
            ca = item.value.len() > 0 && item.value[0] != 0;
        } else if item.tag == TAG_INTEGER {
            let n: u128 = be_mod(item.value, 0x1_0000_0000);
            path_len = Some(n as u32);
        }
        i += 1;
    }
    assert(views.take(i as int) =~= views);
    BasicConstraints { ca, path_len, critical: meta.critical, present: true }
}

} // verus!
