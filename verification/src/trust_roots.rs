//! Root and intermediate certificates, as read from cards or handed out to
//! applications.

use crate::ber::{law_tlv_round_trip, tagged, tlv, tlv_bytes, BerError};
use crate::bytes::{push_all, same_bytes};
use crate::crypto::digest::{sha256_of, Sha256};
use crate::pkcs15::{pkcs15_view, read_slot, slot_steps, walk_run, CertSlot, Pkcs15ErrorView};
use crate::transport::{continues, lemma_continues, news, CardTransport, Exchange};
use vstd::prelude::*;
use vstd::slice::slice_to_vec;

verus! {

/// SHA-256 fingerprint of the RSA root of the Finnish government, third generation.
pub const PINNED_DVV_G3_RSA_SHA256: [u8; 32] = [
    0xD3, 0xED, 0x3F, 0xC4, 0x0A, 0xD2, 0x6B, 0x52, 0xE0, 0x01, 0xE1, 0xE1, 0x8F, 0x4B, 0x94, 0x49,
    0x52, 0x9D, 0xEB, 0x75, 0xA8, 0x1D, 0x5E, 0xB6, 0x80, 0xD7, 0xB6, 0x2D, 0xB2, 0x3B, 0xA9, 0x6D,
];

/// SHA-256 fingerprint of the ECC root of the Finnish government, third generation.
pub const PINNED_DVV_G3_ECC_SHA256: [u8; 32] = [
    0x55, 0x46, 0xA5, 0x25, 0x04, 0xFB, 0xA7, 0x4F, 0x61, 0xFF, 0xD4, 0x89, 0x00, 0x67, 0x52, 0x9A,
    0xDE, 0x3B, 0x9C, 0x9D, 0x07, 0xE5, 0x02, 0x59, 0x28, 0x31, 0xCC, 0xDA, 0x9B, 0x36, 0x9F, 0xD3,
];

/// Root and intermediate certificates.
#[derive(Debug, Clone, PartialEq, Eq)]
pub struct RootCertificates {
    /// Root certificate.
    pub root_ca: Option<Vec<u8>>,
    /// Intermediate certificate.
    pub intermediate_ca: Option<Vec<u8>>,
    /// Further certificates.
    pub extra_cas: Vec<Vec<u8>>,
}

/// The bytes of an optional certificate.
pub open spec fn cert_view(cert: Option<Vec<u8>>) -> Option<Seq<u8>> {
    match cert {
        Some(c) => Some(c@),
        None => None,
    }
}

/// An optional certificate as a list.
pub open spec fn as_list(cert: Option<Vec<u8>>) -> Seq<Seq<u8>> {
    match cert {
        Some(c) => seq![c@],
        None => Seq::empty(),
    }
}

/// The bytes of certificates.
pub open spec fn certs_view(certs: Seq<Vec<u8>>) -> Seq<Seq<u8>> {
    Seq::new(certs.len(), |i: int| certs[i]@)
}

/// The bytes of borrowed certificates.
pub open spec fn slices_view(certs: Seq<&[u8]>) -> Seq<Seq<u8>> {
    Seq::new(certs.len(), |i: int| certs[i]@)
}

/// All certificates, the root first, then the intermediate, then the others.
impl View for RootCertificates {
    type V = Seq<Seq<u8>>;

    open spec fn view(&self) -> Seq<Seq<u8>> {
        as_list(self.root_ca) + as_list(self.intermediate_ca) + certs_view(self.extra_cas@)
    }
}

impl Default for RootCertificates {
    fn default() -> (r: RootCertificates)
        ensures
            r.root_ca is None,
            r.intermediate_ca is None,
            r@ == Seq::<Seq<u8>>::empty(),
    {
        let r = RootCertificates { root_ca: None, intermediate_ca: None, extra_cas: Vec::new() };
        assert(r@ =~= Seq::empty());
        r
    }
}

/// Some certificate has the fingerprint.
pub open spec fn has_fingerprint(certs: Seq<Seq<u8>>, fingerprint: Seq<u8>) -> bool {
    exists|i: int| 0 <= i < certs.len() && sha256_of(#[trigger] certs[i]) == fingerprint
}

impl RootCertificates {
    /// A collection of a root and an intermediate certificate.
    pub fn new(root_ca: Option<Vec<u8>>, intermediate_ca: Option<Vec<u8>>) -> (r: Self)
        ensures
            r.root_ca == root_ca,
            r.intermediate_ca == intermediate_ca,
            r.extra_cas@.len() == 0,
            r@ == as_list(root_ca) + as_list(intermediate_ca),
    {
        let r = RootCertificates { root_ca, intermediate_ca, extra_cas: Vec::new() };
        assert(r@ =~= as_list(root_ca) + as_list(intermediate_ca));
        r
    }

    /// The collection with other further certificates.
    pub fn with_extra_cas(self, extra_cas: Vec<Vec<u8>>) -> (r: Self)
        ensures
            r.root_ca == self.root_ca,
            r.intermediate_ca == self.intermediate_ca,
            r.extra_cas == extra_cas,
    {
        RootCertificates {
            root_ca: self.root_ca,
            intermediate_ca: self.intermediate_ca,
            extra_cas,
        }
    }

    /// Whether the collection holds no certificate.
    pub fn is_empty(&self) -> (r: bool)
        ensures
            r == (self@.len() == 0),
    {
        self.root_ca.is_none() && self.intermediate_ca.is_none() && self.extra_cas.len() == 0
    }

    /// The certificates in order.
    pub fn certs(&self) -> (r: Vec<&[u8]>)
        ensures
            slices_view(r@) == self@,
    {
        let mut list: Vec<&[u8]> = Vec::new();
        assert(slices_view(list@) =~= Seq::empty());
        match &self.root_ca {
            Some(c) => list.push(c.as_slice()),
            None => {},
        }
        assert(slices_view(list@) =~= as_list(self.root_ca));
        match &self.intermediate_ca {
            Some(c) => list.push(c.as_slice()),
            None => {},
        }
        let ghost head = as_list(self.root_ca) + as_list(self.intermediate_ca);
        assert(slices_view(list@) =~= head);
        let mut i: usize = 0;
        while i < self.extra_cas.len()
            invariant
                i <= self.extra_cas@.len(),
                slices_view(list@) == head + certs_view(self.extra_cas@).take(i as int),
            decreases self.extra_cas@.len() - i,
        {
            let ghost before = list@;
            list.push(self.extra_cas[i].as_slice());
            i += 1;
            proof {
                assert(slices_view(list@) =~= slices_view(before).push(
                    certs_view(self.extra_cas@)[i - 1],
                ));
                assert(slices_view(list@) =~= head + certs_view(self.extra_cas@).take(i as int));
            }
        }
        assert(certs_view(self.extra_cas@).take(i as int) =~= certs_view(self.extra_cas@));
        list
    }

    /// Whether a certificate of the collection has the fingerprint.
    pub fn contains_fingerprint(&self, fingerprint: Sha256) -> (r: bool)
        ensures
            r == has_fingerprint(self@, fingerprint.value()@),
    {
        let certs = self.certs();
        let ghost views = slices_view(certs@);
        let mut i: usize = 0;
        while i < certs.len()
            invariant
                i <= certs@.len(),
                views == slices_view(certs@),
                views == self@,
                forall|j: int| 0 <= j < i ==> sha256_of(#[trigger] views[j]) != fingerprint.value()@,
            decreases certs@.len() - i,
        {
            assert(views[i as int] == certs@[i as int]@);
            let digest = Sha256::of(certs[i]);
            if digest.same(&fingerprint) {
                return true;
            }
            i += 1;
        }
        false
    }

    /// All certificates as one bundle.
    pub fn to_pkcs7_bundle(&self) -> (r: Vec<u8>)
        ensures
            r@ == certs_bundle(self@),
    {
        let certs = self.certs();
        build_pkcs7_certs_bundle(certs.as_slice())
    }
}

/// Whether a fingerprint is that of a trusted root: one of the cached certificates, or
/// one of the pinned roots.
pub fn is_trusted_root(cached: Option<&RootCertificates>, fingerprint: Sha256) -> (r: bool)
    ensures
        r == ((cached matches Some(c) && has_fingerprint(c@, fingerprint.value()@))
            || fingerprint.value()@ == PINNED_DVV_G3_RSA_SHA256@ || fingerprint.value()@
            == PINNED_DVV_G3_ECC_SHA256@),
{
    match cached {
        Some(c) => if c.contains_fingerprint(fingerprint) {
            return true;
        },
        None => {},
    }
    same_bytes(fingerprint.as_bytes().as_slice(), PINNED_DVV_G3_RSA_SHA256.as_slice())
        || same_bytes(fingerprint.as_bytes().as_slice(), PINNED_DVV_G3_ECC_SHA256.as_slice())
}

/// Certificates one after the other.
pub open spec fn joined(certs: Seq<Seq<u8>>) -> Seq<u8>
    decreases certs.len(),
{
    if certs.len() == 0 {
        Seq::empty()
    } else {
        joined(certs.drop_last()) + certs.last()
    }
}

/// Version of the signed data, and the empty set of digest algorithms.
pub open spec fn signed_data_head() -> Seq<u8> {
    seq![0x02u8, 0x01, 0x01, 0x31, 0x00]
}

/// Content information that names plain data.
pub open spec fn plain_content() -> Seq<u8> {
    seq![
        0x30u8, 0x0B, 0x06, 0x09, 0x2A, 0x86, 0x48, 0x86, 0xF7, 0x0D, 0x01, 0x07, 0x01,
    ]
}

/// Object identifier of signed data.
pub open spec fn signed_data_oid() -> Seq<u8> {
    seq![0x06u8, 0x09, 0x2A, 0x86, 0x48, 0x86, 0xF7, 0x0D, 0x01, 0x07, 0x02]
}

/// Signed data around certificates, without signers.
pub open spec fn signed_data(certs: Seq<Seq<u8>>) -> Seq<u8> {
    signed_data_head() + plain_content() + tlv_bytes(0xA0, joined(certs)) + seq![0x31u8, 0x00]
}

/// Signed data that only carries certificates.
pub open spec fn certs_bundle(certs: Seq<Seq<u8>>) -> Seq<u8> {
    tlv_bytes(0x30, signed_data_oid() + tlv_bytes(0xA0, tlv_bytes(0x30, signed_data(certs))))
}

/// Pack certificates into signed data that carries nothing else.
pub fn build_pkcs7_certs_bundle(certs: &[&[u8]]) -> (r: Vec<u8>)
    ensures
        r@ == certs_bundle(slices_view(certs@)),
{
    let ghost views = slices_view(certs@);
    let mut all: Vec<u8> = Vec::new();
    let mut i: usize = 0;
    assert(views.take(0) =~= Seq::empty());
    while i < certs.len()
        invariant
            i <= certs@.len(),
            views == slices_view(certs@),
            all@ == joined(views.take(i as int)),
        decreases certs@.len() - i,
    {
        proof {
            assert(views.take(i + 1).drop_last() =~= views.take(i as int));
            assert(views.take(i + 1).last() == certs@[i as int]@);
        }
        push_all(&mut all, certs[i]);
        i += 1;
    }
    assert(views.take(i as int) =~= views);
    let mut content = vec![0x02, 0x01, 0x01, 0x31, 0x00];
    assert(content@ =~= signed_data_head());
    let data: [u8; 13] = [
        0x30,
        0x0B,
        0x06,
        0x09,
        0x2A,
        0x86,
        0x48,
        0x86,
        0xF7,
        0x0D,
        0x01,
        0x07,
        0x01,
    ];
    assert(data@ =~= plain_content());
    push_all(&mut content, data.as_slice());
    let wrapped = tlv(0xA0, all.as_slice());
    push_all(&mut content, wrapped.as_slice());
    content.push(0x31);
    content.push(0x00);
    assert(content@ =~= signed_data(views));
    let inner = tlv(0x30, content.as_slice());
    let explicit = tlv(0xA0, inner.as_slice());
    let mut outer = vec![0x06, 0x09, 0x2A, 0x86, 0x48, 0x86, 0xF7, 0x0D, 0x01, 0x07, 0x02];
    assert(outer@ =~= signed_data_oid());
    push_all(&mut outer, explicit.as_slice());
    tlv(0x30, outer.as_slice())
}

/// The data object around the certificates, behind the fixed parts of the signed data.
proof fn lemma_list_read(certs: Seq<Seq<u8>>)
    requires
        joined(certs).len() <= 0xFFFF_0000,
    ensures
        tagged(signed_data(certs).skip(18), 0xA0) == Ok::<Seq<u8>, BerError>(joined(certs)),
        signed_data(certs).len() <= joined(certs).len() + 26,
{
    let list = tlv_bytes(0xA0, joined(certs));
    let tail = seq![0x31u8, 0x00];
    lemma_object_read(0xA0, joined(certs), tail);
    let head = signed_data_head() + plain_content();
    assert(head.len() == 18);
    lemma_behind(head, list, tail);
    assert(signed_data(certs) =~= head + list + tail);
}

proof fn lemma_behind(head: Seq<u8>, middle: Seq<u8>, tail: Seq<u8>)
    ensures
        (head + middle + tail).skip(head.len() as int) == middle + tail,
{
    assert((head + middle + tail).skip(head.len() as int) =~= middle + tail);
}

/// A data object on its own.
proof fn lemma_whole_object_read(tag: u8, value: Seq<u8>)
    requires
        tag % 32 != 31,
        value.len() <= 0xFFFF_FFFF,
    ensures
        tagged(tlv_bytes(tag, value), tag as u16) == Ok::<Seq<u8>, BerError>(value),
        tlv_bytes(tag, value).len() <= value.len() + 6,
{
    lemma_object_read(tag, value, Seq::empty());
    assert(tlv_bytes(tag, value) + Seq::<u8>::empty() =~= tlv_bytes(tag, value));
}

/// A bundle carries its certificates as they stand: behind the fixed parts of its nested
/// data objects their bytes follow one another.
#[verifier::rlimit(30)]
pub proof fn law_bundle_carries_certificates(certs: Seq<Seq<u8>>)
    requires
        joined(certs).len() <= 0xFFFF_0000,
    ensures
        ({
            let outer = tagged(certs_bundle(certs), 0x30);
            let explicit = tagged(outer->Ok_0.skip(11), 0xA0);
            let inner = tagged(explicit->Ok_0, 0x30);
            let list = tagged(inner->Ok_0.skip(18), 0xA0);
            &&& outer is Ok && outer->Ok_0.take(11) == signed_data_oid()
            &&& explicit is Ok
            &&& inner is Ok
            &&& list == Ok::<Seq<u8>, BerError>(joined(certs))
        }),
{
    lemma_list_read(certs);
    lemma_nested(signed_data_oid(), signed_data(certs));
    let content = signed_data(certs);
    let inner = tlv_bytes(0x30, content);
    let outer = tagged(certs_bundle(certs), 0x30);
    let explicit = tagged(outer->Ok_0.skip(11), 0xA0);
    assert(outer is Ok && outer->Ok_0.take(11) == signed_data_oid());
    assert(explicit == Ok::<Seq<u8>, BerError>(inner));
    assert(tagged(explicit->Ok_0, 0x30) == Ok::<Seq<u8>, BerError>(content));
}

/// Data objects around one another, the outermost with a name of eleven bytes in front.
proof fn lemma_nested(oid: Seq<u8>, content: Seq<u8>)
    requires
        oid.len() == 11,
        content.len() <= 0xFFFF_0100,
    ensures
        ({
            let inner = tlv_bytes(0x30, content);
            let explicit = tlv_bytes(0xA0, inner);
            let outer = tagged(tlv_bytes(0x30, oid + explicit), 0x30);
            &&& outer is Ok && outer->Ok_0.take(11) == oid
            &&& tagged(outer->Ok_0.skip(11), 0xA0) == Ok::<Seq<u8>, BerError>(inner)
            &&& tagged(inner, 0x30) == Ok::<Seq<u8>, BerError>(content)
        }),
{
    let inner = tlv_bytes(0x30, content);
    let explicit = tlv_bytes(0xA0, inner);
    lemma_whole_object_read(0x30, content);
    lemma_whole_object_read(0xA0, inner);
    lemma_whole_object_read(0x30, oid + explicit);
    assert((oid + explicit).take(11) =~= oid);
    assert((oid + explicit).skip(11) =~= explicit);
}

proof fn lemma_object_read(tag: u8, value: Seq<u8>, rest: Seq<u8>)
    requires
        tag % 32 != 31,
        value.len() <= 0xFFFF_FFFF,
    ensures
        tagged(tlv_bytes(tag, value) + rest, tag as u16) == Ok::<Seq<u8>, BerError>(value),
        tlv_bytes(tag, value).len() <= value.len() + 6,
{
    law_tlv_round_trip(tag, value, rest);
}

/// `new` are the exchanges and `r` is the result of reading the two certificates of a
/// card: each one is there when its read succeeded, and without any there is no
/// collection.
pub open spec fn card_roots_run<E>(
    new: Seq<Exchange<E>>,
    at: int,
    root: Result<Seq<u8>, Pkcs15ErrorView<E>>,
    intermediate: Result<Seq<u8>, Pkcs15ErrorView<E>>,
    r: Option<RootCertificates>,
) -> bool {
    &&& 0 <= at <= new.len()
    &&& walk_run(slot_steps(CertSlot::RootCa), CertSlot::RootCa.name(), new.take(at), root)
    &&& walk_run(
        slot_steps(CertSlot::IssuingCaEcc),
        CertSlot::IssuingCaEcc.name(),
        new.skip(at),
        intermediate,
    )
    &&& if root is Err && intermediate is Err {
        r is None
    } else {
        &&& r matches Some(roots)
        &&& cert_view(roots.root_ca) == root.ok()
        &&& cert_view(roots.intermediate_ca) == intermediate.ok()
        &&& roots.extra_cas@.len() == 0
    }
}

/// Read the root and the intermediate certificate from a card.
pub fn read_roots_from_card<T: CardTransport>(transport: &mut T) -> (r: Option<RootCertificates>)
    ensures
        continues(old(transport).log(), final(transport).log()),
        exists|
            at: int,
            root: Result<Seq<u8>, Pkcs15ErrorView<T::Error>>,
            intermediate: Result<Seq<u8>, Pkcs15ErrorView<T::Error>>,
        |
            #[trigger] card_roots_run(
                news(old(transport).log(), final(transport).log()),
                at,
                root,
                intermediate,
                r,
            ),
{
    let ghost start = transport.log();
    let first = read_slot(transport, CertSlot::RootCa);
    let ghost middle = transport.log();
    let second = read_slot(transport, CertSlot::IssuingCaEcc);
    let ghost root = pkcs15_view(first);
    let ghost intermediate = pkcs15_view(second);
    let ghost at = news(start, middle).len() as int;
    proof {
        lemma_continues(start, middle, transport.log());
        assert(news(start, transport.log()).take(at) =~= news(start, middle));
        assert(news(start, transport.log()).skip(at) =~= news(middle, transport.log()));
    }
    let root_ca = match first {
        Ok(der) => Some(slice_to_vec(der.as_bytes())),
        Err(_) => None,
    };
    let intermediate_ca = match second {
        Ok(der) => Some(slice_to_vec(der.as_bytes())),
        Err(_) => None,
    };
    let r = if root_ca.is_some() || intermediate_ca.is_some() {
        Some(RootCertificates::new(root_ca, intermediate_ca))
    } else {
        None
    };
    assert(card_roots_run(news(start, transport.log()), at, root, intermediate, r));
    r
}

/// The certificates that a process works with. They are set once.
#[derive(Debug)]
pub struct RootStore {
    roots: Option<RootCertificates>,
}

impl View for RootStore {
    type V = Option<RootCertificates>;

    closed spec fn view(&self) -> Option<RootCertificates> {
        self.roots
    }
}

impl RootStore {
    /// A store without certificates.
    pub fn new() -> (r: Self)
        ensures
            r@ is None,
    {
        RootStore { roots: None }
    }

    /// Set the certificates. A store that has some keeps them.
    pub fn set_root_certificates(&mut self, roots: RootCertificates) -> (r: Result<
        (),
        &'static str,
    >)
        ensures
            match old(self)@ {
                None => r is Ok && final(self)@ == Some(roots),
                Some(_) => {
                    &&& r matches Err(e) && e@ == "already initialized"@
                    &&& final(self)@ == old(self)@
                },
            },
    {
        if self.roots.is_some() {
            return Err("already initialized");
        }
        self.roots = Some(roots);
        Ok(())
    }

    /// The certificates, where they are set.
    pub fn active_root_certificates(&self) -> (r: Option<&RootCertificates>)
        ensures
            r is Some <==> self@ is Some,
            r matches Some(roots) ==> self@ == Some(*roots),
    {
        self.roots.as_ref()
    }

    /// Read the certificates from a card where none are set yet. A store that has some
    /// leaves the card alone.
    pub fn fetch_and_cache_from_card<T: CardTransport>(&mut self, transport: &mut T) -> (r: Option<
        &RootCertificates,
    >)
        ensures
            r is Some <==> final(self)@ is Some,
            r matches Some(roots) ==> final(self)@ == Some(*roots),
            old(self)@ is Some ==> final(self)@ == old(self)@ && final(transport).log() == old(
                transport,
            ).log(),
            old(self)@ is None ==> continues(old(transport).log(), final(transport).log())
                && exists|
                at: int,
                root: Result<Seq<u8>, Pkcs15ErrorView<T::Error>>,
                intermediate: Result<Seq<u8>, Pkcs15ErrorView<T::Error>>,
            |
                #[trigger] card_roots_run(
                    news(old(transport).log(), final(transport).log()),
                    at,
                    root,
                    intermediate,
                    final(self)@,
                ),
    {
        if self.roots.is_none() {
            self.roots = read_roots_from_card(transport);
        }
        self.roots.as_ref()
    }
}

/// Certificates follow one another in the order of the list.
pub proof fn law_joined_in_order(certs: Seq<Seq<u8>>, last: Seq<u8>)
    ensures
        joined(Seq::empty()) == Seq::<u8>::empty(),
        joined(seq![last]) == last,
        joined(certs.push(last)) == joined(certs) + last,
{
    assert(certs.push(last).drop_last() =~= certs);
    reveal_with_fuel(joined, 2);
    assert(seq![last].drop_last() =~= Seq::<Seq<u8>>::empty());
    assert(joined(seq![last]) =~= last);
}

/// A bundle is signed data, `1.2.840.113549.1.7.2`, of version 1, without digest algorithms,
/// content and signers.
pub proof fn law_bundle_in_bytes(certs: Seq<Seq<u8>>)
    ensures
        certs_bundle(certs) == tlv_bytes(
            0x30,
            seq![0x06u8, 0x09, 0x2A, 0x86, 0x48, 0x86, 0xF7, 0x0D, 0x01, 0x07, 0x02] + tlv_bytes(
                0xA0,
                tlv_bytes(
                    0x30,
                    seq![
                        0x02u8, 0x01, 0x01, 0x31, 0x00, 0x30, 0x0B, 0x06, 0x09, 0x2A, 0x86, 0x48,
                        0x86, 0xF7, 0x0D, 0x01, 0x07, 0x01,
                    ] + tlv_bytes(0xA0, joined(certs)) + seq![0x31u8, 0x00],
                ),
            ),
        ),
{
    assert(signed_data_head() + plain_content() =~= seq![
        0x02u8, 0x01, 0x01, 0x31, 0x00, 0x30, 0x0B, 0x06, 0x09, 0x2A, 0x86, 0x48, 0x86, 0xF7, 0x0D,
        0x01, 0x07, 0x01,
    ]);
}

/// A collection lists the root first, then the intermediate, then the others; a fingerprint
/// is found exactly if one of them has it.
pub proof fn law_collection_is_searched_whole(roots: RootCertificates, fingerprint: Seq<u8>)
    ensures
        has_fingerprint(roots@, fingerprint) <==> {
            ||| roots.root_ca matches Some(c) && sha256_of(c@) == fingerprint
            ||| roots.intermediate_ca matches Some(c) && sha256_of(c@) == fingerprint
            ||| exists|i: int|
                0 <= i < roots.extra_cas@.len() && sha256_of(#[trigger] roots.extra_cas@[i]@)
                    == fingerprint
        },
{
    let a = as_list(roots.root_ca);
    let b = as_list(roots.intermediate_ca);
    let c = certs_view(roots.extra_cas@);
    let all = roots@;
    if has_fingerprint(all, fingerprint) {
        let i = choose|i: int| 0 <= i < all.len() && sha256_of(#[trigger] all[i]) == fingerprint;
        if i >= a.len() + b.len() {
            let k = i - a.len() - b.len();
            assert(all[i] == roots.extra_cas@[k]@);
        }
    }
    if roots.root_ca matches Some(x) && sha256_of(x@) == fingerprint {
        assert(sha256_of(all[0]) == fingerprint);
    }
    if roots.intermediate_ca matches Some(x) && sha256_of(x@) == fingerprint {
        assert(sha256_of(all[a.len() as int]) == fingerprint);
    }
    if exists|i: int|
        0 <= i < roots.extra_cas@.len() && sha256_of(#[trigger] roots.extra_cas@[i]@)
            == fingerprint {
        let i = choose|i: int|
            0 <= i < roots.extra_cas@.len() && sha256_of(#[trigger] roots.extra_cas@[i]@)
                == fingerprint;
        assert(all[a.len() + b.len() + i] == roots.extra_cas@[i]@);
    }
}

} // verus!
