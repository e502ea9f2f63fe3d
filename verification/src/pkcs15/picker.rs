//! Card generations, and picking the reader that holds the card.

use crate::ascii::{HYPHEN, SPACE, UPPER_E, UPPER_G, UPPER_R};
use crate::backend::{filter_view, id_views, law_pick_is_unique, lemma_passing, matching, names_at,
    passes, passing, reader_names, reader_passes, reader_views, resolution, resolution_view,
    resolve_reader, PickErrorView, ReaderAccessCap, ReaderBackend, ReaderFilter, ReaderId, ReaderInfo, ReaderPickError, ReaderView};
use crate::card_access::{card_access_run, read_card_access};
use crate::identity::{given_view, given_views, named, split_names, split_words, words_from,
    GivenName, Peuin, SplitView, Surname};
use crate::oid::known::{COMMON_NAME, GIVEN_NAME, SERIAL_NUMBER, SURNAME};
use crate::pkcs15::{pkcs15_view, read_slot, read_token, slot_steps, token_info_run,
    walk_run, CertSlot, Pkcs15Error, Pkcs15ErrorView, TokenInfo};
use crate::transport::{continues, news, CardTransport, TransportDispatchError};
use crate::x509::name::name_attribute;
use crate::x509::time::law_rank_is_exact;
use crate::x509::{certificate_of, Certificate, DateTime, DateTimeView, Name};
use vstd::prelude::*;
use vstd::string::*;
use vstd::utf8::encode_utf8;

verus! {

/// Generation of a card, which decides the length of its activation PIN.
#[derive(Debug, Clone, Copy, PartialEq, Eq, Structural)]
pub enum CardGeneration {
    /// RSA card with an activation PIN of eight digits.
    Older,
    /// ECC card with an activation PIN of seven digits.
    Newer,
    /// Not known.
    Unknown,
}

impl CardGeneration {
    /// Length of the activation PIN, `None` where the generation is not known.
    pub fn activation_pin_length(self) -> (r: Option<usize>)
        ensures
            r == match self {
                CardGeneration::Older => Some(8usize),
                CardGeneration::Newer => Some(7usize),
                CardGeneration::Unknown => None,
            },
    {
        match self {
            CardGeneration::Older => Some(8),
            CardGeneration::Newer => Some(7),
            CardGeneration::Unknown => None,
        }
    }
}

/// The day lies on or after the change of the activation model.
pub open spec fn after_change(t: DateTimeView) -> bool {
    t.year > 2026 || t.year == 2026 && (t.month > 1 || t.month == 1 && t.day >= 13)
}

/// Classify a card by the day its certificate was issued: the activation model
/// changed on 2026-01-13.
pub fn classify_card_generation_by_issuance(not_before: DateTime) -> (r: CardGeneration)
    ensures
        r == if after_change(not_before@) {
            CardGeneration::Newer
        } else {
            CardGeneration::Older
        },
{
    let year: u16 = not_before.year();
    let month: u8 = not_before.month();
    if year > 2026 || (year == 2026 && (month > 1 || (month == 1 && not_before.day() >= 13))) {
        CardGeneration::Newer
    } else {
        CardGeneration::Older
    }
}

/// The name ends in the mark of a known family of issuers, `- G3`, `- G4` or `- G5`, and
/// then `kind`.
pub open spec fn ends_in_family(cn: Seq<u8>, kind: u8) -> bool {
    let n = cn.len();
    &&& n >= 5
    &&& cn[n - 5] == HYPHEN && cn[n - 4] == SPACE && cn[n - 3] == UPPER_G
    &&& 0x33 <= cn[n - 2] <= 0x35
    &&& cn[n - 1] == kind
}

/// The generation that the common name of an issuer tells by its end: a family and `R`
/// for the older one, a family and `E` for the newer one.
pub open spec fn generation_of(cn: Option<Seq<char>>) -> CardGeneration {
    match cn {
        None => CardGeneration::Unknown,
        Some(text) => if ends_in_family(encode_utf8(text), UPPER_R) {
            CardGeneration::Older
        } else if ends_in_family(encode_utf8(text), UPPER_E) {
            CardGeneration::Newer
        } else {
            CardGeneration::Unknown
        },
    }
}

fn has_family(cn: &[u8], kind: u8) -> (r: bool)
    ensures
        r == ends_in_family(cn@, kind),
{
    let n: usize = cn.len();
    n >= 5 && cn[n - 5] == HYPHEN && cn[n - 4] == SPACE && cn[n - 3] == UPPER_G && 0x33 <= cn[n - 2]
        && cn[n - 2] <= 0x35 && cn[n - 1] == kind
}

/// Classify a card by the issuer of its certificate.
pub fn classify_card_generation(issuer: Name<'_>) -> (r: CardGeneration)
    ensures
        r == generation_of(named(name_attribute(issuer@, COMMON_NAME@))),
{
    let cn = match issuer.common_name() {
        Some(cn) => cn,
        None => {
            return CardGeneration::Unknown;
        },
    };
    let bytes = cn.as_str().as_bytes();
    if has_family(bytes, UPPER_R) {
        CardGeneration::Older
    } else if has_family(bytes, UPPER_E) {
        CardGeneration::Newer
    } else {
        CardGeneration::Unknown
    }
}

/// What a card tells about its holder before any PIN. The serial of the card application
/// belongs to the card and is not part of it.
#[derive(Debug, Clone)]
pub struct CredentialIdentity {
    /// Surname.
    pub surname: Option<Surname>,
    /// First given name.
    pub first_name: Option<GivenName>,
    /// Second given name.
    pub second_name: Option<GivenName>,
    /// Other given names.
    pub additional_names: Vec<GivenName>,
    /// Personal identifier.
    pub peuin: Option<Peuin>,
}

/// What an identity holds.
#[verifier::ext_equal]
pub struct IdentityView {
    pub surname: Option<Seq<char>>,
    pub given_names: SplitView,
    pub peuin: Option<Seq<char>>,
}

impl View for CredentialIdentity {
    type V = IdentityView;

    open spec fn view(&self) -> IdentityView {
        IdentityView {
            surname: match self.surname {
                Some(n) => Some(n@),
                None => None,
            },
            given_names: SplitView {
                first: given_view(self.first_name),
                second: given_view(self.second_name),
                additional: given_views(self.additional_names@),
            },
            peuin: match self.peuin {
                Some(n) => Some(n@),
                None => None,
            },
        }
    }
}

/// The identity that a certificate gives, where it could be read.
pub open spec fn identity_of(cert: Option<Seq<u8>>) -> IdentityView {
    let subject = match cert {
        Some(der) => match certificate_of(der) {
            Ok(c) => Some(c.fields.subject),
            Err(_) => None,
        },
        None => None,
    };
    match subject {
        Some(dn) => IdentityView {
            surname: named(name_attribute(dn, SURNAME@)),
            given_names: split_names(name_attribute(dn, GIVEN_NAME@)),
            peuin: named(name_attribute(dn, SERIAL_NUMBER@)),
        },
        None => IdentityView { surname: None, given_names: split_names(None), peuin: None },
    }
}

/// Put the identity together from the bytes of the authentication certificate, where they
/// could be read.
pub fn assemble_identity(cert: Option<&[u8]>) -> (r: CredentialIdentity)
    ensures
        r@ == identity_of(
            match cert {
                Some(der) => Some(der@),
                None => None,
            },
        ),
{
    let none = CredentialIdentity {
        surname: None,
        first_name: None,
        second_name: None,
        additional_names: Vec::new(),
        peuin: None,
    };
    assert(none@.given_names =~= split_names(None));
    let der = match cert {
        Some(der) => der,
        None => {
            return none;
        },
    };
    match Certificate::from_der(der) {
        Ok(cert) => {
            let subject = cert.subject;
            let names = subject.given_names();
            CredentialIdentity {
                surname: subject.surname(),
                first_name: names.first,
                second_name: names.second,
                additional_names: names.additional,
                peuin: subject.peuin(),
            }
        },
        Err(_) => none,
    }
}

/// The view of a probe.
pub open spec fn identity_view(r: Option<CredentialIdentity>) -> Option<IdentityView> {
    match r {
        Some(i) => Some(i@),
        None => None,
    }
}

/// The card in an open reader answers with the identity `answer`: its token
/// information has a serial, and its certificate adds the names where it can be read.
pub open spec fn card_identifies<T: CardTransport>(
    opened: T,
    middle: T,
    closed: T,
    token: Result<TokenInfo, Pkcs15Error<TransportDispatchError<T::Error>>>,
    cert: Result<Seq<u8>, Pkcs15ErrorView<T::Error>>,
    answer: Option<IdentityView>,
) -> bool {
    &&& continues(opened.log(), middle.log())
    &&& token_info_run(news(opened.log(), middle.log()), token)
    &&& match token {
        Err(_) => answer is None,
        Ok(info) => match info@.serial {
            None => answer is None,
            Some(_) => {
                &&& continues(middle.log(), closed.log())
                &&& walk_run(
                    slot_steps(CertSlot::Authentication),
                    CertSlot::Authentication.name(),
                    news(middle.log(), closed.log()),
                    cert,
                )
                &&& answer == Some(
                    identity_of(
                        match cert {
                            Ok(der) => Some(der),
                            Err(_) => None,
                        },
                    ),
                )
            },
        },
    }
}

/// The backend answered `o` for opening a reader.
pub open spec fn opened_as<B: ReaderBackend>(
    backend: &B,
    reader: ReaderId,
    o: Result<B::Transport, B::Error>,
) -> bool {
    call_ensures(B::open_exclusive, (backend, &reader, ReaderAccessCap::Read), o)
}

/// Probing the reader named `name` for an identity gives `answer`.
pub open spec fn identity_probe<B: ReaderBackend>(
    backend: &B,
    name: Seq<char>,
    answer: Option<IdentityView>,
) -> bool {
    exists|reader: ReaderId, o: Result<B::Transport, B::Error>|
        #[trigger] opened_as(backend, reader, o) && reader@ == name && match o {
            Err(_) => answer is None,
            Ok(opened) => exists|
                middle: B::Transport,
                closed: B::Transport,
                token: Result<
                    TokenInfo,
                    Pkcs15Error<TransportDispatchError<<B::Transport as CardTransport>::Error>>,
                >,
                cert: Result<
                    Seq<u8>,
                    Pkcs15ErrorView<<B::Transport as CardTransport>::Error>,
                >,
            |
                #[trigger] card_identifies(opened, middle, closed, token, cert, answer),
        }
}

/// Probing the reader named `name` for handshake parameters gives `answer`.
pub open spec fn access_probe<B: ReaderBackend>(backend: &B, name: Seq<char>, answer: bool) -> bool {
    exists|reader: ReaderId, o: Result<B::Transport, B::Error>|
        #[trigger] opened_as(backend, reader, o) && reader@ == name && match o {
            Err(_) => !answer,
            Ok(opened) => exists|
                closed: B::Transport,
                read: Result<
                    Seq<u8>,
                    Pkcs15ErrorView<<B::Transport as CardTransport>::Error>,
                >,
            |
                #[trigger] serves_access(opened, closed, read) && answer == (read is Ok),
        }
}

/// The card in an open reader answers `read` for the file with handshake parameters.
pub open spec fn serves_access<T: CardTransport>(
    opened: T,
    closed: T,
    read: Result<Seq<u8>, Pkcs15ErrorView<T::Error>>,
) -> bool {
    continues(opened.log(), closed.log()) && card_access_run(
        news(opened.log(), closed.log()),
        read,
    )
}

/// Probe a reader for a FINEID card. A card whose token information has no serial, or
/// cannot be read, is none; one whose certificate cannot be read still is one.
fn probe_fineid_identity<B: ReaderBackend>(backend: &B, reader: &ReaderId) -> (r: Option<
    CredentialIdentity,
>)
    ensures
        identity_probe(backend, reader@, identity_view(r)),
{
    let o = backend.open_exclusive(reader, ReaderAccessCap::Read);
    assert(opened_as(backend, *reader, o));
    let mut transport = match o {
        Ok(transport) => transport,
        Err(_) => {
            return None;
        },
    };
    let ghost opened = transport;
    let ghost spare: Result<Seq<u8>, Pkcs15ErrorView<<B::Transport as CardTransport>::Error>> =
        arbitrary();
    let token = read_token(&mut transport);
    let ghost middle = transport;
    let info = match token {
        Ok(info) => info,
        Err(e) => {
            proof {
                assert(card_identifies(
                    opened,
                    middle,
                    middle,
                    Err::<
                        TokenInfo,
                        Pkcs15Error<TransportDispatchError<<B::Transport as CardTransport>::Error>>,
                    >(e),
                    spare,
                    None,
                ));
            }
            return None;
        },
    };
    let ghost kept = Ok::<
        TokenInfo,
        Pkcs15Error<TransportDispatchError<<B::Transport as CardTransport>::Error>>,
    >(info);
    if info.serial_number_hex.is_none() {
        assert(card_identifies(opened, middle, middle, kept, spare, None));
        return None;
    }
    let read = read_slot(&mut transport, CertSlot::Authentication);
    let ghost view = pkcs15_view(read);
    let identity = match read {
        Ok(der) => assemble_identity(Some(der.as_bytes())),
        Err(_) => assemble_identity(None),
    };
    proof {
        assert(card_identifies(opened, middle, transport, kept, view, Some(identity@)));
    }
    Some(identity)
}

/// Probe a reader for a card that serves its handshake parameters. No access number
/// is used up and nothing personal is read.
fn probe_card_access<B: ReaderBackend>(backend: &B, reader: &ReaderId) -> (r: bool)
    ensures
        access_probe(backend, reader@, r),
{
    let o = backend.open_exclusive(reader, ReaderAccessCap::Read);
    assert(opened_as(backend, *reader, o));
    match o {
        Ok(mut transport) => {
            let ghost opened = transport;
            let read = read_card_access(&mut transport);
            proof {
                assert(serves_access(opened, transport, pkcs15_view(read)));
            }
            read.is_ok()
        },
        Err(_) => false,
    }
}

/// The names of the readers that hold a card.
pub open spec fn present_names(readers: Seq<ReaderView>) -> Seq<Seq<char>>
    decreases readers.len(),
{
    if readers.len() == 0 {
        Seq::empty()
    } else {
        let before = present_names(readers.drop_last());
        if readers.last().card_present {
            before.push(readers.last().name)
        } else {
            before
        }
    }
}

fn present_readers(readers: &Vec<ReaderInfo>) -> (r: Vec<ReaderId>)
    ensures
        id_views(r@) == present_names(reader_views(readers@)),
{
    let ghost views = reader_views(readers@);
    let mut out: Vec<ReaderId> = Vec::new();
    let mut i: usize = 0;
    assert(id_views(out@) =~= present_names(views.take(0)));
    while i < readers.len()
        invariant
            i <= readers@.len(),
            views == reader_views(readers@),
            id_views(out@) == present_names(views.take(i as int)),
        decreases readers@.len() - i,
    {
        let ghost before = out@;
        proof {
            assert(views.take(i + 1).drop_last() =~= views.take(i as int));
            assert(views.take(i + 1).last() == readers@[i as int]@);
        }
        if readers[i].card_present {
            let id = readers[i].id.clone();
            out.push(id);
            assert(id_views(out@) =~= id_views(before).push(id@));
        }
        i += 1;
    }
    assert(views.take(i as int) =~= views);
    out
}

/// The positions of the readers that responded.
pub open spec fn positives(responded: Seq<bool>) -> Seq<int>
    decreases responded.len(),
{
    if responded.len() == 0 {
        Seq::empty()
    } else {
        let before = positives(responded.drop_last());
        if responded.last() {
            before.push(responded.len() - 1)
        } else {
            before
        }
    }
}

proof fn lemma_positives(responded: Seq<bool>)
    ensures
        forall|k: int|
            0 <= k < positives(responded).len() ==> 0 <= #[trigger] positives(responded)[k]
                < responded.len() && responded[positives(responded)[k]],
    decreases responded.len(),
{
    if responded.len() > 0 {
        let front = responded.drop_last();
        lemma_positives(front);
        let hits = positives(responded);
        assert forall|k: int| 0 <= k < hits.len() implies 0 <= #[trigger] hits[k]
            < responded.len() && responded[hits[k]] by {
            if k < positives(front).len() {
                assert(hits[k] == positives(front)[k]);
                assert(front[positives(front)[k]]);
            }
        }
    }
}

/// Which of the readers with a card is picked: of those that responded, the one that
/// passes the filter.
pub open spec fn choice(
    present: Seq<Seq<char>>,
    responded: Seq<bool>,
    filter: Option<Seq<char>>,
) -> Result<int, PickErrorView> {
    let hits = positives(responded);
    if present.len() == 0 {
        Err(PickErrorView::NoCardPresent)
    } else if hits.len() == 0 {
        Err(PickErrorView::NoFineidCard(present))
    } else {
        match resolution(names_at(present, hits), filter) {
            Ok(i) => Ok(hits[i]),
            Err(e) => Err(e),
        }
    }
}

/// Decide between the readers with a card, given which of them responded to a probe.
pub fn choose_reader(
    present: &Vec<ReaderId>,
    responded: &Vec<bool>,
    filter: Option<&ReaderFilter>,
) -> (r: Result<usize, ReaderPickError>)
    requires
        responded@.len() == present@.len(),
    ensures
        resolution_view(r) == choice(id_views(present@), responded@, filter_view(filter)),
        r matches Ok(i) ==> i < present@.len() && responded@[i as int],
{
    if present.len() == 0 {
        return Err(ReaderPickError::NoCardPresent);
    }
    let ghost names = id_views(present@);
    let mut positions: Vec<usize> = Vec::new();
    let mut candidates: Vec<ReaderId> = Vec::new();
    let mut i: usize = 0;
    assert(Seq::new(positions@.len(), |j: int| positions@[j] as int) =~= positives(
        responded@.take(0),
    ));
    while i < present.len()
        invariant
            i <= present@.len(),
            responded@.len() == present@.len(),
            names == id_views(present@),
            Seq::new(positions@.len(), |j: int| positions@[j] as int) == positives(
                responded@.take(i as int),
            ),
            candidates@.len() == positions@.len(),
            forall|j: int|
                0 <= j < positions@.len() ==> (#[trigger] positions@[j]) < present@.len()
                    && candidates@[j]@ == names[positions@[j] as int],
        decreases present@.len() - i,
    {
        let ghost before = positions@;
        proof {
            assert(responded@.take(i + 1).drop_last() =~= responded@.take(i as int));
        }
        if responded[i] {
            positions.push(i);
            candidates.push(present[i].clone());
            assert(Seq::new(positions@.len(), |j: int| positions@[j] as int) =~= Seq::new(
                before.len(),
                |j: int| before[j] as int,
            ).push(i as int));
        }
        i += 1;
    }
    let ghost hits = Seq::new(positions@.len(), |j: int| positions@[j] as int);
    proof {
        assert(responded@.take(i as int) =~= responded@);
        lemma_positives(responded@);
        assert(id_views(candidates@) =~= names_at(names, hits));
    }
    if candidates.len() == 0 {
        return Err(ReaderPickError::NoFineidCard { available: reader_names(present) });
    }
    match resolve_reader(&candidates, filter) {
        Ok(at) => {
            assert(hits[at as int] == positions@[at as int]);
            Ok(positions[at])
        },
        Err(e) => Err(e),
    }
}

/// The backend answered `listed` for its readers.
pub open spec fn listed_as<B: ReaderBackend>(
    backend: &B,
    listed: Result<Vec<ReaderInfo>, B::Error>,
) -> bool {
    call_ensures(B::enumerate, (backend,), listed)
}

/// Probing the named readers for handshake parameters gave `answers`.
pub open spec fn access_probes<B: ReaderBackend>(
    backend: &B,
    names: Seq<Seq<char>>,
    answers: Seq<bool>,
) -> bool {
    &&& answers.len() == names.len()
    &&& forall|i: int| 0 <= i < names.len() ==> access_probe(backend, names[i], #[trigger] answers[i])
}

/// Probing the named readers for an identity gave `answers`.
pub open spec fn identity_probes<B: ReaderBackend>(
    backend: &B,
    names: Seq<Seq<char>>,
    answers: Seq<Option<IdentityView>>,
) -> bool {
    &&& answers.len() == names.len()
    &&& forall|i: int|
        0 <= i < names.len() ==> identity_probe(backend, names[i], #[trigger] answers[i])
}

/// The result of picking a contactless reader, for what the backend listed and the
/// readers answered.
pub open spec fn contactless_pick<B: ReaderBackend>(
    backend: &B,
    listed: Result<Vec<ReaderInfo>, B::Error>,
    answers: Seq<bool>,
    filter: Option<Seq<char>>,
    r: Result<ReaderId, ReaderPickError>,
) -> bool {
    match listed {
        Err(_) => r matches Err(ReaderPickError::NoReaders),
        Ok(readers) => if readers@.len() == 0 {
            r matches Err(ReaderPickError::NoReaders)
        } else {
            let names = present_names(reader_views(readers@));
            &&& access_probes(backend, names, answers)
            &&& match choice(names, answers, filter) {
                Ok(i) => r matches Ok(id) && id@ == names[i],
                Err(e) => r matches Err(f) && f@ == e,
            }
        },
    }
}

fn probe_access_all<B: ReaderBackend>(backend: &B, readers: &Vec<ReaderId>) -> (r: Vec<bool>)
    ensures
        access_probes(backend, id_views(readers@), r@),
{
    let mut answers: Vec<bool> = Vec::new();
    let mut i: usize = 0;
    while i < readers.len()
        invariant
            i <= readers@.len(),
            answers@.len() == i,
            forall|j: int|
                0 <= j < i ==> access_probe(backend, readers@[j]@, #[trigger] answers@[j]),
        decreases readers@.len() - i,
    {
        let answer = probe_card_access(backend, &readers[i]);
        answers.push(answer);
        i += 1;
    }
    answers
}

/// Pick the one reader whose card serves its handshake parameters and whose name
/// passes the filter.
pub fn pick_contactless_reader<B: ReaderBackend>(backend: &B, filter: Option<&ReaderFilter>) -> (r:
    Result<ReaderId, ReaderPickError>)
    ensures
        exists|listed: Result<Vec<ReaderInfo>, B::Error>, answers: Seq<bool>|
            #[trigger] contactless_pick(backend, listed, answers, filter_view(filter), r)
                && listed_as(backend, listed),
{
    let listed = backend.enumerate();
    assert(listed_as(backend, listed));
    let ghost none = Seq::<bool>::empty();
    let readers = match listed {
        Ok(readers) => readers,
        Err(e) => {
            let r = Err(ReaderPickError::NoReaders);
            proof {
                let listed = Err::<Vec<ReaderInfo>, B::Error>(e);
                assert(contactless_pick(backend, listed, none, filter_view(filter), r));
            }
            return r;
        },
    };
    let ghost listed = Ok::<Vec<ReaderInfo>, B::Error>(readers);
    if readers.len() == 0 {
        let r = Err(ReaderPickError::NoReaders);
        assert(contactless_pick(backend, listed, none, filter_view(filter), r));
        return r;
    }
    let present = present_readers(&readers);
    let answers = probe_access_all(backend, &present);
    let r = match choose_reader(&present, &answers, filter) {
        Ok(at) => Ok(present[at].clone()),
        Err(e) => Err(e),
    };
    assert(contactless_pick(backend, listed, answers@, filter_view(filter), r));
    r
}

/// The names of the readers with a card that pass the filter.
pub open spec fn present_passing(readers: Seq<ReaderView>, filter: Option<Seq<char>>) -> Seq<
    Seq<char>,
>
    decreases readers.len(),
{
    if readers.len() == 0 {
        Seq::empty()
    } else {
        let before = present_passing(readers.drop_last(), filter);
        if readers.last().card_present && passes(readers.last().name, filter) {
            before.push(readers.last().name)
        } else {
            before
        }
    }
}

fn passing_readers(readers: &Vec<ReaderInfo>, filter: Option<&ReaderFilter>) -> (r: Vec<ReaderId>)
    ensures
        id_views(r@) == present_passing(reader_views(readers@), filter_view(filter)),
{
    let ghost views = reader_views(readers@);
    let ghost f = filter_view(filter);
    let mut out: Vec<ReaderId> = Vec::new();
    let mut i: usize = 0;
    assert(id_views(out@) =~= present_passing(views.take(0), f));
    while i < readers.len()
        invariant
            i <= readers@.len(),
            views == reader_views(readers@),
            f == filter_view(filter),
            id_views(out@) == present_passing(views.take(i as int), f),
        decreases readers@.len() - i,
    {
        let ghost before = out@;
        proof {
            assert(views.take(i + 1).drop_last() =~= views.take(i as int));
            assert(views.take(i + 1).last() == readers@[i as int]@);
        }
        if readers[i].card_present && reader_passes(&readers[i].id, filter) {
            let id = readers[i].id.clone();
            out.push(id);
            assert(id_views(out@) =~= id_views(before).push(id@));
        }
        i += 1;
    }
    assert(views.take(i as int) =~= views);
    out
}

/// The names of the readers that responded.
pub open spec fn responders(names: Seq<Seq<char>>, answers: Seq<bool>) -> Seq<Seq<char>> {
    names_at(names, positives(answers))
}

/// The result of listing contactless readers.
pub open spec fn contactless_list<B: ReaderBackend>(
    backend: &B,
    listed: Result<Vec<ReaderInfo>, B::Error>,
    answers: Seq<bool>,
    filter: Option<Seq<char>>,
    r: Result<Vec<ReaderId>, ReaderPickError>,
) -> bool {
    match listed {
        Err(_) => r matches Err(ReaderPickError::NoReaders),
        Ok(readers) => if readers@.len() == 0 {
            r matches Err(ReaderPickError::NoReaders)
        } else {
            let names = present_passing(reader_views(readers@), filter);
            &&& access_probes(backend, names, answers)
            &&& r matches Ok(ids) && id_views(ids@) == responders(names, answers)
        },
    }
}

fn keep_responders(readers: &Vec<ReaderId>, answers: &Vec<bool>) -> (r: Vec<ReaderId>)
    requires
        answers@.len() == readers@.len(),
    ensures
        id_views(r@) == responders(id_views(readers@), answers@),
{
    let ghost names = id_views(readers@);
    let mut out: Vec<ReaderId> = Vec::new();
    let mut i: usize = 0;
    assert(id_views(out@) =~= responders(names, answers@.take(0)));
    while i < readers.len()
        invariant
            i <= readers@.len(),
            answers@.len() == readers@.len(),
            names == id_views(readers@),
            id_views(out@) == responders(names, answers@.take(i as int)),
        decreases readers@.len() - i,
    {
        let ghost before = out@;
        proof {
            assert(answers@.take(i + 1).drop_last() =~= answers@.take(i as int));
        }
        if answers[i] {
            let id = readers[i].clone();
            out.push(id);
            proof {
                assert(id_views(out@) =~= id_views(before).push(id@));
                assert(responders(names, answers@.take(i + 1)) =~= responders(
                    names,
                    answers@.take(i as int),
                ).push(names[i as int]));
            }
        }
        i += 1;
    }
    assert(answers@.take(i as int) =~= answers@);
    out
}

/// List the readers that pass the filter and whose card serves its handshake
/// parameters. That there is none is no error.
pub fn enumerate_contactless_readers<B: ReaderBackend>(
    backend: &B,
    filter: Option<&ReaderFilter>,
) -> (r: Result<Vec<ReaderId>, ReaderPickError>)
    ensures
        exists|listed: Result<Vec<ReaderInfo>, B::Error>, answers: Seq<bool>|
            #[trigger] contactless_list(backend, listed, answers, filter_view(filter), r)
                && listed_as(backend, listed),
{
    let listed = backend.enumerate();
    assert(listed_as(backend, listed));
    let ghost none = Seq::<bool>::empty();
    let readers = match listed {
        Ok(readers) => readers,
        Err(e) => {
            let r = Err(ReaderPickError::NoReaders);
            proof {
                let listed = Err::<Vec<ReaderInfo>, B::Error>(e);
                assert(contactless_list(backend, listed, none, filter_view(filter), r));
            }
            return r;
        },
    };
    let ghost listed = Ok::<Vec<ReaderInfo>, B::Error>(readers);
    if readers.len() == 0 {
        let r = Err(ReaderPickError::NoReaders);
        assert(contactless_list(backend, listed, none, filter_view(filter), r));
        return r;
    }
    let passing = passing_readers(&readers, filter);
    let answers = probe_access_all(backend, &passing);
    let r = Ok(keep_responders(&passing, &answers));
    assert(contactless_list(backend, listed, answers@, filter_view(filter), r));
    r
}

/// A reader and the identity of the card in it.
#[derive(Debug, Clone)]
pub struct FineidReaderPick {
    /// The reader.
    pub reader_id: ReaderId,
    /// The identity of the card.
    pub identity: CredentialIdentity,
}

/// The identities of probes.
pub open spec fn identity_views(answers: Seq<Option<CredentialIdentity>>) -> Seq<
    Option<IdentityView>,
> {
    Seq::new(answers.len(), |i: int| identity_view(answers[i]))
}

/// Which readers answered with an identity.
pub open spec fn identified(answers: Seq<Option<IdentityView>>) -> Seq<bool> {
    Seq::new(answers.len(), |i: int| answers[i] is Some)
}

fn probe_identity_all<B: ReaderBackend>(backend: &B, readers: &Vec<ReaderId>) -> (r: (
    Vec<Option<CredentialIdentity>>,
    Vec<bool>,
))
    ensures
        identity_probes(backend, id_views(readers@), identity_views(r.0@)),
        r.1@ == identified(identity_views(r.0@)),
{
    let mut answers: Vec<Option<CredentialIdentity>> = Vec::new();
    let mut responded: Vec<bool> = Vec::new();
    let mut i: usize = 0;
    while i < readers.len()
        invariant
            i <= readers@.len(),
            answers@.len() == i,
            responded@.len() == i,
            forall|j: int|
                0 <= j < i ==> identity_probe(
                    backend,
                    readers@[j]@,
                    identity_view(#[trigger] answers@[j]),
                ),
            forall|j: int| 0 <= j < i ==> (#[trigger] responded@[j]) == (answers@[j] is Some),
        decreases readers@.len() - i,
    {
        let answer = probe_fineid_identity(backend, &readers[i]);
        responded.push(answer.is_some());
        answers.push(answer);
        i += 1;
    }
    proof {
        let views = identity_views(answers@);
        assert forall|j: int| 0 <= j < readers@.len() implies identity_probe(
            backend,
            id_views(readers@)[j],
            #[trigger] views[j],
        ) by {
            assert(views[j] == identity_view(answers@[j]));
        }
        assert(responded@ =~= identified(views));
    }
    (answers, responded)
}

/// The result of picking a reader with a FINEID card, for what the backend listed and
/// the readers answered.
pub open spec fn fineid_pick<B: ReaderBackend>(
    backend: &B,
    listed: Result<Vec<ReaderInfo>, B::Error>,
    answers: Seq<Option<IdentityView>>,
    filter: Option<Seq<char>>,
    r: Result<FineidReaderPick, ReaderPickError>,
) -> bool {
    match listed {
        Err(_) => r matches Err(ReaderPickError::NoReaders),
        Ok(readers) => if readers@.len() == 0 {
            r matches Err(ReaderPickError::NoReaders)
        } else {
            let names = present_names(reader_views(readers@));
            &&& identity_probes(backend, names, answers)
            &&& match choice(names, identified(answers), filter) {
                Ok(i) => r matches Ok(pick) && pick.reader_id@ == names[i] && Some(pick.identity@)
                    == answers[i],
                Err(e) => r matches Err(f) && f@ == e,
            }
        },
    }
}

/// Pick the one reader that holds a FINEID card and whose name passes the filter.
/// Other cards do not count.
pub fn pick_fineid_reader<B: ReaderBackend>(backend: &B, filter: Option<&ReaderFilter>) -> (r:
    Result<FineidReaderPick, ReaderPickError>)
    ensures
        exists|listed: Result<Vec<ReaderInfo>, B::Error>, answers: Seq<Option<IdentityView>>|
            #[trigger] fineid_pick(backend, listed, answers, filter_view(filter), r) && listed_as(
                backend,
                listed,
            ),
{
    let listed = backend.enumerate();
    assert(listed_as(backend, listed));
    let ghost none = Seq::<Option<IdentityView>>::empty();
    let readers = match listed {
        Ok(readers) => readers,
        Err(e) => {
            let r = Err(ReaderPickError::NoReaders);
            proof {
                let listed = Err::<Vec<ReaderInfo>, B::Error>(e);
                assert(fineid_pick(backend, listed, none, filter_view(filter), r));
            }
            return r;
        },
    };
    let ghost listed = Ok::<Vec<ReaderInfo>, B::Error>(readers);
    if readers.len() == 0 {
        let r = Err(ReaderPickError::NoReaders);
        assert(fineid_pick(backend, listed, none, filter_view(filter), r));
        return r;
    }
    let present = present_readers(&readers);
    let (mut answers, responded) = probe_identity_all(backend, &present);
    let ghost views = identity_views(answers@);
    let r = match choose_reader(&present, &responded, filter) {
        Ok(at) => {
            assert(views[at as int] == identity_view(answers@[at as int]));
            match answers.swap_remove(at) {
                Some(identity) => Ok(
                    FineidReaderPick { reader_id: present[at].clone(), identity },
                ),
                None => Err(ReaderPickError::NoCardPresent),
            }
        },
        Err(e) => Err(e),
    };
    assert(fineid_pick(backend, listed, views, filter_view(filter), r));
    r
}

/// The views of picks.
pub open spec fn pick_views(picks: Seq<FineidReaderPick>) -> Seq<(Seq<char>, IdentityView)> {
    Seq::new(picks.len(), |i: int| (picks[i].reader_id@, picks[i].identity@))
}

/// The readers that answered with an identity, and the identities.
pub open spec fn identified_readers(
    names: Seq<Seq<char>>,
    answers: Seq<Option<IdentityView>>,
) -> Seq<(Seq<char>, IdentityView)>
    decreases answers.len(),
{
    if answers.len() == 0 {
        Seq::empty()
    } else {
        let before = identified_readers(names, answers.drop_last());
        match answers.last() {
            Some(identity) => before.push((names[answers.len() - 1], identity)),
            None => before,
        }
    }
}

/// The result of listing readers with a FINEID card.
pub open spec fn fineid_list<B: ReaderBackend>(
    backend: &B,
    listed: Result<Vec<ReaderInfo>, B::Error>,
    answers: Seq<Option<IdentityView>>,
    filter: Option<Seq<char>>,
    r: Result<Vec<FineidReaderPick>, ReaderPickError>,
) -> bool {
    match listed {
        Err(_) => r matches Err(ReaderPickError::NoReaders),
        Ok(readers) => {
            let names = present_passing(reader_views(readers@), filter);
            &&& identity_probes(backend, names, answers)
            &&& r matches Ok(picks) && pick_views(picks@) == identified_readers(names, answers)
        },
    }
}

/// List the readers that pass the filter and hold a FINEID card. That there is none
/// is no error.
pub fn enumerate_fineid_readers<B: ReaderBackend>(
    backend: &B,
    filter: Option<&ReaderFilter>,
) -> (r: Result<Vec<FineidReaderPick>, ReaderPickError>)
    ensures
        exists|listed: Result<Vec<ReaderInfo>, B::Error>, answers: Seq<Option<IdentityView>>|
            #[trigger] fineid_list(backend, listed, answers, filter_view(filter), r) && listed_as(
                backend,
                listed,
            ),
{
    let listed = backend.enumerate();
    assert(listed_as(backend, listed));
    let readers = match listed {
        Ok(readers) => readers,
        Err(e) => {
            let r = Err(ReaderPickError::NoReaders);
            proof {
                let listed = Err::<Vec<ReaderInfo>, B::Error>(e);
                let none = Seq::<Option<IdentityView>>::empty();
                assert(fineid_list(backend, listed, none, filter_view(filter), r));
            }
            return r;
        },
    };
    let ghost listed = Ok::<Vec<ReaderInfo>, B::Error>(readers);
    let passing = passing_readers(&readers, filter);
    let ghost names = id_views(passing@);
    let mut out: Vec<FineidReaderPick> = Vec::new();
    let ghost mut answers: Seq<Option<IdentityView>> = Seq::empty();
    let mut i: usize = 0;
    assert(pick_views(out@) =~= identified_readers(names, answers));
    while i < passing.len()
        invariant
            i <= passing@.len(),
            names == id_views(passing@),
            answers.len() == i,
            forall|j: int| 0 <= j < i ==> identity_probe(backend, names[j], #[trigger] answers[j]),
            pick_views(out@) == identified_readers(names, answers),
        decreases passing@.len() - i,
    {
        let answer = probe_fineid_identity(backend, &passing[i]);
        let ghost before = out@;
        let ghost old_answers = answers;
        proof {
            answers = answers.push(identity_view(answer));
            assert(answers.drop_last() =~= old_answers);
        }
        match answer {
            Some(identity) => {
                let pick = FineidReaderPick { reader_id: passing[i].clone(), identity };
                out.push(pick);
                assert(pick_views(out@) =~= pick_views(before).push(
                    (pick.reader_id@, pick.identity@),
                ));
            },
            None => {},
        }
        i += 1;
    }
    let r = Ok(out);
    assert(fineid_list(backend, listed, answers, filter_view(filter), r));
    r
}

/// The names of the readers that respond, in order.
pub open spec fn responding(names: Seq<Seq<char>>, responds: spec_fn(Seq<char>) -> bool) -> Seq<
    Seq<char>,
>
    decreases names.len(),
{
    if names.len() == 0 {
        Seq::empty()
    } else {
        let before = responding(names.drop_last(), responds);
        if responds(names.last()) {
            before.push(names.last())
        } else {
            before
        }
    }
}

/// Each reader answered as `responds` says: a probe can be repeated.
pub open spec fn answered_by(
    names: Seq<Seq<char>>,
    answers: Seq<bool>,
    responds: spec_fn(Seq<char>) -> bool,
) -> bool {
    &&& answers.len() == names.len()
    &&& forall|i: int| 0 <= i < names.len() ==> #[trigger] answers[i] == responds(names[i])
}

proof fn lemma_responders(
    names: Seq<Seq<char>>,
    answers: Seq<bool>,
    responds: spec_fn(Seq<char>) -> bool,
)
    requires
        answered_by(names, answers, responds),
    ensures
        responders(names, answers) == responding(names, responds),
        positives(answers).len() == responding(names, responds).len(),
    decreases names.len(),
{
    if names.len() > 0 {
        let front = names.drop_last();
        let earlier = answers.drop_last();
        assert forall|i: int| 0 <= i < front.len() implies #[trigger] earlier[i] == responds(
            front[i],
        ) by {
            assert(earlier[i] == answers[i]);
        }
        lemma_responders(front, earlier, responds);
        lemma_positives(earlier);
        let before = positives(earlier);
        assert forall|k: int| 0 <= k < before.len() implies names[#[trigger] before[k]]
            == front[before[k]] by {
            assert(0 <= before[k] < front.len());
        }
        assert(names_at(names, before) =~= names_at(front, before));
    }
    assert(responders(names, answers) =~= responding(names, responds));
}

proof fn lemma_filter_commutes(
    readers: Seq<ReaderView>,
    responds: spec_fn(Seq<char>) -> bool,
    filter: Option<Seq<char>>,
)
    ensures
        passing(responding(present_names(readers), responds), filter) == responding(
            present_passing(readers, filter),
            responds,
        ),
    decreases readers.len(),
{
    if readers.len() > 0 {
        let front = readers.drop_last();
        lemma_filter_commutes(front, responds, filter);
        let last = readers.last();
        if last.card_present {
            let names = present_names(front);
            assert(names.push(last.name).drop_last() =~= names);
            let kept = responding(names, responds);
            assert(kept.push(last.name).drop_last() =~= kept);
            let short = present_passing(front, filter);
            assert(short.push(last.name).drop_last() =~= short);
        }
    }
}

/// The pick of a contactless reader and the list of them agree, where probes can be
/// repeated: the pick succeeds exactly when the list has one reader, and gives that one.
/// Without a filter, several listed readers are named in the error, in order.
pub proof fn law_contactless_pick_is_the_one_listed<B: ReaderBackend>(
    backend: &B,
    listed: Result<Vec<ReaderInfo>, B::Error>,
    pick_answers: Seq<bool>,
    list_answers: Seq<bool>,
    responds: spec_fn(Seq<char>) -> bool,
    filter: Option<Seq<char>>,
    pick: Result<ReaderId, ReaderPickError>,
    list: Result<Vec<ReaderId>, ReaderPickError>,
)
    requires
        contactless_pick(backend, listed, pick_answers, filter, pick),
        contactless_list(backend, listed, list_answers, filter, list),
        listed matches Ok(readers) ==> readers@.len() > 0 ==> answered_by(
            present_names(reader_views(readers@)),
            pick_answers,
            responds,
        ) && answered_by(
            present_passing(reader_views(readers@), filter),
            list_answers,
            responds,
        ),
    ensures
        pick is Ok <==> list is Ok && list->Ok_0@.len() == 1,
        pick is Ok ==> pick->Ok_0@ == list->Ok_0@[0]@,
        list is Ok && list->Ok_0@.len() > 1 && filter is None ==> (pick matches Err(e) && e@
            == PickErrorView::MultipleReadersNoFilter(id_views(list->Ok_0@))),
{
    if listed is Ok && listed->Ok_0@.len() > 0 {
        let readers = reader_views(listed->Ok_0@);
        let names = present_names(readers);
        let candidates = responders(names, pick_answers);
        lemma_responders(names, pick_answers, responds);
        lemma_responders(present_passing(readers, filter), list_answers, responds);
        lemma_filter_commutes(readers, responds, filter);
        lemma_passing(candidates, filter);
        let found = passing(candidates, filter);
        assert(found == id_views(list->Ok_0@));
        assert(found.len() == list->Ok_0@.len());
        let hits = matching(candidates, filter);
        if hits.len() == 1 {
            assert(candidates.len() > 0) by {
                if candidates.len() == 0 {
                    assert(passing(candidates, filter).len() == 0);
                }
            }
            assert(names_at(candidates, hits)[0] == candidates[hits[0]]);
            lemma_positives(pick_answers);
            assert(list->Ok_0@[0]@ == id_views(list->Ok_0@)[0]);
            law_pick_is_unique(candidates, filter);
        }
        if candidates.len() == 0 {
            assert(passing(candidates, filter).len() == 0);
        }
    }
}

/// Each reader identified itself as `identifies` says: a probe can be repeated.
pub open spec fn identified_by(
    names: Seq<Seq<char>>,
    answers: Seq<Option<IdentityView>>,
    identifies: spec_fn(Seq<char>) -> Option<IdentityView>,
) -> bool {
    &&& answers.len() == names.len()
    &&& forall|i: int| 0 <= i < names.len() ==> #[trigger] answers[i] == identifies(names[i])
}

/// The names, each with its identity.
pub open spec fn with_identities(
    names: Seq<Seq<char>>,
    identifies: spec_fn(Seq<char>) -> Option<IdentityView>,
) -> Seq<(Seq<char>, IdentityView)> {
    Seq::new(names.len(), |i: int| (names[i], identifies(names[i])->Some_0))
}

proof fn lemma_identified(
    names: Seq<Seq<char>>,
    answers: Seq<Option<IdentityView>>,
    identifies: spec_fn(Seq<char>) -> Option<IdentityView>,
    responds: spec_fn(Seq<char>) -> bool,
)
    requires
        identified_by(names, answers, identifies),
        responds == (|n: Seq<char>| identifies(n) is Some),
    ensures
        answered_by(names, identified(answers), responds),
        identified_readers(names, answers) == with_identities(
            responding(names, responds),
            identifies,
        ),
    decreases names.len(),
{
    if names.len() > 0 {
        let front = names.drop_last();
        let earlier = answers.drop_last();
        assert forall|i: int| 0 <= i < front.len() implies #[trigger] earlier[i] == identifies(
            front[i],
        ) by {
            assert(earlier[i] == answers[i]);
        }
        lemma_identified(front, earlier, identifies, responds);
        lemma_prefix_identified(names, front, earlier);
        assert(answers[names.len() - 1] == identifies(names.last()));
    }
    assert(identified_readers(names, answers) =~= with_identities(
        responding(names, responds),
        identifies,
    ));
}

proof fn lemma_prefix_identified(
    names: Seq<Seq<char>>,
    front: Seq<Seq<char>>,
    answers: Seq<Option<IdentityView>>,
)
    requires
        front.is_prefix_of(names),
        answers.len() <= front.len(),
    ensures
        identified_readers(names, answers) == identified_readers(front, answers),
    decreases answers.len(),
{
    if answers.len() > 0 {
        lemma_prefix_identified(names, front, answers.drop_last());
    }
}

/// The pick of a reader with a FINEID card and the list of them agree, where probes can
/// be repeated: the pick succeeds exactly when the list has one reader, and gives that one
/// with its identity.
pub proof fn law_fineid_pick_is_the_one_listed<B: ReaderBackend>(
    backend: &B,
    listed: Result<Vec<ReaderInfo>, B::Error>,
    pick_answers: Seq<Option<IdentityView>>,
    list_answers: Seq<Option<IdentityView>>,
    identifies: spec_fn(Seq<char>) -> Option<IdentityView>,
    filter: Option<Seq<char>>,
    pick: Result<FineidReaderPick, ReaderPickError>,
    list: Result<Vec<FineidReaderPick>, ReaderPickError>,
)
    requires
        fineid_pick(backend, listed, pick_answers, filter, pick),
        fineid_list(backend, listed, list_answers, filter, list),
        listed matches Ok(readers) ==> readers@.len() > 0 ==> identified_by(
            present_names(reader_views(readers@)),
            pick_answers,
            identifies,
        ) && identified_by(
            present_passing(reader_views(readers@), filter),
            list_answers,
            identifies,
        ),
    ensures
        pick is Ok <==> list is Ok && list->Ok_0@.len() == 1,
        pick is Ok ==> (pick->Ok_0.reader_id@, pick->Ok_0.identity@) == pick_views(
            list->Ok_0@,
        )[0],
{
    if listed is Ok && listed->Ok_0@.len() > 0 {
        let readers = reader_views(listed->Ok_0@);
        let names = present_names(readers);
        let responds = |n: Seq<char>| identifies(n) is Some;
        let answers = identified(pick_answers);
        let candidates = responders(names, answers);
        lemma_identified(names, pick_answers, identifies, responds);
        lemma_identified(present_passing(readers, filter), list_answers, identifies, responds);
        lemma_responders(names, answers, responds);
        lemma_filter_commutes(readers, responds, filter);
        lemma_passing(candidates, filter);
        let found = passing(candidates, filter);
        assert(with_identities(found, identifies) == pick_views(list->Ok_0@));
        assert(found.len() == list->Ok_0@.len());
        let hits = matching(candidates, filter);
        if hits.len() == 1 {
            assert(candidates.len() > 0) by {
                if candidates.len() == 0 {
                    assert(passing(candidates, filter).len() == 0);
                }
            }
            assert(names_at(candidates, hits)[0] == candidates[hits[0]]);
            lemma_positives(answers);
            law_pick_is_unique(candidates, filter);
            let i = choice(names, answers, filter)->Ok_0;
            assert(pick_answers[i] == identifies(names[i]));
        }
        if candidates.len() == 0 {
            assert(passing(candidates, filter).len() == 0);
        }
    } else if listed is Ok {
        assert(present_passing(reader_views(listed->Ok_0@), filter).len() == 0);
        assert(pick_views(list->Ok_0@).len() == 0);
    }
}

/// Reader picking on every backend.
pub trait FineidReaderPicker: ReaderBackend {
    /// See [`pick_fineid_reader`].
    fn pick_fineid_reader(&self, filter: Option<&ReaderFilter>) -> (r: Result<
        FineidReaderPick,
        ReaderPickError,
    >) where Self: Sized
        ensures
            exists|listed: Result<Vec<ReaderInfo>, Self::Error>, answers: Seq<Option<IdentityView>>|
                #[trigger] fineid_pick(self, listed, answers, filter_view(filter), r)
                    && listed_as(self, listed),
    {
        pick_fineid_reader(self, filter)
    }

    /// See [`enumerate_fineid_readers`].
    fn enumerate_fineid_readers(&self, filter: Option<&ReaderFilter>) -> (r: Result<
        Vec<FineidReaderPick>,
        ReaderPickError,
    >) where Self: Sized
        ensures
            exists|listed: Result<Vec<ReaderInfo>, Self::Error>, answers: Seq<Option<IdentityView>>|
                #[trigger] fineid_list(self, listed, answers, filter_view(filter), r)
                    && listed_as(self, listed),
    {
        enumerate_fineid_readers(self, filter)
    }

    /// See [`pick_contactless_reader`].
    fn pick_contactless_reader(&self, filter: Option<&ReaderFilter>) -> (r: Result<
        ReaderId,
        ReaderPickError,
    >) where Self: Sized
        ensures
            exists|listed: Result<Vec<ReaderInfo>, Self::Error>, answers: Seq<bool>|
                #[trigger] contactless_pick(self, listed, answers, filter_view(filter), r)
                    && listed_as(self, listed),
    {
        pick_contactless_reader(self, filter)
    }

    /// See [`enumerate_contactless_readers`].
    fn enumerate_contactless_readers(&self, filter: Option<&ReaderFilter>) -> (r: Result<
        Vec<ReaderId>,
        ReaderPickError,
    >) where Self: Sized
        ensures
            exists|listed: Result<Vec<ReaderInfo>, Self::Error>, answers: Seq<bool>|
                #[trigger] contactless_list(self, listed, answers, filter_view(filter), r)
                    && listed_as(self, listed),
    {
        enumerate_contactless_readers(self, filter)
    }
}

impl<B: ReaderBackend> FineidReaderPicker for B {

}

/// The activation model changed with the first instant of 2026-01-13: what is earlier is
/// older, all else is newer.
pub proof fn law_change_of_the_model(t: DateTimeView)
    requires
        t.valid(),
    ensures
        after_change(t) <==> !t.before(
            DateTimeView { year: 2026, month: 1, day: 13, hour: 0, minutes: 0, seconds: 0 },
        ),
{
    let start = DateTimeView { year: 2026, month: 1, day: 13, hour: 0, minutes: 0, seconds: 0 };
    assert(start.valid());
    law_rank_is_exact(t, start);
}

/// The name of an issuer tells the generation by its last five characters, `- G3R` to
/// `- G5R` for the older one and `- G3E` to `- G5E` for the newer one.
pub proof fn law_issuer_families(text: Seq<char>, front: Seq<u8>, end: Seq<u8>)
    requires
        encode_utf8(text) == front + end,
        end.len() == 5,
    ensures
        generation_of(Some(text)) is Older <==> end == seq![0x2Du8, 0x20, 0x47, 0x33, 0x52] || end
            == seq![0x2Du8, 0x20, 0x47, 0x34, 0x52] || end == seq![0x2Du8, 0x20, 0x47, 0x35, 0x52],
        generation_of(Some(text)) is Newer <==> end == seq![0x2Du8, 0x20, 0x47, 0x33, 0x45] || end
            == seq![0x2Du8, 0x20, 0x47, 0x34, 0x45] || end == seq![0x2Du8, 0x20, 0x47, 0x35, 0x45],
        generation_of(None) is Unknown,
{
    let cn = front + end;
    let n = cn.len() as int;
    assert(cn[n - 5] == end[0] && cn[n - 4] == end[1] && cn[n - 3] == end[2] && cn[n - 2] == end[3]
        && cn[n - 1] == end[4]);
    assert(end =~= seq![end[0], end[1], end[2], end[3], end[4]]);
    lemma_five(seq![0x2Du8, 0x20, 0x47, 0x33, 0x52], end);
    lemma_five(seq![0x2Du8, 0x20, 0x47, 0x34, 0x52], end);
    lemma_five(seq![0x2Du8, 0x20, 0x47, 0x35, 0x52], end);
    lemma_five(seq![0x2Du8, 0x20, 0x47, 0x33, 0x45], end);
    lemma_five(seq![0x2Du8, 0x20, 0x47, 0x34, 0x45], end);
    lemma_five(seq![0x2Du8, 0x20, 0x47, 0x35, 0x45], end);
}

proof fn lemma_five(a: Seq<u8>, b: Seq<u8>)
    requires
        a.len() == 5,
        b.len() == 5,
    ensures
        a == b <==> a[0] == b[0] && a[1] == b[1] && a[2] == b[2] && a[3] == b[3] && a[4] == b[4],
{
    if a[0] == b[0] && a[1] == b[1] && a[2] == b[2] && a[3] == b[3] && a[4] == b[4] {
        assert(a =~= b);
    }
}

/// The readers with a card are listed in order, and no others.
pub proof fn law_present_readers_in_order(readers: Seq<ReaderView>, last: ReaderView)
    ensures
        present_names(Seq::empty()) == Seq::<Seq<char>>::empty(),
        last.card_present ==> present_names(readers.push(last)) == present_names(readers).push(
            last.name,
        ),
        !last.card_present ==> present_names(readers.push(last)) == present_names(readers),
{
    assert(readers.push(last).drop_last() =~= readers);
}

/// A reader that did not respond is never picked; the only one that did is picked where it
/// passes the filter; without any that did, the readers with a card are named, and without
/// those there is no card.
pub proof fn law_only_responders_are_picked(
    present: Seq<Seq<char>>,
    responded: Seq<bool>,
    filter: Option<Seq<char>>,
    at: int,
)
    requires
        responded.len() == present.len(),
    ensures
        present.len() == 0 ==> choice(present, responded, filter) == Err::<int, PickErrorView>(
            PickErrorView::NoCardPresent,
        ),
        present.len() > 0 && (forall|i: int| 0 <= i < responded.len() ==> !(#[trigger] responded[i]))
            ==> choice(present, responded, filter) == Err::<int, PickErrorView>(
            PickErrorView::NoFineidCard(present),
        ),
        choice(present, responded, filter) matches Ok(i) ==> 0 <= i < present.len() && responded[i]
            && passes(present[i], filter),
        0 <= at < present.len() && responded[at] && passes(present[at], filter) && (forall|i: int|
            0 <= i < responded.len() && i != at ==> !(#[trigger] responded[i])) ==> choice(
            present,
            responded,
            filter,
        ) == Ok::<int, PickErrorView>(at),
{
    lemma_positives(responded);
    lemma_positives_complete(responded);
    let hits = positives(responded);
    let names = names_at(present, hits);
    law_pick_is_unique(names, filter);
    if hits.len() > 0 {
        assert(responded[hits[0]]);
    }
    if 0 <= at < present.len() && responded[at] && passes(present[at], filter) && (forall|i: int|
        0 <= i < responded.len() && i != at ==> !(#[trigger] responded[i])) {
        assert(hits.contains(at));
        if hits.len() > 1 {
            assert(hits[0] < hits[1]);
            assert(responded[hits[1]]);
        }
        assert(hits[0] == at);
        assert(names[0] == present[at]);
        crate::backend::law_single_match_is_picked(names, filter, 0);
    }
}

proof fn lemma_positives_complete(responded: Seq<bool>)
    ensures
        forall|i: int|
            0 <= i < responded.len() && #[trigger] responded[i] ==> positives(responded).contains(i),
        forall|a: int, b: int|
            0 <= a < b < positives(responded).len() ==> #[trigger] positives(responded)[a]
                < #[trigger] positives(responded)[b],
    decreases responded.len(),
{
    if responded.len() > 0 {
        let front = responded.drop_last();
        lemma_positives_complete(front);
        lemma_positives(front);
        let before = positives(front);
        let hits = positives(responded);
        assert forall|i: int| 0 <= i < responded.len() && #[trigger] responded[i] implies hits.contains(
            i,
        ) by {
            if i < front.len() {
                assert(front[i]);
                assert(before.contains(i));
                let k = choose|k: int| 0 <= k < before.len() && before[k] == i;
                assert(hits[k] == i);
            } else {
                assert(hits[hits.len() - 1] == i);
            }
        }
        assert forall|a: int, b: int| 0 <= a < b < hits.len() implies #[trigger] hits[a]
            < #[trigger] hits[b] by {
            assert(hits[a] == before[a]);
            if b < before.len() {
                assert(hits[b] == before[b]);
            }
        }
    }
}

/// The identity is read from the subject of the certificate: the surname is attribute
/// `2.5.4.4`, the given names are the words of `2.5.4.42`, and the identifier is `2.5.4.5`.
/// Without a certificate that can be read nothing is known.
pub proof fn law_identity_is_read_from_the_subject(der: Seq<u8>)
    ensures
        certificate_of(der) matches Ok(c) ==> {
            let dn = c.fields.subject;
            let id = identity_of(Some(der));
            &&& id.surname == named(name_attribute(dn, seq![0x55u8, 0x04, 0x04]))
            &&& id.peuin == named(name_attribute(dn, seq![0x55u8, 0x04, 0x05]))
            &&& name_attribute(dn, seq![0x55u8, 0x04, 0x2A]) is Some ==> id.given_names
                == split_words(
                words_from(name_attribute(dn, seq![0x55u8, 0x04, 0x2A])->Some_0, 0),
            )
        },
        certificate_of(der) is Err ==> identity_of(Some(der)) == identity_of(None),
        identity_of(None).surname is None && identity_of(None).peuin is None
            && identity_of(None).given_names.first is None,
{
    assert(SURNAME@ =~= seq![0x55u8, 0x04, 0x04]);
    assert(SERIAL_NUMBER@ =~= seq![0x55u8, 0x04, 0x05]);
    assert(GIVEN_NAME@ =~= seq![0x55u8, 0x04, 0x2A]);
}

/// A card is one of the kind exactly if its token information has a serial; its certificate
/// only adds to what is known.
pub proof fn law_serial_makes_the_card<T: CardTransport>(
    opened: T,
    middle: T,
    closed: T,
    token: Result<TokenInfo, Pkcs15Error<TransportDispatchError<T::Error>>>,
    cert: Result<Seq<u8>, Pkcs15ErrorView<T::Error>>,
    answer: Option<IdentityView>,
)
    requires
        card_identifies(opened, middle, closed, token, cert, answer),
    ensures
        answer is Some <==> (token matches Ok(info) && info.serial_number_hex is Some),
        answer is Some && cert is Ok ==> answer == Some(identity_of(Some(cert->Ok_0))),
        answer is Some && cert is Err ==> answer == Some(identity_of(None)),
{
}

/// A contactless pick is a reader that was listed with a card in it, responded and passes
/// the filter.
pub proof fn law_picked_reader_responded<B: ReaderBackend>(
    backend: &B,
    listed: Result<Vec<ReaderInfo>, B::Error>,
    answers: Seq<bool>,
    filter: Option<Seq<char>>,
    r: Result<ReaderId, ReaderPickError>,
)
    requires
        contactless_pick(backend, listed, answers, filter, r),
        r is Ok,
    ensures
        listed is Ok,
        passes(r->Ok_0@, filter),
        exists|i: int|
            #![trigger answers[i]]
            0 <= i < answers.len() && answers[i] && present_names(reader_views(listed->Ok_0@))[i]
                == r->Ok_0@ && access_probe(backend, r->Ok_0@, true),
{
    let names = present_names(reader_views(listed->Ok_0@));
    law_only_responders_are_picked(names, answers, filter, 0);
    let i = choice(names, answers, filter)->Ok_0;
    assert(access_probe(backend, names[i], answers[i]));
}

/// The readers with a card that pass the filter are listed in order, and no others.
pub proof fn law_passing_readers_in_order(
    readers: Seq<ReaderView>,
    last: ReaderView,
    filter: Option<Seq<char>>,
)
    ensures
        present_passing(Seq::empty(), filter) == Seq::<Seq<char>>::empty(),
        last.card_present && passes(last.name, filter) ==> present_passing(
            readers.push(last),
            filter,
        ) == present_passing(readers, filter).push(last.name),
        !last.card_present || !passes(last.name, filter) ==> present_passing(
            readers.push(last),
            filter,
        ) == present_passing(readers, filter),
{
    assert(readers.push(last).drop_last() =~= readers);
}

/// Older cards are activated with eight digits, newer ones with seven.
pub proof fn law_activation_lengths(generation: CardGeneration, r: Option<usize>)
    requires
        call_ensures(CardGeneration::activation_pin_length, (generation,), r),
    ensures
        r == Some(8usize) <==> generation is Older,
        r == Some(7usize) <==> generation is Newer,
        r is None <==> generation is Unknown,
{
}

/// Whatever [`classify_card_generation_by_issuance`] answers: older before 2026-01-13, newer
/// from then on.
pub proof fn law_issuance_tells_the_generation(t: DateTime, r: CardGeneration)
    requires
        call_ensures(classify_card_generation_by_issuance, (t,), r),
        t@.valid(),
    ensures
        r is Older <==> t@.before(
            DateTimeView { year: 2026, month: 1, day: 13, hour: 0, minutes: 0, seconds: 0 },
        ),
        r is Newer <==> !(r is Older),
{
    law_change_of_the_model(t@);
}

/// Whatever [`assemble_identity`] gives: its fields hold the surname, the first, the second
/// and the other given names, and the identifier of the subject.
pub proof fn law_identity_fields(der: &[u8], r: CredentialIdentity)
    requires
        call_ensures(assemble_identity, (Some(der),), r),
        certificate_of(der@) is Ok,
        name_attribute(certificate_of(der@)->Ok_0.fields.subject, seq![0x55u8, 0x04, 0x2A]) is Some,
    ensures
        ({
            let dn = certificate_of(der@)->Ok_0.fields.subject;
            let words = words_from(name_attribute(dn, seq![0x55u8, 0x04, 0x2A])->Some_0, 0);
            &&& named(name_attribute(dn, seq![0x55u8, 0x04, 0x04])) == match r.surname {
                Some(n) => Some(n@),
                None => None,
            }
            &&& named(name_attribute(dn, seq![0x55u8, 0x04, 0x05])) == match r.peuin {
                Some(n) => Some(n@),
                None => None,
            }
            &&& words.len() == 0 <==> r.first_name is None
            &&& words.len() < 2 <==> r.second_name is None
            &&& r.first_name matches Some(n) ==> n@ == words[0]
            &&& r.second_name matches Some(n) ==> n@ == words[1]
            &&& words.len() > 2 ==> r.additional_names@.len() == words.len() - 2 && forall|i: int|
                0 <= i < r.additional_names@.len() ==> (#[trigger] r.additional_names@[i])@
                    == words[i + 2]
        }),
{
    law_identity_is_read_from_the_subject(der@);
    let dn = certificate_of(der@)->Ok_0.fields.subject;
    let words = words_from(name_attribute(dn, seq![0x55u8, 0x04, 0x2A])->Some_0, 0);
    let views = given_views(r.additional_names@);
    if words.len() > 2 {
        assert(views == words.skip(2));
        assert forall|i: int| 0 <= i < r.additional_names@.len() implies (
        #[trigger] r.additional_names@[i])@ == words[i + 2] by {
            assert(views[i] == words.skip(2)[i]);
        }
    }
}

} // verus!
