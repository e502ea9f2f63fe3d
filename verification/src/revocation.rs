//! Revocation verdicts from verified lists and responses, and a cache of them.
//!
//! Signatures are verified elsewhere: only verified sources can be asked. The clock is
//! an argument.

use crate::bytes::same_bytes;
use crate::crl::{entry_for, instant_view, law_entry_is_the_first, CrlReason, CrlView, VerifiedCrl};
use crate::identity::CertSerial;
use crate::ocsp::{answer_for, law_answer_is_the_first, CertStatus, CertStatusView, SingleView, VerifiedOcspResponse};
use crate::x509::{Certificate, CertificateView, DateTime, DateTimeView};
use vstd::prelude::*;
use vstd::slice::slice_to_vec;
use vstd::string::*;
use x509_cert::der::Decode;
use x509_cert::name::Name;

verus! {

/// Why a source says nothing about a certificate.
#[derive(Debug, Clone, Copy, PartialEq, Eq, Structural)]
pub enum InapplicableReason {
    /// The list is of another issuer.
    CrlIssuerMismatch,
    /// The response has no answer about the serial number.
    OcspNoEntryForSerial,
}

impl InapplicableReason {
    /// The diagnostic text of the reason.
    pub fn message(&self) -> (r: String)
        ensures
            r@ == match *self {
                InapplicableReason::CrlIssuerMismatch => "CRL issuer DN mismatch"@,
                InapplicableReason::OcspNoEntryForSerial => {
                    "OCSP response had no entry for serial"@
                },
            },
    {
        match self {
            InapplicableReason::CrlIssuerMismatch => "CRL issuer DN mismatch".to_owned(),
            InapplicableReason::OcspNoEntryForSerial => {
                "OCSP response had no entry for serial".to_owned()
            },
        }
    }
}

/// Verdict on a certificate.
#[derive(Debug, Clone, Copy, PartialEq, Eq)]
pub enum RevocationStatus {
    /// Not revoked.
    Good,
    /// The source says nothing about the certificate.
    Inapplicable(InapplicableReason),
    /// Revoked.
    Revoked {
        /// When it was revoked.
        at: DateTime,
        /// Why it was revoked.
        reason: Option<CrlReason>,
    },
    /// The source is out of date.
    Stale,
    /// The responder does not know the certificate.
    Unknown,
}

/// What a verdict says.
pub enum StatusView {
    Good,
    Inapplicable(InapplicableReason),
    Revoked(DateTimeView, Option<CrlReason>),
    Stale,
    Unknown,
}

impl View for RevocationStatus {
    type V = StatusView;

    open spec fn view(&self) -> StatusView {
        match self {
            RevocationStatus::Good => StatusView::Good,
            RevocationStatus::Inapplicable(reason) => StatusView::Inapplicable(*reason),
            RevocationStatus::Revoked { at, reason } => StatusView::Revoked(at@, *reason),
            RevocationStatus::Stale => StatusView::Stale,
            RevocationStatus::Unknown => StatusView::Unknown,
        }
    }
}

/// A source that is due for an update before `now` is out of date.
pub open spec fn is_stale(next_update: Option<DateTimeView>, now: DateTimeView) -> bool {
    next_update matches Some(next) && next.before(now)
}

/// The verdict of a list on a certificate.
pub open spec fn crl_verdict(cert: CertificateView, crl: CrlView, now: DateTimeView) -> StatusView {
    if crl.issuer != cert.fields.issuer {
        StatusView::Inapplicable(InapplicableReason::CrlIssuerMismatch)
    } else if is_stale(crl.next_update, now) {
        StatusView::Stale
    } else {
        match entry_for(crl.entries, cert.fields.serial) {
            Some(entry) => StatusView::Revoked(entry.at, entry.reason),
            None => StatusView::Good,
        }
    }
}

/// The verdict of a response on a certificate.
pub open spec fn ocsp_verdict(
    cert: CertificateView,
    answers: Seq<SingleView>,
    now: DateTimeView,
) -> StatusView {
    match answer_for(answers, cert.fields.serial) {
        None => StatusView::Inapplicable(InapplicableReason::OcspNoEntryForSerial),
        Some(answer) => if is_stale(answer.next_update, now) {
            StatusView::Stale
        } else {
            match answer.status {
                CertStatusView::Good => StatusView::Good,
                CertStatusView::Revoked(at, reason) => StatusView::Revoked(at, reason),
                CertStatusView::Unknown => StatusView::Unknown,
            }
        },
    }
}

fn out_of_date(next_update: Option<DateTime>, now: DateTime) -> (r: bool)
    ensures
        r == is_stale(instant_view(next_update), now@),
{
    match next_update {
        Some(next) => next.is_before(&now),
        None => false,
    }
}

/// Check a certificate against a verified list.
pub fn check_against_crl(cert: Certificate<'_>, crl: &VerifiedCrl<'_>, now: DateTime) -> (r:
    RevocationStatus)
    ensures
        r@ == crl_verdict(cert@, crl@, now@),
{
    let crl = crl.as_crl();
    if !same_bytes(crl.issuer.as_der(), cert.issuer.as_der()) {
        return RevocationStatus::Inapplicable(InapplicableReason::CrlIssuerMismatch);
    }
    if out_of_date(crl.next_update, now) {
        return RevocationStatus::Stale;
    }
    match crl.find_serial(&cert.serial()) {
        Some(entry) => RevocationStatus::Revoked {
            at: entry.revocation_date,
            reason: entry.reason,
        },
        None => RevocationStatus::Good,
    }
}

/// Check a certificate against a verified response.
pub fn check_against_ocsp_response(
    cert: Certificate<'_>,
    response: &VerifiedOcspResponse,
    now: DateTime,
) -> (r: RevocationStatus)
    ensures
        r@ == ocsp_verdict(cert@, response@, now@),
{
    let single = match response.find_serial(cert.serial_der) {
        Some(single) => single,
        None => {
            return RevocationStatus::Inapplicable(InapplicableReason::OcspNoEntryForSerial);
        },
    };
    if out_of_date(single.next_update, now) {
        return RevocationStatus::Stale;
    }
    match single.status {
        CertStatus::Good => RevocationStatus::Good,
        CertStatus::Revoked { revoked_at, reason } => RevocationStatus::Revoked {
            at: revoked_at,
            reason,
        },
        CertStatus::Unknown => RevocationStatus::Unknown,
    }
}

/// Where a verdict comes from.
#[derive(Debug, Clone, Copy, PartialEq, Eq, Structural)]
pub enum RevocationSource {
    /// A status response.
    Ocsp,
    /// A revocation list.
    Crl,
}

/// A verdict from a verified source, with its time and its window.
#[derive(Debug, Clone, Copy, PartialEq, Eq)]
pub struct RevocationEvidence {
    status: RevocationStatus,
    source: RevocationSource,
    checked_at: DateTime,
    valid_until: Option<DateTime>,
}

/// What evidence says.
#[verifier::ext_equal]
pub struct EvidenceView {
    pub status: StatusView,
    pub source: RevocationSource,
    pub checked_at: DateTimeView,
    pub valid_until: Option<DateTimeView>,
}

impl View for RevocationEvidence {
    type V = EvidenceView;

    closed spec fn view(&self) -> EvidenceView {
        EvidenceView {
            status: self.status@,
            source: self.source,
            checked_at: self.checked_at@,
            valid_until: instant_view(self.valid_until),
        }
    }
}

/// Evidence is fresh up to the end of its window; without a window it never is.
pub open spec fn fresh(evidence: EvidenceView, now: DateTimeView) -> bool {
    evidence.valid_until matches Some(end) && !end.before(now)
}

/// A revocation may be relied on always, any other verdict only while it is fresh.
pub open spec fn usable(evidence: EvidenceView, now: DateTimeView) -> bool {
    evidence.status is Revoked || fresh(evidence, now)
}

impl RevocationEvidence {
    /// Evidence from a verified response.
    pub fn from_ocsp(cert: Certificate<'_>, verified: &VerifiedOcspResponse, now: DateTime) -> (r:
        Self)
        ensures
            r@ == (EvidenceView {
                status: ocsp_verdict(cert@, verified@, now@),
                source: RevocationSource::Ocsp,
                checked_at: now@,
                valid_until: match answer_for(verified@, cert@.fields.serial) {
                    Some(answer) => answer.next_update,
                    None => None,
                },
            }),
    {
        let status = check_against_ocsp_response(cert, verified, now);
        let valid_until = match verified.find_serial(cert.serial_der) {
            Some(single) => single.next_update,
            None => None,
        };
        RevocationEvidence { status, source: RevocationSource::Ocsp, checked_at: now, valid_until }
    }

    /// Evidence from a verified list.
    pub fn from_crl(cert: Certificate<'_>, verified: &VerifiedCrl<'_>, now: DateTime) -> (r: Self)
        ensures
            r@ == (EvidenceView {
                status: crl_verdict(cert@, verified@, now@),
                source: RevocationSource::Crl,
                checked_at: now@,
                valid_until: verified@.next_update,
            }),
    {
        RevocationEvidence {
            status: check_against_crl(cert, verified, now),
            source: RevocationSource::Crl,
            checked_at: now,
            valid_until: verified.as_crl().next_update,
        }
    }

    /// The verdict.
    pub fn status(&self) -> (r: RevocationStatus)
        ensures
            r@ == self@.status,
    {
        self.status
    }

    /// Where the verdict comes from.
    pub fn source(&self) -> (r: RevocationSource)
        ensures
            r == self@.source,
    {
        self.source
    }

    /// When the check was made.
    pub fn checked_at(&self) -> (r: DateTime)
        ensures
            r@ == self@.checked_at,
    {
        self.checked_at
    }

    /// Whether the evidence may be relied on: a revocation always, any other verdict
    /// only while it is fresh.
    pub fn is_usable(&self, now: DateTime) -> (r: bool)
        ensures
            r == usable(self@, now@),
    {
        matches!(self.status, RevocationStatus::Revoked { .. }) || self.is_fresh(now)
    }

    /// Whether the evidence is still inside its window.
    pub fn is_fresh(&self, now: DateTime) -> (r: bool)
        ensures
            r == fresh(self@, now@),
    {
        match self.valid_until {
            Some(end) => !end.is_before(&now),
            None => false,
        }
    }
}

/// Whether [`x509_cert::name::Name`] decodes bytes.
pub uninterp spec fn name_decodes(der: Seq<u8>) -> bool;

/// Whether [`x509_cert::name::Name`] decodes two byte strings to equal names.
pub uninterp spec fn names_equal(a: Seq<u8>, b: Seq<u8>) -> bool;

/// [`x509_cert::name::Name`] decoded from exactly `der`: whether that succeeds. A
/// decoded name equals itself.
#[verifier::external_body]
fn decodes_as_name(der: &[u8]) -> (r: bool)
    ensures
        r == name_decodes(der@),
        r ==> names_equal(der@, der@),
{
    Name::from_der(der).is_ok()
}

/// Equality of two decoded [`x509_cert::name::Name`]s; what does not decode equals
/// nothing. It is derived from the equality of the parts, so it is symmetric and
/// transitive: what equals one of the two names equals the other exactly if the two are
/// equal.
#[verifier::external_body]
fn same_name(a: &[u8], b: &[u8]) -> (r: bool)
    ensures
        r == names_equal(a@, b@),
        forall|c: Seq<u8>| #[trigger] names_equal(a@, c) ==> names_equal(b@, c) == r,
        forall|c: Seq<u8>| #[trigger] names_equal(b@, c) ==> names_equal(a@, c) == r,
{
    match (Name::from_der(a), Name::from_der(b)) {
        (Ok(x), Ok(y)) => x == y,
        _ => false,
    }
}

/// Evidence about one certificate, known by issuer and serial number.
#[derive(Debug)]
struct CacheEntry {
    issuer: Vec<u8>,
    serial: CertSerial,
    evidence: RevocationEvidence,
}

/// What a cache entry holds.
#[verifier::ext_equal]
pub struct CachedView {
    pub issuer: Seq<u8>,
    pub serial: Seq<u8>,
    pub evidence: EvidenceView,
}

impl CacheEntry {
    spec fn model(&self) -> CachedView {
        CachedView { issuer: self.issuer@, serial: self.serial@, evidence: self.evidence@ }
    }
}

/// Evidence by issuer and serial number. It is filled by hand only, and kept in memory
/// only.
#[derive(Debug)]
pub struct RevocationCache {
    entries: Vec<CacheEntry>,
}

impl View for RevocationCache {
    type V = Seq<CachedView>;

    closed spec fn view(&self) -> Seq<CachedView> {
        Seq::new(self.entries@.len(), |i: int| self.entries@[i].model())
    }
}

/// The entry is about the certificate with this issuer and serial number.
pub open spec fn is_about(entry: CachedView, issuer: Seq<u8>, serial: Seq<u8>) -> bool {
    names_equal(entry.issuer, issuer) && entry.serial == serial
}

/// Position of the first entry about a certificate, the number of entries where there
/// is none.
pub open spec fn position_of(entries: Seq<CachedView>, issuer: Seq<u8>, serial: Seq<u8>) -> int
    decreases entries.len(),
{
    if entries.len() == 0 {
        0
    } else if is_about(entries[0], issuer, serial) {
        0
    } else {
        1 + position_of(entries.drop_first(), issuer, serial)
    }
}

/// The cache after evidence about a certificate was stored: it replaces what there was.
/// A certificate whose issuer does not decode is not stored.
pub open spec fn with_evidence(
    entries: Seq<CachedView>,
    issuer: Seq<u8>,
    serial: Seq<u8>,
    evidence: EvidenceView,
) -> Seq<CachedView> {
    let at = position_of(entries, issuer, serial);
    if !name_decodes(issuer) {
        entries
    } else if at < entries.len() {
        entries.update(at, CachedView { evidence, ..entries[at] })
    } else {
        entries.push(CachedView { issuer, serial, evidence })
    }
}

/// The two pairs of issuer and serial number are about one certificate.
pub open spec fn same_identity(
    issuer: Seq<u8>,
    serial: Seq<u8>,
    other_issuer: Seq<u8>,
    other_serial: Seq<u8>,
) -> bool {
    names_equal(issuer, other_issuer) && serial == other_serial
}

/// `after` is `before` with evidence about a certificate stored: from then on that is what
/// is found for the certificate, while it is usable, and what is found for any other is
/// what was found before.
pub open spec fn stores(
    before: Seq<CachedView>,
    after: Seq<CachedView>,
    issuer: Seq<u8>,
    serial: Seq<u8>,
    evidence: EvidenceView,
) -> bool {
    &&& after == with_evidence(before, issuer, serial, evidence)
    &&& name_decodes(issuer) ==> same_identity(issuer, serial, issuer, serial)
    &&& name_decodes(issuer) ==> forall|i: Seq<u8>, s: Seq<u8>, now: DateTimeView|
        same_identity(issuer, serial, i, s) && name_decodes(i) ==> #[trigger] usable_evidence(
            after,
            i,
            s,
            now,
        ) == while_usable(evidence, now)
    &&& forall|i: Seq<u8>, s: Seq<u8>, now: DateTimeView|
        !same_identity(issuer, serial, i, s) ==> #[trigger] usable_evidence(after, i, s, now)
            == usable_evidence(before, i, s, now)
}

/// The evidence while it is usable.
pub open spec fn while_usable(evidence: EvidenceView, now: DateTimeView) -> Option<EvidenceView> {
    if usable(evidence, now) {
        Some(evidence)
    } else {
        None
    }
}

/// The usable evidence about a certificate: a revocation always, any other verdict only
/// while it is fresh.
pub open spec fn usable_evidence(
    entries: Seq<CachedView>,
    issuer: Seq<u8>,
    serial: Seq<u8>,
    now: DateTimeView,
) -> Option<EvidenceView> {
    let at = position_of(entries, issuer, serial);
    if !name_decodes(issuer) || at >= entries.len() {
        None
    } else {
        while_usable(entries[at].evidence, now)
    }
}

proof fn lemma_position(entries: Seq<CachedView>, issuer: Seq<u8>, serial: Seq<u8>, n: int)
    requires
        0 <= n <= entries.len(),
        forall|j: int| 0 <= j < n ==> !is_about(#[trigger] entries[j], issuer, serial),
        n < entries.len() ==> is_about(entries[n], issuer, serial),
    ensures
        position_of(entries, issuer, serial) == n,
    decreases entries.len(),
{
    if entries.len() > 0 && n > 0 {
        let rest = entries.drop_first();
        assert(!is_about(entries[0], issuer, serial));
        assert forall|j: int| 0 <= j < n - 1 implies !is_about(
            #[trigger] rest[j],
            issuer,
            serial,
        ) by {
            assert(rest[j] == entries[j + 1]);
        }
        lemma_position(rest, issuer, serial, n - 1);
    }
}

proof fn lemma_position_holds(entries: Seq<CachedView>, issuer: Seq<u8>, serial: Seq<u8>)
    ensures
        ({
            let at = position_of(entries, issuer, serial);
            &&& 0 <= at <= entries.len()
            &&& forall|j: int| 0 <= j < at ==> !is_about(#[trigger] entries[j], issuer, serial)
            &&& at < entries.len() ==> is_about(entries[at], issuer, serial)
        }),
    decreases entries.len(),
{
    if entries.len() > 0 && !is_about(entries[0], issuer, serial) {
        let rest = entries.drop_first();
        lemma_position_holds(rest, issuer, serial);
        let at = position_of(entries, issuer, serial);
        assert forall|j: int| 0 <= j < at implies !is_about(
            #[trigger] entries[j],
            issuer,
            serial,
        ) by {
            if j > 0 {
                assert(rest[j - 1] == entries[j]);
            }
        }
    }
}

proof fn lemma_replaced(
    before: Seq<CachedView>,
    issuer: Seq<u8>,
    serial: Seq<u8>,
    evidence: EvidenceView,
)
    requires
        name_decodes(issuer),
        names_equal(issuer, issuer),
        position_of(before, issuer, serial) < before.len(),
        forall|j: int, c: Seq<u8>|
            0 <= j <= position_of(before, issuer, serial) && names_equal(issuer, c)
                ==> #[trigger] names_equal(before[j].issuer, c) == names_equal(
                before[j].issuer,
                issuer,
            ),
        forall|c: Seq<u8>| #[trigger]
            names_equal(before[position_of(before, issuer, serial)].issuer, c) ==> names_equal(
                issuer,
                c,
            ),
    ensures
        stores(before, with_evidence(before, issuer, serial, evidence), issuer, serial, evidence),
{
    let at = position_of(before, issuer, serial);
    let after = with_evidence(before, issuer, serial, evidence);
    lemma_position_holds(before, issuer, serial);
    assert forall|i: Seq<u8>, s: Seq<u8>, now: DateTimeView|
        same_identity(issuer, serial, i, s) && name_decodes(i) implies #[trigger] usable_evidence(
        after,
        i,
        s,
        now,
    ) == while_usable(evidence, now) by {
        assert forall|j: int| 0 <= j < at implies !is_about(#[trigger] after[j], i, s) by {
            assert(!is_about(before[j], issuer, serial));
            assert(names_equal(before[j].issuer, i) == names_equal(before[j].issuer, issuer));
        }
        assert(names_equal(before[at].issuer, i) == names_equal(before[at].issuer, issuer));
        lemma_position(after, i, s, at);
    }
    assert forall|i: Seq<u8>, s: Seq<u8>, now: DateTimeView|
        !same_identity(issuer, serial, i, s) implies #[trigger] usable_evidence(after, i, s, now)
        == usable_evidence(before, i, s, now) by {
        let there = position_of(before, i, s);
        lemma_position_holds(before, i, s);
        assert forall|j: int| 0 <= j < there implies !is_about(#[trigger] after[j], i, s) by {
            assert(!is_about(before[j], i, s));
        }
        lemma_position(after, i, s, there);
        if there == at {
            assert(names_equal(before[at].issuer, i));
        }
    }
}

proof fn lemma_added(
    before: Seq<CachedView>,
    issuer: Seq<u8>,
    serial: Seq<u8>,
    evidence: EvidenceView,
)
    requires
        name_decodes(issuer),
        names_equal(issuer, issuer),
        position_of(before, issuer, serial) == before.len(),
        forall|j: int, c: Seq<u8>|
            0 <= j < before.len() && names_equal(issuer, c) ==> #[trigger] names_equal(
                before[j].issuer,
                c,
            ) == names_equal(before[j].issuer, issuer),
    ensures
        stores(before, with_evidence(before, issuer, serial, evidence), issuer, serial, evidence),
{
    let at = before.len() as int;
    let after = with_evidence(before, issuer, serial, evidence);
    lemma_position_holds(before, issuer, serial);
    assert forall|i: Seq<u8>, s: Seq<u8>, now: DateTimeView|
        same_identity(issuer, serial, i, s) && name_decodes(i) implies #[trigger] usable_evidence(
        after,
        i,
        s,
        now,
    ) == while_usable(evidence, now) by {
        assert forall|j: int| 0 <= j < at implies !is_about(#[trigger] after[j], i, s) by {
            assert(!is_about(before[j], issuer, serial));
            assert(names_equal(before[j].issuer, i) == names_equal(before[j].issuer, issuer));
        }
        lemma_position(after, i, s, at);
    }
    assert forall|i: Seq<u8>, s: Seq<u8>, now: DateTimeView|
        !same_identity(issuer, serial, i, s) implies #[trigger] usable_evidence(after, i, s, now)
        == usable_evidence(before, i, s, now) by {
        let there = position_of(before, i, s);
        lemma_position_holds(before, i, s);
        assert forall|j: int| 0 <= j < there implies !is_about(#[trigger] after[j], i, s) by {
            assert(!is_about(before[j], i, s));
        }
        if there < at {
            lemma_position(after, i, s, there);
        } else {
            assert(!is_about(after[at], i, s));
            lemma_position(after, i, s, at + 1);
        }
    }
}

impl Default for RevocationCache {
    fn default() -> (r: RevocationCache)
        ensures
            r@ == Seq::<CachedView>::empty(),
    {
        let r = RevocationCache { entries: Vec::new() };
        assert(r@ =~= Seq::empty());
        r
    }
}

impl RevocationCache {
    fn find(&self, issuer: &[u8], serial: &[u8]) -> (r: usize)
        ensures
            r == position_of(self@, issuer@, serial@),
            r <= self@.len(),
            forall|j: int, c: Seq<u8>|
                0 <= j <= r && j < self@.len() && names_equal(issuer@, c)
                    ==> #[trigger] names_equal(self@[j].issuer, c) == names_equal(
                    self@[j].issuer,
                    issuer@,
                ),
            r < self@.len() ==> forall|c: Seq<u8>| #[trigger]
                names_equal(self@[r as int].issuer, c) ==> names_equal(issuer@, c),
    {
        let mut i: usize = 0;
        while i < self.entries.len()
            invariant
                i <= self.entries@.len(),
                forall|j: int| 0 <= j < i ==> !is_about(#[trigger] self@[j], issuer@, serial@),
                forall|j: int, c: Seq<u8>|
                    0 <= j < i && names_equal(issuer@, c) ==> #[trigger] names_equal(
                        self@[j].issuer,
                        c,
                    ) == names_equal(self@[j].issuer, issuer@),
            decreases self.entries@.len() - i,
        {
            let entry = &self.entries[i];
            assert(self@[i as int] == self.entries@[i as int].model());
            if same_name(entry.issuer.as_slice(), issuer) && same_bytes(
                entry.serial.as_bytes(),
                serial,
            ) {
                proof {
                    lemma_position(self@, issuer@, serial@, i as int);
                }
                return i;
            }
            i += 1;
        }
        proof {
            lemma_position(self@, issuer@, serial@, i as int);
        }
        i
    }

    /// Store evidence about a certificate in place of what there was. From then on the
    /// cache answers with it, and with nothing else than before about other certificates.
    pub fn insert(&mut self, cert: Certificate<'_>, evidence: RevocationEvidence)
        ensures
            stores(
                old(self)@,
                final(self)@,
                cert@.fields.issuer,
                cert@.fields.serial,
                evidence@,
            ),
    {
        let issuer = cert.issuer.as_der();
        let ghost serial = cert@.fields.serial;
        let ghost before = self@;
        if !decodes_as_name(issuer) {
            return;
        }
        let at: usize = self.find(issuer, cert.serial_der);
        if at < self.entries.len() {
            self.entries[at].evidence = evidence;
            proof {
                lemma_position_holds(before, issuer@, serial);
                assert(self@ =~= with_evidence(before, issuer@, serial, evidence@));
                lemma_replaced(before, issuer@, serial, evidence@);
            }
        } else {
            let entry = CacheEntry {
                issuer: slice_to_vec(issuer),
                serial: cert.serial(),
                evidence,
            };
            self.entries.push(entry);
            proof {
                assert(self@ =~= before.push(
                    CachedView { issuer: issuer@, serial, evidence: evidence@ },
                ));
                lemma_added(before, issuer@, serial, evidence@);
            }
        }
    }

    /// The usable evidence about a certificate.
    pub fn get(&self, cert: Certificate<'_>, now: DateTime) -> (r: Option<&RevocationEvidence>)
        ensures
            r is Some <==> usable_evidence(
                self@,
                cert@.fields.issuer,
                cert@.fields.serial,
                now@,
            ) is Some,
            r matches Some(e) ==> usable_evidence(
                self@,
                cert@.fields.issuer,
                cert@.fields.serial,
                now@,
            ) == Some(e@),
    {
        let issuer = cert.issuer.as_der();
        if !decodes_as_name(issuer) {
            return None;
        }
        let at: usize = self.find(issuer, cert.serial_der);
        if at >= self.entries.len() {
            return None;
        }
        let evidence = &self.entries[at].evidence;
        assert(self@[at as int] == self.entries@[at as int].model());
        if evidence.is_usable(now) {
            Some(evidence)
        } else {
            None
        }
    }
}

/// A revocation is never forgotten by age: cached evidence of one is served at every
/// instant, and any other verdict only inside its window.
pub proof fn law_revocation_is_sticky(
    entries: Seq<CachedView>,
    issuer: Seq<u8>,
    serial: Seq<u8>,
    now: DateTimeView,
    later: DateTimeView,
)
    ensures
        usable_evidence(entries, issuer, serial, now) matches Some(e) ==> (e.status is Revoked
            ==> usable_evidence(entries, issuer, serial, later) == Some(e)),
        usable_evidence(entries, issuer, serial, now) matches Some(e) ==> (!(e.status is Revoked)
            ==> fresh(e, now)),
{
}

/// One insertion into a cache.
pub struct Insertion {
    pub issuer: Seq<u8>,
    pub serial: Seq<u8>,
    pub evidence: EvidenceView,
}

/// `states` are the contents of a cache before and after each of some insertions.
pub open spec fn is_history(states: Seq<Seq<CachedView>>, insertions: Seq<Insertion>) -> bool {
    &&& states.len() == insertions.len() + 1
    &&& forall|k: int|
        #![trigger insertions[k]]
        0 <= k < insertions.len() ==> stores(
            states[k],
            states[k + 1],
            insertions[k].issuer,
            insertions[k].serial,
            insertions[k].evidence,
        )
}

/// Insertions from `from` on are about other certificates.
pub open spec fn all_others(
    insertions: Seq<Insertion>,
    from: int,
    issuer: Seq<u8>,
    serial: Seq<u8>,
) -> bool {
    forall|k: int|
        from <= k < insertions.len() ==> !same_identity(
            (#[trigger] insertions[k]).issuer,
            insertions[k].serial,
            issuer,
            serial,
        )
}

/// Insertions about other certificates do not change what is found for a certificate.
pub proof fn law_others_do_not_matter(
    states: Seq<Seq<CachedView>>,
    insertions: Seq<Insertion>,
    from: int,
    issuer: Seq<u8>,
    serial: Seq<u8>,
    now: DateTimeView,
)
    requires
        is_history(states, insertions),
        0 <= from <= insertions.len(),
        all_others(insertions, from, issuer, serial),
    ensures
        usable_evidence(states.last(), issuer, serial, now) == usable_evidence(
            states[from],
            issuer,
            serial,
            now,
        ),
    decreases insertions.len() - from,
{
    if from < insertions.len() {
        let step = insertions[from];
        assert(!same_identity(step.issuer, step.serial, issuer, serial));
        assert(stores(states[from], states[from + 1], step.issuer, step.serial, step.evidence));
        assert(usable_evidence(states[from + 1], issuer, serial, now) == usable_evidence(
            states[from],
            issuer,
            serial,
            now,
        ));
        law_others_do_not_matter(states, insertions, from + 1, issuer, serial, now);
    }
}

/// The last insertion about a certificate decides: its evidence is what is found for the
/// certificate, a revocation always and any other verdict while it is fresh, whatever was
/// inserted about others since. A certificate that nothing was inserted about is not
/// found.
pub proof fn law_last_insertion_decides(
    states: Seq<Seq<CachedView>>,
    insertions: Seq<Insertion>,
    last: int,
    issuer: Seq<u8>,
    serial: Seq<u8>,
    now: DateTimeView,
)
    requires
        is_history(states, insertions),
        name_decodes(issuer),
        -1 <= last < insertions.len(),
        all_others(insertions, last + 1, issuer, serial),
        last >= 0 ==> name_decodes(insertions[last].issuer) && same_identity(
            insertions[last].issuer,
            insertions[last].serial,
            issuer,
            serial,
        ),
        last < 0 ==> states[0].len() == 0,
    ensures
        usable_evidence(states.last(), issuer, serial, now) == if last >= 0 {
            while_usable(insertions[last].evidence, now)
        } else {
            None
        },
{
    law_others_do_not_matter(states, insertions, last + 1, issuer, serial, now);
    if last >= 0 {
        let step = insertions[last];
        assert(stores(states[last], states[last + 1], step.issuer, step.serial, step.evidence));
    }
}

/// A verdict of good is never given by a source that is out of date or about another
/// issuer, nor for a serial number that the list holds.
pub proof fn law_good_is_earned(
    cert: CertificateView,
    crl: CrlView,
    answers: Seq<SingleView>,
    now: DateTimeView,
)
    ensures
        crl_verdict(cert, crl, now) is Good ==> crl.issuer == cert.fields.issuer && !is_stale(
            crl.next_update,
            now,
        ) && entry_for(crl.entries, cert.fields.serial) is None,
        ocsp_verdict(cert, answers, now) is Good ==> (answer_for(
            answers,
            cert.fields.serial,
        ) matches Some(a) && a.status is Good && !is_stale(a.next_update, now)),
{
}

/// The verdict of a current list of the issuer, entry by entry: good exactly if no entry has
/// the serial number of the certificate; otherwise revoked, with date and reason of the
/// first entry that has it. A list of another issuer says nothing, and one that is due for
/// an update before now is out of date.
pub proof fn law_list_decides_by_its_entries(
    cert: CertificateView,
    crl: CrlView,
    now: DateTimeView,
    i: int,
)
    ensures
        ({
            let serial = cert.fields.serial;
            let current = crl.issuer == cert.fields.issuer && !(crl.next_update matches Some(next)
                && next.rank() < now.rank());
            let verdict = crl_verdict(cert, crl, now);
            &&& crl.issuer != cert.fields.issuer <==> verdict is Inapplicable
            &&& crl.issuer == cert.fields.issuer && !current <==> verdict is Stale
            &&& current && (forall|k: int|
                0 <= k < crl.entries.len() ==> (#[trigger] crl.entries[k]).serial != serial)
                <==> verdict is Good
            &&& current && 0 <= i < crl.entries.len() && crl.entries[i].serial == serial && (forall|
                k: int,
            |
                0 <= k < i ==> (#[trigger] crl.entries[k]).serial != serial) ==> verdict
                == StatusView::Revoked(crl.entries[i].at, crl.entries[i].reason)
        }),
{
    law_entry_is_the_first(crl.entries, cert.fields.serial);
    if 0 <= i < crl.entries.len() {
        let e = crl.entries[i];
    }
}

/// The verdict of a response, answer by answer: the first answer about the serial number of
/// the certificate decides while it is not due for an update; without such an answer the
/// response says nothing.
pub proof fn law_response_decides_by_its_answers(
    cert: CertificateView,
    answers: Seq<SingleView>,
    now: DateTimeView,
    i: int,
)
    ensures
        ({
            let serial = cert.fields.serial;
            let verdict = ocsp_verdict(cert, answers, now);
            &&& (forall|k: int|
                0 <= k < answers.len() ==> (#[trigger] answers[k]).serial != serial)
                <==> verdict is Inapplicable
            &&& 0 <= i < answers.len() && answers[i].serial == serial && (forall|k: int|
                0 <= k < i ==> (#[trigger] answers[k]).serial != serial) ==> verdict == if (
            answers[i].next_update matches Some(next) && next.rank() < now.rank()) {
                StatusView::Stale
            } else {
                match answers[i].status {
                    CertStatusView::Good => StatusView::Good,
                    CertStatusView::Revoked(at, reason) => StatusView::Revoked(at, reason),
                    CertStatusView::Unknown => StatusView::Unknown,
                }
            }
        }),
{
    law_answer_is_the_first(answers, cert.fields.serial);
    if 0 <= i < answers.len() {
        let a = answers[i];
    }
}

/// Evidence is served while its window lasts: up to and including the instant of the next
/// update, never without one, and a revocation always.
pub proof fn law_evidence_window(evidence: EvidenceView, now: DateTimeView)
    ensures
        usable(evidence, now) <==> evidence.status is Revoked || (evidence.valid_until matches Some(
            end,
        ) && now.rank() <= end.rank()),
{
}

/// The evidence about a certificate is that of the first entry with its issuer and serial
/// number.
pub proof fn law_lookup_finds_the_first(
    entries: Seq<CachedView>,
    issuer: Seq<u8>,
    serial: Seq<u8>,
    now: DateTimeView,
    i: int,
)
    requires
        name_decodes(issuer),
    ensures
        (forall|k: int|
            0 <= k < entries.len() ==> !(names_equal((#[trigger] entries[k]).issuer, issuer)
                && entries[k].serial == serial)) ==> usable_evidence(entries, issuer, serial, now)
            is None,
        0 <= i < entries.len() && names_equal(entries[i].issuer, issuer) && entries[i].serial
            == serial && (forall|k: int|
            0 <= k < i ==> !(names_equal((#[trigger] entries[k]).issuer, issuer)
                && entries[k].serial == serial)) ==> usable_evidence(entries, issuer, serial, now)
            == if usable(entries[i].evidence, now) {
            Some(entries[i].evidence)
        } else {
            None
        },
{
    lemma_position_holds(entries, issuer, serial);
    let at = position_of(entries, issuer, serial);
    if at < entries.len() {
        assert(is_about(entries[at], issuer, serial));
    }
    if 0 <= i < entries.len() && i < at {
        assert(!is_about(entries[i], issuer, serial));
    }
}

/// Evidence tells its source, the time of the check and the window of what was checked: that
/// of the list, or that of the answer about the certificate.
pub proof fn law_evidence_of_each_source(
    cert: Certificate<'_>,
    list: &VerifiedCrl<'_>,
    response: &VerifiedOcspResponse,
    now: DateTime,
    by_list: RevocationEvidence,
    by_response: RevocationEvidence,
)
    requires
        call_ensures(RevocationEvidence::from_crl, (cert, list, now), by_list),
        call_ensures(RevocationEvidence::from_ocsp, (cert, response, now), by_response),
    ensures
        by_list@.source is Crl && by_response@.source is Ocsp,
        by_list@.checked_at == now@ && by_response@.checked_at == now@,
        by_list@.valid_until == list@.next_update,
        by_list@.status == crl_verdict(cert@, list@, now@),
        by_response@.status == ocsp_verdict(cert@, response@, now@),
        forall|i: int|
            0 <= i < response@.len() && (#[trigger] response@[i]).serial == cert@.fields.serial && (
            forall|j: int|
                0 <= j < i ==> (#[trigger] response@[j]).serial != cert@.fields.serial)
                ==> by_response@.valid_until == response@[i].next_update,
{
    law_answer_is_the_first(response@, cert@.fields.serial);
}

/// Whatever the two checks answer is told with the time and the reason of the entry or
/// answer it rests on.
pub proof fn law_verdicts_keep_time_and_reason(
    cert: Certificate<'_>,
    list: &VerifiedCrl<'_>,
    response: &VerifiedOcspResponse,
    now: DateTime,
    by_list: RevocationStatus,
    by_response: RevocationStatus,
)
    requires
        call_ensures(check_against_crl, (cert, list, now), by_list),
        call_ensures(check_against_ocsp_response, (cert, response, now), by_response),
    ensures
        by_list matches RevocationStatus::Revoked { at, reason } ==> {
            let entry = entry_for(list@.entries, cert.serial_der@);
            &&& entry matches Some(e) && e.at == at@ && e.reason == reason
            &&& list@.issuer == cert.issuer@
        },
        by_response matches RevocationStatus::Revoked { at, reason } ==> {
            let answer = answer_for(response@, cert.serial_der@);
            answer matches Some(a) && a.status == CertStatusView::Revoked(at@, reason)
        },
        by_list is Good ==> list@.issuer == cert.issuer@ && entry_for(
            list@.entries,
            cert.serial_der@,
        ) is None,
        by_response is Good ==> (answer_for(response@, cert.serial_der@) matches Some(a)
            && a.status is Good),
{
}

} // verus!
