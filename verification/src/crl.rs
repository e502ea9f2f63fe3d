//! Revocation lists as plain values.

use crate::bytes::same_bytes;
use crate::identity::CertSerial;
use crate::x509::verify::{verdict, verify_tbs_signature, SignatureVerifier, TbsSignature,
    VerifyError};
use crate::x509::{DateTime, DateTimeView, Name};
use vstd::prelude::*;

verus! {

/// Why a certificate was revoked.
#[derive(Debug, Clone, Copy, PartialEq, Eq, Structural)]
pub enum CrlReason {
    /// Not specified.
    Unspecified,
    /// The key was compromised.
    KeyCompromise,
    /// The authority was compromised.
    CaCompromise,
    /// The subject changed affiliation.
    AffiliationChanged,
    /// The certificate was superseded.
    Superseded,
    /// The subject ceased to operate.
    CessationOfOperation,
    /// The certificate is on hold.
    CertificateHold,
    /// The certificate is removed from a list.
    RemoveFromCrl,
    /// A privilege was withdrawn.
    PrivilegeWithdrawn,
    /// The attribute authority was compromised.
    AaCompromise,
}

/// One revoked certificate.
#[derive(Debug)]
pub struct RevokedEntry {
    /// Serial number.
    pub serial: CertSerial,
    /// When it was revoked.
    pub revocation_date: DateTime,
    /// Why it was revoked.
    pub reason: Option<CrlReason>,
}

/// What an entry says.
#[verifier::ext_equal]
pub struct EntryView {
    pub serial: Seq<u8>,
    pub at: DateTimeView,
    pub reason: Option<CrlReason>,
}

impl View for RevokedEntry {
    type V = EntryView;

    open spec fn view(&self) -> EntryView {
        EntryView { serial: self.serial@, at: self.revocation_date@, reason: self.reason }
    }
}

/// A revocation list.
#[derive(Debug)]
pub struct Crl<'a> {
    /// Issuer.
    pub issuer: Name<'a>,
    /// When the next list is due.
    pub next_update: Option<DateTime>,
    /// The revoked certificates.
    pub entries: Vec<RevokedEntry>,
}

/// What a list says.
#[verifier::ext_equal]
pub struct CrlView {
    pub issuer: Seq<u8>,
    pub next_update: Option<DateTimeView>,
    pub entries: Seq<EntryView>,
}

/// The view of an optional instant.
pub open spec fn instant_view(t: Option<DateTime>) -> Option<DateTimeView> {
    match t {
        Some(t) => Some(t@),
        None => None,
    }
}

impl<'a> View for Crl<'a> {
    type V = CrlView;

    open spec fn view(&self) -> CrlView {
        CrlView {
            issuer: self.issuer@,
            next_update: instant_view(self.next_update),
            entries: Seq::new(self.entries@.len(), |i: int| self.entries@[i]@),
        }
    }
}

/// The first entry with a serial number.
pub open spec fn entry_for(entries: Seq<EntryView>, serial: Seq<u8>) -> Option<EntryView>
    decreases entries.len(),
{
    if entries.len() == 0 {
        None
    } else if entries[0].serial == serial {
        Some(entries[0])
    } else {
        entry_for(entries.drop_first(), serial)
    }
}

impl<'a> Crl<'a> {
    /// The first entry with a serial number.
    pub fn find_serial(&self, serial: &CertSerial) -> (r: Option<&RevokedEntry>)
        ensures
            r is Some <==> entry_for(self@.entries, serial@) is Some,
            r matches Some(e) ==> entry_for(self@.entries, serial@) == Some(e@),
    {
        let ghost views = self@.entries;
        assert(views.skip(0) =~= views);
        let mut i: usize = 0;
        while i < self.entries.len()
            invariant
                i <= self.entries@.len(),
                views == self@.entries,
                entry_for(views, serial@) == entry_for(views.skip(i as int), serial@),
            decreases self.entries@.len() - i,
        {
            proof {
                assert(views.skip(i as int)[0] == self.entries@[i as int]@);
                assert(views.skip(i as int).drop_first() =~= views.skip(i + 1));
            }
            if same_bytes(self.entries[i].serial.as_bytes(), serial.as_bytes()) {
                return Some(&self.entries[i]);
            }
            i += 1;
        }
        None
    }
}

/// A revocation list whose signature was verified.
#[derive(Debug)]
pub struct VerifiedCrl<'a>(Crl<'a>);

impl<'a> View for VerifiedCrl<'a> {
    type V = CrlView;

    closed spec fn view(&self) -> CrlView {
        self.0@
    }
}

impl<'a> VerifiedCrl<'a> {
    /// Verify the signature of a list that was read from the signed bytes
    /// `signature.tbs_der`. There is no other way to a verified list.
    pub fn verify<V: SignatureVerifier>(
        verifier: &V,
        crl: Crl<'a>,
        signature: TbsSignature<'_>,
    ) -> (r: Result<Self, VerifyError<V::RsaError, V::EcdsaError>>)
        ensures
            exists|outcome: Result<(), VerifyError<V::RsaError, V::EcdsaError>>| #[trigger]
                verdict(verifier, signature, outcome) && match outcome {
                    Ok(()) => r matches Ok(verified) && verified@ == crl@,
                    Err(e) => r == Err::<Self, VerifyError<V::RsaError, V::EcdsaError>>(e),
                },
    {
        let outcome = verify_tbs_signature(verifier, signature);
        assert(verdict(verifier, signature, outcome));
        match outcome {
            Ok(()) => Ok(VerifiedCrl(crl)),
            Err(e) => Err(e),
        }
    }

    /// The list.
    pub fn as_crl(&self) -> (r: &Crl<'a>)
        ensures
            r@ == self@,
    {
        &self.0
    }
}

/// A serial number is found exactly if an entry has it, and the entry found is the first
/// that does.
pub proof fn law_entry_is_the_first(entries: Seq<EntryView>, serial: Seq<u8>)
    ensures
        entry_for(entries, serial) is None <==> forall|i: int|
            0 <= i < entries.len() ==> (#[trigger] entries[i]).serial != serial,
        forall|i: int|
            0 <= i < entries.len() && (#[trigger] entries[i]).serial == serial && (forall|j: int|
                0 <= j < i ==> (#[trigger] entries[j]).serial != serial) ==> entry_for(
                entries,
                serial,
            ) == Some(entries[i]),
    decreases entries.len(),
{
    if entries.len() > 0 {
        let rest = entries.drop_first();
        law_entry_is_the_first(rest, serial);
        assert(forall|i: int| 0 <= i < rest.len() ==> rest[i] == #[trigger] entries[i + 1]);
        if entries[0].serial != serial {
            assert forall|i: int|
                0 <= i < entries.len() && (#[trigger] entries[i]).serial == serial && (forall|
                    j: int,
                |
                    0 <= j < i ==> (#[trigger] entries[j]).serial != serial) implies entry_for(
                entries,
                serial,
            ) == Some(entries[i]) by {
                assert(rest[i - 1] == entries[i]);
                assert forall|j: int| 0 <= j < i - 1 implies (#[trigger] rest[j]).serial != serial by {
                    assert(rest[j] == entries[j + 1]);
                }
            }
            if forall|i: int| 0 <= i < entries.len() ==> (#[trigger] entries[i]).serial != serial {
                assert forall|i: int| 0 <= i < rest.len() implies (#[trigger] rest[i]).serial
                    != serial by {
                    assert(rest[i] == entries[i + 1]);
                }
            }
            if entry_for(entries, serial) is None {
                assert forall|i: int| 0 <= i < entries.len() implies (#[trigger] entries[i]).serial
                    != serial by {
                    if i > 0 {
                        assert(rest[i - 1] == entries[i]);
                    }
                }
            }
        }
    }
}

/// A list says what its fields hold, of every entry and in their order.
pub proof fn law_list_is_seen_whole(crl: Crl<'_>)
    ensures
        crl@.issuer == crl.issuer@,
        crl@.entries.len() == crl.entries@.len(),
        forall|i: int|
            #![trigger crl.entries@[i]]
            0 <= i < crl.entries@.len() ==> {
                &&& crl@.entries[i].serial == crl.entries@[i].serial@
                &&& crl@.entries[i].at == crl.entries@[i].revocation_date@
                &&& crl@.entries[i].reason == crl.entries@[i].reason
            },
        crl@.next_update is Some <==> crl.next_update is Some,
        crl.next_update matches Some(t) ==> crl@.next_update == Some(t@),
{
}

/// Whatever [`Crl::find_serial`] answers: nothing exactly if no entry has the serial number,
/// else what the first entry that has it says.
pub proof fn law_find_serial_answers(crl: &Crl<'_>, serial: &CertSerial, r: Option<&RevokedEntry>)
    requires
        call_ensures(Crl::find_serial, (crl, serial), r),
    ensures
        r is None <==> forall|i: int|
            0 <= i < crl.entries@.len() ==> (#[trigger] crl.entries@[i]).serial@ != serial@,
        forall|i: int|
            0 <= i < crl.entries@.len() && (#[trigger] crl.entries@[i]).serial@ == serial@ && (
            forall|j: int|
                0 <= j < i ==> (#[trigger] crl.entries@[j]).serial@ != serial@) ==> (
            r matches Some(e) && e.serial@ == serial@ && e.revocation_date@
                == crl.entries@[i].revocation_date@ && e.reason == crl.entries@[i].reason),
{
    law_entry_is_the_first(crl@.entries, serial@);
    let views = crl@.entries;
    assert(forall|i: int|
        0 <= i < views.len() ==> (#[trigger] views[i]) == crl.entries@[i]@);
    assert forall|i: int|
        0 <= i < crl.entries@.len() && (#[trigger] crl.entries@[i]).serial@ == serial@ && (forall|
            j: int,
        |
            0 <= j < i ==> (#[trigger] crl.entries@[j]).serial@ != serial@) implies (
    r matches Some(e) && e.serial@ == serial@ && e.revocation_date@
        == crl.entries@[i].revocation_date@ && e.reason == crl.entries@[i].reason) by {
        assert(views[i].serial == serial@);
        assert forall|j: int| 0 <= j < i implies (#[trigger] views[j]).serial != serial@ by {
            assert(crl.entries@[j].serial@ != serial@);
        }
    }
    if forall|i: int|
        0 <= i < crl.entries@.len() ==> (#[trigger] crl.entries@[i]).serial@ != serial@ {
        assert forall|i: int| 0 <= i < views.len() implies (#[trigger] views[i]).serial
            != serial@ by {
            assert(crl.entries@[i].serial@ != serial@);
        }
    }
    if r is None {
        assert forall|i: int| 0 <= i < crl.entries@.len() implies (
        #[trigger] crl.entries@[i]).serial@ != serial@ by {
            assert(views[i].serial != serial@);
        }
    }
}

} // verus!
