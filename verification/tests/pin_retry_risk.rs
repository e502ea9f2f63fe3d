use refineid::apdu::PinRetries;
use refineid::auth::PinStatus;
use refineid::pin_retry_risk::{
    pin1_status_permits_consumer_authentication, pin1_status_permits_reusable_cache, PinRetryRisk,
};

fn risk(retries: u8) -> Option<PinRetryRisk> {
    PinRetries::from_nibble(retries).and_then(PinRetryRisk::from_retries)
}

#[test]
fn five_attempt_risk_ladder_is_total_and_ordered() {
    assert_eq!(risk(5), Some(PinRetryRisk::NormalOperatingConditions));
    assert_eq!(risk(4), Some(PinRetryRisk::DisturbanceDetected));
    assert_eq!(risk(3), Some(PinRetryRisk::SecurityIncidentDeclared));
    assert_eq!(risk(2), Some(PinRetryRisk::CriticalThreatLevel));
    assert_eq!(risk(1), Some(PinRetryRisk::LockdownImminent));
    assert_eq!(risk(0), Some(PinRetryRisk::DefencesFallen));
    assert_eq!(risk(6), None);
}

#[test]
fn floors_block_only_one_and_two_attempts() {
    assert!(PinRetryRisk::NormalOperatingConditions.permits_reusable_cache());
    assert!(!PinRetryRisk::DisturbanceDetected.permits_reusable_cache());

    for permitted in [
        PinRetryRisk::NormalOperatingConditions,
        PinRetryRisk::DisturbanceDetected,
        PinRetryRisk::SecurityIncidentDeclared,
        PinRetryRisk::DefencesFallen,
    ] {
        assert!(permitted.permits_pkcs11(), "{permitted:?} permits pkcs11");
        assert!(
            permitted.permits_consumer(),
            "{permitted:?} permits consumer"
        );
        assert!(
            !permitted.requires_scs_shutdown(),
            "{permitted:?} keeps SCS up"
        );
    }
    for blocked in [
        PinRetryRisk::CriticalThreatLevel,
        PinRetryRisk::LockdownImminent,
    ] {
        assert!(!blocked.permits_pkcs11(), "{blocked:?} blocks pkcs11");
        assert!(!blocked.permits_consumer(), "{blocked:?} blocks consumer");
        assert!(
            blocked.requires_scs_shutdown(),
            "{blocked:?} shuts SCS down"
        );
    }
}

#[test]
fn consumer_pin1_authentication_depends_only_on_pin1_retry_floor() {
    let remaining = |count| {
        PinStatus::Remaining(
            PinRetries::from_nibble(count).expect("test retry count fits one nibble"),
        )
    };
    assert!(pin1_status_permits_consumer_authentication(remaining(5)));
    assert!(pin1_status_permits_consumer_authentication(remaining(4)));
    assert!(pin1_status_permits_consumer_authentication(remaining(3)));
    assert!(!pin1_status_permits_consumer_authentication(remaining(2)));
    assert!(!pin1_status_permits_consumer_authentication(remaining(1)));
    assert!(pin1_status_permits_consumer_authentication(remaining(0)));
    assert!(pin1_status_permits_consumer_authentication(
        PinStatus::Verified
    ));
    assert!(!pin1_status_permits_consumer_authentication(
        PinStatus::Locked
    ));
    assert!(!pin1_status_permits_consumer_authentication(
        PinStatus::NoInfo
    ));
    assert!(!pin1_status_permits_consumer_authentication(
        PinStatus::Other(0x63_00)
    ));
}

#[test]
fn reusable_pin1_cache_requires_only_pin1_at_five() {
    let remaining = |count| {
        PinStatus::Remaining(
            PinRetries::from_nibble(count).expect("test retry count fits one nibble"),
        )
    };
    assert!(pin1_status_permits_reusable_cache(remaining(5)));
    assert!(!pin1_status_permits_reusable_cache(remaining(4)));
    assert!(!pin1_status_permits_reusable_cache(remaining(3)));
    assert!(!pin1_status_permits_reusable_cache(PinStatus::Verified));
}
