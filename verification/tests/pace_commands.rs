use refineid::pace::commands::{GeneralAuthenticate, MseSetAt};

#[test]
fn mse_set_at_round_trips() {
    let apdu = MseSetAt {
        data: vec![0x80, 0x01, 0xAA],
    }
    .into_apdu();
    assert_eq!(
        apdu.as_bytes(),
        &[0x00, 0x22, 0xC1, 0xA4, 0x03, 0x80, 0x01, 0xAA]
    );
}

#[test]
fn general_authenticate_chained_sets_cla_0x10() {
    let apdu = GeneralAuthenticate {
        chain: true,
        payload: vec![0x7C, 0x00],
    }
    .into_apdu();
    assert_eq!(
        apdu.as_bytes(),
        &[0x10, 0x86, 0x00, 0x00, 0x02, 0x7C, 0x00, 0x00]
    );
}

#[test]
fn general_authenticate_final_uses_cla_0x00() {
    let apdu = GeneralAuthenticate {
        chain: false,
        payload: vec![0x7C, 0x00],
    }
    .into_apdu();
    assert_eq!(
        apdu.as_bytes(),
        &[0x00, 0x86, 0x00, 0x00, 0x02, 0x7C, 0x00, 0x00]
    );
}
