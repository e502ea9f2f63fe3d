use refineid::reader::{
    card_presence, connect_failed, escape_after_connect, escape_after_control, listed_readers,
    vendor_name, EscapeAction, EscapeRoute, IfdVersion, ReaderIdentity, ESCAPE_CODES,
};
use refineid::t0::{physical_command, PcscError, PcscFault, PcscFaultKind};
use refineid::transport::CommandApdu;

fn fault(kind: PcscFaultKind) -> PcscFault {
    PcscFault { kind, text: "text".to_owned() }
}

#[test]
fn no_readers_is_an_empty_list() {
    assert_eq!(listed_readers(Err(fault(PcscFaultKind::NoReadersAvailable))), Ok(vec![]));
    assert_eq!(listed_readers(Ok(vec!["A".to_owned()])), Ok(vec!["A".to_owned()]));
    assert_eq!(
        listed_readers(Err(fault(PcscFaultKind::Other))),
        Err(PcscError::Pcsc(fault(PcscFaultKind::Other)))
    );
}

#[test]
fn an_empty_reader_is_no_error() {
    assert_eq!(connect_failed::<u8>(fault(PcscFaultKind::NoSmartcard)), Ok(None));
    assert_eq!(connect_failed::<u8>(fault(PcscFaultKind::RemovedCard)), Ok(None));
    assert_eq!(
        connect_failed::<u8>(fault(PcscFaultKind::ResetCard)),
        Err(PcscError::Pcsc(fault(PcscFaultKind::ResetCard)))
    );
}

#[test]
fn presence_needs_the_one_bit_without_the_other() {
    assert_eq!(card_presence(Ok(()), true, false), Ok(true));
    assert_eq!(card_presence(Ok(()), true, true), Ok(false));
    assert_eq!(card_presence(Err(fault(PcscFaultKind::Timeout)), true, false), Ok(true));
    assert_eq!(card_presence(Err(fault(PcscFaultKind::Timeout)), false, false), Ok(false));
    assert!(card_presence(Err(fault(PcscFaultKind::Other)), true, false).is_err());
}

#[test]
fn identity_attributes_are_trimmed_and_parsed() {
    let identity = ReaderIdentity::from_attributes(
        Some(b" \0HID Global\0\0 "),
        Some(&[0x01, 0x00, 0x05, 0x02, 0xFF]),
    );
    assert_eq!(identity.vendor_name.as_deref(), Some("HID Global"));
    assert_eq!(identity.ifd_version, Some(IfdVersion { major: 2, minor: 5 }));
    let identity = ReaderIdentity::from_attributes(Some(b"\0 \0"), Some(&[1, 2, 3]));
    assert_eq!(identity.vendor_name, None);
    assert_eq!(identity.ifd_version, None);
    let identity = ReaderIdentity::from_attributes(Some(b"A\xFFB"), None);
    assert_eq!(identity.vendor_name.as_deref(), Some("A\u{FFFD}B"));
    let identity = ReaderIdentity::default();
    assert!(identity.vendor_name.is_none() && identity.ifd_version.is_none());
    assert_eq!(vendor_name("\u{2003}\u{e4} b\u{a0}").as_deref(), Some("\u{e4} b"));
    assert_eq!(vendor_name(""), None);
}

#[test]
fn vendor_commands_try_every_code_on_both_routes() {
    assert_eq!(ESCAPE_CODES, [0x4200_0000 + 3500, 0x0031_0000 + 3500 * 4, 0x4200_0001]);
    let mut action = EscapeAction::Connect(EscapeRoute::Direct);
    let mut route = EscapeRoute::Direct;
    let mut trace = vec![];
    for _ in 0..20 {
        action = match action {
            EscapeAction::Connect(next) => {
                route = next;
                trace.push((route, None));
                escape_after_connect(next, Ok(()))
            }
            EscapeAction::Control(code) => {
                trace.push((route, Some(code)));
                escape_after_control(route, code, Err(fault(PcscFaultKind::InvalidValue)))
            }
            done => done,
        };
    }
    assert_eq!(
        action,
        EscapeAction::Fail(PcscError::Transport(
            "reader escape rejected on every control route (SCardControl blocked?)".to_owned()
        ))
    );
    assert_eq!(
        trace,
        vec![
            (EscapeRoute::Direct, None),
            (EscapeRoute::Direct, Some(0)),
            (EscapeRoute::Direct, Some(1)),
            (EscapeRoute::Direct, Some(2)),
            (EscapeRoute::Shared, None),
            (EscapeRoute::Shared, Some(0)),
            (EscapeRoute::Shared, Some(1)),
            (EscapeRoute::Shared, Some(2)),
        ]
    );
}

#[test]
fn vendor_commands_stop_at_an_answer_or_a_hard_fault() {
    assert_eq!(
        escape_after_control(EscapeRoute::Direct, 1, Ok(vec![7])),
        EscapeAction::Answer(vec![7])
    );
    assert_eq!(
        escape_after_control(EscapeRoute::Direct, 0, Err(fault(PcscFaultKind::Other))),
        EscapeAction::Fail(PcscError::Pcsc(fault(PcscFaultKind::Other)))
    );
    assert_eq!(
        escape_after_control(EscapeRoute::Direct, 2, Err(fault(PcscFaultKind::InvalidParameter))),
        EscapeAction::Connect(EscapeRoute::Shared)
    );
    assert_eq!(
        escape_after_connect(EscapeRoute::Direct, Err(fault(PcscFaultKind::Other))),
        EscapeAction::Connect(EscapeRoute::Shared)
    );
    assert_eq!(
        escape_after_connect(EscapeRoute::Shared, Err(fault(PcscFaultKind::NoSmartcard))),
        EscapeAction::Fail(PcscError::Pcsc(fault(PcscFaultKind::NoSmartcard)))
    );
}

#[test]
fn only_t0_drops_the_expected_length() {
    let command = CommandApdu::from_slice(&[0x00, 0xA4, 0x00, 0x00, 0x02, 0x3F, 0x00, 0x00]);
    assert_eq!(
        physical_command(&command, true).as_bytes(),
        &[0x00, 0xA4, 0x00, 0x00, 0x02, 0x3F, 0x00]
    );
    assert_eq!(physical_command(&command, false).as_bytes(), command.as_bytes());
    let read = CommandApdu::from_slice(&[0x00, 0xB0, 0x00, 0x00, 0x00]);
    assert_eq!(physical_command(&read, true).as_bytes(), read.as_bytes());
}
