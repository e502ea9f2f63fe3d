use refineid::apdu::{ApduClass, GetResponse};
use refineid::t0::{
    run_t0_exchange, t0_case3_from_short_case4, PcscError, PcscFault, PcscFaultKind, T0Transmitter,
    TransmitBreak, EXTENDED_RESPONSE_DATA_MAX_BYTES, SW1_BYTES_AVAILABLE, SW1_WRONG_LE,
};
use refineid::transport::{
    CommandApdu, ResponseApdu, TransportErrorExt, TransportErrorKind, TransportOutcome,
};

fn fault(kind: PcscFaultKind) -> PcscFault {
    PcscFault { kind, text: "the reader reports a fault".to_owned() }
}

enum Step {
    Reply(Vec<u8>),
    Outcome(TransportOutcome),
    Error(PcscError),
}

struct ScriptedCard {
    steps: Vec<Step>,
    sent: Vec<Vec<u8>>,
}

impl ScriptedCard {
    fn new(mut steps: Vec<Step>) -> Self {
        steps.reverse();
        Self {
            steps,
            sent: Vec::new(),
        }
    }
}

impl T0Transmitter for ScriptedCard {
    fn transmit(&mut self, apdu: &[u8]) -> Result<Vec<u8>, TransmitBreak> {
        self.sent.push(apdu.to_vec());
        match self
            .steps
            .pop()
            .expect("scripted card: no step queued for this transmit")
        {
            Step::Reply(bytes) => Ok(bytes),
            Step::Outcome(outcome) => Err(TransmitBreak::Outcome(outcome)),
            Step::Error(err) => Err(TransmitBreak::Error(err)),
        }
    }
}

fn reply(body: &[u8], sw1: u8, sw2: u8) -> Step {
    let mut raw = body.to_vec();
    raw.push(sw1);
    raw.push(sw2);
    Step::Reply(raw)
}

fn get_response(le: u8) -> Vec<u8> {
    vec![0x00, 0xC0, 0x00, 0x00, le]
}

fn drive(
    steps: Vec<Step>,
    apdu: CommandApdu,
) -> (Result<TransportOutcome, PcscError>, Vec<Vec<u8>>) {
    let mut card = ScriptedCard::new(steps);
    let outcome = run_t0_exchange(&mut card, &apdu);
    (outcome, card.sent)
}


#[test]
fn t0_short_case4_is_sent_as_case3_then_continued() {
    let logical = CommandApdu::from_slice(&[
        0x00, 0xCB, 0x00, 0xFF, 0x05, 0xA0, 0x03, 0x83, 0x01, 0x83, 0x00,
    ]);
    let physical =
        t0_case3_from_short_case4(&logical).expect("short case-4 command is recognized");
    let (outcome, sent) = drive(
        vec![
            reply(&[], SW1_BYTES_AVAILABLE, 0x02),
            reply(&[0xAA, 0xBB], 0x90, 0x00),
        ],
        physical,
    );

    assert!(matches!(
        outcome,
        Ok(TransportOutcome::Response(ResponseApdu {
            body,
            sw1: 0x90,
            sw2: 0x00,
        })) if body == [0xAA, 0xBB]
    ));
    assert_eq!(
        sent,
        vec![
            vec![0x00, 0xCB, 0x00, 0xFF, 0x05, 0xA0, 0x03, 0x83, 0x01, 0x83],
            get_response(0x02),
        ]
    );
}

#[test]
fn terminal_status_passes_through_without_get_response() {
    let apdu = [0x00, 0xA4, 0x04, 0x00];
    let (outcome, sent) = drive(vec![reply(&[0xAA, 0xBB], 0x90, 0x00)], CommandApdu::from_slice(&apdu));
    assert_eq!(
        outcome.expect("terminal-SW exchange completes"),
        TransportOutcome::Response(ResponseApdu {
            body: vec![0xAA, 0xBB],
            sw1: 0x90,
            sw2: 0x00,
        })
    );
    assert_eq!(sent, vec![apdu.to_vec()]);
}

#[test]
fn non_9000_terminal_status_is_handed_back_verbatim() {
    let (outcome, sent) = drive(
        vec![reply(&[], 0x6A, 0x82)],
        CommandApdu::from_slice(&[0x00, 0xB0, 0x00, 0x00, 0x10]),
    );
    assert_eq!(
        outcome.expect("6A82 exchange completes"),
        TransportOutcome::Response(ResponseApdu {
            body: vec![],
            sw1: 0x6A,
            sw2: 0x82,
        })
    );
    assert_eq!(sent.len(), 1);
}


#[test]
fn wrong_le_6c_retry_rewrites_last_byte_and_resends() {
    let apdu = GetResponse::new(ApduClass::Plain, 0).into_apdu();
    let body = vec![0x11_u8; 0x1A];
    let (outcome, sent) = drive(
        vec![reply(&[], SW1_WRONG_LE, 0x1A), reply(&body, 0x90, 0x00)],
        apdu,
    );
    assert_eq!(
        outcome.expect("6C retry exchange completes"),
        TransportOutcome::Response(ResponseApdu {
            body,
            sw1: 0x90,
            sw2: 0x00,
        })
    );
    assert_eq!(sent.len(), 2);
    assert_eq!(sent[0], vec![0x00, 0xC0, 0x00, 0x00, 0x00]);
    assert_eq!(sent[1], vec![0x00, 0xC0, 0x00, 0x00, 0x1A]);
}

#[test]
fn wrong_le_6c_on_raw_command_is_terminal() {
    let (outcome, sent) = drive(vec![reply(&[], SW1_WRONG_LE, 0x05)], CommandApdu::from_slice(&[]));
    assert_eq!(
        outcome.expect("raw-command 6C response completes"),
        TransportOutcome::Response(ResponseApdu {
            body: vec![],
            sw1: SW1_WRONG_LE,
            sw2: 0x05,
        })
    );
    assert_eq!(sent, vec![Vec::<u8>::new()]);
}

#[test]
fn pin1_unblock_6c_is_one_physical_transmit() {
    const PLAIN_CLASS: u8 = 0x00;
    const RESET_RETRY_COUNTER_INSTRUCTION: u8 = 0x2C;
    const RESET_AND_REPLACE_MODE: u8 = 0x00;
    const PIN1_REFERENCE_PKCS15: u8 = 0x11;
    const PAD_BYTE: u8 = 0x00;
    const PADDED_PAIR_LENGTH: u8 = 0x18;
    const WRONG_LENGTH_HINT: u8 = 0x18;

    let mut wire = vec![
        PLAIN_CLASS,
        RESET_RETRY_COUNTER_INSTRUCTION,
        RESET_AND_REPLACE_MODE,
        PIN1_REFERENCE_PKCS15,
        PADDED_PAIR_LENGTH,
    ];
    wire.extend_from_slice(b"49071234");
    wire.extend_from_slice(&[PAD_BYTE; 4]);
    wire.extend_from_slice(b"4907");
    wire.extend_from_slice(&[PAD_BYTE; 8]);
    let command = CommandApdu::from_slice(wire.as_slice());
    let expected = command.as_bytes().to_vec();

    let (outcome, sent) = drive(vec![reply(&[], SW1_WRONG_LE, WRONG_LENGTH_HINT)], command);
    assert!(matches!(
        outcome,
        Ok(TransportOutcome::Response(response))
            if response.sw1 == SW1_WRONG_LE && response.sw2 == WRONG_LENGTH_HINT
    ));
    assert_eq!(sent, vec![expected]);
}

#[test]
fn second_wrong_le_is_terminal_after_one_retry() {
    let apdu = GetResponse::new(ApduClass::Plain, 0).into_apdu();
    let (outcome, sent) = drive(
        vec![
            reply(&[], SW1_WRONG_LE, 0x10),
            reply(&[], SW1_WRONG_LE, 0x20),
        ],
        apdu,
    );
    assert_eq!(
        outcome.expect("second 6C response is terminal"),
        TransportOutcome::Response(ResponseApdu {
            body: vec![],
            sw1: SW1_WRONG_LE,
            sw2: 0x20,
        })
    );
    assert_eq!(sent.len(), 2);
}


#[test]
fn bytes_available_61_single_get_response_concatenates() {
    let apdu = [0x00, 0xCA, 0x00, 0x00, 0x00];
    let (outcome, sent) = drive(
        vec![
            reply(&[0x01, 0x02], SW1_BYTES_AVAILABLE, 0x05),
            reply(&[0x03, 0x04, 0x05, 0x06, 0x07], 0x90, 0x00),
        ],
        CommandApdu::from_slice(&apdu),
    );
    assert_eq!(
        outcome.expect("single-hop 61xx chain completes"),
        TransportOutcome::Response(ResponseApdu {
            body: vec![0x01, 0x02, 0x03, 0x04, 0x05, 0x06, 0x07],
            sw1: 0x90,
            sw2: 0x00,
        })
    );
    assert_eq!(sent.len(), 2);
    assert_eq!(sent[1], get_response(0x05));
}

#[test]
fn bytes_available_61_multi_hop_chain_concatenates_in_order() {
    let (outcome, sent) = drive(
        vec![
            reply(&[0xA0], SW1_BYTES_AVAILABLE, 0x02),
            reply(&[0xB0, 0xB1], SW1_BYTES_AVAILABLE, 0x03),
            reply(&[0xC0, 0xC1, 0xC2], 0x90, 0x00),
        ],
        CommandApdu::from_slice(&[0x00, 0xCA, 0x00, 0x00, 0x00]),
    );
    assert_eq!(
        outcome.expect("multi-hop 61xx chain completes"),
        TransportOutcome::Response(ResponseApdu {
            body: vec![0xA0, 0xB0, 0xB1, 0xC0, 0xC1, 0xC2],
            sw1: 0x90,
            sw2: 0x00,
        })
    );
    assert_eq!(sent.len(), 3);
    assert_eq!(sent[1], get_response(0x02));
    assert_eq!(sent[2], get_response(0x03));
}

#[test]
fn chain_terminal_status_word_is_preserved() {
    let (outcome, _sent) = drive(
        vec![
            reply(&[0xA0], SW1_BYTES_AVAILABLE, 0x02),
            reply(&[0xB0, 0xB1], 0x63, 0x00),
        ],
        CommandApdu::from_slice(&[0x00, 0xCA, 0x00, 0x00, 0x00]),
    );
    assert_eq!(
        outcome.expect("chain with terminal warning SW completes"),
        TransportOutcome::Response(ResponseApdu {
            body: vec![0xA0, 0xB0, 0xB1],
            sw1: 0x63,
            sw2: 0x00,
        })
    );
}

#[test]
fn stalled_61_chain_with_no_progress_is_rejected() {
    let (outcome, _sent) = drive(
        vec![
            reply(&[0x01], SW1_BYTES_AVAILABLE, 0x02),
            reply(&[], SW1_BYTES_AVAILABLE, 0x02),
        ],
        CommandApdu::from_slice(&[0x00, 0xCA, 0x00, 0x00, 0x00]),
    );
    match outcome {
        Err(PcscError::Transport(msg)) => {
            assert!(msg.contains("stalled chain"), "unexpected message: {msg}");
        }
        other => panic!("expected stalled-chain Transport error, got {other:?}"),
    }
}

#[test]
fn chain_exceeding_64_kib_ceiling_is_rejected() {
    let chunk = 40_000;
    assert!(chunk + 2 <= EXTENDED_RESPONSE_DATA_MAX_BYTES);
    let big = vec![0xAB_u8; chunk];
    let (outcome, sent) = drive(
        vec![
            reply(&[], SW1_BYTES_AVAILABLE, 0xFF),
            reply(&big, SW1_BYTES_AVAILABLE, 0xFF),
            reply(&big, SW1_BYTES_AVAILABLE, 0xFF),
        ],
        CommandApdu::from_slice(&[0x00, 0xCA, 0x00, 0x00, 0x00]),
    );
    match outcome {
        Err(PcscError::Transport(msg)) => {
            assert!(msg.contains("64 KiB"), "unexpected message: {msg}");
        }
        other => panic!("expected ceiling Transport error, got {other:?}"),
    }
    assert_eq!(sent.len(), 3);
}


#[test]
fn short_first_response_maps_to_protocol_desync() {
    let (single, _) = drive(vec![Step::Reply(vec![0x90])], CommandApdu::from_slice(&[0x00, 0xA4]));
    assert_eq!(
        single.expect("one-byte reply maps to an outcome"),
        TransportOutcome::ProtocolDesync
    );
    let (empty, _) = drive(vec![Step::Reply(vec![])], CommandApdu::from_slice(&[0x00, 0xA4]));
    assert_eq!(
        empty.expect("empty reply maps to an outcome"),
        TransportOutcome::ProtocolDesync
    );
}

#[test]
fn short_chain_response_maps_to_protocol_desync() {
    let (outcome, _) = drive(
        vec![
            reply(&[0x01], SW1_BYTES_AVAILABLE, 0x02),
            Step::Reply(vec![0x61]),
        ],
        CommandApdu::from_slice(&[0x00, 0xCA, 0x00, 0x00, 0x00]),
    );
    assert_eq!(
        outcome.expect("short chain reply maps to an outcome"),
        TransportOutcome::ProtocolDesync
    );
}


#[test]
fn terminal_outcome_from_first_transmit_is_surfaced() {
    let (outcome, _) = drive(
        vec![Step::Outcome(TransportOutcome::ReaderRemoved)],
        CommandApdu::from_slice(&[0x00, 0xA4]),
    );
    assert_eq!(
        outcome.expect("reader-removed outcome surfaces"),
        TransportOutcome::ReaderRemoved
    );
}

#[test]
fn terminal_outcome_from_chain_transmit_is_surfaced() {
    let (outcome, _) = drive(
        vec![
            reply(&[0x01], SW1_BYTES_AVAILABLE, 0x02),
            Step::Outcome(TransportOutcome::CardReset),
        ],
        CommandApdu::from_slice(&[0x00, 0xCA, 0x00, 0x00, 0x00]),
    );
    assert_eq!(
        outcome.expect("card-reset outcome surfaces"),
        TransportOutcome::CardReset
    );
}

#[test]
fn hard_error_from_first_transmit_propagates() {
    let (outcome, _) = drive(
        vec![Step::Error(PcscError::Transport("boom".to_owned()))],
        CommandApdu::from_slice(&[0x00, 0xA4]),
    );
    match outcome {
        Err(PcscError::Transport(msg)) => assert_eq!(msg, "boom"),
        other => panic!("expected propagated Transport error, got {other:?}"),
    }
}

#[test]
fn hard_error_from_chain_transmit_propagates() {
    let (outcome, _) = drive(
        vec![
            reply(&[0x01], SW1_BYTES_AVAILABLE, 0x02),
            Step::Error(PcscError::Pcsc(fault(PcscFaultKind::Other))),
        ],
        CommandApdu::from_slice(&[0x00, 0xCA, 0x00, 0x00, 0x00]),
    );
    assert!(matches!(outcome, Err(PcscError::Pcsc(_))));
}


#[test]
fn pcsc_error_kind_classification() {
    assert_eq!(
        PcscError::Pcsc(fault(PcscFaultKind::NoSmartcard)).kind(),
        TransportErrorKind::NoCard
    );
    assert_eq!(
        PcscError::Pcsc(fault(PcscFaultKind::RemovedCard)).kind(),
        TransportErrorKind::ReaderRemoved
    );
    assert_eq!(
        PcscError::Pcsc(fault(PcscFaultKind::ResetCard)).kind(),
        TransportErrorKind::CardReset
    );
    assert_eq!(
        PcscError::Pcsc(fault(PcscFaultKind::Other)).kind(),
        TransportErrorKind::Backend
    );
    assert_eq!(
        PcscError::Transport("x".to_owned()).kind(),
        TransportErrorKind::Backend
    );
}

#[test]
fn pcsc_error_display_arms() {
    assert_eq!(
        PcscError::Transport("boom".to_owned()).message(),
        "PCSC transport: boom"
    );
    let pcsc_display = PcscError::Pcsc(fault(PcscFaultKind::NoSmartcard)).message();
    assert!(
        pcsc_display.starts_with("PCSC: "),
        "unexpected Display: {pcsc_display}"
    );
}
