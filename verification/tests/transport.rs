use refineid::atr::{Atr, AtrError, MINIMAL_DIRECT_ATR};
use refineid::render::hex_text;
use refineid::transport::{
    CardTransport, CommandApdu, ResponseApdu, TransportErrorKind, TransportOutcome,
};

struct MockTransport {
    atr: Vec<u8>,
    script: Vec<(Vec<u8>, ResponseApdu)>,
    cursor: usize,
}

impl MockTransport {
    fn new(atr: Vec<u8>, script: Vec<(Vec<u8>, ResponseApdu)>) -> Self {
        Self {
            atr,
            script,
            cursor: 0,
        }
    }
}

impl CardTransport for MockTransport {
    type Error = String;

    fn transmit_outcome(
        &mut self,
        apdu: &CommandApdu,
    ) -> Result<TransportOutcome, Self::Error> {
        let (expected, response) = self.script.get(self.cursor).ok_or_else(|| {
            format!("MockTransport: script exhausted at step {}", self.cursor)
        })?;
        if expected != apdu.as_bytes() {
            return Err(format!(
                "MockTransport step {}: expected {} but got {}",
                self.cursor,
                hex_text(expected),
                hex_text(apdu.as_bytes()),
            ));
        }
        self.cursor += 1;
        Ok(TransportOutcome::Response(response.clone()))
    }

    fn atr(&self) -> Result<Atr, AtrError> {
        Atr::new(&self.atr)
    }
}

#[test]
fn apdu_response_status_helpers() {
    let ok = ResponseApdu {
        body: vec![],
        sw1: 0x90,
        sw2: 0x00,
    };
    assert!(ok.is_ok());
    assert_eq!(ok.sw(), 0x9000);

    let pin_wrong = ResponseApdu {
        body: vec![],
        sw1: 0x63,
        sw2: 0xC3,
    };
    assert!(!pin_wrong.is_ok());
    assert_eq!(pin_wrong.sw(), 0x63C3);
}

#[test]
fn transport_outcome_preserves_fault_kind() {
    assert_eq!(
        TransportOutcome::CardReset.kind(),
        Some(TransportErrorKind::CardReset)
    );
    assert_eq!(
        TransportOutcome::Response(ResponseApdu {
            body: vec![],
            sw1: 0x90,
            sw2: 0x00,
        })
        .kind(),
        None
    );
}

#[test]
fn mock_transport_drives_a_script() {
    let mut tx = MockTransport::new(
        MINIMAL_DIRECT_ATR.to_vec(),
        vec![(
            vec![0x00, 0xA4, 0x00, 0x0C, 0x02, 0x3F, 0x00],
            ResponseApdu {
                body: vec![],
                sw1: 0x90,
                sw2: 0x00,
            },
        )],
    );
    let r = tx
        .transmit(&[0x00, 0xA4, 0x00, 0x0C, 0x02, 0x3F, 0x00])
        .expect("scripted SELECT MF transmit succeeds");
    assert!(r.is_ok());
    assert_eq!(
        tx.atr().expect("mock exposes its ATR").to_wire_bytes(),
        MINIMAL_DIRECT_ATR
    );
}
