use refineid::pin::{ActivationCode, ActivationPinEight, ActivationPinSeven, PinBytes, PinRoleError, Puk};

fn pin<const N: usize>(bytes: &[u8; N]) -> PinBytes {
    PinBytes::from_array(*bytes).expect("valid test PIN")
}

#[test]
fn debug_does_not_leak_bytes() {
    let p = pin(b"1234");
    let s = p.debug_text();
    assert_eq!(s, "PinBytes([redacted])");
}

#[test]
fn len_tracks_inner() {
    let p = pin(b"1234");
    assert_eq!(p.digit_count(), 4);
}

#[test]
fn rejects_empty_short_and_long_inputs() {
    assert!(matches!(
        PinBytes::new(Vec::new()),
        Err(PinRoleError::Empty)
    ));
    assert!(matches!(
        PinBytes::from_array(*b"123"),
        Err(PinRoleError::WrongLength { got: 3, .. })
    ));
    assert!(matches!(
        PinBytes::from_array([b'1'; PinBytes::MAX_LENGTH + 1]),
        Err(PinRoleError::WrongLength { got: 13, .. })
    ));
}

#[test]
fn rejects_non_digit_input() {
    assert!(matches!(
        PinBytes::from_array(*b"12a4"),
        Err(PinRoleError::NonDigit { at: 2 })
    ));
}

#[test]
fn as_bytes_returns_input() {
    let p = pin(b"1234");
    assert_eq!(p.as_bytes(), b"1234");
}

#[test]
fn puk_accepts_eight_digits() {
    let p = Puk::new(pin(b"12345678")).expect("eight-digit PUK is valid");
    assert_eq!(p.digit_count(), 8);
    assert_eq!(p.as_bytes(), b"12345678");
}

#[test]
fn puk_accepts_seven_digits() {
    let p = Puk::new(pin(b"1234567")).expect("seven-digit PUK is valid");
    assert_eq!(p.digit_count(), 7);
    assert_eq!(p.as_bytes(), b"1234567");
}

#[test]
fn puk_rejects_lengths_outside_seven_or_eight() {
    assert!(matches!(
        Puk::new(pin(b"123456")),
        Err(PinRoleError::WrongLength { got: 6, .. })
    ));
    assert!(matches!(
        Puk::new(pin(b"123456789")),
        Err(PinRoleError::WrongLength { got: 9, .. })
    ));
}

#[test]
fn pin_bytes_rejects_letter_before_puk_construction() {
    assert!(matches!(
        PinBytes::from_array(*b"1234567a"),
        Err(PinRoleError::NonDigit { at: 7 })
    ));
}

#[test]
fn activation_pin_seven_accepts_seven_digits() {
    let a =
        ActivationPinSeven::new(pin(b"1234567")).expect("seven-digit activation PIN is valid");
    assert_eq!(a.digit_count(), 7);
}

#[test]
fn activation_pin_seven_rejects_eight_digits() {
    assert!(matches!(
        ActivationPinSeven::new(pin(b"12345678")),
        Err(PinRoleError::WrongLength { got: 8, .. })
    ));
}

#[test]
fn activation_pin_eight_accepts_eight_digits() {
    let a =
        ActivationPinEight::new(pin(b"12345678")).expect("eight-digit activation PIN is valid");
    assert_eq!(a.digit_count(), 8);
}

#[test]
fn activation_pin_eight_rejects_seven_digits() {
    assert!(matches!(
        ActivationPinEight::new(pin(b"1234567")),
        Err(PinRoleError::WrongLength { got: 7, .. })
    ));
}

#[test]
fn activation_code_seven_variant() {
    let a =
        ActivationPinSeven::new(pin(b"1234567")).expect("seven-digit activation PIN is valid");
    let c = ActivationCode::Seven(a);
    assert_eq!(c.variant_label(), "ActivationPinSeven");
    assert_eq!(c.as_bytes(), b"1234567");
}

#[test]
fn activation_code_eight_variant() {
    let a =
        ActivationPinEight::new(pin(b"12345678")).expect("eight-digit activation PIN is valid");
    let c = ActivationCode::Eight(a);
    assert_eq!(c.variant_label(), "ActivationPinEight");
    assert_eq!(c.as_bytes(), b"12345678");
}

#[test]
fn puk_debug_redacts() {
    let p = Puk::new(pin(b"12345678")).expect("eight-digit PUK is valid");
    assert_eq!(p.debug_text(), "Puk([redacted])");
}

#[test]
fn activation_pin_seven_debug_redacts() {
    let a =
        ActivationPinSeven::new(pin(b"1234567")).expect("seven-digit activation PIN is valid");
    assert_eq!(a.debug_text(), "ActivationPinSeven([redacted])");
}

#[test]
fn activation_pin_eight_debug_redacts() {
    let a =
        ActivationPinEight::new(pin(b"12345678")).expect("eight-digit activation PIN is valid");
    assert_eq!(a.debug_text(), "ActivationPinEight([redacted])");
}

#[test]
fn activation_code_debug_redacts_and_labels_variant() {
    let s = ActivationCode::Seven(
        ActivationPinSeven::new(pin(b"1234567")).expect("seven-digit activation PIN is valid"),
    );
    assert_eq!(
        s.debug_text(),
        "ActivationCode::ActivationPinSeven([redacted])"
    );
    let e = ActivationCode::Eight(
        ActivationPinEight::new(pin(b"12345678")).expect("eight-digit activation PIN is valid"),
    );
    assert_eq!(
        e.debug_text(),
        "ActivationCode::ActivationPinEight([redacted])"
    );
}
