use refineid::ber::{tlv, tlv2, BerBody, BerError, BerTlvAny};
use refineid::bytes::{be_mod, contains_bytes, copy_range, u16_be, u32_be};
use refineid::der::{DerAny, DerBody};
use refineid::render::{hex_text, push_dec, push_hex4};

#[test]
fn objects_are_read_back_as_they_were_written() {
    for len in [0_usize, 1, 0x7F, 0x80, 0xFF, 0x100, 0xFFFF, 0x1_0000] {
        let value: Vec<u8> = (0..len).map(|i| (i % 251) as u8).collect();
        let mut bytes = tlv(0x87, &value);
        let size = bytes.len();
        bytes.extend_from_slice(&[0xDE, 0xAD]);
        let (object, n) = BerTlvAny::read(&bytes).expect("reads");
        assert_eq!(object.tag, 0x87);
        assert_eq!(object.value, value.as_slice());
        assert_eq!(n, size);
    }
}

#[test]
fn lengths_have_their_shortest_form() {
    assert_eq!(tlv(0x04, &[0xAA; 2]), vec![0x04, 0x02, 0xAA, 0xAA]);
    assert_eq!(tlv(0x04, &[0; 0x80])[..3], [0x04, 0x81, 0x80]);
    assert_eq!(tlv(0x04, &[0; 0x100])[..4], [0x04, 0x82, 0x01, 0x00]);
    assert_eq!(tlv(0x04, &[0; 0x1_0000])[..5], [0x04, 0x83, 0x01, 0x00, 0x00]);
    assert_eq!(tlv2(0x7F49, &[0x01])[..4], [0x7F, 0x49, 0x01, 0x01]);
}

#[test]
fn objects_that_cannot_be_read() {
    assert_eq!(BerTlvAny::parse(&[]).expect_err("empty"), BerError::Truncated);
    assert_eq!(BerTlvAny::parse(&[0x30]).expect_err("no length"), BerError::Truncated);
    assert_eq!(BerTlvAny::parse(&[0x30, 0x02, 0x00]).expect_err("short"), BerError::Truncated);
    assert_eq!(BerTlvAny::parse(&[0x30, 0x80]).expect_err("indefinite"), BerError::Length);
    assert_eq!(BerTlvAny::parse(&[0x30, 0x85, 1, 1, 1, 1, 1]).expect_err("long"), BerError::Length);
    assert_eq!(
        BerTlvAny::parse_tagged(&[0x31, 0x00], 0x30).expect_err("other tag"),
        BerError::UnexpectedTag { got: 0x31 }
    );
}

#[test]
fn a_row_of_objects_is_read_up_to_the_first_fault() {
    let mut bytes = tlv(0x99, &[0x90, 0x00]);
    bytes.extend_from_slice(&tlv(0x8E, &[1; 8]));
    let body = BerBody::read(&bytes);
    assert!(body.clean);
    assert_eq!(body.items.len(), 2);
    bytes.push(0x30);
    let body = BerBody::read(&bytes);
    assert!(!body.clean);
    assert_eq!(body.items.len(), 2);
}

#[test]
fn der_elements_are_read_as_they_stand() {
    let mut bytes = vec![0x30, 0x03, 0x02, 0x01, 0x05];
    let any = DerAny::from_der(&bytes).expect("one element");
    assert_eq!(any.tag, 0x30);
    assert_eq!(any.value, &[0x02, 0x01, 0x05]);
    assert!(DerAny::tagged(&bytes, 0x31).is_none());
    bytes.extend_from_slice(&[0x05, 0x00]);
    assert!(DerAny::from_der(&bytes).is_none());
    let body = DerBody::read(&bytes);
    assert!(body.complete);
    assert_eq!(body.items, vec![&bytes[..5], &bytes[5..]]);
}

#[test]
fn der_is_stricter_than_ber() {
    let mut long = vec![0x04, 0x81, 0x7F];
    long.extend_from_slice(&[0; 0x7F]);
    assert!(DerAny::from_der(&long).is_none());
    assert!(BerTlvAny::parse(&long).is_ok());
    let mut fitting = vec![0x04, 0x81, 0x80];
    fitting.extend_from_slice(&[0; 0x80]);
    assert_eq!(DerAny::from_der(&fitting).expect("shortest form").value.len(), 0x80);
    assert!(DerAny::from_der(&[0x21, 0x00]).is_none());
    assert!(DerAny::from_der(&[0x04, 0x80, 0x00, 0x00]).is_none());
    assert!(DerAny::from_der(&[0x9F, 0x1F, 0x01, 0xAA]).is_some());
    let body = DerBody::read(&[0x05, 0x00, 0x21, 0x00]);
    assert!(!body.complete);
    assert_eq!(body.items.len(), 1);
}

#[test]
fn numbers_are_rendered() {
    let mut text = String::new();
    push_dec(&mut text, 0);
    push_dec(&mut text, 1024);
    assert_eq!(text, "01024");
    let mut word = String::new();
    push_hex4(&mut word, 0x6A0F);
    assert_eq!(word, "6A0F");
    assert_eq!(hex_text(&[0x00, 0xAF]), "00af");
}

#[test]
fn byte_strings_are_searched_and_cut() {
    assert!(contains_bytes(b"Reader B PICC", b"B PICC"));
    assert!(contains_bytes(b"abc", b""));
    assert!(!contains_bytes(b"ab", b"abc"));
    assert_eq!(copy_range(b"abcdef", 2, 4), b"cd".to_vec());
    assert_eq!(u16_be(0x0102), vec![1, 2]);
    assert_eq!(u32_be(0x01020304), vec![1, 2, 3, 4]);
    assert_eq!(be_mod(&[0x01, 0x00, 0x00, 0x00, 0x05], 0x1_0000_0000), 5);
}
