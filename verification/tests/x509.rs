use refineid::x509::{
    extract_crl_distribution_urls, extract_ocsp_urls, extract_subject_alt_emails, Certificate,
    DateTime, X509Error,
};
use spki::der::asn1::{GeneralizedTime, UtcTime};
use spki::der::Encode;

const TEST_CRL_URL: &str = "http://crl.example.com/example.crl";
const TEST_OCSP_URL: &str = "http://ocsp.example.com/";

#[derive(Clone, Copy)]
struct TlvFixture<'a> {
    tag: u8,
    value: &'a [u8],
}

#[derive(Clone, Copy)]
struct CertFixture<'a> {
    version_explicit: Option<&'a [u8]>,
    serial: &'a [u8],
    issuer: &'a [u8],
    not_before: &'a [u8],
    not_after: &'a [u8],
    subject: &'a [u8],
    extensions: Option<&'a [u8]>,
}

fn build_cert(fixture: CertFixture<'_>) -> Vec<u8> {
    let sig_alg: Vec<u8> = vec![
        0x30, 0x0D, 0x06, 0x09, 0x2A, 0x86, 0x48, 0x86, 0xF7, 0x0D, 0x01, 0x01, 0x0B, 0x05,
        0x00,
    ];
    let spki = {
        let mut v = Vec::new();
        v.push(0x30);
        let body: Vec<u8> = {
            let mut b = sig_alg.clone();
            b.extend_from_slice(&[0x03, 0x05, 0x00, 0xAA, 0xBB, 0xCC, 0xDD]);
            b
        };
        push_len(&mut v, body.len());
        v.extend_from_slice(&body);
        v
    };
    let validity = {
        let mut body = Vec::new();
        body.extend_from_slice(fixture.not_before);
        body.extend_from_slice(fixture.not_after);
        wrap(TlvFixture {
            tag: 0x30,
            value: &body,
        })
    };
    let mut tbs_body = Vec::new();
    if let Some(v) = fixture.version_explicit {
        tbs_body.extend_from_slice(v);
    }
    tbs_body.extend_from_slice(&wrap(TlvFixture {
        tag: 0x02,
        value: fixture.serial,
    }));
    tbs_body.extend_from_slice(&sig_alg);
    tbs_body.extend_from_slice(fixture.issuer);
    tbs_body.extend_from_slice(&validity);
    tbs_body.extend_from_slice(fixture.subject);
    tbs_body.extend_from_slice(&spki);
    if let Some(ext_list_bytes) = fixture.extensions {
        let ext_seq = wrap(TlvFixture {
            tag: 0x30,
            value: ext_list_bytes,
        });
        let ext_wrap = wrap(TlvFixture {
            tag: 0xA3,
            value: &ext_seq,
        });
        tbs_body.extend_from_slice(&ext_wrap);
    }
    let tbs = wrap(TlvFixture {
        tag: 0x30,
        value: &tbs_body,
    });
    let signature_bit_string: Vec<u8> = vec![0x03, 0x05, 0x00, 0xDE, 0xAD, 0xBE, 0xEF];
    let mut outer_body = Vec::new();
    outer_body.extend_from_slice(&tbs);
    outer_body.extend_from_slice(&sig_alg);
    outer_body.extend_from_slice(&signature_bit_string);
    wrap(TlvFixture {
        tag: 0x30,
        value: &outer_body,
    })
}

const DER_SHORT_FORM_CEILING: u8 = 0x80;

fn push_len(out: &mut Vec<u8>, n: usize) {
    match u8::try_from(n) {
        Ok(short) if short < DER_SHORT_FORM_CEILING => out.push(short),
        Ok(short) => {
            out.push(0x81);
            out.push(short);
        }
        Err(_) => {
            let long = u16::try_from(n).expect("test TLV lengths fit in u16");
            let [high_byte, low_byte] = long.to_be_bytes();
            out.push(0x82);
            out.push(high_byte);
            out.push(low_byte);
        }
    }
}

fn wrap(tlv: TlvFixture<'_>) -> Vec<u8> {
    let mut v = Vec::with_capacity(tlv.value.len() + 4);
    v.push(tlv.tag);
    push_len(&mut v, tlv.value.len());
    v.extend_from_slice(tlv.value);
    v
}

fn name_cn_hello() -> Vec<u8> {
    let atv_body = {
        let mut b = vec![0x06, 0x03, 0x55, 0x04, 0x03];
        b.extend_from_slice(&[0x0C, 0x05, b'H', b'e', b'l', b'l', b'o']);
        b
    };
    let atv = wrap(TlvFixture {
        tag: 0x30,
        value: &atv_body,
    });
    let rdn = wrap(TlvFixture {
        tag: 0x31,
        value: &atv,
    });
    wrap(TlvFixture {
        tag: 0x30,
        value: &rdn,
    })
}

fn name_cn_sample() -> Vec<u8> {
    let cn_bytes = b"Sample Subject";
    let cn_len = u8::try_from(cn_bytes.len()).expect("14-byte CN fits in u8");
    let atv_body = {
        let mut b = vec![0x06, 0x03, 0x55, 0x04, 0x03, 0x0C, cn_len];
        b.extend_from_slice(cn_bytes);
        b
    };
    let atv = wrap(TlvFixture {
        tag: 0x30,
        value: &atv_body,
    });
    let rdn = wrap(TlvFixture {
        tag: 0x31,
        value: &atv,
    });
    wrap(TlvFixture {
        tag: 0x30,
        value: &rdn,
    })
}

fn dt(year: u16, month: u8, day: u8, hour: u8, minute: u8, second: u8) -> DateTime {
    DateTime::new(year, month, day, hour, minute, second).expect("valid fixture date")
}

fn utc_time(dt: DateTime) -> Vec<u8> {
    let outside = spki::der::DateTime::new(
        dt.year(),
        dt.month(),
        dt.day(),
        dt.hour(),
        dt.minutes(),
        dt.seconds(),
    )
    .expect("valid fixture date");
    UtcTime::from_date_time(outside)
        .expect("fixture date in the UTCTime window")
        .to_der()
        .expect("UTCTime encodes")
}

fn gen_time(dt: DateTime) -> Vec<u8> {
    let outside = spki::der::DateTime::new(
        dt.year(),
        dt.month(),
        dt.day(),
        dt.hour(),
        dt.minutes(),
        dt.seconds(),
    )
    .expect("valid fixture date");
    GeneralizedTime::from_date_time(outside)
        .to_der()
        .expect("GeneralizedTime encodes")
}

#[test]
fn parses_minimal_v3_cert_without_extensions() {
    let cert = build_cert(CertFixture {
        version_explicit: Some(&[0xA0, 0x03, 0x02, 0x01, 0x02]),
        serial: &[0x01, 0x23, 0x45],
        issuer: &name_cn_hello(),
        not_before: &utc_time(dt(2026, 1, 1, 0, 0, 0)),
        not_after: &utc_time(dt(2031, 1, 1, 0, 0, 0)),
        subject: &name_cn_sample(),
        extensions: None,
    });
    let parsed = Certificate::from_der(&cert).expect("parses");
    assert_eq!(parsed.serial_der, &[0x01, 0x23, 0x45]);
    assert_eq!(
        parsed.not_before,
        DateTime::new(2026, 1, 1, 0, 0, 0).expect("valid notBefore")
    );
    assert_eq!(
        parsed.not_after,
        DateTime::new(2031, 1, 1, 0, 0, 0).expect("valid notAfter")
    );
    assert!(parsed.extensions.is_none());
    assert_eq!(
        parsed.subject.common_name().as_deref(),
        Some("Sample Subject")
    );
    assert_eq!(parsed.issuer.common_name().as_deref(), Some("Hello"));
}

#[test]
fn parses_generalized_time() {
    let cert = build_cert(CertFixture {
        version_explicit: Some(&[0xA0, 0x03, 0x02, 0x01, 0x02]),
        serial: &[0x01],
        issuer: &name_cn_hello(),
        not_before: &gen_time(dt(2100, 1, 1, 12, 0, 0)),
        not_after: &gen_time(dt(2150, 1, 1, 12, 0, 0)),
        subject: &name_cn_sample(),
        extensions: None,
    });
    let parsed = Certificate::from_der(&cert).expect("parses");
    assert_eq!(parsed.not_before.year(), 2100);
    assert_eq!(parsed.not_before.hour(), 12);
    assert_eq!(parsed.not_after.year(), 2150);
}

#[test]
fn utc_time_yy_below_50_is_2000s() {
    let cert = build_cert(CertFixture {
        version_explicit: None,
        serial: &[0x01],
        issuer: &name_cn_hello(),
        not_before: &utc_time(dt(2049, 1, 1, 0, 0, 0)),
        not_after: &utc_time(dt(1999, 1, 1, 0, 0, 0)),
        subject: &name_cn_sample(),
        extensions: None,
    });
    let parsed = Certificate::from_der(&cert).expect("parses");
    assert_eq!(parsed.not_before.year(), 2049);
    assert_eq!(parsed.not_after.year(), 1999);
}

#[test]
fn rejects_garbage_time() {
    let bad_time = {
        let mut v = vec![0x17, 13];
        v.extend_from_slice(b"YYMMDDHHMMSSZ");
        v
    };
    let cert = build_cert(CertFixture {
        version_explicit: None,
        serial: &[0x01],
        issuer: &name_cn_hello(),
        not_before: &bad_time,
        not_after: &utc_time(dt(2031, 1, 1, 0, 0, 0)),
        subject: &name_cn_sample(),
        extensions: None,
    });
    let err = Certificate::from_der(&cert).expect_err("non-digit time body is rejected");
    assert!(matches!(err, X509Error::InvalidTime));
}

#[test]
fn extracts_crl_distribution_urls() {
    let url = TEST_CRL_URL.as_bytes();
    let url_len = u8::try_from(url.len()).expect("test CRL URL fits in u8");
    let mut gn = vec![0x86, url_len];
    gn.extend_from_slice(url);
    let dp_full = wrap(TlvFixture {
        tag: 0xA0,
        value: &gn,
    });
    let dp_name = wrap(TlvFixture {
        tag: 0xA0,
        value: &dp_full,
    });
    let dp = wrap(TlvFixture {
        tag: 0x30,
        value: &dp_name,
    });
    let cdp_seq = wrap(TlvFixture {
        tag: 0x30,
        value: &dp,
    });
    let extn_value = wrap(TlvFixture {
        tag: 0x04,
        value: &cdp_seq,
    });
    let mut ext_body = vec![0x06, 0x03, 0x55, 0x1D, 0x1F];
    ext_body.extend_from_slice(&extn_value);
    let extension = wrap(TlvFixture {
        tag: 0x30,
        value: &ext_body,
    });
    let extensions_seq_body = extension;
    let cert = build_cert(CertFixture {
        version_explicit: Some(&[0xA0, 0x03, 0x02, 0x01, 0x02]),
        serial: &[0x01],
        issuer: &name_cn_hello(),
        not_before: &utc_time(dt(2026, 1, 1, 0, 0, 0)),
        not_after: &utc_time(dt(2031, 1, 1, 0, 0, 0)),
        subject: &name_cn_sample(),
        extensions: Some(&extensions_seq_body),
    });
    let parsed = Certificate::from_der(&cert).expect("parses");
    let exts = parsed.extensions.expect("extensions present");
    let urls = extract_crl_distribution_urls(exts);
    let rendered: Vec<String> = urls.iter().map(|url| url.to_text()).collect();
    assert_eq!(rendered, vec![TEST_CRL_URL.to_owned()]);
}

#[test]
fn extracts_ocsp_urls() {
    let url = TEST_OCSP_URL.as_bytes();
    let url_len = u8::try_from(url.len()).expect("test OCSP URL fits in u8");
    let mut gn = vec![0x86, url_len];
    gn.extend_from_slice(url);
    let mut ad_body = vec![0x06, 0x08, 0x2B, 0x06, 0x01, 0x05, 0x05, 0x07, 0x30, 0x01];
    ad_body.extend_from_slice(&gn);
    let ad = wrap(TlvFixture {
        tag: 0x30,
        value: &ad_body,
    });
    let aia_seq = wrap(TlvFixture {
        tag: 0x30,
        value: &ad,
    });
    let extn_value = wrap(TlvFixture {
        tag: 0x04,
        value: &aia_seq,
    });
    let mut ext_body = vec![0x06, 0x08, 0x2B, 0x06, 0x01, 0x05, 0x05, 0x07, 0x01, 0x01];
    ext_body.extend_from_slice(&extn_value);
    let extension = wrap(TlvFixture {
        tag: 0x30,
        value: &ext_body,
    });
    let cert = build_cert(CertFixture {
        version_explicit: Some(&[0xA0, 0x03, 0x02, 0x01, 0x02]),
        serial: &[0x01],
        issuer: &name_cn_hello(),
        not_before: &utc_time(dt(2026, 1, 1, 0, 0, 0)),
        not_after: &utc_time(dt(2031, 1, 1, 0, 0, 0)),
        subject: &name_cn_sample(),
        extensions: Some(&extension),
    });
    let parsed = Certificate::from_der(&cert).expect("parses");
    let urls = extract_ocsp_urls(parsed.extensions.expect("extensions present"));
    let rendered: Vec<String> = urls.iter().map(|url| url.to_text()).collect();
    assert_eq!(rendered, vec![TEST_OCSP_URL.to_owned()]);
}

#[test]
fn extracts_subject_alt_emails() {
    let email = b"holder@example.fi";
    let email_len = u8::try_from(email.len()).expect("17-byte email fits in u8");
    let mut gn = vec![0x81, email_len];
    gn.extend_from_slice(email);
    let san_seq = wrap(TlvFixture {
        tag: 0x30,
        value: &gn,
    });
    let extn_value = wrap(TlvFixture {
        tag: 0x04,
        value: &san_seq,
    });
    let mut ext_body = vec![0x06, 0x03, 0x55, 0x1D, 0x11];
    ext_body.extend_from_slice(&extn_value);
    let extension = wrap(TlvFixture {
        tag: 0x30,
        value: &ext_body,
    });
    let cert = build_cert(CertFixture {
        version_explicit: None,
        serial: &[0x01],
        issuer: &name_cn_hello(),
        not_before: &utc_time(dt(2026, 1, 1, 0, 0, 0)),
        not_after: &utc_time(dt(2031, 1, 1, 0, 0, 0)),
        subject: &name_cn_sample(),
        extensions: Some(&extension),
    });
    let parsed = Certificate::from_der(&cert).expect("parses");
    let emails = extract_subject_alt_emails(parsed.extensions.expect("extensions present"));
    let addresses: Vec<&str> = emails.iter().map(|email| email.as_str()).collect();
    assert_eq!(addresses, vec!["holder@example.fi"]);
}

#[test]
fn datetime_ordering_matches_lex_order() {
    let a = DateTime::new(2026, 5, 23, 12, 0, 0).expect("valid a");
    let b = DateTime::new(2026, 5, 23, 12, 0, 1).expect("valid b");
    let c = DateTime::new(2027, 1, 1, 0, 0, 0).expect("valid c");
    assert!(a < b);
    assert!(b < c);
    assert!(a < c);
}
