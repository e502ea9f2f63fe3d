use refineid::text::{
    AlphaNumString, AlphaString, Host, HostError, LowerAlphaNumString, LowerAlphaString,
    LowerTokenString, Scheme, TokenString, Uri, UriCharError, UriError, MAX_HOST_LEN, MAX_URI_LEN,
};

#[test]
fn charset_members_admit_and_deny() {
    let Ok(_) = AlphaString::parse("AbcXYZ".to_owned()) else {
        unreachable!()
    };
    let Err(_) = AlphaString::parse("Abc1".to_owned()) else {
        unreachable!()
    };
    let Ok(_) = LowerAlphaString::parse("abc".to_owned()) else {
        unreachable!()
    };
    let Err(_) = LowerAlphaString::parse("Abc".to_owned()) else {
        unreachable!()
    };

    let Ok(_) = AlphaNumString::parse("Abc123".to_owned()) else {
        unreachable!()
    };
    let Err(_) = AlphaNumString::parse("abc_1".to_owned()) else {
        unreachable!()
    };
    let Ok(_) = LowerAlphaNumString::parse("abc123".to_owned()) else {
        unreachable!()
    };
    let Err(_) = LowerAlphaNumString::parse("Abc123".to_owned()) else {
        unreachable!()
    };

    let Ok(_) = TokenString::parse("Telia.FTN-1".to_owned()) else {
        unreachable!()
    };
    let Ok(_) = LowerTokenString::parse("telia.ftn.oidc.hst.1".to_owned()) else {
        unreachable!()
    };
    let Ok(_) = LowerTokenString::parse("rsa_pkcs1_sha256".to_owned()) else {
        unreachable!()
    };
    let Err(_) = LowerTokenString::parse("Telia".to_owned()) else {
        unreachable!()
    };
}

#[test]
fn emoji_is_always_an_alien() {
    let alien = "ok\u{1F47E}".to_owned();
    let Err(_) = AlphaString::parse(alien.clone()) else {
        unreachable!()
    };
    let Err(_) = LowerAlphaNumString::parse(alien.clone()) else {
        unreachable!()
    };
    let Err(_) = TokenString::parse(alien.clone()) else {
        unreachable!()
    };
    let Err(_) = Uri::parse(alien) else {
        unreachable!()
    };
}

#[test]
fn uri_deconstructs_all_components() {
    let Ok(uri) = Uri::parse(
        "https://broker.example.test/uas/authn/x/select?entityID=ea339bdc&method=hst.1"
            .to_owned(),
    ) else {
        unreachable!()
    };
    assert_eq!(uri.scheme(), Scheme::Https);
    assert_eq!(uri.host().to_text(), "broker.example.test");
    assert_eq!(uri.port(), 443);
    assert_eq!(uri.path().to_text(), "/uas/authn/x/select");
    assert_eq!(uri.query().to_text(), "entityID=ea339bdc&method=hst.1");
    assert!(!uri.query().is_empty());
}

#[test]
fn uri_normalises_scheme_host_and_path() {
    let Ok(uri) = Uri::parse("HTTP://SP.Example.TEST".to_owned()) else {
        unreachable!()
    };
    assert_eq!(uri.scheme(), Scheme::Http);
    assert_eq!(uri.host().to_text(), "sp.example.test");
    assert_eq!(uri.port(), 80);
    assert_eq!(uri.path().to_text(), "/");
    assert!(uri.query().is_empty());
}

#[test]
fn uri_reconstructs_via_display() {
    let Ok(elided) = Uri::parse("https://sp.example.test:443/app/?x=1".to_owned()) else {
        unreachable!()
    };
    assert_eq!(elided.to_text(), "https://sp.example.test/app/?x=1");
    let Ok(kept) = Uri::parse("https://idp.example.test:8443/saml2/SSO".to_owned()) else {
        unreachable!()
    };
    assert_eq!(kept.to_text(), "https://idp.example.test:8443/saml2/SSO");
    let Ok(fragment) = Uri::parse("https://sp.example.test/app/#section".to_owned()) else {
        unreachable!()
    };
    assert_eq!(fragment.to_text(), "https://sp.example.test/app/");
}

#[test]
fn uri_join_resolves_redirects() {
    let Ok(base) = Uri::parse("https://sp.example.test/app/login".to_owned()) else {
        unreachable!()
    };
    let join = |location: &str| {
        base.join(location.to_owned())
            .unwrap_or_else(|_| unreachable!())
            .to_text()
    };
    assert_eq!(
        join("https://other.example.test/x"),
        "https://other.example.test/x"
    );
    assert_eq!(join("//cdn.example.test/y"), "https://cdn.example.test/y");
    assert_eq!(join("/api/v1"), "https://sp.example.test/api/v1");
    assert_eq!(join("step2"), "https://sp.example.test/app/step2");
}

#[test]
fn uri_rejects_non_http_schemes() {
    for bad in [
        "ldap://x/",
        "ftp://x/",
        "sp.example.test/p",
        "https%3A%2F%2Fx%2F",
    ] {
        assert_eq!(Uri::parse(bad.to_owned()), Err(UriError::Scheme), "{bad}");
    }
}

#[test]
fn uri_rejects_structural_faults() {
    assert_eq!(
        Uri::parse("https://user@host.example.test/".to_owned()),
        Err(UriError::Userinfo)
    );
    assert_eq!(
        Uri::parse("https://host.example.test:99999/".to_owned()),
        Err(UriError::BadPort)
    );
    assert_eq!(
        Uri::parse("https://host.example.test:0/".to_owned()),
        Err(UriError::BadPort)
    );
    assert_eq!(
        Uri::parse("https://host.example.test:+443/".to_owned()),
        Err(UriError::BadPort)
    );
    let over = format!("https://host.example.test/{}", "a".repeat(MAX_URI_LEN));
    assert!(matches!(Uri::parse(over), Err(UriError::TooLong { .. })));
    assert!(matches!(
        Uri::parse("https://host.example.test/p?a%2".to_owned()),
        Err(UriError::Query(UriCharError::MalformedEscape { .. }))
    ));
}

#[test]
fn host_enforces_dns_limits() {
    assert_eq!(Host::parse(String::new()), Err(HostError::Empty));
    assert_eq!(Host::parse("a..b".to_owned()), Err(HostError::EmptyLabel));
    assert!(matches!(
        Host::parse("a".repeat(64)),
        Err(HostError::LabelTooLong { len: 64 })
    ));
    let over_total = vec!["a"; 128].join(".");
    assert!(matches!(
        Host::parse(over_total),
        Err(HostError::TooLong { .. })
    ));
    assert_eq!(
        Host::parse("under_score".to_owned()),
        Err(HostError::Byte { byte: 0x5F })
    );
    assert_eq!(
        Host::parse("-foo.example.test".to_owned()),
        Err(HostError::LabelHyphenBoundary)
    );
    assert_eq!(
        Host::parse("foo-.example.test".to_owned()),
        Err(HostError::LabelHyphenBoundary)
    );
    let Ok(_) = Host::parse("a-b.example.test".to_owned()) else {
        unreachable!()
    };
    let Ok(_) = Host::parse("idp.example.test".to_owned()) else {
        unreachable!()
    };
}

#[test]
fn host_length_boundary() {
    let at_limit = vec!["a"; 127].join("."); // 127 + 126 dots = 253
    assert_eq!(at_limit.len(), MAX_HOST_LEN);
    let Ok(_) = Host::parse(at_limit) else {
        unreachable!()
    };
    let over = format!("{}a", vec!["a"; 127].join(".")); // 254
    assert!(matches!(
        Host::parse(over),
        Err(HostError::TooLong { len: 254 })
    ));
}

#[test]
fn uri_round_trip_is_idempotent() {
    for raw in [
        "https://broker.example.test/uas/authn/x?entityID=ea339bdc&method=hst.1",
        "http://sp.example.test/",
        "https://idp.example.test:8443/saml2/SSO",
        "https://sp.example.test/app/#frag",
        "https://host.example.test/p?a=1",
        "https://host.example.test/a%2Fb?q=%2F",
    ] {
        let Ok(once) = Uri::parse(raw.to_owned()) else {
            unreachable!()
        };
        let Ok(twice) = Uri::parse(once.to_text()) else {
            unreachable!()
        };
        assert_eq!(once, twice, "round-trip changed: {raw}");
    }
}

#[test]
fn uri_rejects_truncated_escape_at_end() {
    for bad in [
        "https://host.example.test/p%",
        "https://host.example.test/p%a",
        "https://host.example.test/?q%a",
    ] {
        assert!(
            matches!(
                Uri::parse(bad.to_owned()),
                Err(UriError::Path(UriCharError::MalformedEscape { .. })
                    | UriError::Query(UriCharError::MalformedEscape { .. }))
            ),
            "{bad}"
        );
    }
}

#[test]
fn uri_multi_colon_authority_rejected() {
    assert_eq!(
        Uri::parse("https://h.example.test:8080:9090/".to_owned()),
        Err(UriError::Host(HostError::Byte { byte: 0x3A }))
    );
}
