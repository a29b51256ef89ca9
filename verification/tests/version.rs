use minihttp::error::ChError;
use minihttp::version::Version;

#[test]
fn version_round_trip() {
    let all = [
        Version::Http09,
        Version::Http10,
        Version::Http11,
        Version::Http2,
        Version::Http3,
    ];
    for v in all {
        assert_eq!(Version::parse(v.as_str()).unwrap(), v);
    }
}

#[test]
fn version_wire_tokens() {
    assert_eq!(Version::Http09.as_str(), "HTTP/0.9");
    assert_eq!(Version::Http10.as_str(), "HTTP/1.0");
    assert_eq!(Version::Http11.as_str(), "HTTP/1.1");
    assert_eq!(Version::Http2.as_str(), "HTTP/2.0");
    assert_eq!(Version::Http3.as_str(), "HTTP/3.0");
}

#[test]
fn version_parse_case_insensitive() {
    assert_eq!(Version::parse("http/1.1").unwrap(), Version::Http11);
    assert_eq!(Version::parse("Http/2.0").unwrap(), Version::Http2);
}

#[test]
fn version_parse_empty_is_missing() {
    assert!(matches!(Version::parse(""), Err(ChError::EmptyVersion)));
}

#[test]
fn version_parse_unsupported_carries_token() {
    match Version::parse("HTTP/9.9") {
        Err(ChError::VersionUnsupported(tok)) => assert_eq!(tok, "HTTP/9.9"),
        other => panic!("unexpected result: {:?}", other),
    }
    assert!("SPDY/3".parse::<Version>().is_err());
}

#[test]
fn version_default_is_http11() {
    assert_eq!(Version::default(), Version::Http11);
}
