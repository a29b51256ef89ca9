use minihttp::error::ChError;
use minihttp::headers::Headers;

#[test]
fn headers_parse_crlf_and_lf_agree() {
    let crlf = Headers::parse("Host: example.com\r\nAccept: */*\r\n").unwrap();
    let lf = Headers::parse("Host: example.com\nAccept: */*").unwrap();
    for h in [&crlf, &lf] {
        assert_eq!(h.get("Host").unwrap(), "example.com");
        assert_eq!(h.get("HOST").unwrap(), "example.com");
        assert_eq!(h.get("host").unwrap(), "example.com");
        assert_eq!(h.get("accept").unwrap(), "*/*");
    }
}

#[test]
fn headers_parse_trims_values() {
    let h = Headers::parse("Host:    example.com   \n").unwrap();
    assert_eq!(h.get("host").unwrap(), "example.com");
}

#[test]
fn headers_parse_duplicate_last_wins() {
    let h = Headers::parse("X-One: a\r\nX-One: b\r\n").unwrap();
    assert_eq!(h.get("x-one").unwrap(), "b");
}

#[test]
fn headers_parse_missing_colon_fails() {
    assert!(matches!(
        Headers::parse("Host: example.com\r\nbroken line\r\n"),
        Err(ChError::HeaderParse(_))
    ));
}

#[test]
fn headers_parse_empty_fails() {
    assert!(matches!(Headers::parse(""), Err(ChError::EmptyHeader)));
    assert!(matches!(Headers::parse("   \r\n  "), Err(ChError::EmptyHeader)));
}

#[test]
fn headers_insert_lowercases_and_returns_previous() {
    let mut h = Headers::new();
    assert_eq!(h.insert("Content-Type", "text/html"), None);
    assert_eq!(
        h.insert("CONTENT-TYPE", "text/plain"),
        Some("text/html".to_string())
    );
    assert_eq!(h.get("content-type").unwrap(), "text/plain");
    let entries = h.iter();
    assert_eq!(entries.len(), 1);
    assert_eq!(entries[0].0, "content-type");
}

#[test]
fn headers_remove_is_case_insensitive() {
    let mut h = Headers::new();
    h.insert("Connection", "close");
    assert_eq!(h.remove("CONNECTION"), Some("close".to_string()));
    assert_eq!(h.remove("connection"), None);
    assert_eq!(h.get("connection"), None);
}

#[test]
fn headers_serialize_lists_every_entry() {
    let mut h = Headers::new();
    h.insert("Host", "example.com");
    h.insert("Accept", "*/*");
    let s = h.serialize();
    assert!(s.contains("host: example.com\r\n"));
    assert!(s.contains("accept: */*\r\n"));
}

#[test]
fn headers_parse_then_serialize_keeps_pairs() {
    let h = Headers::parse("A: 1\r\nB: 2\r\n").unwrap();
    let s = h.serialize();
    assert!(s.contains("a: 1\r\n"));
    assert!(s.contains("b: 2\r\n"));
}
