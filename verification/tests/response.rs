use minihttp::response::Response;
use minihttp::version::Version;

#[test]
fn response_default_shape() {
    let r = Response::default();
    assert_eq!(r.version, Version::Http11);
    assert_eq!(r.status_code, 200);
    assert_eq!(r.reason, "OK");
    assert_eq!(r.headers.get("content-type").unwrap(), "text/html");
    assert_eq!(r.headers.get("connection").unwrap(), "close");
    assert!(r.body.is_empty());
}

#[test]
fn response_body_sets_content_length() {
    let mut r = Response::default();
    r.body(b"hello".to_vec());
    let bytes = r.to_bytes();
    let text = String::from_utf8(bytes).unwrap();
    assert!(text.contains("content-length: 5\r\n"));
    assert!(text.ends_with("hello"));
}

#[test]
fn response_empty_body_still_sets_content_length() {
    let mut r = Response::default();
    r.body(Vec::new());
    assert_eq!(r.headers.get("content-length").unwrap(), "0");
    let text = String::from_utf8(r.to_bytes()).unwrap();
    assert!(text.ends_with("\r\n\r\n"));
}

#[test]
fn response_body_replaces_content_length() {
    let mut r = Response::default();
    r.body(b"hello".to_vec());
    r.body(b"bye".to_vec());
    assert_eq!(r.headers.get("content-length").unwrap(), "3");
}

#[test]
fn response_new_carries_version_and_body() {
    let r = Response::new(Version::Http10, "hi".to_string());
    assert_eq!(r.version, Version::Http10);
    assert_eq!(r.body, b"hi".to_vec());
    assert_eq!(r.headers.get("content-length").unwrap(), "2");
}

#[test]
fn response_to_bytes_status_line() {
    let r = Response::default();
    let text = String::from_utf8(r.to_bytes()).unwrap();
    assert!(text.starts_with("HTTP/1.1 200 OK\r\n"));
    // Headers end with one blank line before the (empty) body.
    assert!(text.ends_with("\r\n\r\n"));
}

#[test]
fn response_version_setter() {
    let mut r = Response::default();
    r.version(Version::Http2);
    assert_eq!(r.version, Version::Http2);
    let text = String::from_utf8(r.to_bytes()).unwrap();
    assert!(text.starts_with("HTTP/2.0 200 OK\r\n"));
}
