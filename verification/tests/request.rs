use minihttp::error::ChError;
use minihttp::method::Method;
use minihttp::request::{FrameStep, Framer, Request};
use minihttp::version::Version;

#[test]
fn frame_extracts_exact_buffer() {
    let wire = b"GET /check HTTP/1.1\r\nHost: example.com\r\n\r\n";
    let framed = Request::frame(wire).unwrap();
    assert_eq!(framed.as_slice(), &wire[..]);
}

#[test]
fn frame_stops_at_terminator() {
    let wire = b"GET / HTTP/1.1\r\n\r\ntrailing body bytes";
    let framed = Request::frame(wire).unwrap();
    assert_eq!(framed.as_slice(), b"GET / HTTP/1.1\r\n\r\n");
}

#[test]
fn frame_incomplete_stream_fails() {
    let wire = b"GET / HTTP/1.1\r\nHost: example.com";
    assert!(matches!(
        Request::frame(wire),
        Err(ChError::HeaderIncomplete)
    ));
}

#[test]
fn frame_over_limit_fails_as_too_large() {
    let mut wire = b"GET / HTTP/1.1\r\n".to_vec();
    while wire.len() <= 1025 {
        wire.push(b'a');
    }
    assert!(matches!(Request::frame(&wire), Err(ChError::HeaderToBig)));
}

#[test]
fn framer_reports_steps() {
    let mut f = Framer::new();
    assert_eq!(f.push(b'\r'), FrameStep::More);
    assert_eq!(f.push(b'\n'), FrameStep::More);
    assert_eq!(f.push(b'\r'), FrameStep::More);
    assert_eq!(f.push(b'\n'), FrameStep::Done);
    assert_eq!(f.bytes(), b"\r\n\r\n");
}

#[test]
fn parse_check_request() {
    let wire = b"GET /check HTTP/1.1\r\nHost: example.com\r\n\r\n";
    let framed = Request::frame(wire).unwrap();
    let req = Request::from_header(&framed).unwrap();
    assert_eq!(*req.method(), Method::Get);
    assert_eq!(req.request_uri(), "/check");
    assert_eq!(req.version(), Version::Http11);
    assert_eq!(req.headers().get("host").unwrap(), "example.com");
}

#[test]
fn parse_rejects_invalid_utf8() {
    let wire = b"GET /\xff HTTP/1.1\r\nHost: a\r\n\r\n";
    assert!(matches!(
        Request::from_header(wire),
        Err(ChError::FromUtf8)
    ));
}

#[test]
fn parse_rejects_empty_buffer() {
    assert!(matches!(
        Request::from_header(b""),
        Err(ChError::EmptyHeader)
    ));
}

#[test]
fn parse_rejects_missing_tokens() {
    assert!(matches!(
        Request::from_header(b"\r\nHost: a\r\n\r\n"),
        Err(ChError::EmptyMethod)
    ));
    assert!(matches!(
        Request::from_header(b"GET\r\nHost: a\r\n\r\n"),
        Err(ChError::EmptyRequestUri)
    ));
    assert!(matches!(
        Request::from_header(b"GET /\r\nHost: a\r\n\r\n"),
        Err(ChError::EmptyVersion)
    ));
}

#[test]
fn parse_rejects_bad_version() {
    match Request::from_header(b"GET / HTTP/9.9\r\nHost: a\r\n\r\n") {
        Err(ChError::VersionUnsupported(tok)) => assert_eq!(tok, "HTTP/9.9"),
        other => panic!("unexpected result: {:?}", other),
    }
}

#[test]
fn parse_rejects_four_tokens() {
    assert!(matches!(
        Request::from_header(b"GET / HTTP/1.1 extra\r\nHost: a\r\n\r\n"),
        Err(ChError::RequestLineToBig)
    ));
}

#[test]
fn parse_rejects_headerless_request() {
    assert!(matches!(
        Request::from_header(b"GET / HTTP/1.1\r\n\r\n"),
        Err(ChError::EmptyHeader)
    ));
}

#[test]
fn parse_accepts_any_verb() {
    let req = Request::from_header(b"BREW /pot HTTP/1.1\r\nHost: a\r\n\r\n").unwrap();
    assert_eq!(*req.method(), Method::Custom("BREW".to_string()));
}

#[test]
fn content_length_reads_header() {
    let req = Request::from_header(b"GET / HTTP/1.1\r\nContent-Length: 42\r\n\r\n").unwrap();
    assert_eq!(req.content_length(), 42);
}

#[test]
fn content_length_defaults_to_zero() {
    let req = Request::from_header(b"GET / HTTP/1.1\r\nHost: a\r\n\r\n").unwrap();
    assert_eq!(req.content_length(), 0);
    let req =
        Request::from_header(b"GET / HTTP/1.1\r\nContent-Length: many\r\n\r\n").unwrap();
    assert_eq!(req.content_length(), 0);
    let req = Request::from_header(
        b"GET / HTTP/1.1\r\nContent-Length: 99999999999999999999999\r\n\r\n",
    )
    .unwrap();
    assert_eq!(req.content_length(), 0);
}
