use minihttp::status::{Status, StatusCode};
use minihttp::version::Version;

#[test]
fn status_code_new() {
    assert_eq!(
        StatusCode::from_u16(200).unwrap(),
        StatusCode::from_u16(200).unwrap()
    );
    assert_ne!(StatusCode::from_u16(400).unwrap(), StatusCode(404));
}

#[test]
fn status_code_info() {
    for i in 100u16..200 {
        assert!(StatusCode(i).is_info())
    }

    for i in (0u16..1000).filter(|&i| i < 100 || i >= 200) {
        assert!(!StatusCode(i).is_info())
    }
}

#[test]
fn status_code_success() {
    for i in 200u16..300 {
        assert!(StatusCode(i).is_success())
    }

    for i in (0u16..1000).filter(|&i| i < 200 || i >= 300) {
        assert!(!StatusCode(i).is_success())
    }
}

#[test]
fn status_code_redirect() {
    for i in 300u16..400 {
        assert!(StatusCode(i).is_redirect())
    }

    for i in (0u16..1000).filter(|&i| i < 300 || i >= 400) {
        assert!(!StatusCode(i).is_redirect())
    }
}

#[test]
fn status_code_client_err() {
    for i in 400u16..500 {
        assert!(StatusCode(i).is_client_err())
    }

    for i in (0u16..1000).filter(|&i| i < 400 || i >= 500) {
        assert!(!StatusCode(i).is_client_err())
    }
}

#[test]
fn status_code_server_err() {
    for i in 500u16..600 {
        assert!(StatusCode(i).is_server_err())
    }

    for i in (0u16..1000).filter(|&i| i < 500 || i >= 600) {
        assert!(!StatusCode(i).is_server_err())
    }
}

#[test]
fn status_code_is() {
    let check = |i| i % 3 == 0;

    let code_1 = StatusCode(200);
    let code_2 = StatusCode(300);

    assert!(!code_1.is(check));
    assert!(code_2.is(check));
}

#[test]
fn status_code_reason() {
    assert_eq!(StatusCode(200).reason(), Some("OK"));
    assert_eq!(StatusCode(400).reason(), Some("Bad Request"));
}

#[test]
fn status_code_from() {
    assert_eq!(StatusCode::from(200), StatusCode(200));
}

#[test]
fn u16_from_status_code() {
    let code_s = StatusCode(200);
    assert_eq!(u16::from(code_s), 200);
}

#[test]
fn status_code_display() {
    let code = format!("Status Code: {}", StatusCode(200).code_string());
    let code_expect = "Status Code: 200";

    assert_eq!(code, code_expect);
}

#[test]
fn status_code_from_str() {
    assert_eq!("200".parse::<StatusCode>().unwrap(), StatusCode(200));
    assert_ne!("400".parse::<StatusCode>().unwrap(), StatusCode(404));
}

#[test]
fn status_from() {
    let version = Version::parse("HTTP/1.1").unwrap();
    let status = Status::from((version, 200u16, "OK"));

    assert_eq!(status.version(), version);
    assert_eq!(status.status_code(), StatusCode(200));
    assert_eq!(status.reason(), "OK");
}

#[test]
fn status_from_str() {
    let version = Version::parse("HTTP/1.1").unwrap();
    let status = "HTTP/1.1 200 OK".parse::<Status>().unwrap();

    assert_eq!(status.version(), version);
    assert_eq!(status.status_code(), StatusCode(200));
    assert_eq!(status.reason(), "OK");
}

#[test]
fn status_code_boundaries() {
    assert!(StatusCode::from_u16(99).is_err());
    assert!(StatusCode::from_u16(100).is_ok());
    assert!(StatusCode::from_u16(599).is_ok());
    assert!(StatusCode::from_u16(600).is_err());
}

#[test]
fn status_code_from_u16_error_carries_value() {
    match StatusCode::from_u16(600) {
        Err(minihttp::error::ChError::InvalidStatusCode(600)) => {}
        other => panic!("unexpected result: {:?}", other),
    }
}

#[test]
fn status_code_parse_rejects_garbage() {
    assert!(matches!(
        "20x".parse::<StatusCode>(),
        Err(minihttp::error::ChError::ParseInt)
    ));
    assert!(matches!(
        "99999".parse::<StatusCode>(),
        Err(minihttp::error::ChError::ParseInt)
    ));
}

#[test]
fn status_reason_falls_back() {
    let status = "HTTP/1.1 200".parse::<Status>().unwrap();
    assert_eq!(status.reason(), "OK");
    let status = "HTTP/1.1 299".parse::<Status>().unwrap();
    assert_eq!(status.reason(), "Unknown");
    assert!(matches!(
        "HTTP/1.1".parse::<Status>(),
        Err(minihttp::error::ChError::EmptyStatusCode)
    ));
}
