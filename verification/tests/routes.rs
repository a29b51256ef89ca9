use minihttp::request::Request;
use minihttp::routes::{check, route, Route, Scheme};

#[test]
fn route_table_exact_match() {
    assert_eq!(route("/c"), Route::Check);
    assert_eq!(
        route("/pn"),
        Route::Proxy { anon: false, scheme: None }
    );
    assert_eq!(
        route("/pnh"),
        Route::Proxy { anon: false, scheme: Some(Scheme::Http) }
    );
    assert_eq!(
        route("/pns"),
        Route::Proxy { anon: false, scheme: Some(Scheme::Socks5) }
    );
    assert_eq!(
        route("/pa"),
        Route::Proxy { anon: true, scheme: None }
    );
    assert_eq!(
        route("/pah"),
        Route::Proxy { anon: true, scheme: Some(Scheme::Http) }
    );
    assert_eq!(
        route("/pas"),
        Route::Proxy { anon: true, scheme: Some(Scheme::Socks5) }
    );
}

#[test]
fn route_unmatched_falls_back() {
    assert_eq!(route("/"), Route::Fallback);
    assert_eq!(route("/c/"), Route::Fallback);
    assert_eq!(route("/unknown"), Route::Fallback);
    assert_eq!(route(""), Route::Fallback);
}

#[test]
fn scheme_tokens() {
    assert_eq!(Scheme::Http.as_str(), "http");
    assert_eq!(Scheme::Socks5.as_str(), "socks5");
}

#[test]
fn check_lists_remote_addr_and_present_headers() {
    let req = Request::from_header(
        b"GET /c HTTP/1.1\r\nVia: 1.1 proxy\r\nHost: example.com\r\n\r\n",
    )
    .unwrap();
    let resp = check(&req, "127.0.0.1:5000").unwrap();
    let body = String::from_utf8(resp.body.clone()).unwrap();
    assert!(body.starts_with("<p>RemoteAddr: 127.0.0.1:5000</p>\r\n"));
    assert!(body.contains("<p>VIA: \"1.1 proxy\"</p>\r\n"));
    assert!(!body.contains("CLIENT_IP"));
    assert_eq!(
        resp.headers.get("content-length").unwrap(),
        body.len().to_string()
    );
}

#[test]
fn check_without_proxy_headers_lists_only_remote_addr() {
    let req = Request::from_header(b"GET /c HTTP/1.1\r\nHost: example.com\r\n\r\n").unwrap();
    let resp = check(&req, "10.0.0.1:42").unwrap();
    let body = String::from_utf8(resp.body.clone()).unwrap();
    assert_eq!(body, "<p>RemoteAddr: 10.0.0.1:42</p>\r\n");
}
