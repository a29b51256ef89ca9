//! Route dispatch and the check handler.  The request-target is matched
//! exactly against a fixed table of literal paths; everything a handler
//! needs from the outside world arrives as plain values.

use vstd::prelude::*;
use vstd::utf8::encode_utf8;

use crate::error::ChError;
use crate::request::Request;
use crate::response::{default_entries, Response};
use crate::text::{dec_str, str_eq, to_lower};

verus! {

/// The scheme a proxy lookup may be narrowed to.
#[derive(Debug, Clone, Copy, PartialEq, Eq, Structural)]
pub enum Scheme {
    Http,
    Socks5,
}

/// The scheme as the datastore expects it.
pub open spec fn scheme_token(s: Scheme) -> Seq<char> {
    match s {
        Scheme::Http => "http"@,
        Scheme::Socks5 => "socks5"@,
    }
}

impl Scheme {
    /// The scheme's token.
    pub fn as_str(&self) -> (r: &str)
        ensures
            r@ == scheme_token(*self),
    {
        match self {
            Scheme::Http => "http",
            Scheme::Socks5 => "socks5",
        }
    }
}

/// What a connection handler does with a parsed request.
#[derive(Debug, Clone, Copy, PartialEq, Eq)]
pub enum Route {
    /// Answer with the echo of the client address and proxy headers.
    Check,
    /// Look a proxy hostname up in the directory and answer with it.
    Proxy { anon: bool, scheme: Option<Scheme> },
    /// No table entry matched.  The dispatcher deliberately answers an
    /// unmatched target with the default response, a plain 200, rather than
    /// a not-found status.
    Fallback,
}

/// The fixed route table, matched exactly against the request-target.
pub open spec fn spec_route(t: Seq<char>) -> Route {
    if t == "/c"@ {
        Route::Check
    } else if t == "/pn"@ {
        Route::Proxy { anon: false, scheme: None }
    } else if t == "/pnh"@ {
        Route::Proxy { anon: false, scheme: Some(Scheme::Http) }
    } else if t == "/pns"@ {
        Route::Proxy { anon: false, scheme: Some(Scheme::Socks5) }
    } else if t == "/pa"@ {
        Route::Proxy { anon: true, scheme: None }
    } else if t == "/pah"@ {
        Route::Proxy { anon: true, scheme: Some(Scheme::Http) }
    } else if t == "/pas"@ {
        Route::Proxy { anon: true, scheme: Some(Scheme::Socks5) }
    } else {
        Route::Fallback
    }
}

/// Dispatch a request-target.
pub fn route(target: &str) -> (r: Route)
    ensures
        r == spec_route(target@),
{
    if str_eq(target, "/c") {
        Route::Check
    } else if str_eq(target, "/pn") {
        Route::Proxy { anon: false, scheme: None }
    } else if str_eq(target, "/pnh") {
        Route::Proxy { anon: false, scheme: Some(Scheme::Http) }
    } else if str_eq(target, "/pns") {
        Route::Proxy { anon: false, scheme: Some(Scheme::Socks5) }
    } else if str_eq(target, "/pa") {
        Route::Proxy { anon: true, scheme: None }
    } else if str_eq(target, "/pah") {
        Route::Proxy { anon: true, scheme: Some(Scheme::Http) }
    } else if str_eq(target, "/pas") {
        Route::Proxy { anon: true, scheme: Some(Scheme::Socks5) }
    } else {
        Route::Fallback
    }
}

/// The proxy-related header names the check handler reports.
pub open spec fn proxy_header_names() -> Seq<Seq<char>> {
    seq![
        "CLIENT_IP"@,
        "FORWARDED"@,
        "FORWARDED_FOR"@,
        "FORWARDED_FOR_IP"@,
        "HTTP_CLIENT_IP"@,
        "HTTP_FORWARDED"@,
        "HTTP_FORWARDED_FOR"@,
        "HTTP_FORWARDED_FOR_IP"@,
        "HTTP_PROXY_CONNECTION"@,
        "HTTP_VIA"@,
        "HTTP_X_FORWARDED"@,
        "HTTP_X_FORWARDED_FOR"@,
        "VIA"@,
        "X_FORWARDED"@,
        "X_FORWARDED_FOR"@,
    ]
}

/// One report line: present headers are quoted, absent ones leave nothing.
pub open spec fn check_line(name: Seq<char>, h: Map<Seq<char>, Seq<char>>) -> Seq<char> {
    if h.contains_key(to_lower(name)) {
        "<p>"@ + name + ": \""@ + h[to_lower(name)] + "\"</p>\r\n"@
    } else {
        Seq::empty()
    }
}

/// The report lines for a list of names, in order.
pub open spec fn check_lines(names: Seq<Seq<char>>, h: Map<Seq<char>, Seq<char>>) -> Seq<char>
    decreases names.len(),
{
    if names.len() == 0 {
        Seq::empty()
    } else {
        check_lines(names.drop_last(), h) + check_line(names.last(), h)
    }
}

/// The whole check body: the client address, then each present proxy header.
pub open spec fn check_body(client: Seq<char>, h: Map<Seq<char>, Seq<char>>) -> Seq<char> {
    "<p>RemoteAddr: "@ + client + "</p>\r\n"@ + check_lines(proxy_header_names(), h)
}

/// The check handler: answer with the client address and the value of every
/// present proxy-related header, read case-insensitively.
pub fn check(req: &Request, client: &str) -> (r: Result<Response, ChError>)
    requires
        req.wf(),
    ensures
        r matches Ok(resp) && resp.version == req@.version && resp.status_code == 200
            && resp.reason@ == "OK"@ && resp.body@ == encode_utf8(
            check_body(client@, req@.headers),
        ) && resp.headers.wf() && resp.headers.entry_seq() == default_entries().push(
            ("content-length"@, dec_str(encode_utf8(check_body(client@, req@.headers)).len() as nat)),
        ),
{
    let headers = req.headers();
    let mut names: Vec<&str> = Vec::new();
    names.push("CLIENT_IP");
    names.push("FORWARDED");
    names.push("FORWARDED_FOR");
    names.push("FORWARDED_FOR_IP");
    names.push("HTTP_CLIENT_IP");
    names.push("HTTP_FORWARDED");
    names.push("HTTP_FORWARDED_FOR");
    names.push("HTTP_FORWARDED_FOR_IP");
    names.push("HTTP_PROXY_CONNECTION");
    names.push("HTTP_VIA");
    names.push("HTTP_X_FORWARDED");
    names.push("HTTP_X_FORWARDED_FOR");
    names.push("VIA");
    names.push("X_FORWARDED");
    names.push("X_FORWARDED_FOR");
    proof {
        assert(names.deep_view() =~= proxy_header_names());
    }
    let mut body = String::from_str("<p>RemoteAddr: ");
    body.append(client);
    body.append("</p>\r\n");
    let ghost h = req@.headers;
    let mut i: usize = 0;
    while i < names.len()
        invariant
            0 <= i <= names@.len(),
            names.deep_view() == proxy_header_names(),
            names@.len() == proxy_header_names().len(),
            headers@ == h,
            headers.wf(),
            body@ == "<p>RemoteAddr: "@ + client@ + "</p>\r\n"@ + check_lines(
                proxy_header_names().take(i as int),
                h,
            ),
        decreases names@.len() - i,
    {
        let ghost pnames = proxy_header_names();
        proof {
            assert(pnames.take(i + 1).drop_last() =~= pnames.take(i as int));
            assert(pnames.take(i + 1).last() == pnames[i as int]);
            assert(names.deep_view()[i as int] == pnames[i as int]);
        }
        match headers.get(names[i]) {
            Some(v) => {
                body.append("<p>");
                body.append(names[i]);
                body.append(": \"");
                body.append(v.as_str());
                body.append("\"</p>\r\n");
                proof {
                    assert(body@ =~= "<p>RemoteAddr: "@ + client@ + "</p>\r\n"@ + check_lines(
                        pnames.take(i + 1),
                        h,
                    ));
                }
            },
            None => {
                proof {
                    assert(body@ =~= "<p>RemoteAddr: "@ + client@ + "</p>\r\n"@ + check_lines(
                        pnames.take(i + 1),
                        h,
                    ));
                }
            },
        }
        i += 1;
    }
    proof {
        assert(proxy_header_names().take(proxy_header_names().len() as int)
            =~= proxy_header_names());
        assert(body@ =~= check_body(client@, h));
    }
    Ok(Response::new(req.version(), body))
}

} // verus!
