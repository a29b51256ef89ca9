//! The numeric status code with its classification predicates and canonical
//! reason phrases, and the status line of a response.

use vstd::prelude::*;

use crate::error::{ChError, ChErrorSpec};
use crate::text::{
    contains_char, dec_val, find_char, first_idx, is_dec, lemma_first_idx, parse_u64, trim,
    trim_spec,
};
use crate::version::{spec_parse_version, Version};

verus! {

/// A numeric status.  `from_u16` validates the [100, 599] range; the plain
/// `From` conversions are unchecked, as the classification predicates are
/// total over all values.
#[derive(Debug, Clone, Copy, PartialEq, Eq, Structural)]
pub struct StatusCode(pub u16);

impl StatusCode {
    /// Validated construction: accepts exactly the range [100, 599].
    pub fn from_u16(code: u16) -> (r: Result<StatusCode, ChError>)
        ensures
            100 <= code < 600 ==> r == Ok::<StatusCode, ChError>(StatusCode(code)),
            !(100 <= code < 600) ==> r == Err::<StatusCode, ChError>(
                ChError::InvalidStatusCode(code),
            ),
    {
        if !(100 <= code && code < 600) {
            return Err(ChError::InvalidStatusCode(code));
        }
        Ok(StatusCode(code))
    }

    /// 1xx: informational.
    pub fn is_info(self) -> (r: bool)
        ensures
            r == (100 <= self.0 < 200),
    {
        self.0 >= 100 && self.0 < 200
    }

    /// 2xx: success.
    pub fn is_success(self) -> (r: bool)
        ensures
            r == (200 <= self.0 < 300),
    {
        self.0 >= 200 && self.0 < 300
    }

    /// 3xx: redirection.
    pub fn is_redirect(self) -> (r: bool)
        ensures
            r == (300 <= self.0 < 400),
    {
        self.0 >= 300 && self.0 < 400
    }

    /// 4xx: client error.
    pub fn is_client_err(self) -> (r: bool)
        ensures
            r == (400 <= self.0 < 500),
    {
        self.0 >= 400 && self.0 < 500
    }

    /// 5xx: server error.
    pub fn is_server_err(self) -> (r: bool)
        ensures
            r == (500 <= self.0 < 600),
    {
        self.0 >= 500 && self.0 < 600
    }

    /// Apply an arbitrary predicate to the numeric value.
    pub fn is<F: FnOnce(u16) -> bool>(self, f: F) -> (r: bool)
        requires
            call_requires(f, (self.0,)),
        ensures
            call_ensures(f, (self.0,), r),
    {
        f(self.0)
    }

    /// The canonical reason phrase of a well-known code, if there is one.
    pub fn reason(self) -> (r: Option<&'static str>)
        ensures
            r matches Some(s) ==> spec_reason(self.0) == Some(s@),
            r is None ==> spec_reason(self.0) is None,
    {
        match self.0 {
            100 => Some("Continue"),
            101 => Some("Switching Protocols"),
            102 => Some("Processing"),
            200 => Some("OK"),
            201 => Some("Created"),
            202 => Some("Accepted"),
            203 => Some("Non Authoritative Information"),
            204 => Some("No Content"),
            205 => Some("Reset Content"),
            206 => Some("Partial Content"),
            207 => Some("Multi-Status"),
            208 => Some("Already Reported"),
            226 => Some("IM Used"),
            300 => Some("Multiple Choices"),
            301 => Some("Moved Permanently"),
            302 => Some("Found"),
            303 => Some("See Other"),
            304 => Some("Not Modified"),
            305 => Some("Use Proxy"),
            307 => Some("Temporary Redirect"),
            308 => Some("Permanent Redirect"),
            400 => Some("Bad Request"),
            401 => Some("Unauthorized"),
            402 => Some("Payment Required"),
            403 => Some("Forbidden"),
            404 => Some("Not Found"),
            405 => Some("Method Not Allowed"),
            406 => Some("Not Acceptable"),
            407 => Some("Proxy Authentication Required"),
            408 => Some("Request Timeout"),
            409 => Some("Conflict"),
            410 => Some("Gone"),
            411 => Some("Length Required"),
            412 => Some("Precondition Failed"),
            413 => Some("Payload Too Large"),
            414 => Some("URI Too Long"),
            415 => Some("Unsupported Media Type"),
            416 => Some("Range Not Satisfiable"),
            417 => Some("Expectation Failed"),
            418 => Some("I'm a teapot"),
            421 => Some("Misdirected Request"),
            422 => Some("Unprocessable Entity"),
            423 => Some("Locked"),
            424 => Some("Failed Dependency"),
            426 => Some("Upgrade Required"),
            428 => Some("Precondition Required"),
            429 => Some("Too Many Requests"),
            431 => Some("Request Header Fields Too Large"),
            451 => Some("Unavailable For Legal Reasons"),
            500 => Some("Internal Server Error"),
            501 => Some("Not Implemented"),
            502 => Some("Bad Gateway"),
            503 => Some("Service Unavailable"),
            504 => Some("Gateway Timeout"),
            505 => Some("HTTP Version Not Supported"),
            506 => Some("Variant Also Negotiates"),
            507 => Some("Insufficient Storage"),
            508 => Some("Loop Detected"),
            510 => Some("Not Extended"),
            511 => Some("Network Authentication Required"),
            _ => None,
        }
    }

    /// The numeric value rendered in decimal, as a status line shows it.
    pub fn code_string(&self) -> (r: String)
        ensures
            r@ == crate::text::dec_str(self.0 as nat),
    {
        crate::text::u64_to_string(self.0 as u64)
    }

    /// Parse a status-code token: the digits, then the range check.
    pub fn parse(s: &str) -> (r: Result<StatusCode, ChError>)
        ensures
            ({
                let sr = spec_parse_status_code(s@);
                match r {
                    Ok(c) => sr == Ok::<StatusCode, ChErrorSpec>(c),
                    Err(e) => sr == Err::<StatusCode, ChErrorSpec>(e@),
                }
            }),
    {
        match parse_u64(s) {
            None => Err(ChError::ParseInt),
            Some(n) => {
                if n > 65535 {
                    Err(ChError::ParseInt)
                } else {
                    StatusCode::from_u16(n as u16)
                }
            },
        }
    }
}

/// The canonical reason phrase of a code, if the table has one.
pub open spec fn spec_reason(code: u16) -> Option<Seq<char>> {
    match code {
        100u16 => Some("Continue"@),
        101u16 => Some("Switching Protocols"@),
        102u16 => Some("Processing"@),
        200u16 => Some("OK"@),
        201u16 => Some("Created"@),
        202u16 => Some("Accepted"@),
        203u16 => Some("Non Authoritative Information"@),
        204u16 => Some("No Content"@),
        205u16 => Some("Reset Content"@),
        206u16 => Some("Partial Content"@),
        207u16 => Some("Multi-Status"@),
        208u16 => Some("Already Reported"@),
        226u16 => Some("IM Used"@),
        300u16 => Some("Multiple Choices"@),
        301u16 => Some("Moved Permanently"@),
        302u16 => Some("Found"@),
        303u16 => Some("See Other"@),
        304u16 => Some("Not Modified"@),
        305u16 => Some("Use Proxy"@),
        307u16 => Some("Temporary Redirect"@),
        308u16 => Some("Permanent Redirect"@),
        400u16 => Some("Bad Request"@),
        401u16 => Some("Unauthorized"@),
        402u16 => Some("Payment Required"@),
        403u16 => Some("Forbidden"@),
        404u16 => Some("Not Found"@),
        405u16 => Some("Method Not Allowed"@),
        406u16 => Some("Not Acceptable"@),
        407u16 => Some("Proxy Authentication Required"@),
        408u16 => Some("Request Timeout"@),
        409u16 => Some("Conflict"@),
        410u16 => Some("Gone"@),
        411u16 => Some("Length Required"@),
        412u16 => Some("Precondition Failed"@),
        413u16 => Some("Payload Too Large"@),
        414u16 => Some("URI Too Long"@),
        415u16 => Some("Unsupported Media Type"@),
        416u16 => Some("Range Not Satisfiable"@),
        417u16 => Some("Expectation Failed"@),
        418u16 => Some("I'm a teapot"@),
        421u16 => Some("Misdirected Request"@),
        422u16 => Some("Unprocessable Entity"@),
        423u16 => Some("Locked"@),
        424u16 => Some("Failed Dependency"@),
        426u16 => Some("Upgrade Required"@),
        428u16 => Some("Precondition Required"@),
        429u16 => Some("Too Many Requests"@),
        431u16 => Some("Request Header Fields Too Large"@),
        451u16 => Some("Unavailable For Legal Reasons"@),
        500u16 => Some("Internal Server Error"@),
        501u16 => Some("Not Implemented"@),
        502u16 => Some("Bad Gateway"@),
        503u16 => Some("Service Unavailable"@),
        504u16 => Some("Gateway Timeout"@),
        505u16 => Some("HTTP Version Not Supported"@),
        506u16 => Some("Variant Also Negotiates"@),
        507u16 => Some("Insufficient Storage"@),
        508u16 => Some("Loop Detected"@),
        510u16 => Some("Not Extended"@),
        511u16 => Some("Network Authentication Required"@),
        _ => None,
    }
}

/// What parsing a status-code token yields.
pub open spec fn spec_parse_status_code(s: Seq<char>) -> Result<StatusCode, ChErrorSpec> {
    if !(is_dec(s) && dec_val(s) <= 65535) {
        Err(ChErrorSpec::ParseInt)
    } else if !(100 <= dec_val(s) < 600) {
        Err(ChErrorSpec::InvalidStatusCode(dec_val(s) as u16))
    } else {
        Ok(StatusCode(dec_val(s) as u16))
    }
}

impl From<u16> for StatusCode {
    /// Unchecked conversion, as in the numeric tests of the predicates.
    fn from(code: u16) -> (r: StatusCode) {
        StatusCode(code)
    }
}

impl vstd::std_specs::convert::FromSpecImpl<u16> for StatusCode {
    open spec fn obeys_from_spec() -> bool {
        true
    }

    open spec fn from_spec(code: u16) -> StatusCode {
        StatusCode(code)
    }
}

impl From<StatusCode> for u16 {
    /// The numeric value.
    fn from(code: StatusCode) -> (r: u16) {
        code.0
    }
}

impl vstd::std_specs::convert::FromSpecImpl<StatusCode> for u16 {
    open spec fn obeys_from_spec() -> bool {
        true
    }

    open spec fn from_spec(code: StatusCode) -> u16 {
        code.0
    }
}

impl core::str::FromStr for StatusCode {
    type Err = ChError;

    fn from_str(s: &str) -> Result<StatusCode, ChError> {
        StatusCode::parse(s)
    }
}

/// The status line of a response: version, code, reason phrase.
#[derive(Debug, Clone, PartialEq)]
pub struct Status {
    pub version: Version,
    pub code: StatusCode,
    pub reason: String,
}

/// The mathematical shape of a `Status`.
pub struct StatusSpec {
    pub version: Version,
    pub code: StatusCode,
    pub reason: Seq<char>,
}

impl View for Status {
    type V = StatusSpec;

    open spec fn view(&self) -> StatusSpec {
        StatusSpec { version: self.version, code: self.code, reason: self.reason@ }
    }
}

/// A string split at the first two spaces, at most three pieces, the third
/// keeping any further spaces.
pub open spec fn splitn3(s: Seq<char>) -> Seq<Seq<char>> {
    if !contains_char(s, ' ') {
        seq![s]
    } else {
        let i = first_idx(s, ' ');
        let rest = s.skip(i + 1);
        if !contains_char(rest, ' ') {
            seq![s.take(i), rest]
        } else {
            let j = first_idx(rest, ' ');
            seq![s.take(i), rest.take(j), rest.skip(j + 1)]
        }
    }
}

/// What parsing a status line yields: the trimmed line is split at the first
/// two spaces into version, code and reason; a missing reason falls back to
/// the canonical phrase of the code, or to "Unknown".
pub open spec fn spec_parse_status(line: Seq<char>) -> Result<StatusSpec, ChErrorSpec> {
    let parts = splitn3(trim_spec(line));
    match spec_parse_version(parts[0]) {
        Err(e) => Err(e),
        Ok(v) => {
            if parts.len() < 2 {
                Err(ChErrorSpec::EmptyStatusCode)
            } else {
                match spec_parse_status_code(parts[1]) {
                    Err(e) => Err(e),
                    Ok(c) => {
                        let reason = if parts.len() >= 3 {
                            parts[2]
                        } else {
                            match spec_reason(c.0) {
                                Some(p) => p,
                                None => "Unknown"@,
                            }
                        };
                        Ok(StatusSpec { version: v, code: c, reason })
                    },
                }
            }
        },
    }
}

impl Status {
    /// The protocol version of the status line.
    pub fn version(&self) -> (r: Version)
        ensures
            r == self.version,
    {
        self.version
    }

    /// The numeric status.
    pub fn status_code(&self) -> (r: StatusCode)
        ensures
            r == self.code,
    {
        self.code
    }

    /// The reason phrase.
    pub fn reason(&self) -> (r: &str)
        ensures
            r@ == self.reason@,
    {
        self.reason.as_str()
    }

    /// Build a status line from its parts.
    pub fn from_parts(version: Version, code: u16, reason: &str) -> (r: Status)
        ensures
            r.version == version,
            r.code == StatusCode(code),
            r.reason@ == reason@,
    {
        Status { version, code: StatusCode(code), reason: String::from_str(reason) }
    }

    /// Parse a status line.
    pub fn parse(line: &str) -> (r: Result<Status, ChError>)
        ensures
            ({
                let sr = spec_parse_status(line@);
                match r {
                    Ok(s) => sr == Ok::<StatusSpec, ChErrorSpec>(s@),
                    Err(e) => sr == Err::<StatusSpec, ChErrorSpec>(e@),
                }
            }),
    {
        let t = trim(line);
        let tlen = t.unicode_len();
        let ghost parts = splitn3(t@);
        let mut p2: Option<&str> = None;
        let (p0, p1): (&str, Option<&str>) = match find_char(t, ' ') {
            None => (t, None),
            Some(i) => {
                proof {
                    lemma_first_idx(t@, ' ');
                }
                let rest = t.substring_char(i + 1, tlen);
                let head = t.substring_char(0, i);
                let rlen = rest.unicode_len();
                match find_char(rest, ' ') {
                    None => (head, Some(rest)),
                    Some(j) => {
                        proof {
                            lemma_first_idx(rest@, ' ');
                        }
                        p2 = Some(rest.substring_char(j + 1, rlen));
                        (head, Some(rest.substring_char(0, j)))
                    },
                }
            },
        };
        let version = match Version::parse(p0) {
            Ok(v) => v,
            Err(e) => {
                return Err(e);
            },
        };
        let code_str = match p1 {
            None => {
                return Err(ChError::EmptyStatusCode);
            },
            Some(cs) => cs,
        };
        let code = match StatusCode::parse(code_str) {
            Ok(c) => c,
            Err(e) => {
                return Err(e);
            },
        };
        let reason: String = match p2 {
            Some(r) => String::from_str(r),
            None => match code.reason() {
                Some(r) => String::from_str(r),
                None => {
                    let u = String::from_str("Unknown");
                    u
                },
            },
        };
        Ok(Status { version, code, reason })
    }
}

impl<'a> From<(Version, u16, &'a str)> for Status {
    /// Convenience form of `from_parts`.
    fn from(parts: (Version, u16, &'a str)) -> (r: Status) {
        Status::from_parts(parts.0, parts.1, parts.2)
    }
}

impl<'a> vstd::std_specs::convert::FromSpecImpl<(Version, u16, &'a str)> for Status {
    open spec fn obeys_from_spec() -> bool {
        false
    }

    closed spec fn from_spec(parts: (Version, u16, &'a str)) -> Status {
        arbitrary()
    }
}

impl core::str::FromStr for Status {
    type Err = ChError;

    fn from_str(s: &str) -> Result<Status, ChError> {
        Status::parse(s)
    }
}

} // verus!
