//! The protocol version: a closed set of wire tokens.  Parsing is
//! case-insensitive and there is no "unknown version" value: every token
//! outside the set is rejected.

use vstd::prelude::*;

use crate::error::{ChError, ChErrorSpec};
use crate::text::to_upper;

verus! {

/// A supported protocol version.
#[derive(Debug, Clone, Copy, PartialEq, Eq, Structural)]
pub enum Version {
    Http09,
    Http10,
    Http11,
    Http2,
    Http3,
}

/// The wire token of a version.
pub open spec fn wire_token(v: Version) -> Seq<char> {
    match v {
        Version::Http09 => "HTTP/0.9"@,
        Version::Http10 => "HTTP/1.0"@,
        Version::Http11 => "HTTP/1.1"@,
        Version::Http2 => "HTTP/2.0"@,
        Version::Http3 => "HTTP/3.0"@,
    }
}

/// What parsing a version token yields: the empty token is missing, a token
/// whose uppercase form is in the closed set is that version, anything else
/// is unsupported and the error carries the token.
pub open spec fn spec_parse_version(t: Seq<char>) -> Result<Version, ChErrorSpec> {
    if t.len() == 0 {
        Err(ChErrorSpec::EmptyVersion)
    } else if to_upper(t) == wire_token(Version::Http09) {
        Ok(Version::Http09)
    } else if to_upper(t) == wire_token(Version::Http10) {
        Ok(Version::Http10)
    } else if to_upper(t) == wire_token(Version::Http11) {
        Ok(Version::Http11)
    } else if to_upper(t) == wire_token(Version::Http2) {
        Ok(Version::Http2)
    } else if to_upper(t) == wire_token(Version::Http3) {
        Ok(Version::Http3)
    } else {
        Err(ChErrorSpec::VersionUnsupported(t))
    }
}

impl Version {
    /// The fixed wire token, e.g. `HTTP/1.1`.
    pub fn as_str(&self) -> (r: &str)
        ensures
            r@ == wire_token(*self),
    {
        match self {
            Version::Http09 => "HTTP/0.9",
            Version::Http10 => "HTTP/1.0",
            Version::Http11 => "HTTP/1.1",
            Version::Http2 => "HTTP/2.0",
            Version::Http3 => "HTTP/3.0",
        }
    }

    /// Parse a wire token, case-insensitively, against the closed set.
    pub fn parse(token: &str) -> (r: Result<Version, ChError>)
        ensures
            ({
                let sr = spec_parse_version(token@);
                match r {
                    Ok(v) => sr == Ok::<Version, ChErrorSpec>(v),
                    Err(e) => sr == Err::<Version, ChErrorSpec>(e@),
                }
            }),
    {
        if token.unicode_len() == 0 {
            return Err(ChError::EmptyVersion);
        }
        let u = crate::text::ascii_uppercase(token);
        if crate::text::str_eq(u.as_str(), "HTTP/0.9") {
            Ok(Version::Http09)
        } else if crate::text::str_eq(u.as_str(), "HTTP/1.0") {
            Ok(Version::Http10)
        } else if crate::text::str_eq(u.as_str(), "HTTP/1.1") {
            Ok(Version::Http11)
        } else if crate::text::str_eq(u.as_str(), "HTTP/2.0") {
            Ok(Version::Http2)
        } else if crate::text::str_eq(u.as_str(), "HTTP/3.0") {
            Ok(Version::Http3)
        } else {
            Err(ChError::VersionUnsupported(String::from_str(token)))
        }
    }
}

impl Default for Version {
    /// The default version is 1.1.
    fn default() -> (r: Self)
        ensures
            r == Version::Http11,
    {
        Version::Http11
    }
}

impl core::str::FromStr for Version {
    type Err = ChError;

    fn from_str(s: &str) -> Result<Version, ChError> {
        Version::parse(s)
    }
}

/// The wire tokens are fixed points of uppercasing.
pub proof fn lemma_wire_token_upper(v: Version)
    ensures
        to_upper(wire_token(v)) == wire_token(v),
{
    reveal_strlit("HTTP/0.9");
    reveal_strlit("HTTP/1.0");
    reveal_strlit("HTTP/1.1");
    reveal_strlit("HTTP/2.0");
    reveal_strlit("HTTP/3.0");
    assert(to_upper(wire_token(v)) =~= wire_token(v));
}

/// Law: parsing the wire token of any version yields that version back.
pub proof fn lemma_version_round_trip(v: Version)
    ensures
        spec_parse_version(wire_token(v)) == Ok::<Version, ChErrorSpec>(v),
{
    reveal_strlit("HTTP/0.9");
    reveal_strlit("HTTP/1.0");
    reveal_strlit("HTTP/1.1");
    reveal_strlit("HTTP/2.0");
    reveal_strlit("HTTP/3.0");
    lemma_wire_token_upper(v);
    // The tokens differ pairwise: the fifth character separates the major
    // versions and the seventh separates 1.0 from 1.1.
    assert("HTTP/0.9"@[5] == '0' && "HTTP/1.0"@[5] == '1' && "HTTP/1.1"@[5] == '1'
        && "HTTP/2.0"@[5] == '2' && "HTTP/3.0"@[5] == '3');
    assert("HTTP/1.0"@[7] == '0' && "HTTP/1.1"@[7] == '1');
}

/// Law: every token outside the closed set is rejected, the empty token as
/// missing and any other with an error that carries the token.
pub proof fn lemma_version_parse_rejects(t: Seq<char>)
    requires
        forall|v: Version| to_upper(t) != wire_token(v),
    ensures
        t.len() == 0 ==> spec_parse_version(t) == Err::<Version, ChErrorSpec>(
            ChErrorSpec::EmptyVersion,
        ),
        t.len() > 0 ==> spec_parse_version(t) == Err::<Version, ChErrorSpec>(
            ChErrorSpec::VersionUnsupported(t),
        ),
{
}

} // verus!
