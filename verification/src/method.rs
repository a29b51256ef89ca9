//! The request method: the standard verbs plus a catch-all variant that
//! carries any other token, uppercased.  Parsing fails only on the empty
//! token.

use vstd::prelude::*;

use crate::error::ChError;
use crate::text::{to_upper, lemma_to_upper_idempotent};

verus! {

/// A request method.
#[derive(Debug, Clone, PartialEq)]
pub enum Method {
    Options,
    Get,
    Head,
    Post,
    Put,
    Delete,
    Trace,
    Connect,
    /// Any other verb, held as its uppercased token.
    Custom(String),
}

/// The mathematical shape of a `Method`, with the custom token as a
/// character sequence.
pub enum MethodSpec {
    Options,
    Get,
    Head,
    Post,
    Put,
    Delete,
    Trace,
    Connect,
    Custom(Seq<char>),
}

impl View for Method {
    type V = MethodSpec;

    open spec fn view(&self) -> MethodSpec {
        match self {
            Method::Options => MethodSpec::Options,
            Method::Get => MethodSpec::Get,
            Method::Head => MethodSpec::Head,
            Method::Post => MethodSpec::Post,
            Method::Put => MethodSpec::Put,
            Method::Delete => MethodSpec::Delete,
            Method::Trace => MethodSpec::Trace,
            Method::Connect => MethodSpec::Connect,
            Method::Custom(s) => MethodSpec::Custom(s@),
        }
    }
}

/// The wire token of a method.
pub open spec fn method_token(m: MethodSpec) -> Seq<char> {
    match m {
        MethodSpec::Options => "OPTIONS"@,
        MethodSpec::Get => "GET"@,
        MethodSpec::Head => "HEAD"@,
        MethodSpec::Post => "POST"@,
        MethodSpec::Put => "PUT"@,
        MethodSpec::Delete => "DELETE"@,
        MethodSpec::Trace => "TRACE"@,
        MethodSpec::Connect => "CONNECT"@,
        MethodSpec::Custom(s) => s,
    }
}

/// What parsing a non-empty method token yields: its uppercase form matched
/// against the known verbs, any other token becoming `Custom`.
pub open spec fn spec_parse_method(t: Seq<char>) -> MethodSpec {
    let u = to_upper(t);
    if u == "OPTIONS"@ {
        MethodSpec::Options
    } else if u == "GET"@ {
        MethodSpec::Get
    } else if u == "HEAD"@ {
        MethodSpec::Head
    } else if u == "POST"@ {
        MethodSpec::Post
    } else if u == "PUT"@ {
        MethodSpec::Put
    } else if u == "DELETE"@ {
        MethodSpec::Delete
    } else if u == "CONNECT"@ {
        MethodSpec::Connect
    } else if u == "TRACE"@ {
        MethodSpec::Trace
    } else {
        MethodSpec::Custom(u)
    }
}

impl Method {
    /// The wire token; for `Custom` the token it carries.
    pub fn as_str(&self) -> (r: &str)
        ensures
            r@ == method_token(self@),
    {
        match self {
            Method::Options => "OPTIONS",
            Method::Get => "GET",
            Method::Head => "HEAD",
            Method::Post => "POST",
            Method::Put => "PUT",
            Method::Delete => "DELETE",
            Method::Trace => "TRACE",
            Method::Connect => "CONNECT",
            Method::Custom(s) => s.as_str(),
        }
    }

    /// Parse a method token: the empty token is missing, every other token
    /// produces a value.
    pub fn parse(token: &str) -> (r: Result<Method, ChError>)
        ensures
            token@.len() == 0 ==> r == Err::<Method, ChError>(ChError::EmptyMethod),
            token@.len() > 0 ==> (r matches Ok(m) && m@ == spec_parse_method(token@)),
    {
        if token.unicode_len() == 0 {
            return Err(ChError::EmptyMethod);
        }
        let u = crate::text::ascii_uppercase(token);
        if crate::text::str_eq(u.as_str(), "OPTIONS") {
            Ok(Method::Options)
        } else if crate::text::str_eq(u.as_str(), "GET") {
            Ok(Method::Get)
        } else if crate::text::str_eq(u.as_str(), "HEAD") {
            Ok(Method::Head)
        } else if crate::text::str_eq(u.as_str(), "POST") {
            Ok(Method::Post)
        } else if crate::text::str_eq(u.as_str(), "PUT") {
            Ok(Method::Put)
        } else if crate::text::str_eq(u.as_str(), "DELETE") {
            Ok(Method::Delete)
        } else if crate::text::str_eq(u.as_str(), "CONNECT") {
            Ok(Method::Connect)
        } else if crate::text::str_eq(u.as_str(), "TRACE") {
            Ok(Method::Trace)
        } else {
            Ok(Method::Custom(u))
        }
    }
}

impl Default for Method {
    /// The default method is GET.
    fn default() -> (r: Self)
        ensures
            r == Method::Get,
    {
        Method::Get
    }
}

impl core::str::FromStr for Method {
    type Err = ChError;

    fn from_str(s: &str) -> Result<Method, ChError> {
        Method::parse(s)
    }
}

/// Whether an uppercased token is one of the known verbs.
pub open spec fn is_known_verb(u: Seq<char>) -> bool {
    u == "OPTIONS"@ || u == "GET"@ || u == "HEAD"@ || u == "POST"@ || u == "PUT"@
        || u == "DELETE"@ || u == "CONNECT"@ || u == "TRACE"@
}

/// Law: for every non-empty token, the parsed method's wire token uppercases
/// to the token's own uppercase form; a token whose uppercase form is not a
/// known verb parses to `Custom` holding exactly that uppercase form.
pub proof fn lemma_method_round_trip(t: Seq<char>)
    requires
        t.len() > 0,
    ensures
        to_upper(method_token(spec_parse_method(t))) == to_upper(t),
        !is_known_verb(to_upper(t)) ==> spec_parse_method(t) == MethodSpec::Custom(to_upper(t)),
{
    reveal_strlit("OPTIONS");
    reveal_strlit("GET");
    reveal_strlit("HEAD");
    reveal_strlit("POST");
    reveal_strlit("PUT");
    reveal_strlit("DELETE");
    reveal_strlit("CONNECT");
    reveal_strlit("TRACE");
    let u = to_upper(t);
    if is_known_verb(u) {
        // Each known verb is a fixed point of uppercasing.
        assert(to_upper("OPTIONS"@) =~= "OPTIONS"@);
        assert(to_upper("GET"@) =~= "GET"@);
        assert(to_upper("HEAD"@) =~= "HEAD"@);
        assert(to_upper("POST"@) =~= "POST"@);
        assert(to_upper("PUT"@) =~= "PUT"@);
        assert(to_upper("DELETE"@) =~= "DELETE"@);
        assert(to_upper("CONNECT"@) =~= "CONNECT"@);
        assert(to_upper("TRACE"@) =~= "TRACE"@);
    } else {
        lemma_to_upper_idempotent(t);
    }
}

} // verus!
