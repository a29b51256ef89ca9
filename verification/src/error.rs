//! The library's error type.  Every failure of framing, parsing or of the
//! outside collaborators is classified as one of these kinds; parsing errors
//! are local to one connection and never cross it.

use vstd::prelude::*;

verus! {

/// Error kinds of the server core.
#[derive(Debug, Clone, PartialEq)]
pub enum ChError {
    /// A connection-level read or write fault, with a description.
    IoError(String),
    /// A header block with a line that holds no colon; carries the block.
    HeaderParse(String),
    /// A version token outside the supported set; carries the token.
    VersionUnsupported(String),
    /// A method token that was rejected; carries the token.
    MethodUnsupported(String),
    /// The byte stream ended before the header terminator was seen.
    HeaderIncomplete,
    /// The header grew past the 1024-byte ceiling without a terminator.
    HeaderToBig,
    /// Bytes that are not valid UTF-8 where text was expected.
    FromUtf8,
    /// An empty method token.
    EmptyMethod,
    /// An empty or missing header block.
    EmptyHeader,
    /// An empty or missing version token.
    EmptyVersion,
    /// A request line without a request-target.
    EmptyRequestUri,
    /// A request line with more than three space-separated tokens.
    RequestLineToBig,
    /// A status line without a status code.
    EmptyStatusCode,
    /// A numeric status outside [100, 599]; carries the value.
    InvalidStatusCode(u16),
    /// A string that does not parse as the expected integer.
    ParseInt,
    /// A failure of the proxy-directory datastore query.
    Datastore(String),
    /// The proxy-directory connection pool failed to hand out a connection.
    Pool(String),
}

/// The mathematical shape of a `ChError`, with strings as character
/// sequences, for use in contracts.
pub enum ChErrorSpec {
    IoError(Seq<char>),
    HeaderParse(Seq<char>),
    VersionUnsupported(Seq<char>),
    MethodUnsupported(Seq<char>),
    HeaderIncomplete,
    HeaderToBig,
    FromUtf8,
    EmptyMethod,
    EmptyHeader,
    EmptyVersion,
    EmptyRequestUri,
    RequestLineToBig,
    EmptyStatusCode,
    InvalidStatusCode(u16),
    ParseInt,
    Datastore(Seq<char>),
    Pool(Seq<char>),
}

impl View for ChError {
    type V = ChErrorSpec;

    open spec fn view(&self) -> ChErrorSpec {
        match self {
            ChError::IoError(s) => ChErrorSpec::IoError(s@),
            ChError::HeaderParse(s) => ChErrorSpec::HeaderParse(s@),
            ChError::VersionUnsupported(s) => ChErrorSpec::VersionUnsupported(s@),
            ChError::MethodUnsupported(s) => ChErrorSpec::MethodUnsupported(s@),
            ChError::HeaderIncomplete => ChErrorSpec::HeaderIncomplete,
            ChError::HeaderToBig => ChErrorSpec::HeaderToBig,
            ChError::FromUtf8 => ChErrorSpec::FromUtf8,
            ChError::EmptyMethod => ChErrorSpec::EmptyMethod,
            ChError::EmptyHeader => ChErrorSpec::EmptyHeader,
            ChError::EmptyVersion => ChErrorSpec::EmptyVersion,
            ChError::EmptyRequestUri => ChErrorSpec::EmptyRequestUri,
            ChError::RequestLineToBig => ChErrorSpec::RequestLineToBig,
            ChError::EmptyStatusCode => ChErrorSpec::EmptyStatusCode,
            ChError::InvalidStatusCode(c) => ChErrorSpec::InvalidStatusCode(*c),
            ChError::ParseInt => ChErrorSpec::ParseInt,
            ChError::Datastore(s) => ChErrorSpec::Datastore(s@),
            ChError::Pool(s) => ChErrorSpec::Pool(s@),
        }
    }
}

} // verus!
