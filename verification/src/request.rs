//! The request: framed from a byte stream by reading up to the CRLFCRLF
//! terminator under a 1024-byte ceiling, then parsed into method,
//! request-target, version and headers.

use vstd::prelude::*;
use vstd::utf8::{decode_utf8, valid_utf8};

use crate::error::{ChError, ChErrorSpec};
use crate::headers::{spec_parse_headers, Headers};
use crate::method::{spec_parse_method, Method, MethodSpec};
use crate::text::{
    contains_char, dec_val, find_char, first_idx, is_dec, lemma_first_idx, lemma_split_len,
    parse_u64, split_char, split_spec, to_lower, trim, trim_spec, utf8_to_string,
};
use crate::version::{spec_parse_version, Version};

verus! {

/// The byte ceiling for a request header.
pub const HEADER_LIMIT: usize = 1024;

/// Whether a buffer ends with the CRLFCRLF header terminator.
pub open spec fn terminated(bytes: Seq<u8>) -> bool {
    bytes.len() >= 4 && bytes[bytes.len() - 4] == 13 && bytes[bytes.len() - 3] == 10
        && bytes[bytes.len() - 2] == 13 && bytes[bytes.len() - 1] == 10
}

/// What one more byte does to a framing buffer.
#[derive(Debug, Clone, Copy, PartialEq, Eq, Structural)]
pub enum FrameStep {
    /// No terminator yet; keep reading.
    More,
    /// The buffer now ends with the terminator.
    Done,
    /// The buffer outgrew the ceiling without a terminator counting for it.
    TooLarge,
}

/// The framing state: the bytes read so far.  The caller feeds one byte at a
/// time, as they arrive from the connection.
pub struct Framer {
    buf: Vec<u8>,
}

impl View for Framer {
    type V = Seq<u8>;

    closed spec fn view(&self) -> Seq<u8> {
        self.buf@
    }
}

impl Framer {
    /// An empty framing buffer.
    pub fn new() -> (r: Framer)
        ensures
            r@ == Seq::<u8>::empty(),
    {
        let r = Framer { buf: Vec::new() };
        proof {
            assert(r@ =~= Seq::<u8>::empty());
        }
        r
    }

    /// Append one byte: the size ceiling is checked first, then the
    /// terminator.
    pub fn push(&mut self, byte: u8) -> (step: FrameStep)
        ensures
            final(self)@ == old(self)@ + seq![byte],
            step == (if final(self)@.len() > HEADER_LIMIT {
                FrameStep::TooLarge
            } else if terminated(final(self)@) {
                FrameStep::Done
            } else {
                FrameStep::More
            }),
    {
        self.buf.push(byte);
        proof {
            assert(self@ =~= old(self)@ + seq![byte]);
        }
        let len = self.buf.len();
        if len > HEADER_LIMIT {
            FrameStep::TooLarge
        } else if len >= 4 && self.buf[len - 4] == 13 && self.buf[len - 3] == 10 && self.buf[len
            - 2] == 13 && self.buf[len - 1] == 10 {
            FrameStep::Done
        } else {
            FrameStep::More
        }
    }

    /// The bytes read so far.
    pub fn bytes(&self) -> (r: &[u8])
        ensures
            r@ == self@,
    {
        self.buf.as_slice()
    }

    /// The framed buffer, surrendered.
    pub fn into_vec(self) -> (r: Vec<u8>)
        ensures
            r@ == self@,
    {
        self.buf
    }
}

/// What framing a byte source yields: the shortest prefix that ends with the
/// terminator, too-large once the buffer outgrows the ceiling, incomplete if
/// the source ends first.
pub open spec fn spec_frame(consumed: Seq<u8>, rest: Seq<u8>) -> Result<Seq<u8>, ChErrorSpec>
    decreases rest.len(),
{
    if rest.len() == 0 {
        Err(ChErrorSpec::HeaderIncomplete)
    } else {
        let grown = consumed + seq![rest[0]];
        if grown.len() > HEADER_LIMIT {
            Err(ChErrorSpec::HeaderToBig)
        } else if terminated(grown) {
            Ok(grown)
        } else {
            spec_frame(grown, rest.skip(1))
        }
    }
}

proof fn lemma_frame_too_large_rec(input: Seq<u8>, i: int)
    requires
        0 <= i <= HEADER_LIMIT,
        input.len() > HEADER_LIMIT,
        forall|n: int| 4 <= n <= HEADER_LIMIT ==> !terminated(#[trigger] input.take(n)),
    ensures
        spec_frame(input.take(i), input.skip(i)) == Err::<Seq<u8>, ChErrorSpec>(
            ChErrorSpec::HeaderToBig,
        ),
    decreases input.len() - i,
{
    let rest = input.skip(i);
    assert(rest.len() > 0);
    assert(rest[0] == input[i]);
    let grown = input.take(i) + seq![input[i]];
    assert(grown =~= input.take(i + 1));
    if i + 1 > HEADER_LIMIT {
    } else {
        assert(!terminated(input.take(i + 1)));
        lemma_frame_too_large_rec(input, i + 1);
        assert(rest.skip(1) =~= input.skip(i + 1));
    }
}

/// Law: a byte source that outgrows the ceiling without any prefix ending
/// in the terminator makes framing fail as too large.
pub proof fn lemma_frame_too_large(input: Seq<u8>)
    requires
        input.len() > HEADER_LIMIT,
        forall|n: int| 4 <= n <= HEADER_LIMIT ==> !terminated(#[trigger] input.take(n)),
    ensures
        spec_frame(Seq::empty(), input) == Err::<Seq<u8>, ChErrorSpec>(ChErrorSpec::HeaderToBig),
{
    assert(input.take(0) =~= Seq::<u8>::empty());
    assert(input.skip(0) =~= input);
    lemma_frame_too_large_rec(input, 0);
}

/// The request line and headers of a single request.
#[derive(Debug)]
pub struct Request {
    method: Method,
    request_uri: String,
    version: Version,
    headers: Headers,
}

/// The mathematical shape of a `Request`.
pub struct RequestSpec {
    pub method: MethodSpec,
    pub request_uri: Seq<char>,
    pub version: Version,
    pub headers: Map<Seq<char>, Seq<char>>,
}

impl View for Request {
    type V = RequestSpec;

    closed spec fn view(&self) -> RequestSpec {
        RequestSpec {
            method: self.method@,
            request_uri: self.request_uri@,
            version: self.version,
            headers: self.headers@,
        }
    }
}

/// What parsing the decoded header text yields: the first line is the
/// request line, split at single spaces into exactly method, request-target
/// and version; the remaining text is the header block.
pub open spec fn spec_parse_request_text(text: Seq<char>) -> Result<RequestSpec, ChErrorSpec> {
    if text.len() == 0 {
        Err(ChErrorSpec::EmptyHeader)
    } else {
        let has_nl = contains_char(text, '\n');
        let rl = trim_spec(if has_nl { text.take(first_idx(text, '\n')) } else { text });
        let rest = if has_nl { text.skip(first_idx(text, '\n') + 1) } else { Seq::empty() };
        let parts = split_spec(rl, ' ');
        if parts[0].len() == 0 {
            Err(ChErrorSpec::EmptyMethod)
        } else {
            let m = spec_parse_method(parts[0]);
            if parts.len() < 2 {
                Err(ChErrorSpec::EmptyRequestUri)
            } else {
                match spec_parse_version(if parts.len() >= 3 { parts[2] } else { Seq::empty() }) {
                    Err(e) => Err(e),
                    Ok(v) => {
                        if parts.len() > 3 {
                            Err(ChErrorSpec::RequestLineToBig)
                        } else {
                            match spec_parse_headers(rest) {
                                Err(e) => Err(e),
                                Ok(hm) => Ok(
                                    RequestSpec {
                                        method: m,
                                        request_uri: parts[1],
                                        version: v,
                                        headers: hm,
                                    },
                                ),
                            }
                        }
                    },
                }
            }
        }
    }
}

/// What parsing a framed header buffer yields: a UTF-8 decode, then the text
/// parse.
pub open spec fn spec_parse_request(bytes: Seq<u8>) -> Result<RequestSpec, ChErrorSpec> {
    if !valid_utf8(bytes) {
        Err(ChErrorSpec::FromUtf8)
    } else {
        spec_parse_request_text(decode_utf8(bytes))
    }
}

impl Request {
    /// Frame one request header out of an in-memory byte source, exactly as
    /// an incremental reader would: byte by byte until the terminator, the
    /// ceiling checked on every byte.
    pub fn frame(input: &[u8]) -> (r: Result<Vec<u8>, ChError>)
        ensures
            ({
                let sr = spec_frame(Seq::empty(), input@);
                match r {
                    Ok(buf) => sr == Ok::<Seq<u8>, ChErrorSpec>(buf@),
                    Err(e) => sr == Err::<Seq<u8>, ChErrorSpec>(e@),
                }
            }),
    {
        let mut framer = Framer::new();
        let mut i: usize = 0;
        proof {
            assert(input@.skip(0) =~= input@);
        }
        while i < input.len()
            invariant
                0 <= i <= input@.len(),
                framer@.len() == i,
                spec_frame(Seq::empty(), input@) == spec_frame(framer@, input@.skip(i as int)),
            decreases input@.len() - i,
        {
            let ghost pre = framer@;
            let ghost rest = input@.skip(i as int);
            let step = framer.push(input[i]);
            proof {
                assert(rest[0] == input@[i as int]);
                assert(pre + seq![input@[i as int]] == framer@);
                assert(rest.skip(1) =~= input@.skip(i + 1));
            }
            match step {
                FrameStep::TooLarge => {
                    return Err(ChError::HeaderToBig);
                },
                FrameStep::Done => {
                    return Ok(framer.into_vec());
                },
                FrameStep::More => {},
            }
            i += 1;
        }
        Err(ChError::HeaderIncomplete)
    }

    /// Parse a framed header buffer.
    pub fn from_header(header: &[u8]) -> (r: Result<Request, ChError>)
        ensures
            ({
                let sr = spec_parse_request(header@);
                match r {
                    Ok(req) => sr == Ok::<RequestSpec, ChErrorSpec>(req@) && req.wf(),
                    Err(e) => sr == Err::<RequestSpec, ChErrorSpec>(e@),
                }
            }),
    {
        match utf8_to_string(header) {
            None => Err(ChError::FromUtf8),
            Some(text) => Request::parse_text(text.as_str()),
        }
    }

    /// The header invariant carried by every parsed request.
    pub closed spec fn wf(&self) -> bool {
        self.headers.wf()
    }

    fn parse_text(text: &str) -> (r: Result<Request, ChError>)
        ensures
            ({
                let sr = spec_parse_request_text(text@);
                match r {
                    Ok(req) => sr == Ok::<RequestSpec, ChErrorSpec>(req@) && req.wf(),
                    Err(e) => sr == Err::<RequestSpec, ChErrorSpec>(e@),
                }
            }),
    {
        let tlen = text.unicode_len();
        if tlen == 0 {
            return Err(ChError::EmptyHeader);
        }
        let (rl_raw, rest): (&str, &str) = match find_char(text, '\n') {
            None => {
                proof {
                    reveal_strlit("");
                    assert(""@ =~= Seq::<char>::empty());
                }
                (text, "")
            },
            Some(i) => {
                proof {
                    lemma_first_idx(text@, '\n');
                }
                (text.substring_char(0, i), text.substring_char(i + 1, tlen))
            },
        };
        let rl = trim(rl_raw);
        let parts = split_char(rl, ' ');
        let ghost sparts = split_spec(rl@, ' ');
        proof {
            lemma_split_len(rl@, ' ');
            assert(parts.deep_view()[0] == sparts[0]);
        }
        let method = match Method::parse(parts[0].as_str()) {
            Ok(m) => m,
            Err(e) => {
                return Err(e);
            },
        };
        if parts.len() < 2 {
            return Err(ChError::EmptyRequestUri);
        }
        proof {
            assert(parts.deep_view()[1] == sparts[1]);
        }
        let request_uri = parts[1].clone();
        let vres = if parts.len() >= 3 {
            proof {
                assert(parts.deep_view()[2] == sparts[2]);
            }
            Version::parse(parts[2].as_str())
        } else {
            proof {
                reveal_strlit("");
                assert(""@ =~= Seq::<char>::empty());
            }
            Version::parse("")
        };
        let version = match vres {
            Ok(v) => v,
            Err(e) => {
                return Err(e);
            },
        };
        if parts.len() > 3 {
            return Err(ChError::RequestLineToBig);
        }
        let headers = match Headers::parse(rest) {
            Ok(h) => h,
            Err(e) => {
                return Err(e);
            },
        };
        Ok(Request { method, request_uri, version, headers })
    }

    /// A copy of the headers.
    pub fn headers(&self) -> (r: Headers)
        requires
            self.wf(),
        ensures
            r@ == self@.headers,
            r.wf(),
    {
        self.headers.duplicate()
    }

    /// The request-target, kept as an opaque string.
    pub fn request_uri(&self) -> (r: &str)
        ensures
            r@ == self@.request_uri,
    {
        self.request_uri.as_str()
    }

    /// The protocol version of the request line.
    pub fn version(&self) -> (r: Version)
        ensures
            r == self@.version,
    {
        self.version
    }

    /// The parsed method of the request line.
    pub fn method(&self) -> (r: &Method)
        ensures
            r@ == self@.method,
    {
        &self.method
    }

    /// The body length announced by the `Content-Length` header: a missing
    /// or unparsable header counts as zero, never as an error.
    pub fn content_length(&self) -> (n: u64)
        requires
            self.wf(),
        ensures
            n as int == spec_content_length(self@.headers),
    {
        proof {
            lemma_content_length_token();
        }
        match self.headers.get("Content-Length") {
            None => 0,
            Some(v) => match parse_u64(v.as_str()) {
                Some(n) => n,
                None => 0,
            },
        }
    }
}

/// The announced body length: the `content-length` value when it is a digit
/// string fitting in u64, and zero otherwise.
pub open spec fn spec_content_length(h: Map<Seq<char>, Seq<char>>) -> int {
    let k = "content-length"@;
    if h.contains_key(k) && is_dec(h[k]) && dec_val(h[k]) <= u64::MAX {
        dec_val(h[k])
    } else {
        0
    }
}

proof fn lemma_content_length_token()
    ensures
        to_lower("Content-Length"@) == "content-length"@,
{
    reveal_strlit("Content-Length");
    reveal_strlit("content-length");
    assert(to_lower("Content-Length"@) =~= "content-length"@);
}

} // verus!
