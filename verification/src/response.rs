//! The response: version, status, reason, headers and body, with a builder
//! that keeps `Content-Length` equal to the body's exact byte length, and
//! serialization to wire bytes.

use vstd::prelude::*;
use vstd::utf8::encode_utf8;

use crate::headers::{has_key, key_idx, spec_serialize, Headers};
use crate::text::{dec_str, to_lower, u64_to_string};
use crate::version::{wire_token, Version};

verus! {

/// A response under construction.
#[derive(Debug)]
pub struct Response {
    pub version: Version,
    pub status_code: u16,
    pub reason: String,
    pub headers: Headers,
    pub body: Vec<u8>,
}

/// The headers every default response starts from.
pub open spec fn default_entries() -> Seq<(Seq<char>, Seq<char>)> {
    seq![("content-type"@, "text/html"@), ("connection"@, "close"@)]
}

/// The serialized head of a response: status line, header lines, blank line.
pub open spec fn spec_head(
    v: Version,
    code: u16,
    reason: Seq<char>,
    es: Seq<(Seq<char>, Seq<char>)>,
) -> Seq<char> {
    wire_token(v) + " "@ + dec_str(code as nat) + " "@ + reason + "\r\n"@ + spec_serialize(es)
        + "\r\n"@
}

proof fn lemma_default_tokens()
    ensures
        to_lower("Content-Type"@) == "content-type"@,
        to_lower("Connection"@) == "connection"@,
        to_lower("Content-Length"@) == "content-length"@,
        "content-type"@.len() == 12,
        "connection"@.len() == 10,
        "content-length"@.len() == 14,
{
    reveal_strlit("Content-Type");
    reveal_strlit("content-type");
    reveal_strlit("Connection");
    reveal_strlit("connection");
    reveal_strlit("Content-Length");
    reveal_strlit("content-length");
    assert(to_lower("Content-Type"@) =~= "content-type"@);
    assert(to_lower("Connection"@) =~= "connection"@);
    assert(to_lower("Content-Length"@) =~= "content-length"@);
}

impl Response {
    /// A response with the given version and body on top of the defaults.
    pub fn new(version: Version, body: String) -> (r: Response)
        ensures
            r.version == version,
            r.status_code == 200,
            r.reason@ == "OK"@,
            r.body@ == encode_utf8(body@),
            r.headers.entry_seq() == default_entries().push(
                ("content-length"@, dec_str(encode_utf8(body@).len() as nat)),
            ),
            r.headers.wf(),
    {
        let mut r = Response::default();
        r.version(version);
        let bytes = body.as_str().as_bytes_vec();
        r.body(bytes);
        proof {
            lemma_default_tokens();
            assert(!has_key(default_entries(), "content-length"@));
        }
        r
    }

    /// Replace the version.
    pub fn version(&mut self, version: Version)
        ensures
            *final(self) == (Response { version, ..*old(self) }),
    {
        self.version = version;
    }

    /// Store the body and set `Content-Length` to its exact byte length.
    pub fn body(&mut self, value: Vec<u8>)
        requires
            old(self).headers.wf(),
        ensures
            final(self).body@ == value@,
            final(self).headers@ == old(self).headers@.insert(
                "content-length"@,
                dec_str(value@.len() as nat),
            ),
            final(self).headers.entry_seq() == (if has_key(
                old(self).headers.entry_seq(),
                "content-length"@,
            ) {
                old(self).headers.entry_seq().update(
                    key_idx(old(self).headers.entry_seq(), "content-length"@),
                    ("content-length"@, dec_str(value@.len() as nat)),
                )
            } else {
                old(self).headers.entry_seq().push(
                    ("content-length"@, dec_str(value@.len() as nat)),
                )
            }),
            final(self).headers.wf(),
            final(self).version == old(self).version,
            final(self).status_code == old(self).status_code,
            final(self).reason == old(self).reason,
    {
        let len = u64_to_string(value.len() as u64);
        proof {
            lemma_default_tokens();
        }
        self.headers.insert("Content-Length", len.as_str());
        self.body = value;
    }

    /// Serialize: status line, header lines, a blank line, then the body
    /// bytes appended verbatim.
    pub fn to_bytes(&self) -> (r: Vec<u8>)
        ensures
            r@ == encode_utf8(
                spec_head(self.version, self.status_code, self.reason@, self.headers.entry_seq()),
            ) + self.body@,
    {
        let mut head = String::from_str(self.version.as_str());
        head.append(" ");
        let code = u64_to_string(self.status_code as u64);
        head.append(code.as_str());
        head.append(" ");
        head.append(self.reason.as_str());
        head.append("\r\n");
        let hs = self.headers.serialize();
        head.append(hs.as_str());
        head.append("\r\n");
        proof {
            assert(head@ =~= spec_head(
                self.version,
                self.status_code,
                self.reason@,
                self.headers.entry_seq(),
            ));
        }
        let mut out = head.as_str().as_bytes_vec();
        let mut i: usize = 0;
        while i < self.body.len()
            invariant
                0 <= i <= self.body@.len(),
                out@ =~= encode_utf8(
                    spec_head(
                        self.version,
                        self.status_code,
                        self.reason@,
                        self.headers.entry_seq(),
                    ),
                ) + self.body@.take(i as int),
            decreases self.body@.len() - i,
        {
            out.push(self.body[i]);
            i += 1;
        }
        proof {
            assert(self.body@.take(self.body@.len() as int) =~= self.body@);
        }
        out
    }
}

impl Default for Response {
    /// Version 1.1, status 200 "OK", content-type and connection headers,
    /// empty body.
    fn default() -> (r: Self)
        ensures
            r.version == Version::Http11,
            r.status_code == 200,
            r.reason@ == "OK"@,
            r.body@ == Seq::<u8>::empty(),
            r.headers.entry_seq() == default_entries(),
            r.headers.wf(),
    {
        let mut headers = Headers::new();
        headers.insert("Content-Type", "text/html");
        headers.insert("Connection", "close");
        proof {
            lemma_default_tokens();
            assert(!has_key(Seq::<(Seq<char>, Seq<char>)>::empty(), "content-type"@));
            assert(headers.entry_seq() =~= default_entries());
        }
        let body: Vec<u8> = Vec::new();
        proof {
            assert(body@ =~= Seq::<u8>::empty());
        }
        Response {
            version: Version::Http11,
            status_code: 200,
            reason: String::from_str("OK"),
            headers,
            body,
        }
    }
}

} // verus!
