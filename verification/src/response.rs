//! Response construction: structured field values to an immutable
//! `Response`, and its serialization to well-formed wire bytes.

use vstd::prelude::*;
use vstd::utf8::encode_utf8;
use crate::headers::{distinct_keys, spec_insert, Headers};
use crate::text::{check_number_token, is_number_token, spec_digits, u16_digits};

verus! {

/// A response payload handed to the builder: either text or raw bytes.
pub enum Body {
    Text(String),
    Bytes(Vec<u8>),
}

/// The reason phrase for a status code, from the fixed table of
/// recognized codes; any other code falls back to the generic
/// "Internal Server Error" text.
pub open spec fn spec_status_message(status: u16) -> Seq<char> {
    if status == 100 {
        "Continue"@
    } else if status == 101 {
        "Switching Protocols"@
    } else if status == 102 {
        "Processing"@
    } else if status == 103 {
        "Early Hints"@
    } else if status == 200 {
        "OK"@
    } else if status == 201 {
        "Created"@
    } else if status == 202 {
        "Accepted"@
    } else if status == 203 {
        "Non-Authoritative Information"@
    } else if status == 204 {
        "No Content"@
    } else if status == 205 {
        "Reset Content"@
    } else if status == 206 {
        "Partial Content"@
    } else if status == 207 {
        "Multi-Status"@
    } else if status == 208 {
        "Already Reported"@
    } else if status == 218 {
        "This is fine"@
    } else if status == 226 {
        "IM Used"@
    } else if status == 300 {
        "Multiple Choices"@
    } else if status == 301 {
        "Moved Permanently"@
    } else if status == 302 {
        "Found"@
    } else if status == 303 {
        "See Other"@
    } else if status == 304 {
        "Not Modified"@
    } else if status == 307 {
        "Temporary Redirect"@
    } else if status == 308 {
        "Permanent Redirect"@
    } else if status == 400 {
        "Bad Request"@
    } else if status == 401 {
        "Unauthorized"@
    } else if status == 403 {
        "Forbidden"@
    } else if status == 404 {
        "Not Found"@
    } else if status == 405 {
        "Method Not Allowed"@
    } else if status == 406 {
        "Not Acceptable"@
    } else if status == 407 {
        "Proxy Authentication Required"@
    } else if status == 408 {
        "Request Timeout"@
    } else if status == 409 {
        "Conflict"@
    } else if status == 410 {
        "Gone"@
    } else if status == 411 {
        "Length Required"@
    } else if status == 412 {
        "Precondition Failed"@
    } else if status == 413 {
        "Payload Too Large"@
    } else if status == 414 {
        "URI Too Long"@
    } else if status == 415 {
        "Unsupported Media Type"@
    } else if status == 416 {
        "Range Not Satisfiable"@
    } else if status == 417 {
        "Expectation Failed"@
    } else if status == 418 {
        "I'm a teapot"@
    } else if status == 421 {
        "Misdirected Request"@
    } else if status == 422 {
        "Unprocessable Entity"@
    } else if status == 423 {
        "Locked"@
    } else if status == 424 {
        "Failed Dependency"@
    } else if status == 426 {
        "Upgrade Required"@
    } else if status == 428 {
        "Precondition Required"@
    } else if status == 429 {
        "Too Many Requests"@
    } else if status == 431 {
        "Request Header Fields Too Large"@
    } else if status == 451 {
        "Unavailable For Legal Reasons"@
    } else if status == 500 {
        "Internal Server Error"@
    } else if status == 501 {
        "Not Implemented"@
    } else if status == 502 {
        "Bad Gateway"@
    } else if status == 503 {
        "Service Unavailable"@
    } else if status == 504 {
        "Gateway Timeout"@
    } else if status == 505 {
        "HTTP Version Not Supported"@
    } else if status == 506 {
        "Variant Also Negotiates"@
    } else if status == 507 {
        "Insufficient Storage"@
    } else if status == 508 {
        "Loop Detected"@
    } else if status == 510 {
        "Not Extended"@
    } else if status == 511 {
        "Network Authentication Required"@
    } else {
        "Internal Server Error"@
    }
}

/// Renders the reason phrase for `status`.
pub fn status_message(status: u16) -> (r: String)
    ensures
        r@ == spec_status_message(status),
{
    let m: &str =
    if status == 100 {
        "Continue"
    } else if status == 101 {
        "Switching Protocols"
    } else if status == 102 {
        "Processing"
    } else if status == 103 {
        "Early Hints"
    } else if status == 200 {
        "OK"
    } else if status == 201 {
        "Created"
    } else if status == 202 {
        "Accepted"
    } else if status == 203 {
        "Non-Authoritative Information"
    } else if status == 204 {
        "No Content"
    } else if status == 205 {
        "Reset Content"
    } else if status == 206 {
        "Partial Content"
    } else if status == 207 {
        "Multi-Status"
    } else if status == 208 {
        "Already Reported"
    } else if status == 218 {
        "This is fine"
    } else if status == 226 {
        "IM Used"
    } else if status == 300 {
        "Multiple Choices"
    } else if status == 301 {
        "Moved Permanently"
    } else if status == 302 {
        "Found"
    } else if status == 303 {
        "See Other"
    } else if status == 304 {
        "Not Modified"
    } else if status == 307 {
        "Temporary Redirect"
    } else if status == 308 {
        "Permanent Redirect"
    } else if status == 400 {
        "Bad Request"
    } else if status == 401 {
        "Unauthorized"
    } else if status == 403 {
        "Forbidden"
    } else if status == 404 {
        "Not Found"
    } else if status == 405 {
        "Method Not Allowed"
    } else if status == 406 {
        "Not Acceptable"
    } else if status == 407 {
        "Proxy Authentication Required"
    } else if status == 408 {
        "Request Timeout"
    } else if status == 409 {
        "Conflict"
    } else if status == 410 {
        "Gone"
    } else if status == 411 {
        "Length Required"
    } else if status == 412 {
        "Precondition Failed"
    } else if status == 413 {
        "Payload Too Large"
    } else if status == 414 {
        "URI Too Long"
    } else if status == 415 {
        "Unsupported Media Type"
    } else if status == 416 {
        "Range Not Satisfiable"
    } else if status == 417 {
        "Expectation Failed"
    } else if status == 418 {
        "I'm a teapot"
    } else if status == 421 {
        "Misdirected Request"
    } else if status == 422 {
        "Unprocessable Entity"
    } else if status == 423 {
        "Locked"
    } else if status == 424 {
        "Failed Dependency"
    } else if status == 426 {
        "Upgrade Required"
    } else if status == 428 {
        "Precondition Required"
    } else if status == 429 {
        "Too Many Requests"
    } else if status == 431 {
        "Request Header Fields Too Large"
    } else if status == 451 {
        "Unavailable For Legal Reasons"
    } else if status == 500 {
        "Internal Server Error"
    } else if status == 501 {
        "Not Implemented"
    } else if status == 502 {
        "Bad Gateway"
    } else if status == 503 {
        "Service Unavailable"
    } else if status == 504 {
        "Gateway Timeout"
    } else if status == 505 {
        "HTTP Version Not Supported"
    } else if status == 506 {
        "Variant Also Negotiates"
    } else if status == 507 {
        "Insufficient Storage"
    } else if status == 508 {
        "Loop Detected"
    } else if status == 510 {
        "Not Extended"
    } else if status == 511 {
        "Network Authentication Required"
    } else {
        "Internal Server Error"
    };
    String::from_str(m)
}

/// The customary plain-text default response: status 200 with reason
/// "OK", version 1.1, a single `Content-Type: text/plain` header and an
/// empty body.
pub fn default_response() -> (r: Response)
    ensures
        r.status == 200,
        r.status_message@ == "OK"@,
        r.version@ == "1.1"@,
        r.headers@ == seq![("Content-Type"@, "text/plain"@)],
        r.body@ == Seq::<u8>::empty(),
        r.wf(),
{
    let r = ResponseBuilder::new().header("Content-Type", "text/plain").build();
    proof {
        assert(r.headers@ =~= seq![("Content-Type"@, "text/plain"@)]);
    }
    r
}

/// The header lines of a response head: one `name: value` line per
/// entry, each terminated by CRLF, in the mapping's order.
pub open spec fn spec_header_block(hs: Seq<(Seq<char>, Seq<char>)>, i: int) -> Seq<char>
    decreases i,
{
    if i <= 0 {
        Seq::empty()
    } else {
        spec_header_block(hs, i - 1) + hs[i - 1].0 + ": "@ + hs[i - 1].1 + "\r\n"@
    }
}

/// The textual head of the wire form: status line, header lines, and the
/// blank separator line, each CRLF-terminated.
pub open spec fn spec_head(r: Response) -> Seq<char> {
    "HTTP/"@ + r.version@ + " "@ + spec_digits(r.status as nat) + " "@ + r.status_message@
        + "\r\n"@ + spec_header_block(r.headers@, r.headers@.len() as int) + "\r\n"@
}

/// The complete wire form: the UTF-8 bytes of the head, then the body
/// bytes, then one final CRLF.
pub open spec fn spec_serialize(r: Response) -> Seq<u8> {
    encode_utf8(spec_head(r)) + r.body@ + seq![13u8, 10u8]
}

/// A built response. A response from `ResponseBuilder::build` always has
/// its reason phrase computed from its status code.
pub struct Response {
    pub status: u16,
    pub status_message: String,
    pub headers: Headers,
    pub version: String,
    pub body: Vec<u8>,
}

impl Response {
    /// The phrase agrees with the status, the version token is numeric,
    /// and no header name occurs twice.
    pub open spec fn wf(self) -> bool {
        &&& self.status_message@ == spec_status_message(self.status)
        &&& is_number_token(self.version@)
        &&& distinct_keys(self.headers@)
    }

    /// A fresh builder with no field set.
    pub fn new() -> (r: ResponseBuilder)
        ensures
            r.spec_status() is None,
            r.spec_headers() is None,
            r.spec_version() is None,
            r.spec_body() is None,
    {
        ResponseBuilder::new()
    }

    /// Assembles the wire bytes: exactly one status line, the header
    /// lines, one blank CRLF separator, and the body followed by CRLF.
    pub fn serialize(&self) -> (out: Vec<u8>)
        ensures
            out@ == spec_serialize(*self),
    {
        let ghost status_line = "HTTP/"@ + self.version@ + " "@ + spec_digits(self.status as nat)
            + " "@ + self.status_message@ + "\r\n"@;
        let mut head = String::new();
        head.append("HTTP/");
        head.append(self.version.as_str());
        head.append(" ");
        let digits = u16_digits(self.status);
        head.append(digits.as_str());
        head.append(" ");
        head.append(self.status_message.as_str());
        head.append("\r\n");
        proof {
            assert(head@ =~= status_line);
        }
        let n: usize = self.headers.len();
        let mut i: usize = 0;
        while i < n
            invariant
                0 <= i <= n,
                n == self.headers@.len(),
                head@ == status_line + spec_header_block(self.headers@, i as int),
            decreases n - i,
        {
            head.append(self.headers.name_at(i).as_str());
            head.append(": ");
            head.append(self.headers.value_at(i).as_str());
            head.append("\r\n");
            proof {
                assert(head@ =~= status_line + spec_header_block(self.headers@, i as int + 1));
            }
            i += 1;
        }
        head.append("\r\n");
        proof {
            assert(head@ =~= spec_head(*self));
        }
        let mut out = head.as_str().as_bytes_vec();
        out.extend_from_slice(self.body.as_slice());
        out.push(13u8);
        out.push(10u8);
        proof {
            assert(out@ =~= spec_serialize(*self));
        }
        out
    }
}

/// A staging object for a `Response`: every field optional, every unset
/// field falling back to a default at build time, so that building never
/// fails.
pub struct ResponseBuilder {
    status: Option<u16>,
    headers: Option<Headers>,
    version: Option<String>,
    body: Option<Vec<u8>>,
}

impl ResponseBuilder {
    pub closed spec fn spec_status(self) -> Option<u16> {
        self.status
    }

    pub closed spec fn spec_headers(self) -> Option<Seq<(Seq<char>, Seq<char>)>> {
        match self.headers {
            Some(h) => Some(h@),
            None => None,
        }
    }

    pub closed spec fn spec_version(self) -> Option<Seq<char>> {
        match self.version {
            Some(v) => Some(v@),
            None => None,
        }
    }

    pub closed spec fn spec_body(self) -> Option<Seq<u8>> {
        match self.body {
            Some(b) => Some(b@),
            None => None,
        }
    }

    /// A staged version token is always numeric and staged headers never
    /// repeat a name; the setters keep it that way.
    pub open spec fn wf(self) -> bool {
        &&& (self.spec_version() matches Some(v) ==> is_number_token(v))
        &&& (self.spec_headers() matches Some(h) ==> distinct_keys(h))
    }

    pub fn new() -> (r: Self)
        ensures
            r.spec_status() is None,
            r.spec_headers() is None,
            r.spec_version() is None,
            r.spec_body() is None,
            r.wf(),
    {
        ResponseBuilder { status: None, headers: None, version: None, body: None }
    }

    /// Sets the status code; always accepted, recognized or not.
    pub fn status_code(self, status_code: u16) -> (r: Self)
        ensures
            r.spec_status() == Some(status_code),
            r.spec_headers() == self.spec_headers(),
            r.spec_version() == self.spec_version(),
            r.spec_body() == self.spec_body(),
            self.wf() ==> r.wf(),
    {
        ResponseBuilder { status: Some(status_code), ..self }
    }

    /// Upserts one header; a later write to the same name wins.
    pub fn header(self, key: &str, value: &str) -> (r: Self)
        requires
            self.wf(),
        ensures
            r.spec_headers() == Some(
                spec_insert(
                    match self.spec_headers() {
                        Some(h) => h,
                        None => Seq::empty(),
                    },
                    key@,
                    value@,
                ),
            ),
            r.spec_status() == self.spec_status(),
            r.spec_version() == self.spec_version(),
            r.spec_body() == self.spec_body(),
            r.wf(),
    {
        proof {
            crate::headers::lemma_spec_insert_props(
                match self.spec_headers() {
                    Some(h) => h,
                    None => Seq::empty(),
                },
                key@,
                value@,
            );
        }
        match self {
            ResponseBuilder { headers: Some(mut h), status, version, body } => {
                h.insert(key.to_owned(), value.to_owned());
                ResponseBuilder { headers: Some(h), status, version, body }
            },
            ResponseBuilder { headers: None, status, version, body } => {
                let mut h = Headers::new();
                h.insert(key.to_owned(), value.to_owned());
                ResponseBuilder { headers: Some(h), status, version, body }
            },
        }
    }

    /// Sets the version from its numeric token; a token that does not
    /// parse as a number changes nothing.
    pub fn version(self, version: &str) -> (r: Self)
        ensures
            r.spec_version() == if is_number_token(version@) {
                Some(version@)
            } else {
                self.spec_version()
            },
            r.spec_status() == self.spec_status(),
            r.spec_headers() == self.spec_headers(),
            r.spec_body() == self.spec_body(),
            self.wf() ==> r.wf(),
    {
        if check_number_token(version) {
            ResponseBuilder { version: Some(version.to_owned()), ..self }
        } else {
            self
        }
    }

    /// Sets the payload: text becomes its UTF-8 bytes, raw bytes are
    /// taken as they are; the later of two calls wins.
    pub fn body(self, body: Body) -> (r: Self)
        ensures
            r.spec_body() == Some(
                match body {
                    Body::Text(t) => encode_utf8(t@),
                    Body::Bytes(b) => b@,
                },
            ),
            r.spec_status() == self.spec_status(),
            r.spec_headers() == self.spec_headers(),
            r.spec_version() == self.spec_version(),
            self.wf() ==> r.wf(),
    {
        match body {
            Body::Text(t) => ResponseBuilder { body: Some(t.as_str().as_bytes_vec()), ..self },
            Body::Bytes(b) => ResponseBuilder { body: Some(b), ..self },
        }
    }

    /// Finalizes the response; never fails. Unset fields take their
    /// defaults — status 200, version 1.1, no headers, empty body — and
    /// the reason phrase is computed from the effective status.
    pub fn build(self) -> (r: Response)
        requires
            self.wf(),
        ensures
            r.status == match self.spec_status() {
                Some(s) => s,
                None => 200u16,
            },
            r.status_message@ == spec_status_message(r.status),
            r.version@ == match self.spec_version() {
                Some(v) => v,
                None => "1.1"@,
            },
            r.headers@ == match self.spec_headers() {
                Some(h) => h,
                None => Seq::<(Seq<char>, Seq<char>)>::empty(),
            },
            r.body@ == match self.spec_body() {
                Some(b) => b,
                None => Seq::<u8>::empty(),
            },
            r.wf(),
    {
        let status: u16 = match self.status {
            Some(s) => s,
            None => 200,
        };
        let body: Vec<u8> = match self.body {
            Some(b) => b,
            None => Vec::new(),
        };
        let version: String = match self.version {
            Some(v) => v,
            None => {
                proof {
                    reveal_strlit("1.1");
                    assert("1.1"@ =~= seq!['1', '.', '1']);
                    assert(is_number_token("1.1"@));
                }
                String::from_str("1.1")
            },
        };
        let headers: Headers = match self.headers {
            Some(h) => h,
            None => Headers::new(),
        };
        let status_message = status_message(status);
        Response { status, status_message, body, version, headers }
    }
}

} // verus!
