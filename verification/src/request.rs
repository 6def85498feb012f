//! Request parsing: raw request text to a validated `Request` value,
//! by way of a staged `RequestBuilder`.

use vstd::prelude::*;
use crate::error::ParseError;
use crate::headers::{distinct_keys, spec_insert, Headers};
use crate::method::{spec_method_from, HTTPMethod};
use crate::method::lemma_method_token_chars;
use crate::text::{
    check_number_token, contains_char, drop_final_cr, find_char, has_char, is_number_token, is_ws,
    lemma_find_char, lemma_lines_cons, lemma_lines_single, lemma_number_token_chars,
    lemma_tokens_cons, lemma_tokens_single, spec_lines, spec_split, spec_tokens, spec_trim,
    split_char, split_lines, split_tokens, trim_str,
};

verus! {

pub open spec fn msg_invalid() -> Seq<char> {
    "Invalid HTTP request"@
}

pub open spec fn msg_bad_method() -> Seq<char> {
    "Error parsing HTTP method"@
}

pub open spec fn msg_bad_path() -> Seq<char> {
    "Error parsing HTTP path"@
}

pub open spec fn msg_bad_version() -> Seq<char> {
    "Error parsing HTTP version"@
}

pub open spec fn msg_bad_headers() -> Seq<char> {
    "Error parsing HTTP headers"@
}

pub open spec fn msg_no_method() -> Seq<char> {
    "Unspecified HTTP method"@
}

pub open spec fn msg_no_version() -> Seq<char> {
    "Unspecified HTTP version"@
}

pub open spec fn msg_no_path() -> Seq<char> {
    "Unspecified HTTP path"@
}

/// The index of the first empty line at or after `i`, or the number of
/// lines when there is none.
pub open spec fn first_empty_from(ls: Seq<Seq<char>>, i: int) -> int
    decreases ls.len() - i,
{
    if i < 0 || i >= ls.len() {
        ls.len() as int
    } else if ls[i].len() == 0 {
        i
    } else {
        first_empty_from(ls, i + 1)
    }
}

pub proof fn lemma_first_empty_from(ls: Seq<Seq<char>>, i: int, k: int)
    requires
        0 <= i <= k <= ls.len(),
        forall|t: int| i <= t < k ==> ls[t].len() > 0,
        k == ls.len() || ls[k].len() == 0,
    ensures
        first_empty_from(ls, i) == k,
    decreases k - i,
{
    if i < k {
        lemma_first_empty_from(ls, i + 1, k);
    }
}

pub proof fn lemma_first_empty_bounds(ls: Seq<Seq<char>>, i: int)
    requires
        0 <= i <= ls.len(),
    ensures
        i <= first_empty_from(ls, i) <= ls.len(),
    decreases ls.len() - i,
{
    if i < ls.len() && ls[i].len() != 0 {
        lemma_first_empty_bounds(ls, i + 1);
    }
}

pub proof fn lemma_first_empty_lower(ls: Seq<Seq<char>>, i: int, k: int)
    requires
        0 <= i <= k <= ls.len(),
        forall|t: int| i <= t < k ==> ls[t].len() > 0,
    ensures
        first_empty_from(ls, i) >= k,
    decreases k - i,
{
    if i < k {
        lemma_first_empty_lower(ls, i + 1, k);
    } else {
        lemma_first_empty_bounds(ls, i);
    }
}

/// Whether a header line can be split into a name and a value: it must
/// contain at least one colon.
pub open spec fn good_header_line(line: Seq<char>) -> bool {
    spec_split(line, ':').len() >= 2
}

/// The header name taken from a line: what stands before the first colon,
/// trimmed.
pub open spec fn spec_header_name(line: Seq<char>) -> Seq<char> {
    spec_trim(spec_split(line, ':')[0])
}

/// The header value taken from a line: what stands between the first and
/// the second colon (or the end of the line), trimmed. Anything after a
/// second colon is not part of the value.
pub open spec fn spec_header_value(line: Seq<char>) -> Seq<char> {
    spec_trim(spec_split(line, ':')[1])
}

/// The header mapping accumulated from lines `1 .. i`, in order, later
/// occurrences of a name overwriting earlier ones.
pub open spec fn spec_headers_upto(ls: Seq<Seq<char>>, i: int) -> Seq<(Seq<char>, Seq<char>)>
    decreases i,
{
    if i <= 1 {
        Seq::empty()
    } else {
        spec_insert(
            spec_headers_upto(ls, i - 1),
            spec_header_name(ls[i - 1]),
            spec_header_value(ls[i - 1]),
        )
    }
}

/// The body: lines `from .. j` concatenated in order with no separators.
pub open spec fn spec_body_from(ls: Seq<Seq<char>>, from: int, j: int) -> Seq<char>
    decreases j - from,
{
    if j <= from {
        Seq::empty()
    } else {
        spec_body_from(ls, from, j - 1) + ls[j - 1]
    }
}

/// What parsing raw request text yields: either the five request fields
/// (method, path, version token, headers, body) or an error message.
/// The checks run in a fixed order: line structure, method, path,
/// version, then each header line up to the first empty line.
pub open spec fn spec_parse(raw: Seq<char>) -> Result<
    (HTTPMethod, Seq<char>, Seq<char>, Seq<(Seq<char>, Seq<char>)>, Seq<char>),
    Seq<char>,
> {
    let ls = spec_lines(raw);
    if ls.len() == 0 {
        Err(msg_invalid())
    } else {
        let toks = spec_tokens(ls[0]);
        if toks.len() < 2 {
            Err(msg_invalid())
        } else {
            match spec_method_from(toks[0]) {
                None => Err(msg_bad_method()),
                Some(m) => {
                    if !has_char(toks[1], '/') {
                        Err(msg_bad_path())
                    } else if toks.len() < 3 {
                        Err(msg_bad_version())
                    } else {
                        let parts = spec_split(toks[2], '/');
                        if parts.len() < 2 || !is_number_token(parts[1]) {
                            Err(msg_bad_version())
                        } else {
                            let fe = first_empty_from(ls, 1);
                            if exists|j: int| 1 <= j < fe && !good_header_line(ls[j]) {
                                Err(msg_bad_headers())
                            } else {
                                Ok(
                                    (
                                        m,
                                        toks[1],
                                        parts[1],
                                        spec_headers_upto(ls, fe),
                                        spec_body_from(ls, fe + 1, ls.len() as int),
                                    ),
                                )
                            }
                        }
                    }
                },
            }
        }
    }
}

proof fn lemma_start_line_shape(m: Seq<char>, p: Seq<char>, num: Seq<char>)
    requires
        spec_method_from(m) is Some,
        p.len() > 0,
        forall|i: int| 0 <= i < p.len() ==> !is_ws(p[i]),
        is_number_token(num),
    ensures
        forall|i: int|
            0 <= i < (m + " "@ + p + " HTTP/"@ + num).len() ==> (m + " "@ + p + " HTTP/"@ + num)[i]
                != '\n',
        spec_tokens(m + " "@ + p + " HTTP/"@ + num) == seq![m, p, "HTTP/"@ + num],
        spec_split("HTTP/"@ + num, '/').len() == 2,
        spec_split("HTTP/"@ + num, '/')[1] == num,
{
    reveal_strlit(" ");
    reveal_strlit(" HTTP/");
    reveal_strlit("HTTP/");
    assert(" "@ =~= seq![' ']);
    assert(" HTTP/"@ =~= seq![' ', 'H', 'T', 'T', 'P', '/']);
    assert("HTTP/"@ =~= seq!['H', 'T', 'T', 'P', '/']);
    lemma_method_token_chars(m);
    lemma_number_token_chars(num);
    let marker = "HTTP/"@ + num;
    let lm = m.len() as int;
    let lp = p.len() as int;
    let ln = num.len() as int;
    let line = m + " "@ + p + " HTTP/"@ + num;
    assert(line.len() == lm + 1 + lp + 6 + ln);
    assert forall|i: int| 0 <= i < line.len() implies line[i] != '\n' by {
        if i < lm {
            assert(line[i] == m[i]);
        } else if i == lm {
            assert(line[i] == " "@[0]);
        } else if i < lm + 1 + lp {
            assert(line[i] == p[i - lm - 1]);
        } else if i < lm + 1 + lp + 6 {
            assert(line[i] == " HTTP/"@[i - lm - 1 - lp]);
        } else {
            assert(line[i] == num[i - lm - 1 - lp - 6]);
        }
    }
    // the start line splits into exactly the three assembled tokens
    assert(marker.len() == 5 + ln);
    assert forall|i: int| 0 <= i < marker.len() implies !is_ws(marker[i]) by {
        if i < 5 {
            assert(marker[i] == "HTTP/"@[i]);
        } else {
            assert(marker[i] == num[i - 5]);
        }
    }
    lemma_tokens_single(marker);
    lemma_tokens_cons(p, marker);
    let rest1 = p + seq![' '] + marker;
    assert(spec_tokens(rest1) == seq![p] + seq![marker]);
    let s1 = m + seq![' '] + rest1;
    lemma_tokens_cons(m, rest1);
    assert(line =~= s1);
    assert(spec_tokens(line) == seq![m] + (seq![p] + seq![marker]));
    assert(seq![m] + (seq![p] + seq![marker]) =~= seq![m, p, marker]);
    // the version marker splits at its first slash, leaving the token
    lemma_find_char(marker, '/');
    assert(marker[4] == '/');
    assert forall|j: int| 0 <= j < 4 implies marker[j] != '/' by {
        assert(marker[j] == "HTTP/"@[j]);
    }
    assert(find_char(marker, '/') == 4);
    assert(marker.skip(5) =~= num);
    lemma_find_char(num, '/');
    assert(find_char(num, '/') == -1) by {
        lemma_find_char(num, '/');
        lemma_number_token_chars(num);
        if find_char(num, '/') >= 0 {
            assert(num[find_char(num, '/')] == '/');
        }
    }
    assert(spec_split(num, '/') == seq![num]);
    let parts = spec_split(marker, '/');
    assert(parts == seq![marker.subrange(0, 4)] + seq![num]);
}

/// The general round-trip for a well-formed start line: parsing text
/// assembled from a recognized method token, a whitespace-free path
/// containing a slash, and a numeric version marker succeeds and
/// recovers exactly those pieces, with no headers and an empty body.
pub proof fn lemma_parse_start_line(m: Seq<char>, p: Seq<char>, num: Seq<char>)
    requires
        spec_method_from(m) is Some,
        p.len() > 0,
        forall|i: int| 0 <= i < p.len() ==> !is_ws(p[i]),
        has_char(p, '/'),
        is_number_token(num),
    ensures
        spec_parse(m + " "@ + p + " HTTP/"@ + num + "\r\n"@) matches Ok(t) && Some(t.0)
            == spec_method_from(m) && t.1 == p && t.2 == num && t.3 == Seq::<(
            Seq<char>,
            Seq<char>,
        )>::empty() && t.4 == Seq::<char>::empty(),
{
    lemma_start_line_shape(m, p, num);
    let line = m + " "@ + p + " HTTP/"@ + num;
    lemma_lines_single(line);
    let raw = line + "\r\n"@;
    let ls = spec_lines(raw);
    assert(ls == seq![line]);
    assert(ls[0] == line);
    // one line only: no header lines, no body
    assert(first_empty_from(ls, 1) == 1);
    assert(!(exists|j: int| 1 <= j < 1 && !good_header_line(ls[j])));
    assert(spec_headers_upto(ls, 1) == Seq::<(Seq<char>, Seq<char>)>::empty());
    assert(spec_body_from(ls, 2, 1) == Seq::<char>::empty());
}

/// The general round-trip for a complete request: parsing text
/// assembled from a well-formed start line, one header line with an
/// already-trimmed colon-free name and value, the blank separator line,
/// and a single-line body recovers every piece exactly.
pub proof fn lemma_parse_request(
    m: Seq<char>,
    p: Seq<char>,
    num: Seq<char>,
    k: Seq<char>,
    v: Seq<char>,
    body: Seq<char>,
)
    requires
        spec_method_from(m) is Some,
        p.len() > 0,
        forall|i: int| 0 <= i < p.len() ==> !is_ws(p[i]),
        has_char(p, '/'),
        is_number_token(num),
        forall|i: int| 0 <= i < k.len() ==> k[i] != ':' && k[i] != '\n',
        forall|i: int| 0 <= i < v.len() ==> v[i] != ':' && v[i] != '\n',
        spec_trim(k) == k,
        spec_trim(v) == v,
        forall|i: int| 0 <= i < body.len() ==> body[i] != '\n',
    ensures
        spec_parse(
            m + " "@ + p + " HTTP/"@ + num + "\r\n"@ + k + ": "@ + v + "\r\n"@ + "\r\n"@ + body,
        ) matches Ok(t) && Some(t.0) == spec_method_from(m) && t.1 == p && t.2 == num && t.3
            == seq![(k, v)] && t.4 == body,
{
    reveal_strlit(": ");
    assert(": "@ =~= seq![':', ' ']);
    lemma_start_line_shape(m, p, num);
    let start_line = m + " "@ + p + " HTTP/"@ + num;
    let header_line = k + ": "@ + v;
    let lk = k.len() as int;
    assert(header_line.len() == lk + 2 + v.len());
    assert forall|i: int| 0 <= i < header_line.len() implies header_line[i] != '\n' by {
        if i < lk {
            assert(header_line[i] == k[i]);
        } else if i < lk + 2 {
            assert(header_line[i] == ": "@[i - lk]);
        } else {
            assert(header_line[i] == v[i - lk - 2]);
        }
    }
    // the lines: start line, header line, empty line, then the body
    let rest2 = "\r\n"@ + body;
    let rest1 = header_line + "\r\n"@ + rest2;
    lemma_lines_cons(start_line, rest1);
    lemma_lines_cons(header_line, rest2);
    lemma_lines_cons(Seq::<char>::empty(), body);
    assert(Seq::<char>::empty() + "\r\n"@ + body =~= rest2);
    if body.len() == 0 {
        assert(spec_lines(body) == Seq::<Seq<char>>::empty());
    } else {
        let br = spec_split(body, '\n');
        lemma_find_char(body, '\n');
        assert(find_char(body, '\n') == -1) by {
            if find_char(body, '\n') >= 0 {
                assert(body[find_char(body, '\n')] == '\n');
            }
        }
        assert(br == seq![body]);
        assert(br.drop_last() =~= Seq::<Seq<char>>::empty());
        assert(br.drop_last().map_values(|l: Seq<char>| drop_final_cr(l)).push(br.last()) =~= seq![
            body,
        ]);
        assert(body[body.len() - 1] != '\n');
        assert(spec_lines(body) == seq![body]);
    }
    let raw = m + " "@ + p + " HTTP/"@ + num + "\r\n"@ + k + ": "@ + v + "\r\n"@ + "\r\n"@ + body;
    assert(raw =~= start_line + "\r\n"@ + rest1);
    let ls = spec_lines(raw);
    assert(ls == seq![start_line] + (seq![header_line] + (seq![Seq::<char>::empty()] + spec_lines(
        body,
    ))));
    assert(ls[0] == start_line);
    assert(ls[1] == header_line);
    assert(ls[2] == Seq::<char>::empty());
    assert(ls.len() == if body.len() == 0 {
        3int
    } else {
        4int
    });
    // the first empty line is the separator at index 2
    lemma_first_empty_from(ls, 1, 2);
    assert(first_empty_from(ls, 1) == 2);
    // the header line splits at its first colon into name and value
    lemma_find_char(header_line, ':');
    assert(header_line[lk] == ':');
    assert(forall|j: int| 0 <= j < lk ==> header_line[j] == k[j]);
    assert(find_char(header_line, ':') == lk);
    let sv = seq![' '] + v;
    assert(header_line.skip(lk + 1) =~= sv);
    lemma_find_char(sv, ':');
    assert(find_char(sv, ':') == -1) by {
        if find_char(sv, ':') >= 0 {
            assert(sv[find_char(sv, ':')] == ':');
            if find_char(sv, ':') > 0 {
                assert(v[find_char(sv, ':') - 1] == ':');
            }
        }
    }
    assert(spec_split(sv, ':') == seq![sv]);
    assert(header_line.subrange(0, lk) =~= k);
    assert(spec_split(header_line, ':') == seq![k] + seq![sv]);
    assert(good_header_line(header_line));
    assert(!(exists|j: int| 1 <= j < 2 && !good_header_line(ls[j])));
    // its name and value are exactly the assembled ones
    assert(spec_split(header_line, ':')[0] == k);
    assert(spec_split(header_line, ':')[1] == sv);
    assert(sv[0] == ' ');
    assert(sv.skip(1) =~= v);
    assert(spec_trim(sv) == v);
    assert(spec_header_name(header_line) == k);
    assert(spec_header_value(header_line) == v);
    assert(spec_headers_upto(ls, 1) == Seq::<(Seq<char>, Seq<char>)>::empty());
    assert(spec_headers_upto(ls, 2) == spec_insert(Seq::empty(), k, v));
    assert(spec_insert(Seq::empty(), k, v) =~= seq![(k, v)]);
    // everything after the separator is the body
    if body.len() == 0 {
        assert(spec_body_from(ls, 3, 3) =~= body);
    } else {
        assert(spec_body_from(ls, 3, 4) == spec_body_from(ls, 3, 3) + ls[3]);
        assert(spec_body_from(ls, 3, 4) =~= body);
    }
}

/// A parsed request. A value of this type only arises from a successful
/// `RequestBuilder::build`, so all required fields are populated and the
/// version token is numeric.
pub struct Request {
    pub method: HTTPMethod,
    pub path: String,
    pub version: String,
    pub headers: Headers,
    pub body: String,
}

impl View for Request {
    type V = (HTTPMethod, Seq<char>, Seq<char>, Seq<(Seq<char>, Seq<char>)>, Seq<char>);

    open spec fn view(&self) -> (HTTPMethod, Seq<char>, Seq<char>, Seq<(Seq<char>, Seq<char>)>, Seq<char>) {
        (self.method, self.path@, self.version@, self.headers@, self.body@)
    }
}

impl Request {
    /// The version token holds a number and no header name occurs twice.
    pub open spec fn wf(self) -> bool {
        is_number_token(self.version@) && self.headers.wf()
    }

    /// A fresh builder with no field set.
    pub fn new() -> (r: RequestBuilder)
        ensures
            r.spec_method() is None,
            r.spec_path() is None,
            r.spec_version() is None,
            r.spec_headers() is None,
            r.spec_body() is None,
    {
        RequestBuilder::new()
    }

    /// Parses complete raw request text, yielding exactly what
    /// `spec_parse` describes for it: the validated request on success,
    /// and the error naming the first failed check otherwise.
    #[verifier::loop_isolation(false)]
    pub fn from(source: &str) -> (r: Result<Request, ParseError>)
        ensures
            match spec_parse(source@) {
                Ok(t) => r matches Ok(q) && q@ == t && q.wf(),
                Err(m) => r matches Err(e) && e@ == m,
            },
    {
        let lines = split_lines(source);
        let ghost ls = spec_lines(source@);
        if lines.len() == 0 {
            return Err(ParseError::new("Invalid HTTP request"));
        }
        let first_line: &str = lines[0];
        let toks = split_tokens(first_line);
        if toks.len() < 2 {
            return Err(ParseError::new("Invalid HTTP request"));
        }
        let md: &str = toks[0];
        if HTTPMethod::from_str(md).is_none() {
            return Err(ParseError::new("Error parsing HTTP method"));
        }
        let pth: &str = toks[1];
        if !contains_char(pth, '/') {
            return Err(ParseError::new("Error parsing HTTP path"));
        }
        if toks.len() < 3 {
            return Err(ParseError::new("Error parsing HTTP version"));
        }
        let parts = split_char(toks[2], '/');
        let version_ok: bool = if parts.len() < 2 {
            false
        } else {
            check_number_token(parts[1])
        };
        if !version_ok {
            return Err(ParseError::new("Error parsing HTTP version"));
        }
        let vtok: &str = parts[1];

        let mut headers = Headers::new();
        let mut body = String::new();
        let mut seen_empty: bool = false;
        let ghost mut fe: int = 0;
        let n: usize = lines.len();
        let mut j: usize = 1;
        while j < n
            invariant
                1 <= j <= n,
                n == lines@.len(),
                n == ls.len(),
                forall|idx: int| 0 <= idx < n ==> lines@[idx]@ == ls[idx],
                headers.wf(),
                !seen_empty ==> {
                    &&& (forall|t: int| 1 <= t < j ==> ls[t].len() > 0 && good_header_line(ls[t]))
                    &&& headers@ == spec_headers_upto(ls, j as int)
                    &&& body@ == Seq::<char>::empty()
                },
                seen_empty ==> {
                    &&& 1 <= fe < j
                    &&& ls[fe].len() == 0
                    &&& (forall|t: int| 1 <= t < fe ==> ls[t].len() > 0 && good_header_line(ls[t]))
                    &&& headers@ == spec_headers_upto(ls, fe)
                    &&& body@ == spec_body_from(ls, fe + 1, j as int)
                },
            decreases n - j,
        {
            let line: &str = lines[j];
            if seen_empty {
                body.append(line);
            } else if line.unicode_len() == 0 {
                seen_empty = true;
                proof {
                    fe = j as int;
                }
            } else {
                let parts2 = split_char(line, ':');
                if parts2.len() < 2 {
                    proof {
                        lemma_first_empty_lower(ls, 1, j as int + 1);
                        assert(!good_header_line(ls[j as int]));
                        assert((j as int) < first_empty_from(ls, 1));
                        assert(exists|jj: int|
                            1 <= jj < first_empty_from(ls, 1) && !good_header_line(ls[jj]));
                    }
                    return Err(ParseError::new("Error parsing HTTP headers"));
                }
                let name = trim_str(parts2[0]);
                let value = trim_str(parts2[1]);
                headers.insert(name.to_owned(), value.to_owned());
            }
            j += 1;
        }
        proof {
            if seen_empty {
                lemma_first_empty_from(ls, 1, fe);
            } else {
                lemma_first_empty_from(ls, 1, ls.len() as int);
                fe = ls.len() as int;
            }
            assert(first_empty_from(ls, 1) == fe);
            assert(forall|t: int| 1 <= t < fe ==> good_header_line(ls[t]));
        }

        let result = RequestBuilder::new().path(pth)
            .method(md)
            .version(vtok)
            .headers(headers)
            .body(body.as_str())
            .build();
        proof {
            assert(spec_parse(source@) matches Ok(t) && result matches Ok(q) && q@ == t);
        }
        result
    }
}

/// A staging object for a `Request`: optional fields, validating setters
/// that silently keep the prior value on invalid input, and a final
/// `build` that checks the required fields.
pub struct RequestBuilder {
    method: Option<HTTPMethod>,
    path: Option<String>,
    version: Option<String>,
    headers: Option<Headers>,
    body: Option<String>,
}

impl RequestBuilder {
    pub closed spec fn spec_method(self) -> Option<HTTPMethod> {
        self.method
    }

    pub closed spec fn spec_path(self) -> Option<Seq<char>> {
        match self.path {
            Some(p) => Some(p@),
            None => None,
        }
    }

    pub closed spec fn spec_version(self) -> Option<Seq<char>> {
        match self.version {
            Some(v) => Some(v@),
            None => None,
        }
    }

    pub closed spec fn spec_headers(self) -> Option<Seq<(Seq<char>, Seq<char>)>> {
        match self.headers {
            Some(h) => Some(h@),
            None => None,
        }
    }

    pub closed spec fn spec_body(self) -> Option<Seq<char>> {
        match self.body {
            Some(b) => Some(b@),
            None => None,
        }
    }

    /// A staged version token is always numeric and staged headers never
    /// repeat a name; the setters keep it that way.
    pub open spec fn wf(self) -> bool {
        &&& (self.spec_version() matches Some(v) ==> is_number_token(v))
        &&& (self.spec_headers() matches Some(h) ==> distinct_keys(h))
    }

    pub fn new() -> (r: Self)
        ensures
            r.spec_method() is None,
            r.spec_path() is None,
            r.spec_version() is None,
            r.spec_headers() is None,
            r.spec_body() is None,
            r.wf(),
    {
        RequestBuilder { method: None, path: None, version: None, headers: None, body: None }
    }

    /// Sets the method from its token; an unrecognized token changes
    /// nothing.
    pub fn method(self, method: &str) -> (r: Self)
        ensures
            r.spec_method() == if spec_method_from(method@) is Some {
                spec_method_from(method@)
            } else {
                self.spec_method()
            },
            r.spec_path() == self.spec_path(),
            r.spec_version() == self.spec_version(),
            r.spec_headers() == self.spec_headers(),
            r.spec_body() == self.spec_body(),
            self.wf() ==> r.wf(),
    {
        match HTTPMethod::from_str(method) {
            Some(m) => RequestBuilder { method: Some(m), ..self },
            None => self,
        }
    }

    /// Sets the path; always accepted verbatim.
    pub fn path(self, path: &str) -> (r: Self)
        ensures
            r.spec_path() == Some(path@),
            r.spec_method() == self.spec_method(),
            r.spec_version() == self.spec_version(),
            r.spec_headers() == self.spec_headers(),
            r.spec_body() == self.spec_body(),
            self.wf() ==> r.wf(),
    {
        RequestBuilder { path: Some(path.to_owned()), ..self }
    }

    /// Sets the version from its numeric token; a token that does not
    /// parse as a number changes nothing.
    pub fn version(self, version: &str) -> (r: Self)
        ensures
            r.spec_version() == if is_number_token(version@) {
                Some(version@)
            } else {
                self.spec_version()
            },
            r.spec_method() == self.spec_method(),
            r.spec_path() == self.spec_path(),
            r.spec_headers() == self.spec_headers(),
            r.spec_body() == self.spec_body(),
            self.wf() ==> r.wf(),
    {
        if check_number_token(version) {
            RequestBuilder { version: Some(version.to_owned()), ..self }
        } else {
            self
        }
    }

    /// Upserts one header; a later write to the same name wins.
    pub fn header(self, key: &str, value: &str) -> (r: Self)
        requires
            self.wf(),
        ensures
            r.spec_headers() == Some(
                spec_insert(
                    match self.spec_headers() {
                        Some(h) => h,
                        None => Seq::empty(),
                    },
                    key@,
                    value@,
                ),
            ),
            r.spec_method() == self.spec_method(),
            r.spec_path() == self.spec_path(),
            r.spec_version() == self.spec_version(),
            r.spec_body() == self.spec_body(),
            r.wf(),
    {
        proof {
            crate::headers::lemma_spec_insert_props(
                match self.spec_headers() {
                    Some(h) => h,
                    None => Seq::empty(),
                },
                key@,
                value@,
            );
        }
        match self {
            RequestBuilder { headers: Some(mut h), method, path, version, body } => {
                h.insert(key.to_owned(), value.to_owned());
                RequestBuilder { headers: Some(h), method, path, version, body }
            },
            RequestBuilder { headers: None, method, path, version, body } => {
                let mut h = Headers::new();
                h.insert(key.to_owned(), value.to_owned());
                RequestBuilder { headers: Some(h), method, path, version, body }
            },
        }
    }

    /// Replaces the whole header mapping.
    pub fn headers(self, headers: Headers) -> (r: Self)
        requires
            headers.wf(),
        ensures
            r.spec_headers() == Some(headers@),
            r.spec_method() == self.spec_method(),
            r.spec_path() == self.spec_path(),
            r.spec_version() == self.spec_version(),
            r.spec_body() == self.spec_body(),
            self.wf() ==> r.wf(),
    {
        RequestBuilder { headers: Some(headers), ..self }
    }

    /// Sets the body; always accepted verbatim.
    pub fn body(self, body: &str) -> (r: Self)
        ensures
            r.spec_body() == Some(body@),
            r.spec_method() == self.spec_method(),
            r.spec_path() == self.spec_path(),
            r.spec_version() == self.spec_version(),
            r.spec_headers() == self.spec_headers(),
            self.wf() ==> r.wf(),
    {
        RequestBuilder { body: Some(body.to_owned()), ..self }
    }

    /// Finalizes the request. The required fields are checked in a fixed
    /// order — method, version, path — and the first one missing names
    /// the error; body and headers default to empty.
    pub fn build(self) -> (r: Result<Request, ParseError>)
        requires
            self.wf(),
        ensures
            r is Ok <==> (self.spec_method() is Some && self.spec_version() is Some
                && self.spec_path() is Some),
            r matches Ok(q) ==> {
                &&& self.spec_method() == Some(q.method)
                &&& self.spec_path() == Some(q.path@)
                &&& self.spec_version() == Some(q.version@)
                &&& q.headers@ == match self.spec_headers() {
                    Some(h) => h,
                    None => Seq::<(Seq<char>, Seq<char>)>::empty(),
                }
                &&& q.body@ == match self.spec_body() {
                    Some(b) => b,
                    None => Seq::<char>::empty(),
                }
                &&& q.wf()
            },
            r matches Err(e) ==> e@ == if self.spec_method() is None {
                msg_no_method()
            } else if self.spec_version() is None {
                msg_no_version()
            } else {
                msg_no_path()
            },
    {
        let body: String = match self.body {
            Some(b) => b,
            None => String::new(),
        };
        let headers: Headers = match self.headers {
            Some(h) => h,
            None => Headers::new(),
        };
        let method: HTTPMethod = match self.method {
            Some(m) => m,
            None => {
                return Err(ParseError::new("Unspecified HTTP method"));
            },
        };
        let version: String = match self.version {
            Some(v) => v,
            None => {
                return Err(ParseError::new("Unspecified HTTP version"));
            },
        };
        let path: String = match self.path {
            Some(p) => p,
            None => {
                return Err(ParseError::new("Unspecified HTTP path"));
            },
        };
        Ok(Request { body, method, version, headers, path })
    }
}

} // verus!
