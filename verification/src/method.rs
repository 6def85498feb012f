//! The request method enumeration and its bidirectional token mapping.

use vstd::prelude::*;
use crate::text::str_eq;

verus! {

/// The closed set of request methods the parser recognizes.
#[derive(Debug, Clone, Copy, PartialEq, Eq, Hash, Structural)]
pub enum HTTPMethod {
    GET,
    POST,
    PUT,
    DELETE,
    PATCH,
    HEAD,
    CONNECT,
    OPTIONS,
    TRACE,
}

/// The uppercase wire token of a method.
pub open spec fn spec_method_token(m: HTTPMethod) -> Seq<char> {
    match m {
        HTTPMethod::GET => "GET"@,
        HTTPMethod::POST => "POST"@,
        HTTPMethod::PUT => "PUT"@,
        HTTPMethod::DELETE => "DELETE"@,
        HTTPMethod::PATCH => "PATCH"@,
        HTTPMethod::HEAD => "HEAD"@,
        HTTPMethod::CONNECT => "CONNECT"@,
        HTTPMethod::OPTIONS => "OPTIONS"@,
        HTTPMethod::TRACE => "TRACE"@,
    }
}

/// The method whose wire token is exactly `s`, if any. Unknown tokens map
/// to no value; deciding what that means is left to the caller.
pub open spec fn spec_method_from(s: Seq<char>) -> Option<HTTPMethod> {
    if s == "GET"@ {
        Some(HTTPMethod::GET)
    } else if s == "POST"@ {
        Some(HTTPMethod::POST)
    } else if s == "HEAD"@ {
        Some(HTTPMethod::HEAD)
    } else if s == "PUT"@ {
        Some(HTTPMethod::PUT)
    } else if s == "DELETE"@ {
        Some(HTTPMethod::DELETE)
    } else if s == "CONNECT"@ {
        Some(HTTPMethod::CONNECT)
    } else if s == "OPTIONS"@ {
        Some(HTTPMethod::OPTIONS)
    } else if s == "TRACE"@ {
        Some(HTTPMethod::TRACE)
    } else if s == "PATCH"@ {
        Some(HTTPMethod::PATCH)
    } else {
        None
    }
}

impl HTTPMethod {
    /// The uppercase textual token of this method.
    pub fn as_str(&self) -> (r: &'static str)
        ensures
            r@ == spec_method_token(*self),
    {
        match self {
            Self::GET => "GET",
            Self::POST => "POST",
            Self::HEAD => "HEAD",
            Self::PUT => "PUT",
            Self::PATCH => "PATCH",
            Self::DELETE => "DELETE",
            Self::CONNECT => "CONNECT",
            Self::OPTIONS => "OPTIONS",
            Self::TRACE => "TRACE",
        }
    }

    /// Looks a token up in the enumeration; `None` for unrecognized input.
    pub fn from_str(s: &str) -> (r: Option<Self>)
        ensures
            r == spec_method_from(s@),
    {
        if str_eq(s, "GET") {
            Some(Self::GET)
        } else if str_eq(s, "POST") {
            Some(Self::POST)
        } else if str_eq(s, "HEAD") {
            Some(Self::HEAD)
        } else if str_eq(s, "PUT") {
            Some(Self::PUT)
        } else if str_eq(s, "DELETE") {
            Some(Self::DELETE)
        } else if str_eq(s, "CONNECT") {
            Some(Self::CONNECT)
        } else if str_eq(s, "OPTIONS") {
            Some(Self::OPTIONS)
        } else if str_eq(s, "TRACE") {
            Some(Self::TRACE)
        } else if str_eq(s, "PATCH") {
            Some(Self::PATCH)
        } else {
            None
        }
    }
}

/// The two mappings invert each other: every method's token maps back to
/// the method itself.
pub proof fn lemma_method_token_round_trip(m: HTTPMethod)
    ensures
        spec_method_from(spec_method_token(m)) == Some(m),
{
    reveal_strlit("GET");
    reveal_strlit("POST");
    reveal_strlit("PUT");
    reveal_strlit("DELETE");
    reveal_strlit("PATCH");
    reveal_strlit("HEAD");
    reveal_strlit("CONNECT");
    reveal_strlit("OPTIONS");
    reveal_strlit("TRACE");
    assert("GET"@ =~= seq!['G', 'E', 'T']);
    assert("POST"@ =~= seq!['P', 'O', 'S', 'T']);
    assert("PUT"@ =~= seq!['P', 'U', 'T']);
    assert("DELETE"@ =~= seq!['D', 'E', 'L', 'E', 'T', 'E']);
    assert("PATCH"@ =~= seq!['P', 'A', 'T', 'C', 'H']);
    assert("HEAD"@ =~= seq!['H', 'E', 'A', 'D']);
    assert("CONNECT"@ =~= seq!['C', 'O', 'N', 'N', 'E', 'C', 'T']);
    assert("OPTIONS"@ =~= seq!['O', 'P', 'T', 'I', 'O', 'N', 'S']);
    assert("TRACE"@ =~= seq!['T', 'R', 'A', 'C', 'E']);
    match m {
        HTTPMethod::GET => {
            assert(spec_method_from("GET"@) == Some(HTTPMethod::GET));
        },
        HTTPMethod::POST => {
            assert(spec_method_from("POST"@) == Some(HTTPMethod::POST));
        },
        HTTPMethod::PUT => {
            assert(spec_method_from("PUT"@) == Some(HTTPMethod::PUT));
        },
        HTTPMethod::DELETE => {
            assert(spec_method_from("DELETE"@) == Some(HTTPMethod::DELETE));
        },
        HTTPMethod::PATCH => {
            assert(spec_method_from("PATCH"@) == Some(HTTPMethod::PATCH));
        },
        HTTPMethod::HEAD => {
            assert(spec_method_from("HEAD"@) == Some(HTTPMethod::HEAD));
        },
        HTTPMethod::CONNECT => {
            assert(spec_method_from("CONNECT"@) == Some(HTTPMethod::CONNECT));
        },
        HTTPMethod::OPTIONS => {
            assert(spec_method_from("OPTIONS"@) == Some(HTTPMethod::OPTIONS));
        },
        HTTPMethod::TRACE => {
            assert(spec_method_from("TRACE"@) == Some(HTTPMethod::TRACE));
        },
    }
}

/// The other direction of the mapping: a token the lookup recognizes is
/// exactly the wire token of the method it maps to.
pub proof fn lemma_method_token_inverse(s: Seq<char>, m: HTTPMethod)
    requires
        spec_method_from(s) == Some(m),
    ensures
        spec_method_token(m) == s,
{
}

/// A recognized method token is nonempty and free of whitespace, so it
/// survives start-line tokenization unchanged.
pub proof fn lemma_method_token_chars(s: Seq<char>)
    requires
        spec_method_from(s) is Some,
    ensures
        s.len() > 0,
        forall|i: int| 0 <= i < s.len() ==> !crate::text::is_ws(s[i]),
{
    reveal_strlit("GET");
    reveal_strlit("POST");
    reveal_strlit("PUT");
    reveal_strlit("DELETE");
    reveal_strlit("PATCH");
    reveal_strlit("HEAD");
    reveal_strlit("CONNECT");
    reveal_strlit("OPTIONS");
    reveal_strlit("TRACE");
    assert("GET"@ =~= seq!['G', 'E', 'T']);
    assert("POST"@ =~= seq!['P', 'O', 'S', 'T']);
    assert("PUT"@ =~= seq!['P', 'U', 'T']);
    assert("DELETE"@ =~= seq!['D', 'E', 'L', 'E', 'T', 'E']);
    assert("PATCH"@ =~= seq!['P', 'A', 'T', 'C', 'H']);
    assert("HEAD"@ =~= seq!['H', 'E', 'A', 'D']);
    assert("CONNECT"@ =~= seq!['C', 'O', 'N', 'N', 'E', 'C', 'T']);
    assert("OPTIONS"@ =~= seq!['O', 'P', 'T', 'I', 'O', 'N', 'S']);
    assert("TRACE"@ =~= seq!['T', 'R', 'A', 'C', 'E']);
}

} // verus!
