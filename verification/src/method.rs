//! The HTTP request methods and their exact textual form.
use vstd::prelude::*;

use crate::strutil::str_eq;

verus! {

/// The closed set of HTTP request methods. The textual form round-trips
/// exactly: uppercase and case-sensitive.
#[derive(PartialEq, Eq, Structural, Debug, Clone, Copy, Hash)]
pub enum HttpMethod {
    GET,
    HEAD,
    POST,
    PUT,
    DELETE,
    CONNECT,
    OPTIONS,
    TRACE,
    PATCH,
}

/// The token that names `m` on the wire.
pub open spec fn method_token(m: HttpMethod) -> Seq<char> {
    match m {
        HttpMethod::GET => "GET"@,
        HttpMethod::HEAD => "HEAD"@,
        HttpMethod::POST => "POST"@,
        HttpMethod::PUT => "PUT"@,
        HttpMethod::DELETE => "DELETE"@,
        HttpMethod::CONNECT => "CONNECT"@,
        HttpMethod::OPTIONS => "OPTIONS"@,
        HttpMethod::TRACE => "TRACE"@,
        HttpMethod::PATCH => "PATCH"@,
    }
}

/// The method that the token `s` names, if any.
pub open spec fn spec_method_from(s: Seq<char>) -> Option<HttpMethod> {
    if s == "GET"@ {
        Some(HttpMethod::GET)
    } else if s == "HEAD"@ {
        Some(HttpMethod::HEAD)
    } else if s == "POST"@ {
        Some(HttpMethod::POST)
    } else if s == "PUT"@ {
        Some(HttpMethod::PUT)
    } else if s == "DELETE"@ {
        Some(HttpMethod::DELETE)
    } else if s == "CONNECT"@ {
        Some(HttpMethod::CONNECT)
    } else if s == "OPTIONS"@ {
        Some(HttpMethod::OPTIONS)
    } else if s == "TRACE"@ {
        Some(HttpMethod::TRACE)
    } else if s == "PATCH"@ {
        Some(HttpMethod::PATCH)
    } else {
        None
    }
}

impl HttpMethod {
    /// Parses a method token; fails on anything but the nine exact
    /// uppercase names.
    pub fn from_str(s: &str) -> (r: Option<HttpMethod>)
        ensures
            r == spec_method_from(s@),
            r matches Some(m) ==> s@ == method_token(m),
    {
        if str_eq(s, "GET") {
            Some(HttpMethod::GET)
        } else if str_eq(s, "HEAD") {
            Some(HttpMethod::HEAD)
        } else if str_eq(s, "POST") {
            Some(HttpMethod::POST)
        } else if str_eq(s, "PUT") {
            Some(HttpMethod::PUT)
        } else if str_eq(s, "DELETE") {
            Some(HttpMethod::DELETE)
        } else if str_eq(s, "CONNECT") {
            Some(HttpMethod::CONNECT)
        } else if str_eq(s, "OPTIONS") {
            Some(HttpMethod::OPTIONS)
        } else if str_eq(s, "TRACE") {
            Some(HttpMethod::TRACE)
        } else if str_eq(s, "PATCH") {
            Some(HttpMethod::PATCH)
        } else {
            None
        }
    }

    /// The method's wire token.
    pub fn as_str(&self) -> (r: &'static str)
        ensures
            r@ == method_token(*self),
    {
        match self {
            HttpMethod::GET => "GET",
            HttpMethod::HEAD => "HEAD",
            HttpMethod::POST => "POST",
            HttpMethod::PUT => "PUT",
            HttpMethod::DELETE => "DELETE",
            HttpMethod::CONNECT => "CONNECT",
            HttpMethod::OPTIONS => "OPTIONS",
            HttpMethod::TRACE => "TRACE",
            HttpMethod::PATCH => "PATCH",
        }
    }

    /// The method's wire token as an owned string.
    pub fn to_str(&self) -> (r: String)
        ensures
            r@ == method_token(*self),
    {
        self.as_str().to_owned()
    }
}

/// Each method token parses back to the method it names.
pub proof fn lemma_method_token_round_trip(m: HttpMethod)
    ensures
        spec_method_from(method_token(m)) == Some(m),
{
    reveal_strlit("GET");
    reveal_strlit("HEAD");
    reveal_strlit("POST");
    reveal_strlit("PUT");
    reveal_strlit("DELETE");
    reveal_strlit("CONNECT");
    reveal_strlit("OPTIONS");
    reveal_strlit("TRACE");
    reveal_strlit("PATCH");
    assert("GET"@.len() == 3 && "GET"@[0] == 'G');
    assert("HEAD"@.len() == 4 && "HEAD"@[0] == 'H');
    assert("POST"@.len() == 4 && "POST"@[0] == 'P');
    assert("PUT"@.len() == 3 && "PUT"@[0] == 'P' && "PUT"@[1] == 'U');
    assert("DELETE"@.len() == 6 && "DELETE"@[0] == 'D');
    assert("CONNECT"@.len() == 7 && "CONNECT"@[0] == 'C');
    assert("OPTIONS"@.len() == 7 && "OPTIONS"@[0] == 'O');
    assert("TRACE"@.len() == 5 && "TRACE"@[0] == 'T');
    assert("PATCH"@.len() == 5 && "PATCH"@[0] == 'P' && "PATCH"@[1] == 'A');
    match m {
        HttpMethod::GET => {
            assert(spec_method_from("GET"@) == Some(HttpMethod::GET));
        },
        HttpMethod::HEAD => {
            assert("HEAD"@ != "GET"@);
            assert(spec_method_from("HEAD"@) == Some(HttpMethod::HEAD));
        },
        HttpMethod::POST => {
            assert("POST"@ != "GET"@ && "POST"@ != "HEAD"@);
            assert(spec_method_from("POST"@) == Some(HttpMethod::POST));
        },
        HttpMethod::PUT => {
            assert("PUT"@ != "GET"@ && "PUT"@ != "HEAD"@ && "PUT"@ != "POST"@);
            assert(spec_method_from("PUT"@) == Some(HttpMethod::PUT));
        },
        HttpMethod::DELETE => {
            assert("DELETE"@ != "GET"@ && "DELETE"@ != "HEAD"@ && "DELETE"@ != "POST"@
                && "DELETE"@ != "PUT"@);
            assert(spec_method_from("DELETE"@) == Some(HttpMethod::DELETE));
        },
        HttpMethod::CONNECT => {
            assert("CONNECT"@ != "GET"@ && "CONNECT"@ != "HEAD"@ && "CONNECT"@ != "POST"@
                && "CONNECT"@ != "PUT"@ && "CONNECT"@ != "DELETE"@);
            assert(spec_method_from("CONNECT"@) == Some(HttpMethod::CONNECT));
        },
        HttpMethod::OPTIONS => {
            assert("OPTIONS"@ != "GET"@ && "OPTIONS"@ != "HEAD"@ && "OPTIONS"@ != "POST"@
                && "OPTIONS"@ != "PUT"@ && "OPTIONS"@ != "DELETE"@ && "OPTIONS"@ != "CONNECT"@);
            assert(spec_method_from("OPTIONS"@) == Some(HttpMethod::OPTIONS));
        },
        HttpMethod::TRACE => {
            assert("TRACE"@ != "GET"@ && "TRACE"@ != "HEAD"@ && "TRACE"@ != "POST"@ && "TRACE"@
                != "PUT"@ && "TRACE"@ != "DELETE"@ && "TRACE"@ != "CONNECT"@ && "TRACE"@
                != "OPTIONS"@);
            assert(spec_method_from("TRACE"@) == Some(HttpMethod::TRACE));
        },
        HttpMethod::PATCH => {
            assert("PATCH"@ != "GET"@ && "PATCH"@ != "HEAD"@ && "PATCH"@ != "POST"@ && "PATCH"@
                != "PUT"@ && "PATCH"@ != "DELETE"@ && "PATCH"@ != "CONNECT"@ && "PATCH"@
                != "OPTIONS"@ && "PATCH"@ != "TRACE"@);
            assert(spec_method_from("PATCH"@) == Some(HttpMethod::PATCH));
        },
    }
}

} // verus!
