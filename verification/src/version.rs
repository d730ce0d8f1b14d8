//! The HTTP protocol versions and their exact textual form.
use vstd::prelude::*;

use crate::strutil::str_eq;

verus! {

/// The protocol versions this crate knows. `HTTP0_9` is the versionless
/// request-line form; the request builder rejects it (see
/// `HttpRequest::parse_request_line`), while the free parsing function
/// `parse_http_request_start_line` accepts it.
#[derive(PartialEq, Eq, Structural, Debug, Clone, Copy, Hash)]
pub enum HttpVersion {
    HTTP0_9,
    HTTP1_0,
    HTTP1_1,
}

/// The token that names `v` on the wire; the versionless form has none.
pub open spec fn version_token(v: HttpVersion) -> Seq<char> {
    match v {
        HttpVersion::HTTP0_9 => ""@,
        HttpVersion::HTTP1_0 => "HTTP/1.0"@,
        HttpVersion::HTTP1_1 => "HTTP/1.1"@,
    }
}

/// The version that the token `s` names, if any.
pub open spec fn spec_version_from(s: Seq<char>) -> Option<HttpVersion> {
    if s == ""@ {
        Some(HttpVersion::HTTP0_9)
    } else if s == "HTTP/1.0"@ {
        Some(HttpVersion::HTTP1_0)
    } else if s == "HTTP/1.1"@ {
        Some(HttpVersion::HTTP1_1)
    } else {
        None
    }
}

impl HttpVersion {
    /// Parses a version token; the empty token is the versionless form.
    pub fn from_str(s: &str) -> (r: Option<HttpVersion>)
        ensures
            r == spec_version_from(s@),
            r matches Some(v) ==> s@ == version_token(v),
    {
        if str_eq(s, "") {
            Some(HttpVersion::HTTP0_9)
        } else if str_eq(s, "HTTP/1.0") {
            Some(HttpVersion::HTTP1_0)
        } else if str_eq(s, "HTTP/1.1") {
            Some(HttpVersion::HTTP1_1)
        } else {
            None
        }
    }

    /// The version's wire token.
    pub fn as_str(&self) -> (r: &'static str)
        ensures
            r@ == version_token(*self),
    {
        match self {
            HttpVersion::HTTP0_9 => "",
            HttpVersion::HTTP1_0 => "HTTP/1.0",
            HttpVersion::HTTP1_1 => "HTTP/1.1",
        }
    }

    /// The version's wire token as an owned string.
    pub fn to_str(&self) -> (r: String)
        ensures
            r@ == version_token(*self),
    {
        self.as_str().to_owned()
    }
}

/// Each version token parses back to the version it names.
pub proof fn lemma_version_token_round_trip(v: HttpVersion)
    ensures
        spec_version_from(version_token(v)) == Some(v),
{
    reveal_strlit("");
    reveal_strlit("HTTP/1.0");
    reveal_strlit("HTTP/1.1");
    assert(""@.len() == 0);
    assert("HTTP/1.0"@.len() == 8 && "HTTP/1.0"@[7] == '0');
    assert("HTTP/1.1"@.len() == 8 && "HTTP/1.1"@[7] == '1');
    match v {
        HttpVersion::HTTP0_9 => {
            assert(spec_version_from(""@) == Some(HttpVersion::HTTP0_9));
        },
        HttpVersion::HTTP1_0 => {
            assert("HTTP/1.0"@ != ""@);
            assert(spec_version_from("HTTP/1.0"@) == Some(HttpVersion::HTTP1_0));
        },
        HttpVersion::HTTP1_1 => {
            assert("HTTP/1.1"@ != ""@ && "HTTP/1.1"@ != "HTTP/1.0"@);
            assert(spec_version_from("HTTP/1.1"@) == Some(HttpVersion::HTTP1_1));
        },
    }
}

} // verus!
