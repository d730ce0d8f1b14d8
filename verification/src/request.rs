//! The request model: the raw line-oriented message as read off the wire,
//! and the structured request built from it — parsed method and version, the
//! URL split from its query string, header and cookie maps, and the body.
use vstd::prelude::*;
use vstd::utf8::{decode_utf8, encode_utf8_decode_utf8, valid_utf8};

use crate::cookie::{spec_parse_cookie_header, CookieView, HttpCookie};
use crate::header::HttpHeader;
use crate::method::{spec_method_from, HttpMethod};
use crate::multipart::{spec_multipart, utf8_to_str, MultipartBody, MultipartError};
use crate::strmap::StrMap;
use crate::strutil::{
    dec_val, parse_u64, spec_first_idx, spec_split, spec_split_once, spec_starts_with,
    spec_trim_ws, split_once, split_str, starts_with, str_eq, trim, unsigned_digits,
    unsigned_grammar,
};
use crate::version::{spec_version_from, HttpVersion};

verus! {

/// Why a raw message failed to become a structured request.
#[derive(PartialEq, Eq, Structural, Debug, Clone, Copy)]
pub enum ProtocolError {
    /// The method token named no known method.
    UnknownMethod,
    /// The request line had no path token.
    MissingPath,
    /// The request line had no version token; the versionless form is not
    /// served.
    MissingVersion,
    /// The version token named no known version.
    UnknownVersion,
    /// A query pair had no `=`.
    BadQueryPair,
    /// A `Content-Length` value did not parse as an unsigned integer.
    BadContentLength,
    /// The body was not valid UTF-8 text.
    BodyNotText,
}

/// A raw HTTP message: the request line, the header lines in wire order
/// (duplicates kept), the body bytes, and the peer and local addresses.
#[derive(Debug, PartialEq, Eq)]
pub struct HttpRequestRaw {
    pub request_line: String,
    pub headers: Vec<HttpHeader>,
    pub body: Vec<u8>,
    pub peer_ip: String,
    pub local_ip: String,
}

/// What parsing a request line `METHOD SP PATH [SP VERSION]` yields, the
/// versionless form rejected.
pub open spec fn spec_parse_request_line(line: Seq<char>) -> Result<
    (HttpMethod, Seq<char>, HttpVersion),
    ProtocolError,
> {
    let toks = spec_split(line, ' ');
    match spec_method_from(spec_trim_ws(toks[0])) {
        None => Err(ProtocolError::UnknownMethod),
        Some(m) => {
            if toks.len() < 2 {
                Err(ProtocolError::MissingPath)
            } else if toks.len() < 3 {
                Err(ProtocolError::MissingVersion)
            } else {
                match spec_version_from(spec_trim_ws(toks[2])) {
                    None => Err(ProtocolError::UnknownVersion),
                    Some(v) => Ok((m, spec_trim_ws(toks[1]), v)),
                }
            }
        },
    }
}

/// What parsing a request line yields under the early policy that accepts
/// the versionless form.
pub open spec fn spec_parse_start_line_lenient(line: Seq<char>) -> Result<
    (HttpMethod, Seq<char>, HttpVersion),
    ProtocolError,
> {
    let toks = spec_split(line, ' ');
    match spec_method_from(spec_trim_ws(toks[0])) {
        None => Err(ProtocolError::UnknownMethod),
        Some(m) => {
            if toks.len() < 2 {
                Err(ProtocolError::MissingPath)
            } else if toks.len() < 3 {
                Ok((m, spec_trim_ws(toks[1]), HttpVersion::HTTP0_9))
            } else {
                match spec_version_from(spec_trim_ws(toks[2])) {
                    None => Err(ProtocolError::UnknownVersion),
                    Some(v) => Ok((m, spec_trim_ws(toks[1]), v)),
                }
            }
        },
    }
}

/// The map that the `&`-separated pairs `pairs[0..i)` denote, keys unique and
/// later pairs winning; a pair without `=` fails.
pub open spec fn spec_query_map(pairs: Seq<Seq<char>>, i: int) -> Result<
    Map<Seq<char>, Seq<char>>,
    ProtocolError,
> {
    spec_query_map_rec(pairs, i)
}

pub open spec fn spec_query_map_rec(pairs: Seq<Seq<char>>, i: int) -> Result<
    Map<Seq<char>, Seq<char>>,
    ProtocolError,
>
    decreases i,
{
    if i <= 0 {
        Ok(Map::empty())
    } else {
        match spec_query_map_rec(pairs, i - 1) {
            Err(e) => Err(e),
            Ok(m) => match spec_split_once(pairs[i - 1], '=') {
                None => Err(ProtocolError::BadQueryPair),
                Some(kv) => Ok(m.insert(kv.0, kv.1)),
            },
        }
    }
}

proof fn lemma_query_err_propagates(pairs: Seq<Seq<char>>, i: int, n: int)
    requires
        0 <= i <= n,
        spec_query_map_rec(pairs, i) is Err,
    ensures
        spec_query_map_rec(pairs, n) == spec_query_map_rec(pairs, i),
    decreases n - i,
{
    if i < n {
        lemma_query_err_propagates(pairs, i + 1, n);
    }
}

/// What parsing a whole query line yields.
pub open spec fn spec_parse_query(s: Seq<char>) -> Result<
    Map<Seq<char>, Seq<char>>,
    ProtocolError,
> {
    spec_query_map(spec_split(s, '&'), spec_split(s, '&').len() as int)
}

/// The path with everything from the first `?` on removed.
pub open spec fn spec_url_of(path: Seq<char>) -> Seq<char> {
    match spec_split_once(path, '?') {
        Some(p) => p.0,
        None => path,
    }
}

/// The query map of a path: empty without a `?`, else the parsed text after
/// the first `?`.
pub open spec fn spec_query_of(path: Seq<char>) -> Result<
    Map<Seq<char>, Seq<char>>,
    ProtocolError,
> {
    match spec_split_once(path, '?') {
        Some(p) => spec_parse_query(p.1),
        None => Ok(Map::empty()),
    }
}

/// The header map of the first `i` header lines: keyed by name, later lines
/// winning, `Cookie` lines excluded.
pub open spec fn spec_headers_map(hs: Seq<(Seq<char>, Seq<char>)>, i: int) -> Map<
    Seq<char>,
    (Seq<char>, Seq<char>),
>
    decreases i,
{
    if i <= 0 {
        Map::empty()
    } else {
        let m = spec_headers_map(hs, i - 1);
        if hs[i - 1].0 == "Cookie"@ {
            m
        } else {
            m.insert(hs[i - 1].0, hs[i - 1])
        }
    }
}

/// `m` with the cookies `cs[0..j)` added one by one, keyed by name, later
/// cookies winning.
pub open spec fn insert_cookie_views(
    m: Map<Seq<char>, CookieView>,
    cs: Seq<CookieView>,
    j: int,
) -> Map<Seq<char>, CookieView>
    decreases j,
{
    if j <= 0 {
        m
    } else {
        insert_cookie_views(m, cs, j - 1).insert(cs[j - 1].name, cs[j - 1])
    }
}

/// The cookie map of the first `i` header lines: every line literally named
/// `Cookie`, parsed as a cookie header, its cookies merged in order.
pub open spec fn spec_cookies_map(hs: Seq<(Seq<char>, Seq<char>)>, i: int) -> Map<
    Seq<char>,
    CookieView,
>
    decreases i,
{
    if i <= 0 {
        Map::empty()
    } else {
        let m = spec_cookies_map(hs, i - 1);
        if hs[i - 1].0 == "Cookie"@ {
            insert_cookie_views(
                m,
                spec_parse_cookie_header(hs[i - 1].1),
                spec_parse_cookie_header(hs[i - 1].1).len() as int,
            )
        } else {
            m
        }
    }
}

/// A structured request: parsed request line, URL and query split apart,
/// header and cookie maps (the `Cookie` header folded into the latter), body
/// bytes, and the connection's addresses.
#[derive(Debug, PartialEq, Eq)]
pub struct HttpRequest {
    pub method: HttpMethod,
    pub resource_path: String,
    pub version: HttpVersion,
    pub url: String,
    pub query: StrMap<String>,
    pub headers: StrMap<HttpHeader>,
    pub cookies: StrMap<HttpCookie>,
    pub body: Vec<u8>,
    pub peer_ip: String,
    pub local_ip: String,
}

impl HttpRequest {
    /// The invariant of a built request: its maps are well formed.
    pub open spec fn wf(&self) -> bool {
        self.query.wf() && self.headers.wf() && self.cookies.wf()
    }

    /// Parses a request line `METHOD SP PATH SP VERSION`. The versionless
    /// form is rejected: this server answers HTTP/1.x requests only.
    pub fn parse_request_line(start_line: &str) -> (r: Result<
        (HttpMethod, String, HttpVersion),
        ProtocolError,
    >)
        ensures
            r is Ok <==> spec_parse_request_line(start_line@) is Ok,
            r matches Ok(t) ==> spec_parse_request_line(start_line@) matches Ok(s) && t.0 == s.0
                && t.1@ == s.1 && t.2 == s.2,
            r matches Err(e) ==> spec_parse_request_line(start_line@) == Err::<
                (HttpMethod, Seq<char>, HttpVersion),
                ProtocolError,
            >(e),
    {
        let toks = split_str(start_line, ' ');
        let m = match HttpMethod::from_str(trim(toks[0].as_str())) {
            Some(m) => m,
            None => {
                return Err(ProtocolError::UnknownMethod);
            },
        };
        if toks.len() < 2 {
            return Err(ProtocolError::MissingPath);
        }
        if toks.len() < 3 {
            return Err(ProtocolError::MissingVersion);
        }
        let v = match HttpVersion::from_str(trim(toks[2].as_str())) {
            Some(v) => v,
            None => {
                return Err(ProtocolError::UnknownVersion);
            },
        };
        let path = trim(toks[1].as_str()).to_owned();
        Ok((m, path, v))
    }

    /// Parses a query line of `&`-separated `key=value` pairs into a map,
    /// later pairs winning on equal keys. Fails iff some pair has no `=`.
    pub fn parse_query_line(resource_path: &str) -> (r: Result<StrMap<String>, ProtocolError>)
        ensures
            r is Ok <==> spec_parse_query(resource_path@) is Ok,
            r matches Ok(m) ==> m.wf() && (spec_parse_query(resource_path@) matches Ok(sm)
                && m@.map_values(|v: String| v@) == sm),
            r matches Err(e) ==> spec_parse_query(resource_path@) == Err::<
                Map<Seq<char>, Seq<char>>,
                ProtocolError,
            >(e),
    {
        let pairs = split_str(resource_path, '&');
        let ghost ps = pairs@.map_values(|x: String| x@);
        let n = pairs.len();
        let mut result: StrMap<String> = StrMap::new();
        let mut i: usize = 0;
        proof {
            assert(result@.map_values(|v: String| v@) =~= Map::<Seq<char>, Seq<char>>::empty());
        }
        while i < n
            invariant
                i <= n,
                n == pairs@.len(),
                ps == pairs@.map_values(|x: String| x@),
                ps == spec_split(resource_path@, '&'),
                result.wf(),
                spec_query_map_rec(ps, i as int) matches Ok(m) && m == result@.map_values(
                    |v: String| v@,
                ),
            decreases n - i,
        {
            let ghost pre = result@.map_values(|v: String| v@);
            match split_once(pairs[i].as_str(), '=') {
                Some((k, v)) => {
                    result.insert(k, v.to_owned());
                    proof {
                        assert(result@.map_values(|v: String| v@) =~= pre.insert(
                            ps[i as int].take(spec_first_idx(ps[i as int], '=')->Some_0),
                            ps[i as int].skip(spec_first_idx(ps[i as int], '=')->Some_0 + 1),
                        ));
                    }
                },
                None => {
                    proof {
                        assert(ps[i as int] == pairs@[i as int]@);
                        assert(spec_query_map_rec(ps, i + 1) == Err::<
                            Map<Seq<char>, Seq<char>>,
                            ProtocolError,
                        >(ProtocolError::BadQueryPair));
                        lemma_query_err_propagates(ps, i + 1, ps.len() as int);
                    }
                    return Err(ProtocolError::BadQueryPair);
                },
            }
            i = i + 1;
        }
        Ok(result)
    }

    /// Builds the structured request from a raw message: parses the request
    /// line, splits URL and query, folds `Cookie` headers into the cookie
    /// map and the rest into the header map, and keeps the body bytes.
    pub fn from_raw_request(raw_request: HttpRequestRaw) -> (r: Result<HttpRequest, ProtocolError>)
        ensures
            r is Ok <==> (spec_parse_request_line(raw_request.request_line@) matches Ok(t)
                && spec_query_of(t.1) is Ok),
            r matches Ok(rq) ==> spec_parse_request_line(raw_request.request_line@) matches Ok(t)
                && {
                &&& rq.wf()
                &&& rq.method == t.0
                &&& rq.resource_path@ == t.1
                &&& rq.version == t.2
                &&& rq.url@ == spec_url_of(t.1)
                &&& spec_query_of(t.1) matches Ok(qm) && rq.query@.map_values(|v: String| v@)
                    == qm
                &&& rq.headers@.map_values(|h: HttpHeader| h@) == spec_headers_map(
                    raw_request.headers@.map_values(|h: HttpHeader| h@),
                    raw_request.headers@.len() as int,
                )
                &&& rq.cookies@.map_values(|c: HttpCookie| c@) == spec_cookies_map(
                    raw_request.headers@.map_values(|h: HttpHeader| h@),
                    raw_request.headers@.len() as int,
                )
                &&& rq.body@ == raw_request.body@
                &&& rq.peer_ip@ == raw_request.peer_ip@
                &&& rq.local_ip@ == raw_request.local_ip@
            },
            r matches Err(e) ==> (spec_parse_request_line(raw_request.request_line@) matches Err(
                e2,
            ) && e == e2) || (spec_parse_request_line(raw_request.request_line@) matches Ok(t)
                && spec_query_of(t.1) == Err::<Map<Seq<char>, Seq<char>>, ProtocolError>(e)),
    {
        let HttpRequestRaw { request_line, headers, body, peer_ip, local_ip } = raw_request;
        let mut raw_headers = headers;
        let (method, resource_path, version) = match Self::parse_request_line(
            request_line.as_str(),
        ) {
            Ok(t) => t,
            Err(e) => {
                return Err(e);
            },
        };
        let (url, query) = match split_once(resource_path.as_str(), '?') {
            Some((u, q)) => {
                let qm = match Self::parse_query_line(q) {
                    Ok(m) => m,
                    Err(e) => {
                        return Err(e);
                    },
                };
                (u.to_owned(), qm)
            },
            None => (resource_path.clone(), StrMap::new()),
        };
        let ghost hs = raw_headers@.map_values(|h: HttpHeader| h@);
        let total: usize = raw_headers.len();
        let mut headers: StrMap<HttpHeader> = StrMap::new();
        let mut cookies: StrMap<HttpCookie> = StrMap::new();
        let mut i: usize = 0;
        proof {
            assert(headers@.map_values(|h: HttpHeader| h@) =~= spec_headers_map(hs, 0));
            assert(cookies@.map_values(|c: HttpCookie| c@) =~= spec_cookies_map(hs, 0));
        }
        while raw_headers.len() > 0
            invariant
                i + raw_headers@.len() == total,
                raw_headers@.map_values(|h: HttpHeader| h@) =~= hs.skip(i as int),
                0 <= i <= total,
                hs.len() == total,
                headers.wf(),
                cookies.wf(),
                headers@.map_values(|h: HttpHeader| h@) == spec_headers_map(hs, i as int),
                cookies@.map_values(|c: HttpCookie| c@) == spec_cookies_map(hs, i as int),
            decreases raw_headers@.len(),
        {
            let ghost prev = raw_headers@;
            let h = raw_headers.remove(0);
            proof {
                assert(h@ == prev.map_values(|h: HttpHeader| h@)[0]);
                assert(h@ == hs[i as int]);
                assert(raw_headers@ =~= prev.skip(1));
                assert forall|k: int| 0 <= k < raw_headers@.len() implies raw_headers@.map_values(
                    |h: HttpHeader| h@,
                )[k] == #[trigger] hs.skip(i + 1)[k] by {
                    assert(raw_headers@[k] == prev[k + 1]);
                    assert(prev.map_values(|h: HttpHeader| h@)[k + 1] == hs.skip(i as int)[k + 1]);
                }
                assert(raw_headers@.map_values(|h: HttpHeader| h@) =~= hs.skip(i + 1));
            }
            if str_eq(h.name.as_str(), "Cookie") {
                let mut cs = match HttpCookie::from_req_header_cookie_line(h.value.as_str()) {
                    Ok(cs) => cs,
                    Err(_) => {
                        proof {
                            assert(false);
                        }
                        unreached()
                    },
                };
                let ghost cviews = spec_parse_cookie_header(hs[i as int].1);
                let ghost base = cookies@.map_values(|c: HttpCookie| c@);
                let total_c: usize = cs.len();
                let mut j: usize = 0;
                while cs.len() > 0
                    invariant
                        j + cs@.len() == total_c,
                        0 <= j <= total_c,
                        cviews.len() == total_c,
                        cs@.map_values(|c: HttpCookie| c@) =~= cviews.skip(j as int),
                        cookies.wf(),
                        cookies@.map_values(|c: HttpCookie| c@) == insert_cookie_views(
                            base,
                            cviews,
                            j as int,
                        ),
                    decreases cs@.len(),
                {
                    let ghost prevc = cs@;
                    let c = cs.remove(0);
                    proof {
                        assert(c@ == prevc.map_values(|c: HttpCookie| c@)[0]);
                        assert(c@ == cviews[j as int]);
                        assert(cs@ =~= prevc.skip(1));
                        assert forall|k: int| 0 <= k < cs@.len() implies cs@.map_values(
                            |c: HttpCookie| c@,
                        )[k] == #[trigger] cviews.skip(j + 1)[k] by {
                            assert(cs@[k] == prevc[k + 1]);
                            assert(prevc.map_values(|c: HttpCookie| c@)[k + 1] == cviews.skip(
                                j as int,
                            )[k + 1]);
                        }
                        assert(cs@.map_values(|c: HttpCookie| c@) =~= cviews.skip(j + 1));
                    }
                    let ghost pre = cookies@.map_values(|c: HttpCookie| c@);
                    let key = c.name.clone();
                    cookies.insert(key.as_str(), c);
                    proof {
                        assert(cookies@.map_values(|c: HttpCookie| c@) =~= pre.insert(
                            cviews[j as int].name,
                            cviews[j as int],
                        ));
                    }
                    j = j + 1;
                }
                proof {
                    assert(cookies@.map_values(|c: HttpCookie| c@) == insert_cookie_views(
                        base,
                        cviews,
                        cviews.len() as int,
                    ));
                    assert(headers@.map_values(|h: HttpHeader| h@) == spec_headers_map(
                        hs,
                        i + 1,
                    ));
                }
            } else {
                let ghost pre = headers@.map_values(|h: HttpHeader| h@);
                let key = h.name.clone();
                headers.insert(key.as_str(), h);
                proof {
                    assert(headers@.map_values(|h: HttpHeader| h@) =~= pre.insert(
                        hs[i as int].0,
                        hs[i as int],
                    ));
                    assert(cookies@.map_values(|c: HttpCookie| c@) == spec_cookies_map(
                        hs,
                        i + 1,
                    ));
                }
            }
            i = i + 1;
        }
        proof {
            assert(i as int == total);
        }
        Ok(
            HttpRequest {
                method,
                resource_path,
                version,
                url,
                query,
                headers,
                cookies,
                body,
                peer_ip,
                local_ip,
            },
        )
    }

    /// The request's method.
    pub fn method(&self) -> (r: &HttpMethod)
        ensures
            *r == self.method,
    {
        &self.method
    }

    /// The body as text; fails iff the bytes are not valid UTF-8.
    pub fn get_str_body(&self) -> (r: Result<String, ProtocolError>)
        ensures
            r is Ok <==> valid_utf8(self.body@),
            r matches Ok(s) ==> s@ == decode_utf8(self.body@),
    {
        match utf8_to_str(self.body.as_slice()) {
            Some(s) => {
                proof {
                    encode_utf8_decode_utf8(s@);
                }
                Ok(s.to_owned())
            },
            None => Err(ProtocolError::BodyNotText),
        }
    }

    /// Decodes the body as a single-part multipart form. The `Content-Type`
    /// header must be present and carry a `multipart/form-data; boundary=`
    /// prefix; the rest of its value is the boundary token.
    pub fn get_multipart_body(&self) -> (r: Result<MultipartBody, MultipartError>)
        requires
            self.wf(),
        ensures
            !self.headers@.contains_key("Content-Type"@) ==> r == Err::<
                MultipartBody,
                MultipartError,
            >(MultipartError::NoContentTypeHeader),
            self.headers@.contains_key("Content-Type"@) && !spec_starts_with(
                self.headers@["Content-Type"@].value@,
                "multipart/form-data; boundary="@,
            ) ==> r == Err::<MultipartBody, MultipartError>(MultipartError::NoBoundary),
            self.headers@.contains_key("Content-Type"@) && spec_starts_with(
                self.headers@["Content-Type"@].value@,
                "multipart/form-data; boundary="@,
            ) ==> {
                let b = self.headers@["Content-Type"@].value@.skip(30);
                &&& (r is Ok <==> spec_multipart(b, self.body@) is Ok)
                &&& (r matches Ok(mb) ==> mb.parts@.len() == 1 && mb.parts@[0]@ == spec_multipart(
                    b,
                    self.body@,
                )->Ok_0)
                &&& (r matches Err(e) ==> spec_multipart(b, self.body@) == Err::<
                    crate::multipart::PartView,
                    MultipartError,
                >(e))
            },
    {
        let content_type = match self.headers.get("Content-Type") {
            Some(h) => h,
            None => {
                return Err(MultipartError::NoContentTypeHeader);
            },
        };
        if !starts_with(content_type.value.as_str(), "multipart/form-data; boundary=") {
            return Err(MultipartError::NoBoundary);
        }
        proof {
            reveal_strlit("multipart/form-data; boundary=");
            assert("multipart/form-data; boundary="@.len() == 30);
        }
        let n = content_type.value.as_str().unicode_len();
        let boundary = content_type.value.as_str().substring_char(30, n);
        proof {
            assert(boundary@ =~= self.headers@["Content-Type"@].value@.skip(30));
        }
        MultipartBody::from_bytes(boundary, self.body.as_slice())
    }
}

/// The first header named `name` among `hs[i..]`, if any.
pub open spec fn first_header_from(
    hs: Seq<(Seq<char>, Seq<char>)>,
    name: Seq<char>,
    i: int,
) -> Option<Seq<char>>
    decreases hs.len() - i,
{
    if i < 0 || i >= hs.len() {
        None
    } else if hs[i].0 == name {
        Some(hs[i].1)
    } else {
        first_header_from(hs, name, i + 1)
    }
}

/// The body length that a raw message's headers declare: the value of the
/// first `Content-Length` header, or zero without one.
pub open spec fn spec_body_length(hs: Seq<(Seq<char>, Seq<char>)>) -> Result<int, ProtocolError> {
    match first_header_from(hs, "Content-Length"@, 0) {
        None => Ok(0),
        Some(v) => {
            if unsigned_grammar(v) && dec_val(unsigned_digits(v)) <= usize::MAX {
                Ok(dec_val(unsigned_digits(v)) as int)
            } else {
                Err(ProtocolError::BadContentLength)
            }
        },
    }
}

/// How many body bytes the headers of a raw message declare. Fails iff a
/// `Content-Length` header is present whose value is not an unsigned integer
/// that fits the machine.
pub fn body_length(headers: &Vec<HttpHeader>) -> (r: Result<usize, ProtocolError>)
    ensures
        r matches Ok(n) ==> spec_body_length(headers@.map_values(|h: HttpHeader| h@)) == Ok::<
            int,
            ProtocolError,
        >(n as int),
        r matches Err(e) ==> spec_body_length(headers@.map_values(|h: HttpHeader| h@)) == Err::<
            int,
            ProtocolError,
        >(e),
{
    let ghost hs = headers@.map_values(|h: HttpHeader| h@);
    let n = headers.len();
    let mut i: usize = 0;
    while i < n
        invariant
            i <= n,
            n == headers@.len(),
            hs == headers@.map_values(|h: HttpHeader| h@),
            first_header_from(hs, "Content-Length"@, 0) == first_header_from(
                hs,
                "Content-Length"@,
                i as int,
            ),
        decreases n - i,
    {
        if str_eq(headers[i].name.as_str(), "Content-Length") {
            match parse_u64(headers[i].value.as_str()) {
                Some(v) => {
                    if v <= usize::MAX as u64 {
                        return Ok(v as usize);
                    } else {
                        return Err(ProtocolError::BadContentLength);
                    }
                },
                None => {
                    return Err(ProtocolError::BadContentLength);
                },
            }
        }
        i = i + 1;
    }
    Ok(0)
}

/// Parses one header line at the first `:`, trimming name and value; a line
/// without a `:` yields nothing and is skipped by the caller.
pub fn parse_header_line(line: &str) -> (r: Option<HttpHeader>)
    ensures
        match r {
            Some(h) => spec_split_once(line@, ':') matches Some(p) && h.name@ == spec_trim_ws(p.0)
                && h.value@ == spec_trim_ws(p.1),
            None => spec_split_once(line@, ':') is None,
        },
{
    match split_once(line, ':') {
        Some((k, v)) => Some(HttpHeader::new(trim(k), trim(v))),
        None => None,
    }
}

/// Parses a request start line under the early, lenient policy: a missing
/// version token is the versionless form rather than an error.
pub fn parse_http_request_start_line(start_line: &str) -> (r: Result<
    (HttpMethod, String, HttpVersion),
    ProtocolError,
>)
    ensures
        r is Ok <==> spec_parse_start_line_lenient(start_line@) is Ok,
        r matches Ok(t) ==> spec_parse_start_line_lenient(start_line@) matches Ok(s) && t.0 == s.0
            && t.1@ == s.1 && t.2 == s.2,
        r matches Err(e) ==> spec_parse_start_line_lenient(start_line@) == Err::<
            (HttpMethod, Seq<char>, HttpVersion),
            ProtocolError,
        >(e),
{
    let toks = split_str(start_line, ' ');
    let m = match HttpMethod::from_str(trim(toks[0].as_str())) {
        Some(m) => m,
        None => {
            return Err(ProtocolError::UnknownMethod);
        },
    };
    if toks.len() < 2 {
        return Err(ProtocolError::MissingPath);
    }
    let path = trim(toks[1].as_str()).to_owned();
    if toks.len() < 3 {
        return Ok((m, path, HttpVersion::HTTP0_9));
    }
    let v = match HttpVersion::from_str(trim(toks[2].as_str())) {
        Some(v) => v,
        None => {
            return Err(ProtocolError::UnknownVersion);
        },
    };
    Ok((m, path, v))
}

} // verus!
