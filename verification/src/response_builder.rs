//! A chainable builder for responses: status, headers, cookies, the `Date`
//! header, and the three body forms (HTML text, pre-encoded JSON text, raw
//! bytes), each of which also sets `Content-Type` and `Content-Length`.
use vstd::prelude::*;
use vstd::string::StrSliceExecFns;
use vstd::utf8::encode_utf8;

use crate::cookie::{CookieView, HttpCookie};
use crate::datetime::{
    format_http_date, http_date_of, now_timestamp, rfc2822_representable, RFC2822_TS_MAX,
    RFC2822_TS_MIN,
};
use crate::header::HttpHeader;
use crate::response::{
    lemma_sorted_insert_cookie_view, lemma_sorted_insert_header_view, sorted_insert_cv,
    sorted_insert_hv, status_text, HttpResponse, HttpStatusCode, ResponseError,
};
use crate::strutil::{spec_dec, usize_to_string};
use crate::version::HttpVersion;

verus! {

/// The header views of a response's header collection.
pub open spec fn header_views(r: &HttpResponse) -> Seq<(Seq<char>, Seq<char>)> {
    r.headers.entries().map_values(|x: HttpHeader| x@)
}

/// The cookie views of a response's cookie collection.
pub open spec fn cookie_views(r: &HttpResponse) -> Seq<CookieView> {
    r.cookies.entries().map_values(|x: HttpCookie| x@)
}

/// The headers after setting `Content-Type` and then `Content-Length`, as
/// every body setter does.
pub open spec fn with_body_headers(
    hs: Seq<(Seq<char>, Seq<char>)>,
    content_type: Seq<char>,
    body_len: nat,
) -> Seq<(Seq<char>, Seq<char>)> {
    sorted_insert_hv(
        sorted_insert_hv(hs, ("Content-Type"@, content_type)),
        ("Content-Length"@, spec_dec(body_len)),
    )
}

/// Builds a response step by step; `build` hands the response out.
#[derive(Debug)]
pub struct HttpResponseBuilder {
    pub response: HttpResponse,
}

impl HttpResponseBuilder {
    /// A fresh builder: a `200 OK` response whose `Date` header is the
    /// current moment.
    pub fn new() -> (r: HttpResponseBuilder)
        ensures
            r.response.wf(),
            r.response.version == HttpVersion::HTTP1_1,
            r.response.status@ == "200 OK"@,
            r.response.body@ == Seq::<u8>::empty(),
            r.response.cookies.entries() == Seq::<HttpCookie>::empty(),
            exists|t: int|
                rfc2822_representable(t) && header_views(&r.response) == seq![
                    ("Date"@, http_date_of(t)),
                ],
    {
        let builder = HttpResponseBuilder { response: HttpResponse::new() };
        let ghost base = header_views(&builder.response);
        let now = now_timestamp();
        let clamped: i64 = if now < RFC2822_TS_MIN || now > RFC2822_TS_MAX {
            0
        } else {
            now
        };
        let r = builder.set_date(clamped);
        proof {
            assert(base =~= Seq::<(Seq<char>, Seq<char>)>::empty());
            assert(header_views(&r.response) =~= seq![
                ("Date"@, http_date_of(clamped as int)),
            ]);
            assert(rfc2822_representable(clamped as int) && header_views(&r.response) == seq![
                ("Date"@, http_date_of(clamped as int)),
            ]);
        }
        r
    }

    /// A fresh builder for a response of the given version.
    pub fn new_with_version(version: HttpVersion) -> (r: HttpResponseBuilder)
        ensures
            r.response.wf(),
            r.response.version == version,
            r.response.status@ == "200 OK"@,
            r.response.body@ == Seq::<u8>::empty(),
            r.response.cookies.entries() == Seq::<HttpCookie>::empty(),
            exists|t: int|
                rfc2822_representable(t) && header_views(&r.response) == seq![
                    ("Date"@, http_date_of(t)),
                ],
    {
        Self::new().set_version(version)
    }

    /// Hands the response out; fails iff the status text is empty.
    pub fn build(self) -> (r: Result<HttpResponse, ResponseError>)
        ensures
            r is Ok <==> self.response.status@.len() > 0,
            r matches Ok(resp) ==> resp == self.response,
            r matches Err(e) ==> e == ResponseError::EmptyStatus,
    {
        if self.response.status.as_str().unicode_len() == 0 {
            return Err(ResponseError::EmptyStatus);
        }
        Ok(self.response)
    }

    /// Sets the protocol version.
    pub fn set_version(self, version: HttpVersion) -> (r: HttpResponseBuilder)
        ensures
            r.response == (HttpResponse { version, ..self.response }),
    {
        let HttpResponseBuilder { response } = self;
        HttpResponseBuilder { response: HttpResponse { version, ..response } }
    }

    /// Sets the status line from a named status.
    pub fn set_status(self, status: HttpStatusCode) -> (r: HttpResponseBuilder)
        ensures
            r.response.status@ == status_text(status),
            r.response.version == self.response.version,
            r.response.headers == self.response.headers,
            r.response.cookies == self.response.cookies,
            r.response.body == self.response.body,
    {
        self.set_raw_status(status.as_str())
    }

    /// Sets the status line text as given.
    pub fn set_raw_status(self, status: &str) -> (r: HttpResponseBuilder)
        ensures
            r.response.status@ == status@,
            r.response.version == self.response.version,
            r.response.headers == self.response.headers,
            r.response.cookies == self.response.cookies,
            r.response.body == self.response.body,
    {
        let HttpResponseBuilder { response } = self;
        HttpResponseBuilder { response: HttpResponse { status: status.to_owned(), ..response } }
    }

    /// Sets a header, replacing one of the same name.
    pub fn set_header(self, key: &str, value: &str) -> (r: HttpResponseBuilder)
        ensures
            header_views(&r.response) == sorted_insert_hv(
                header_views(&self.response),
                (key@, value@),
            ),
            self.response.headers.wf() ==> r.response.headers.wf(),
            r.response.version == self.response.version,
            r.response.status == self.response.status,
            r.response.cookies == self.response.cookies,
            r.response.body == self.response.body,
    {
        let HttpResponseBuilder { response } = self;
        let mut response = response;
        let h = HttpHeader::new(key, value);
        proof {
            lemma_sorted_insert_header_view(response.headers.entries(), h);
        }
        response.headers.insert(h);
        HttpResponseBuilder { response }
    }

    /// Adds a cookie, replacing one of the same name.
    pub fn set_cookie(self, cookie: HttpCookie) -> (r: HttpResponseBuilder)
        ensures
            cookie_views(&r.response) == sorted_insert_cv(cookie_views(&self.response), cookie@),
            self.response.cookies.wf() ==> r.response.cookies.wf(),
            r.response.version == self.response.version,
            r.response.status == self.response.status,
            r.response.headers == self.response.headers,
            r.response.body == self.response.body,
    {
        let HttpResponseBuilder { response } = self;
        let mut response = response;
        proof {
            lemma_sorted_insert_cookie_view(response.cookies.entries(), cookie);
        }
        response.cookies.insert(cookie);
        HttpResponseBuilder { response }
    }

    /// Sets the `Date` header from a Unix timestamp.
    pub fn set_date(self, date: i64) -> (r: HttpResponseBuilder)
        requires
            rfc2822_representable(date as int),
        ensures
            header_views(&r.response) == sorted_insert_hv(
                header_views(&self.response),
                ("Date"@, http_date_of(date as int)),
            ),
            self.response.headers.wf() ==> r.response.headers.wf(),
            r.response.version == self.response.version,
            r.response.status == self.response.status,
            r.response.cookies == self.response.cookies,
            r.response.body == self.response.body,
    {
        let text = format_http_date(date);
        proof {
            reveal_strlit("Date");
        }
        self.set_header("Date", text.as_str())
    }

    /// Sets the `Content-Type` header.
    pub fn set_content_type(self, content_type: &str) -> (r: HttpResponseBuilder)
        ensures
            header_views(&r.response) == sorted_insert_hv(
                header_views(&self.response),
                ("Content-Type"@, content_type@),
            ),
            self.response.headers.wf() ==> r.response.headers.wf(),
            r.response.version == self.response.version,
            r.response.status == self.response.status,
            r.response.cookies == self.response.cookies,
            r.response.body == self.response.body,
    {
        self.set_header("Content-Type", content_type)
    }

    /// Sets an HTML body: the text plus a trailing CRLF becomes the body, and
    /// `Content-Type: text/html` and the body's `Content-Length` are set.
    pub fn set_html_body(self, body: &str) -> (r: HttpResponseBuilder)
        ensures
            r.response.body@ == encode_utf8(body@ + "\r\n"@),
            header_views(&r.response) == with_body_headers(
                header_views(&self.response),
                "text/html"@,
                encode_utf8(body@ + "\r\n"@).len(),
            ),
            self.response.headers.wf() ==> r.response.headers.wf(),
            r.response.version == self.response.version,
            r.response.status == self.response.status,
            r.response.cookies == self.response.cookies,
    {
        let mut text = body.to_owned();
        text.append("\r\n");
        let bytes = text.as_str().as_bytes_vec();
        let length = usize_to_string(bytes.len());
        let HttpResponseBuilder { response } = self;
        let mut response = response;
        response.body = bytes;
        let out = HttpResponseBuilder { response };
        out.set_content_type("text/html").set_header("Content-Length", length.as_str())
    }

    /// Sets a JSON body from already-encoded JSON text: the text plus a
    /// trailing CRLF becomes the body, and `Content-Type: application/json`
    /// and the body's `Content-Length` are set.
    pub fn set_json_body(self, json: &str) -> (r: HttpResponseBuilder)
        ensures
            r.response.body@ == encode_utf8(json@ + "\r\n"@),
            header_views(&r.response) == with_body_headers(
                header_views(&self.response),
                "application/json"@,
                encode_utf8(json@ + "\r\n"@).len(),
            ),
            self.response.headers.wf() ==> r.response.headers.wf(),
            r.response.version == self.response.version,
            r.response.status == self.response.status,
            r.response.cookies == self.response.cookies,
    {
        let mut text = json.to_owned();
        text.append("\r\n");
        let bytes = text.as_str().as_bytes_vec();
        let length = usize_to_string(bytes.len());
        let HttpResponseBuilder { response } = self;
        let mut response = response;
        response.body = bytes;
        let out = HttpResponseBuilder { response };
        out.set_content_type("application/json").set_header("Content-Length", length.as_str())
    }

    /// Sets a raw byte body, with `Content-Type: application/octet-stream`
    /// and the body's `Content-Length`.
    pub fn set_raw_body(self, body: Vec<u8>) -> (r: HttpResponseBuilder)
        ensures
            r.response.body@ == body@,
            header_views(&r.response) == with_body_headers(
                header_views(&self.response),
                "application/octet-stream"@,
                body@.len(),
            ),
            self.response.headers.wf() ==> r.response.headers.wf(),
            r.response.version == self.response.version,
            r.response.status == self.response.status,
            r.response.cookies == self.response.cookies,
    {
        let length = usize_to_string(body.len());
        let HttpResponseBuilder { response } = self;
        let mut response = response;
        response.body = body;
        let out = HttpResponseBuilder { response };
        out.set_content_type("application/octet-stream").set_header(
            "Content-Length",
            length.as_str(),
        )
    }
}

} // verus!
