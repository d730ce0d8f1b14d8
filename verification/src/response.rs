//! The response model: a status line, headers and cookies held in
//! deterministic (byte-lexicographic) order, a body, and the serializer that
//! writes the whole response as wire bytes.
use vstd::prelude::*;
use vstd::utf8::{encode_utf8, encode_utf8_decode_utf8};

use crate::cookie::{cookie_serializable, cookie_wire, CookieError, HttpCookie};
use crate::header::HttpHeader;
use crate::strutil::{lemma_lex_lt_connected, lemma_lex_lt_trans, lex_lt, str_eq, str_lt};
use crate::version::{version_token, HttpVersion};

verus! {

/// Why a response failed to serialize.
#[derive(PartialEq, Eq, Structural, Debug, Clone, Copy)]
pub enum ResponseError {
    /// The status line text was empty.
    EmptyStatus,
    /// A cookie could not be written as a `Set-Cookie` line.
    Cookie(CookieError),
}

/// The status lines this crate names; any other text can be set raw.
#[derive(PartialEq, Eq, Structural, Debug, Clone, Copy)]
pub enum HttpStatusCode {
    OK,
    BadRequest,
    NotFound,
    InternalServerError,
}

/// The status line text of `s`.
pub open spec fn status_text(s: HttpStatusCode) -> Seq<char> {
    match s {
        HttpStatusCode::OK => "200 OK"@,
        HttpStatusCode::BadRequest => "400 Bad Request"@,
        HttpStatusCode::NotFound => "404 Not Found"@,
        HttpStatusCode::InternalServerError => "500 Internal Server Error"@,
    }
}

impl HttpStatusCode {
    /// The status line text, code and reason phrase together.
    pub fn as_str(&self) -> (r: &'static str)
        ensures
            r@ == status_text(*self),
    {
        match self {
            HttpStatusCode::OK => "200 OK",
            HttpStatusCode::BadRequest => "400 Bad Request",
            HttpStatusCode::NotFound => "404 Not Found",
            HttpStatusCode::InternalServerError => "500 Internal Server Error",
        }
    }
}

/// The byte-lexicographic order on names that decides where headers and
/// cookies stand in a serialized response.
pub open spec fn name_lt(a: Seq<char>, b: Seq<char>) -> bool {
    lex_lt(encode_utf8(a), encode_utf8(b))
}

proof fn lemma_name_lt_connected(a: Seq<char>, b: Seq<char>)
    ensures
        !name_lt(a, b) && !name_lt(b, a) ==> a == b,
        !(name_lt(a, b) && name_lt(b, a)),
{
    lemma_lex_lt_connected(encode_utf8(a), encode_utf8(b));
    if !name_lt(a, b) && !name_lt(b, a) {
        encode_utf8_decode_utf8(a);
        encode_utf8_decode_utf8(b);
    }
}

/// Headers sorted strictly by name.
pub open spec fn headers_sorted(s: Seq<HttpHeader>) -> bool {
    forall|i: int, j: int| 0 <= i < j < s.len() ==> name_lt(#[trigger] s[i].name@, #[trigger] s[j].name@)
}

/// Where a header lands in a name-sorted sequence: before the first larger
/// name, replacing an equal one.
pub open spec fn sorted_insert_header(s: Seq<HttpHeader>, h: HttpHeader) -> Seq<HttpHeader>
    decreases s.len(),
{
    if s.len() == 0 {
        seq![h]
    } else if name_lt(s[0].name@, h.name@) {
        seq![s[0]] + sorted_insert_header(s.drop_first(), h)
    } else if s[0].name@ == h.name@ {
        seq![h] + s.drop_first()
    } else {
        seq![h] + s
    }
}

/// The response headers, kept in byte-lexicographic name order with unique
/// names; inserting an existing name replaces its header.
#[derive(Debug, PartialEq, Eq, Clone)]
pub struct SortedHeaders {
    items: Vec<HttpHeader>,
}

impl SortedHeaders {
    /// The held headers in their serialization order.
    pub closed spec fn entries(&self) -> Seq<HttpHeader> {
        self.items@
    }

    /// The order invariant.
    pub open spec fn wf(&self) -> bool {
        headers_sorted(self.entries())
    }

    /// No headers.
    pub fn new() -> (r: SortedHeaders)
        ensures
            r.entries() == Seq::<HttpHeader>::empty(),
            r.wf(),
    {
        SortedHeaders { items: Vec::new() }
    }

    /// How many headers are held.
    pub fn len(&self) -> (r: usize)
        ensures
            r == self.entries().len(),
    {
        self.items.len()
    }

    /// The header at position `i`.
    pub fn get_at(&self, i: usize) -> (r: &HttpHeader)
        requires
            i < self.entries().len(),
        ensures
            *r == self.entries()[i as int],
    {
        &self.items[i]
    }

    /// Puts `h` at its place in the order, replacing a header of the same
    /// name.
    pub fn insert(&mut self, h: HttpHeader)
        ensures
            final(self).entries() == sorted_insert_header(old(self).entries(), h),
            old(self).wf() ==> final(self).wf(),
    {
        let ghost s = self.items@;
        let n = self.items.len();
        let mut idx: usize = 0;
        proof {
            assert(s.skip(0) =~= s);
            assert(s.take(0) + sorted_insert_header(s, h) =~= sorted_insert_header(s, h));
        }
        while idx < n && str_lt(self.items[idx].name.as_str(), h.name.as_str())
            invariant
                idx <= n,
                n == self.items@.len(),
                self.items@ == s,
                forall|k: int| 0 <= k < idx ==> name_lt(#[trigger] s[k].name@, h.name@),
                sorted_insert_header(s, h) == s.take(idx as int) + sorted_insert_header(
                    s.skip(idx as int),
                    h,
                ),
            decreases n - idx,
        {
            proof {
                assert(s.skip(idx as int)[0] == s[idx as int]);
                assert(s.skip(idx as int).drop_first() =~= s.skip(idx + 1));
                assert(s.take(idx as int) + (seq![s[idx as int]] + sorted_insert_header(
                    s.skip(idx + 1),
                    h,
                )) =~= s.take(idx + 1) + sorted_insert_header(s.skip(idx + 1), h));
            }
            idx = idx + 1;
        }
        proof {
            if idx < n {
                assert(s.skip(idx as int)[0] == s[idx as int]);
                lemma_name_lt_connected(s[idx as int].name@, h.name@);
            }
        }
        if idx < n && str_eq(self.items[idx].name.as_str(), h.name.as_str()) {
            proof {
                assert(s.skip(idx as int).drop_first() =~= s.skip(idx + 1));
                assert(sorted_insert_header(s, h) =~= s.take(idx as int) + (seq![h] + s.skip(
                    idx + 1,
                )));
            }
            self.items.set(idx, h);
            proof {
                assert(self.items@ =~= sorted_insert_header(s, h));
                if headers_sorted(s) {
                    assert forall|i: int, j: int|
                        0 <= i < j < self.items@.len() implies name_lt(
                        #[trigger] self.items@[i].name@,
                        #[trigger] self.items@[j].name@,
                    ) by {
                        assert(s[i].name@ == self.items@[i].name@);
                        assert(s[j].name@ == self.items@[j].name@);
                    }
                }
            }
        } else {
            proof {
                if idx < n {
                    assert(sorted_insert_header(s.skip(idx as int), h) == seq![h] + s.skip(
                        idx as int,
                    ));
                } else {
                    assert(s.skip(idx as int) =~= Seq::<HttpHeader>::empty());
                    assert(sorted_insert_header(s.skip(idx as int), h) == seq![h]);
                }
            }
            self.items.insert(idx, h);
            proof {
                assert(self.items@ =~= s.take(idx as int) + (seq![h] + s.skip(idx as int)));
                assert(self.items@ =~= sorted_insert_header(s, h));
                if headers_sorted(s) {
                    assert forall|i: int, j: int|
                        0 <= i < j < self.items@.len() implies name_lt(
                        #[trigger] self.items@[i].name@,
                        #[trigger] self.items@[j].name@,
                    ) by {
                        if j < idx {
                        } else if i < idx && j == idx {
                        } else if i < idx && j > idx {
                            assert(self.items@[i] == s[i]);
                            assert(self.items@[j] == s[j - 1]);
                        } else if i == idx {
                            assert(self.items@[j] == s[j - 1]);
                            if idx < n && idx <= j - 1 {
                                if idx < j - 1 {
                                    lemma_name_lt_trans(
                                        h.name@,
                                        s[idx as int].name@,
                                        s[j - 1].name@,
                                    );
                                }
                            }
                        } else {
                            assert(self.items@[i] == s[i - 1]);
                            assert(self.items@[j] == s[j - 1]);
                        }
                    }
                }
            }
        }
    }
}

proof fn lemma_name_lt_trans(a: Seq<char>, b: Seq<char>, c: Seq<char>)
    requires
        name_lt(a, b),
        name_lt(b, c),
    ensures
        name_lt(a, c),
{
    lemma_lex_lt_trans(encode_utf8(a), encode_utf8(b), encode_utf8(c));
}

/// Cookies sorted strictly by name.
pub open spec fn cookies_sorted(s: Seq<HttpCookie>) -> bool {
    forall|i: int, j: int| 0 <= i < j < s.len() ==> name_lt(#[trigger] s[i].name@, #[trigger] s[j].name@)
}

/// Where a cookie lands in a name-sorted sequence.
pub open spec fn sorted_insert_cookie(s: Seq<HttpCookie>, c: HttpCookie) -> Seq<HttpCookie>
    decreases s.len(),
{
    if s.len() == 0 {
        seq![c]
    } else if name_lt(s[0].name@, c.name@) {
        seq![s[0]] + sorted_insert_cookie(s.drop_first(), c)
    } else if s[0].name@ == c.name@ {
        seq![c] + s.drop_first()
    } else {
        seq![c] + s
    }
}

/// The response cookies, kept in byte-lexicographic name order with unique
/// names; inserting an existing name replaces its cookie.
#[derive(Debug, PartialEq, Eq, Clone)]
pub struct SortedCookies {
    items: Vec<HttpCookie>,
}

impl SortedCookies {
    /// The held cookies in their serialization order.
    pub closed spec fn entries(&self) -> Seq<HttpCookie> {
        self.items@
    }

    /// The order invariant.
    pub open spec fn wf(&self) -> bool {
        cookies_sorted(self.entries())
    }

    /// No cookies.
    pub fn new() -> (r: SortedCookies)
        ensures
            r.entries() == Seq::<HttpCookie>::empty(),
            r.wf(),
    {
        SortedCookies { items: Vec::new() }
    }

    /// How many cookies are held.
    pub fn len(&self) -> (r: usize)
        ensures
            r == self.entries().len(),
    {
        self.items.len()
    }

    /// The cookie at position `i`.
    pub fn get_at(&self, i: usize) -> (r: &HttpCookie)
        requires
            i < self.entries().len(),
        ensures
            *r == self.entries()[i as int],
    {
        &self.items[i]
    }

    /// Puts `c` at its place in the order, replacing a cookie of the same
    /// name.
    pub fn insert(&mut self, c: HttpCookie)
        ensures
            final(self).entries() == sorted_insert_cookie(old(self).entries(), c),
            old(self).wf() ==> final(self).wf(),
    {
        let ghost s = self.items@;
        let n = self.items.len();
        let mut idx: usize = 0;
        proof {
            assert(s.skip(0) =~= s);
            assert(s.take(0) + sorted_insert_cookie(s, c) =~= sorted_insert_cookie(s, c));
        }
        while idx < n && str_lt(self.items[idx].name.as_str(), c.name.as_str())
            invariant
                idx <= n,
                n == self.items@.len(),
                self.items@ == s,
                forall|k: int| 0 <= k < idx ==> name_lt(#[trigger] s[k].name@, c.name@),
                sorted_insert_cookie(s, c) == s.take(idx as int) + sorted_insert_cookie(
                    s.skip(idx as int),
                    c,
                ),
            decreases n - idx,
        {
            proof {
                assert(s.skip(idx as int)[0] == s[idx as int]);
                assert(s.skip(idx as int).drop_first() =~= s.skip(idx + 1));
                assert(s.take(idx as int) + (seq![s[idx as int]] + sorted_insert_cookie(
                    s.skip(idx + 1),
                    c,
                )) =~= s.take(idx + 1) + sorted_insert_cookie(s.skip(idx + 1), c));
            }
            idx = idx + 1;
        }
        proof {
            if idx < n {
                assert(s.skip(idx as int)[0] == s[idx as int]);
                lemma_name_lt_connected(s[idx as int].name@, c.name@);
            }
        }
        if idx < n && str_eq(self.items[idx].name.as_str(), c.name.as_str()) {
            proof {
                assert(s.skip(idx as int).drop_first() =~= s.skip(idx + 1));
                assert(sorted_insert_cookie(s, c) =~= s.take(idx as int) + (seq![c] + s.skip(
                    idx + 1,
                )));
            }
            self.items.set(idx, c);
            proof {
                assert(self.items@ =~= sorted_insert_cookie(s, c));
                if cookies_sorted(s) {
                    assert forall|i: int, j: int|
                        0 <= i < j < self.items@.len() implies name_lt(
                        #[trigger] self.items@[i].name@,
                        #[trigger] self.items@[j].name@,
                    ) by {
                        assert(s[i].name@ == self.items@[i].name@);
                        assert(s[j].name@ == self.items@[j].name@);
                    }
                }
            }
        } else {
            proof {
                if idx < n {
                    assert(sorted_insert_cookie(s.skip(idx as int), c) == seq![c] + s.skip(
                        idx as int,
                    ));
                } else {
                    assert(s.skip(idx as int) =~= Seq::<HttpCookie>::empty());
                    assert(sorted_insert_cookie(s.skip(idx as int), c) == seq![c]);
                }
            }
            self.items.insert(idx, c);
            proof {
                assert(self.items@ =~= s.take(idx as int) + (seq![c] + s.skip(idx as int)));
                assert(self.items@ =~= sorted_insert_cookie(s, c));
                if cookies_sorted(s) {
                    assert forall|i: int, j: int|
                        0 <= i < j < self.items@.len() implies name_lt(
                        #[trigger] self.items@[i].name@,
                        #[trigger] self.items@[j].name@,
                    ) by {
                        if j < idx {
                        } else if i < idx && j == idx {
                        } else if i < idx && j > idx {
                            assert(self.items@[i] == s[i]);
                            assert(self.items@[j] == s[j - 1]);
                        } else if i == idx {
                            assert(self.items@[j] == s[j - 1]);
                            if idx < n && idx <= j - 1 {
                                if idx < j - 1 {
                                    lemma_name_lt_trans(
                                        c.name@,
                                        s[idx as int].name@,
                                        s[j - 1].name@,
                                    );
                                }
                            }
                        } else {
                            assert(self.items@[i] == s[i - 1]);
                            assert(self.items@[j] == s[j - 1]);
                        }
                    }
                }
            }
        }
    }
}

/// The `Name: value` lines of the headers, in held order.
pub open spec fn header_lines(s: Seq<HttpHeader>) -> Seq<char>
    decreases s.len(),
{
    if s.len() == 0 {
        Seq::empty()
    } else {
        s[0].name@ + ": "@ + s[0].value@ + "\r\n"@ + header_lines(s.drop_first())
    }
}

/// The `Set-Cookie` lines of the cookies, in held order.
pub open spec fn cookie_lines(s: Seq<HttpCookie>) -> Seq<char>
    decreases s.len(),
{
    if s.len() == 0 {
        Seq::empty()
    } else {
        "Set-Cookie: "@ + cookie_wire(s[0]@) + "\r\n"@ + cookie_lines(s.drop_first())
    }
}

/// Every held cookie can be written.
pub open spec fn cookies_serializable(s: Seq<HttpCookie>) -> bool {
    forall|i: int| 0 <= i < s.len() ==> cookie_serializable(#[trigger] s[i]@)
}

/// The whole response head: status line, header lines, cookie lines, and the
/// blank line that ends the head.
pub open spec fn response_head(
    version: HttpVersion,
    status: Seq<char>,
    hs: Seq<HttpHeader>,
    cs: Seq<HttpCookie>,
) -> Seq<char> {
    version_token(version) + " "@ + status + "\r\n"@ + header_lines(hs) + cookie_lines(cs)
        + "\r\n"@
}

/// A response: version, status line text, headers and cookies in
/// deterministic order, and the body bytes.
#[derive(Debug, PartialEq, Eq)]
pub struct HttpResponse {
    pub version: HttpVersion,
    pub status: String,
    pub headers: SortedHeaders,
    pub cookies: SortedCookies,
    pub body: Vec<u8>,
}

impl Default for HttpResponse {
    /// The `200 OK` starting response, as `new` builds it.
    fn default() -> (r: HttpResponse)
        ensures
            r.version == HttpVersion::HTTP1_1,
            r.status@ == "200 OK"@,
            r.headers.entries() == Seq::<HttpHeader>::empty(),
            r.cookies.entries() == Seq::<HttpCookie>::empty(),
            r.body@ == Seq::<u8>::empty(),
            r.wf(),
    {
        HttpResponse::new()
    }
}

impl HttpResponse {
    /// The order invariants of the held headers and cookies.
    pub open spec fn wf(&self) -> bool {
        self.headers.wf() && self.cookies.wf()
    }

    /// A `200 OK` response with no headers, cookies or body yet.
    pub fn new() -> (r: HttpResponse)
        ensures
            r.version == HttpVersion::HTTP1_1,
            r.status@ == "200 OK"@,
            r.headers.entries() == Seq::<HttpHeader>::empty(),
            r.cookies.entries() == Seq::<HttpCookie>::empty(),
            r.body@ == Seq::<u8>::empty(),
            r.wf(),
    {
        HttpResponse {
            version: HttpVersion::HTTP1_1,
            status: "200 OK".to_owned(),
            headers: SortedHeaders::new(),
            cookies: SortedCookies::new(),
            body: Vec::new(),
        }
    }

    /// The status line: the version token, a space, and the status text.
    pub fn start_line(&self) -> (r: String)
        ensures
            r@ == version_token(self.version) + " "@ + self.status@,
    {
        let mut out = self.version.to_str();
        out.append(" ");
        out.append(self.status.as_str());
        out
    }

    /// Serializes the response: the head as ASCII-compatible text followed by
    /// the raw body bytes. Fails iff the status is empty or some cookie
    /// cannot be written.
    #[verifier::rlimit(50)]
    #[verifier::spinoff_prover]
    pub fn to_bytes(&self) -> (r: Result<Vec<u8>, ResponseError>)
        ensures
            r is Ok <==> (self.status@.len() > 0 && cookies_serializable(self.cookies.entries())),
            r matches Ok(bytes) ==> bytes@ == encode_utf8(
                response_head(
                    self.version,
                    self.status@,
                    self.headers.entries(),
                    self.cookies.entries(),
                ),
            ) + self.body@,
            self.status@.len() == 0 ==> r == Err::<Vec<u8>, ResponseError>(
                ResponseError::EmptyStatus,
            ),
    {
        if self.status.as_str().unicode_len() == 0 {
            return Err(ResponseError::EmptyStatus);
        }
        let mut head = self.start_line();
        head.append("\r\n");
        let ghost hs = self.headers.entries();
        let ghost cs = self.cookies.entries();
        let ghost head0 = version_token(self.version) + " "@ + self.status@ + "\r\n"@;
        let hn = self.headers.len();
        let mut i: usize = 0;
        proof {
            assert(hs.skip(0) =~= hs);
        }
        while i < hn
            invariant
                i <= hn,
                hn == hs.len(),
                hs == self.headers.entries(),
                head@ + header_lines(hs.skip(i as int)) == head0 + header_lines(hs),
            decreases hn - i,
        {
            let ghost pre = head@;
            let h = self.headers.get_at(i);
            head.append(h.name.as_str());
            head.append(": ");
            head.append(h.value.as_str());
            head.append("\r\n");
            proof {
                assert(hs.skip(i as int)[0] == hs[i as int]);
                assert(hs.skip(i as int).drop_first() =~= hs.skip(i + 1));
                assert(head@ + header_lines(hs.skip(i + 1)) =~= pre + header_lines(
                    hs.skip(i as int),
                ));
            }
            i = i + 1;
        }
        let cn = self.cookies.len();
        let mut j: usize = 0;
        proof {
            assert(cs.skip(0) =~= cs);
        }
        while j < cn
            invariant
                j <= cn,
                cn == cs.len(),
                cs == self.cookies.entries(),
                hs == self.headers.entries(),
                self.status@.len() > 0,
                forall|k: int| 0 <= k < j ==> cookie_serializable(#[trigger] cs[k]@),
                head@ + cookie_lines(cs.skip(j as int)) == head0 + header_lines(hs)
                    + cookie_lines(cs),
            decreases cn - j,
        {
            let ghost pre = head@;
            let c = self.cookies.get_at(j);
            let line = match c.to_str() {
                Ok(l) => l,
                Err(e) => {
                    assert(!cookie_serializable(cs[j as int]@));
                    return Err(ResponseError::Cookie(e));
                },
            };
            head.append("Set-Cookie: ");
            head.append(line.as_str());
            head.append("\r\n");
            proof {
                assert(cs.skip(j as int)[0] == cs[j as int]);
                assert(cs.skip(j as int).drop_first() =~= cs.skip(j + 1));
                assert(head@ + cookie_lines(cs.skip(j + 1)) =~= pre + cookie_lines(
                    cs.skip(j as int),
                ));
            }
            j = j + 1;
        }
        head.append("\r\n");
        proof {
            assert(cs.skip(cn as int) =~= Seq::<HttpCookie>::empty());
            assert(hs.skip(hn as int) =~= Seq::<HttpHeader>::empty());
            assert(head@ =~= response_head(self.version, self.status@, hs, cs));
        }
        let mut out = head.as_str().as_bytes_vec();
        out.extend_from_slice(self.body.as_slice());
        proof {
            assert(out@ =~= encode_utf8(response_head(self.version, self.status@, hs, cs))
                + self.body@);
        }
        Ok(out)
    }
}

/// `sorted_insert_header` seen at the view level.
pub open spec fn sorted_insert_hv(
    s: Seq<(Seq<char>, Seq<char>)>,
    h: (Seq<char>, Seq<char>),
) -> Seq<(Seq<char>, Seq<char>)>
    decreases s.len(),
{
    if s.len() == 0 {
        seq![h]
    } else if name_lt(s[0].0, h.0) {
        seq![s[0]] + sorted_insert_hv(s.drop_first(), h)
    } else if s[0].0 == h.0 {
        seq![h] + s.drop_first()
    } else {
        seq![h] + s
    }
}

/// Inserting a header and then taking views is inserting its view.
pub proof fn lemma_sorted_insert_header_view(s: Seq<HttpHeader>, h: HttpHeader)
    ensures
        sorted_insert_header(s, h).map_values(|x: HttpHeader| x@) == sorted_insert_hv(
            s.map_values(|x: HttpHeader| x@),
            h@,
        ),
    decreases s.len(),
{
    let sv = s.map_values(|x: HttpHeader| x@);
    if s.len() == 0 {
        assert(sorted_insert_header(s, h).map_values(|x: HttpHeader| x@) =~= seq![h@]);
        assert(sv.len() == 0);
    } else {
        assert(sv[0] == s[0]@);
        assert(s.drop_first().map_values(|x: HttpHeader| x@) =~= sv.drop_first());
        lemma_sorted_insert_header_view(s.drop_first(), h);
        if name_lt(s[0].name@, h.name@) {
            assert((seq![s[0]] + sorted_insert_header(s.drop_first(), h)).map_values(
                |x: HttpHeader| x@,
            ) =~= seq![s[0]@] + sorted_insert_header(s.drop_first(), h).map_values(
                |x: HttpHeader| x@,
            ));
        } else if s[0].name@ == h.name@ {
            assert((seq![h] + s.drop_first()).map_values(|x: HttpHeader| x@) =~= seq![h@]
                + sv.drop_first());
        } else {
            assert((seq![h] + s).map_values(|x: HttpHeader| x@) =~= seq![h@] + sv);
        }
    }
}

/// `sorted_insert_cookie` seen at the view level.
pub open spec fn sorted_insert_cv(
    s: Seq<crate::cookie::CookieView>,
    c: crate::cookie::CookieView,
) -> Seq<crate::cookie::CookieView>
    decreases s.len(),
{
    if s.len() == 0 {
        seq![c]
    } else if name_lt(s[0].name, c.name) {
        seq![s[0]] + sorted_insert_cv(s.drop_first(), c)
    } else if s[0].name == c.name {
        seq![c] + s.drop_first()
    } else {
        seq![c] + s
    }
}

/// Inserting a cookie and then taking views is inserting its view.
pub proof fn lemma_sorted_insert_cookie_view(s: Seq<HttpCookie>, c: HttpCookie)
    ensures
        sorted_insert_cookie(s, c).map_values(|x: HttpCookie| x@) == sorted_insert_cv(
            s.map_values(|x: HttpCookie| x@),
            c@,
        ),
    decreases s.len(),
{
    let sv = s.map_values(|x: HttpCookie| x@);
    if s.len() == 0 {
        assert(sorted_insert_cookie(s, c).map_values(|x: HttpCookie| x@) =~= seq![c@]);
        assert(sv.len() == 0);
    } else {
        assert(sv[0] == s[0]@);
        assert(s.drop_first().map_values(|x: HttpCookie| x@) =~= sv.drop_first());
        lemma_sorted_insert_cookie_view(s.drop_first(), c);
        if name_lt(s[0].name@, c.name@) {
            assert((seq![s[0]] + sorted_insert_cookie(s.drop_first(), c)).map_values(
                |x: HttpCookie| x@,
            ) =~= seq![s[0]@] + sorted_insert_cookie(s.drop_first(), c).map_values(
                |x: HttpCookie| x@,
            ));
        } else if s[0].name@ == c.name@ {
            assert((seq![c] + s.drop_first()).map_values(|x: HttpCookie| x@) =~= seq![c@]
                + sv.drop_first());
        } else {
            assert((seq![c] + s).map_values(|x: HttpCookie| x@) =~= seq![c@] + sv);
        }
    }
}

} // verus!
