//! The cookie codec: parsing `Cookie` request headers and `Set-Cookie` lines,
//! validating names and values, and serializing a cookie back to wire text.
use vstd::prelude::*;

use crate::datetime::{
    format_rfc2822, parse_rfc2822, rfc2822_representable, rfc2822_string_of, rfc2822_timestamp_of,
    RFC2822_TS_MAX, RFC2822_TS_MIN,
};
use crate::strutil::{
    i32_to_string, is_space_char, lemma_split_no_sep, parse_i32, signed_grammar, signed_val,
    spec_dec_signed, spec_split, spec_split_once, spec_starts_with, spec_trim_ws, split_once,
    split_str, starts_with, str_eq, trim, trims,
};

verus! {

/// The `SameSite` cookie attribute's policies. `NonePolicy` is the wire token
/// `None`, which demands the `Secure` flag at serialization time.
#[derive(PartialEq, Eq, Structural, Debug, Clone, Copy)]
pub enum SameSitePolicy {
    Strict,
    Lax,
    NonePolicy,
}

/// The token that names `p` in a `SameSite` attribute.
pub open spec fn same_site_token(p: SameSitePolicy) -> Seq<char> {
    match p {
        SameSitePolicy::Strict => "Strict"@,
        SameSitePolicy::Lax => "Lax"@,
        SameSitePolicy::NonePolicy => "None"@,
    }
}

/// The policy that the token `s` names, if any.
pub open spec fn spec_same_site_from(s: Seq<char>) -> Option<SameSitePolicy> {
    if s == "Strict"@ {
        Some(SameSitePolicy::Strict)
    } else if s == "Lax"@ {
        Some(SameSitePolicy::Lax)
    } else if s == "None"@ {
        Some(SameSitePolicy::NonePolicy)
    } else {
        None
    }
}

impl SameSitePolicy {
    /// Parses a `SameSite` policy token.
    pub fn from_str(s: &str) -> (r: Option<SameSitePolicy>)
        ensures
            r == spec_same_site_from(s@),
            r matches Some(p) ==> s@ == same_site_token(p),
    {
        if str_eq(s, "Strict") {
            Some(SameSitePolicy::Strict)
        } else if str_eq(s, "Lax") {
            Some(SameSitePolicy::Lax)
        } else if str_eq(s, "None") {
            Some(SameSitePolicy::NonePolicy)
        } else {
            None
        }
    }

    /// The policy's wire token.
    pub fn as_str(&self) -> (r: &'static str)
        ensures
            r@ == same_site_token(*self),
    {
        match self {
            SameSitePolicy::Strict => "Strict",
            SameSitePolicy::Lax => "Lax",
            SameSitePolicy::NonePolicy => "None",
        }
    }
}

/// Why a cookie failed to parse or serialize.
#[derive(PartialEq, Eq, Structural, Debug, Clone, Copy)]
pub enum CookieError {
    /// The cookie name holds a character outside the cookie-name alphabet.
    InvalidName,
    /// The cookie value holds a character outside the cookie-value alphabet.
    InvalidValue,
    /// `SameSite=None` was asked for without `Secure`.
    SameSiteNoneWithoutSecure,
    /// The `expires` timestamp lies outside the years RFC 2822 can write.
    ExpiresOutOfRange,
    /// A `Set-Cookie` line did not start with a `name=value` directive.
    MissingNameValue,
    /// An `Expires` attribute did not parse as an RFC 2822 date.
    BadExpires,
    /// A `Max-Age` attribute did not parse as a signed 32-bit integer.
    BadMaxAge,
    /// A `SameSite` attribute named no known policy.
    BadSameSite,
}

/// A cookie: a name, a value, and the optional `Set-Cookie` attributes.
/// `expires` is a Unix timestamp in seconds.
#[derive(Debug, PartialEq, Eq, Clone)]
pub struct HttpCookie {
    pub name: String,
    pub value: String,
    pub domain: Option<String>,
    pub expires: Option<i64>,
    pub http_only: bool,
    pub max_age: Option<i32>,
    pub partitioned: bool,
    pub path: Option<String>,
    pub same_site: Option<SameSitePolicy>,
    pub secure: bool,
}

/// The mathematical shape of a cookie, over which the codec's contracts are
/// stated.
#[verifier::ext_equal]
pub ghost struct CookieView {
    pub name: Seq<char>,
    pub value: Seq<char>,
    pub domain: Option<Seq<char>>,
    pub expires: Option<int>,
    pub http_only: bool,
    pub max_age: Option<int>,
    pub partitioned: bool,
    pub path: Option<Seq<char>>,
    pub same_site: Option<SameSitePolicy>,
    pub secure: bool,
}

impl View for HttpCookie {
    type V = CookieView;

    open spec fn view(&self) -> CookieView {
        CookieView {
            name: self.name@,
            value: self.value@,
            domain: match self.domain {
                Some(ref d) => Some(d@),
                None => None,
            },
            expires: match self.expires {
                Some(t) => Some(t as int),
                None => None,
            },
            http_only: self.http_only,
            max_age: match self.max_age {
                Some(m) => Some(m as int),
                None => None,
            },
            partitioned: self.partitioned,
            path: match self.path {
                Some(ref p) => Some(p@),
                None => None,
            },
            same_site: self.same_site,
            secure: self.secure,
        }
    }
}

/// The characters the cookie grammar forbids in a name beyond the general
/// control/whitespace rule: the separator characters.
pub open spec fn banned_name_char(c: char) -> bool {
    c == '(' || c == ')' || c == '<' || c == '>' || c == '@' || c == ',' || c == ';' || c == ':'
        || c == '\\' || c == '"' || c == '/' || c == '[' || c == ']' || c == '?' || c == '=' || c
        == '{' || c == '}'
}

/// The characters the cookie grammar forbids in a value beyond the general
/// control/whitespace rule.
pub open spec fn banned_value_char(c: char) -> bool {
    c == '"' || c == '\'' || c == ',' || c == ';' || c == '\\'
}

/// A valid cookie name: printable ASCII, no whitespace, none of the banned
/// separator characters.
pub open spec fn spec_name_valid(s: Seq<char>) -> bool {
    forall|k: int|
        0 <= k < s.len() ==> 33 <= #[trigger] s[k] as u32 <= 126 && !banned_name_char(s[k])
}

/// A value may be wrapped in one pair of double quotes; the quotes are
/// stripped before validation.
pub open spec fn unquoted(s: Seq<char>) -> Seq<char> {
    if s.len() >= 2 && s[0] == '"' && s.last() == '"' {
        s.subrange(1, s.len() - 1)
    } else {
        s
    }
}

/// A valid cookie value, after stripping one optional pair of wrapping
/// quotes: printable ASCII, no whitespace, none of the banned characters.
pub open spec fn spec_value_valid(s: Seq<char>) -> bool {
    forall|k: int|
        0 <= k < unquoted(s).len() ==> 33 <= #[trigger] unquoted(s)[k] as u32 <= 126
            && !banned_value_char(unquoted(s)[k])
}

fn is_banned_name_char(c: char) -> (r: bool)
    ensures
        r == banned_name_char(c),
{
    match c {
        '(' | ')' | '<' | '>' | '@' | ',' | ';' | ':' | '\\' | '"' | '/' | '[' | ']' | '?' | '='
            | '{' | '}' => true,
        _ => false,
    }
}

fn is_banned_value_char(c: char) -> (r: bool)
    ensures
        r == banned_value_char(c),
{
    match c {
        '"' | '\'' | ',' | ';' | '\\' => true,
        _ => false,
    }
}

/// Decides whether `cookie_name` may stand as a cookie name.
pub fn is_name_valid(cookie_name: &str) -> (r: bool)
    ensures
        r == spec_name_valid(cookie_name@),
{
    let n = cookie_name.unicode_len();
    let mut i: usize = 0;
    while i < n
        invariant
            i <= n,
            n == cookie_name@.len(),
            forall|k: int|
                0 <= k < i ==> 33 <= #[trigger] cookie_name@[k] as u32 <= 126 && !banned_name_char(
                    cookie_name@[k],
                ),
        decreases n - i,
    {
        let c = cookie_name.get_char(i);
        let u = c as u32;
        if u < 33 || u > 126 || is_banned_name_char(c) {
            return false;
        }
        i = i + 1;
    }
    true
}

/// Decides whether `cookie_value` may stand as a cookie value.
pub fn is_value_valid(cookie_value: &str) -> (r: bool)
    ensures
        r == spec_value_valid(cookie_value@),
{
    let n = cookie_value.unicode_len();
    let mut lo: usize = 0;
    let mut hi: usize = n;
    if n >= 2 && cookie_value.get_char(0) == '"' && cookie_value.get_char(n - 1) == '"' {
        lo = 1;
        hi = n - 1;
    }
    let ghost u = unquoted(cookie_value@);
    proof {
        assert(u =~= cookie_value@.subrange(lo as int, hi as int));
    }
    let mut i: usize = lo;
    while i < hi
        invariant
            lo <= i <= hi <= n,
            n == cookie_value@.len(),
            u == cookie_value@.subrange(lo as int, hi as int),
            u == unquoted(cookie_value@),
            forall|k: int|
                0 <= k < i - lo ==> 33 <= #[trigger] u[k] as u32 <= 126 && !banned_value_char(
                    u[k],
                ),
        decreases hi - i,
    {
        let c = cookie_value.get_char(i);
        let u32c = c as u32;
        if u32c < 33 || u32c > 126 || is_banned_value_char(c) {
            assert(u[i - lo] == cookie_value@[i as int]);
            return false;
        }
        assert(u[i - lo] == cookie_value@[i as int]);
        i = i + 1;
    }
    true
}

/// The `Set-Cookie` text of a cookie: `name=value`, then each present
/// attribute in the fixed order, joined with `"; "`.
pub open spec fn cookie_wire(c: CookieView) -> Seq<char> {
    c.name + "="@ + c.value + (match c.domain {
        Some(d) => "; Domain="@ + d,
        None => Seq::empty(),
    }) + (match c.expires {
        Some(t) => "; Expires="@ + rfc2822_string_of(t),
        None => Seq::empty(),
    }) + (if c.http_only {
        "; HttpOnly"@
    } else {
        Seq::empty()
    }) + (match c.max_age {
        Some(m) => "; Max-Age="@ + spec_dec_signed(m),
        None => Seq::empty(),
    }) + (if c.partitioned {
        "; Partitioned"@
    } else {
        Seq::empty()
    }) + (match c.path {
        Some(p) => "; Path="@ + p,
        None => Seq::empty(),
    }) + (match c.same_site {
        Some(s) => "; SameSite="@ + same_site_token(s),
        None => Seq::empty(),
    }) + (if c.secure {
        "; Secure"@
    } else {
        Seq::empty()
    })
}

/// When serialization succeeds: valid name and value, `SameSite=None` only
/// with `Secure`, and a representable `expires` date.
pub open spec fn cookie_serializable(c: CookieView) -> bool {
    &&& spec_name_valid(c.name)
    &&& spec_value_valid(c.value)
    &&& !(c.same_site == Some(SameSitePolicy::NonePolicy) && !c.secure)
    &&& (c.expires matches Some(t) ==> rfc2822_representable(t))
}

impl HttpCookie {
    /// A cookie with only its name and value set.
    pub fn new(name: &str, value: &str) -> (r: HttpCookie)
        ensures
            r@ == (CookieView {
                name: name@,
                value: value@,
                domain: None,
                expires: None,
                http_only: false,
                max_age: None,
                partitioned: false,
                path: None,
                same_site: None,
                secure: false,
            }),
    {
        HttpCookie {
            name: name.to_owned(),
            value: value.to_owned(),
            domain: None,
            expires: None,
            http_only: false,
            max_age: None,
            partitioned: false,
            path: None,
            same_site: None,
            secure: false,
        }
    }

    pub fn set_domain(self, domain: Option<&str>) -> (r: HttpCookie)
        ensures
            r@ == (CookieView {
                domain: match domain {
                    Some(d) => Some(d@),
                    None => None,
                },
                ..self@
            }),
    {
        HttpCookie {
            domain: match domain {
                Some(d) => Some(d.to_owned()),
                None => None,
            },
            ..self
        }
    }

    pub fn set_expires(self, expires: Option<i64>) -> (r: HttpCookie)
        ensures
            r@ == (CookieView {
                expires: match expires {
                    Some(t) => Some(t as int),
                    None => None,
                },
                ..self@
            }),
    {
        HttpCookie { expires, ..self }
    }

    pub fn set_http_only(self, http_only: bool) -> (r: HttpCookie)
        ensures
            r@ == (CookieView { http_only, ..self@ }),
    {
        HttpCookie { http_only, ..self }
    }

    pub fn set_max_age(self, max_age: Option<i32>) -> (r: HttpCookie)
        ensures
            r@ == (CookieView {
                max_age: match max_age {
                    Some(m) => Some(m as int),
                    None => None,
                },
                ..self@
            }),
    {
        HttpCookie { max_age, ..self }
    }

    pub fn set_partitioned(self, partitioned: bool) -> (r: HttpCookie)
        ensures
            r@ == (CookieView { partitioned, ..self@ }),
    {
        HttpCookie { partitioned, ..self }
    }

    pub fn set_path(self, path: Option<&str>) -> (r: HttpCookie)
        ensures
            r@ == (CookieView {
                path: match path {
                    Some(p) => Some(p@),
                    None => None,
                },
                ..self@
            }),
    {
        HttpCookie {
            path: match path {
                Some(p) => Some(p.to_owned()),
                None => None,
            },
            ..self
        }
    }

    pub fn set_same_site(self, same_site: Option<SameSitePolicy>) -> (r: HttpCookie)
        ensures
            r@ == (CookieView { same_site, ..self@ }),
    {
        HttpCookie { same_site, ..self }
    }

    pub fn set_secure(self, secure: bool) -> (r: HttpCookie)
        ensures
            r@ == (CookieView { secure, ..self@ }),
    {
        HttpCookie { secure, ..self }
    }

    /// Serializes the cookie as one `Set-Cookie` line's text. Fails exactly
    /// when the name or value is invalid, when `SameSite=None` stands without
    /// `Secure`, or when the `expires` date cannot be written.
    #[verifier::rlimit(100)]
    #[verifier::spinoff_prover]
    pub fn to_str(&self) -> (r: Result<String, CookieError>)
        ensures
            r is Ok <==> cookie_serializable(self@),
            r matches Ok(s) ==> s@ == cookie_wire(self@),
            !spec_name_valid(self.name@) ==> r == Err::<String, CookieError>(
                CookieError::InvalidName,
            ),
            spec_name_valid(self.name@) && !spec_value_valid(self.value@) ==> r == Err::<
                String,
                CookieError,
            >(CookieError::InvalidValue),
            spec_name_valid(self.name@) && spec_value_valid(self.value@) && self@.same_site
                == Some(SameSitePolicy::NonePolicy) && !self.secure ==> r == Err::<
                String,
                CookieError,
            >(CookieError::SameSiteNoneWithoutSecure),
            !cookie_serializable(self@) && spec_name_valid(self.name@) && spec_value_valid(
                self.value@,
            ) && !(self@.same_site == Some(SameSitePolicy::NonePolicy) && !self.secure) ==> r
                == Err::<String, CookieError>(CookieError::ExpiresOutOfRange),
    {
        if !is_name_valid(self.name.as_str()) {
            return Err(CookieError::InvalidName);
        }
        if !is_value_valid(self.value.as_str()) {
            return Err(CookieError::InvalidValue);
        }
        match self.same_site {
            Some(p) => {
                if p == SameSitePolicy::NonePolicy && !self.secure {
                    return Err(CookieError::SameSiteNoneWithoutSecure);
                }
            },
            None => {},
        }
        match self.expires {
            Some(t) => {
                if t < RFC2822_TS_MIN || t > RFC2822_TS_MAX {
                    return Err(CookieError::ExpiresOutOfRange);
                }
            },
            None => {},
        }
        Ok(self.wire_string())
    }

    /// Writes the cookie in `Set-Cookie` form; callers have checked
    /// `cookie_serializable` already.
    #[verifier::rlimit(100)]
    #[verifier::spinoff_prover]
    fn wire_string(&self) -> (r: String)
        requires
            cookie_serializable(self@),
        ensures
            r@ == cookie_wire(self@),
    {
        let ghost c = self@;
        let mut out = self.name.clone();
        out.append("=");
        out.append(self.value.as_str());
        let ghost mut w = c.name + "="@ + c.value;
        assert(out@ == w);
        match &self.domain {
            Some(d) => {
                out.append("; Domain=");
                out.append(d.as_str());
                proof {
                    assert(out@ =~= w + ("; Domain="@ + d@));
                    w = w + ("; Domain="@ + d@);
                }
            },
            None => {
                proof {
                    assert(out@ =~= w + Seq::<char>::empty());
                    w = w + Seq::<char>::empty();
                }
            },
        }
        assert(w == c.name + "="@ + c.value + (match c.domain {
            Some(d) => "; Domain="@ + d,
            None => Seq::empty(),
        }));
        match self.expires {
            Some(t) => {
                let date = format_rfc2822(t);
                out.append("; Expires=");
                out.append(date.as_str());
                proof {
                    assert(out@ =~= w + ("; Expires="@ + rfc2822_string_of(t as int)));
                    w = w + ("; Expires="@ + rfc2822_string_of(t as int));
                }
            },
            None => {
                proof {
                    assert(out@ =~= w + Seq::<char>::empty());
                    w = w + Seq::<char>::empty();
                }
            },
        }
        if self.http_only {
            out.append("; HttpOnly");
            proof {
                w = w + "; HttpOnly"@;
            }
        } else {
            proof {
                assert(out@ =~= w + Seq::<char>::empty());
                w = w + Seq::<char>::empty();
            }
        }
        match self.max_age {
            Some(m) => {
                out.append("; Max-Age=");
                let ms = i32_to_string(m);
                out.append(ms.as_str());
                proof {
                    assert(out@ =~= w + ("; Max-Age="@ + spec_dec_signed(m as int)));
                    w = w + ("; Max-Age="@ + spec_dec_signed(m as int));
                }
            },
            None => {
                proof {
                    assert(out@ =~= w + Seq::<char>::empty());
                    w = w + Seq::<char>::empty();
                }
            },
        }
        if self.partitioned {
            out.append("; Partitioned");
            proof {
                w = w + "; Partitioned"@;
            }
        } else {
            proof {
                assert(out@ =~= w + Seq::<char>::empty());
                w = w + Seq::<char>::empty();
            }
        }
        match &self.path {
            Some(p) => {
                out.append("; Path=");
                out.append(p.as_str());
                proof {
                    assert(out@ =~= w + ("; Path="@ + p@));
                    w = w + ("; Path="@ + p@);
                }
            },
            None => {
                proof {
                    assert(out@ =~= w + Seq::<char>::empty());
                    w = w + Seq::<char>::empty();
                }
            },
        }
        match self.same_site {
            Some(s) => {
                out.append("; SameSite=");
                out.append(s.as_str());
                proof {
                    assert(out@ =~= w + ("; SameSite="@ + same_site_token(s)));
                    w = w + ("; SameSite="@ + same_site_token(s));
                }
            },
            None => {
                proof {
                    assert(out@ =~= w + Seq::<char>::empty());
                    w = w + Seq::<char>::empty();
                }
            },
        }
        if self.secure {
            out.append("; Secure");
            proof {
                w = w + "; Secure"@;
            }
        } else {
            proof {
                assert(out@ =~= w + Seq::<char>::empty());
                w = w + Seq::<char>::empty();
            }
        }
        assert(out@ == w);
        assert(w == cookie_wire(c));
        out
    }
}


/// The attributes of a `Set-Cookie` line: the text split on `;`, each piece
/// trimmed of surrounding whitespace.
pub open spec fn trimmed_attrs(line: Seq<char>) -> Seq<Seq<char>> {
    spec_split(line, ';').map_values(|a: Seq<char>| spec_trim_ws(a))
}

/// The first directive at position `i` or later that starts with `p`.
pub open spec fn first_attr_from(attrs: Seq<Seq<char>>, p: Seq<char>, i: int) -> Option<Seq<char>>
    decreases attrs.len() - i,
{
    if i < 1 || i >= attrs.len() {
        None
    } else if spec_starts_with(attrs[i], p) {
        Some(attrs[i])
    } else {
        first_attr_from(attrs, p, i + 1)
    }
}

/// The first directive after the leading `name=value` one that starts with
/// the attribute name `p`.
pub open spec fn spec_attr(attrs: Seq<Seq<char>>, p: Seq<char>) -> Option<Seq<char>> {
    first_attr_from(attrs, p, 1)
}

/// The text after the first `=` of the directive that `spec_attr` finds.
pub open spec fn spec_str_attr(attrs: Seq<Seq<char>>, p: Seq<char>) -> Option<Seq<char>> {
    match spec_attr(attrs, p) {
        Some(a) => match spec_split_once(a, '=') {
            Some(nv) => Some(nv.1),
            None => None,
        },
        None => None,
    }
}

/// What parsing a `Set-Cookie` line yields: the leading directive gives name
/// and value, later directives are matched by case-sensitive prefix against
/// the known attribute names, and unknown directives are ignored.
pub open spec fn spec_parse_set_cookie(line: Seq<char>) -> Result<CookieView, CookieError> {
    let attrs = trimmed_attrs(line);
    match spec_split_once(attrs[0], '=') {
        None => Err(CookieError::MissingNameValue),
        Some(nv) => {
            let expires_txt = spec_str_attr(attrs, "Expires"@);
            let max_age_txt = spec_str_attr(attrs, "Max-Age"@);
            let same_site_txt = spec_str_attr(attrs, "SameSite"@);
            if expires_txt matches Some(sv) && rfc2822_timestamp_of(sv) is None {
                Err(CookieError::BadExpires)
            } else if max_age_txt matches Some(sv) && !(signed_grammar(sv) && i32::MIN
                <= signed_val(sv) <= i32::MAX) {
                Err(CookieError::BadMaxAge)
            } else if same_site_txt matches Some(sv) && spec_same_site_from(sv) is None {
                Err(CookieError::BadSameSite)
            } else {
                Ok(
                    CookieView {
                        name: nv.0,
                        value: nv.1,
                        domain: spec_str_attr(attrs, "Domain"@),
                        expires: match expires_txt {
                            Some(sv) => rfc2822_timestamp_of(sv),
                            None => None,
                        },
                        http_only: spec_attr(attrs, "HttpOnly"@) is Some,
                        max_age: match max_age_txt {
                            Some(sv) => Some(signed_val(sv)),
                            None => None,
                        },
                        partitioned: spec_attr(attrs, "Partitioned"@) is Some,
                        path: spec_str_attr(attrs, "Path"@),
                        same_site: match same_site_txt {
                            Some(sv) => spec_same_site_from(sv),
                            None => None,
                        },
                        secure: spec_attr(attrs, "Secure"@) is Some,
                    },
                )
            }
        },
    }
}

/// A cookie with only a name and a value.
pub open spec fn basic_cookie_view(name: Seq<char>, value: Seq<char>) -> CookieView {
    CookieView {
        name,
        value,
        domain: None,
        expires: None,
        http_only: false,
        max_age: None,
        partitioned: false,
        path: None,
        same_site: None,
        secure: false,
    }
}

/// What parsing a request `Cookie` header yields from its `;`-separated
/// pieces: one name/value cookie per piece of the form `name=value` (names
/// and values trimmed); malformed pieces are skipped.
pub open spec fn spec_req_cookies(defs: Seq<Seq<char>>) -> Seq<CookieView>
    decreases defs.len(),
{
    if defs.len() == 0 {
        Seq::empty()
    } else {
        let rest = spec_req_cookies(defs.drop_first());
        match spec_split_once(spec_trim_ws(defs[0]), '=') {
            Some(nv) => seq![
                basic_cookie_view(spec_trim_ws(nv.0), spec_trim_ws(nv.1)),
            ] + rest,
            None => rest,
        }
    }
}

/// The cookies of one request `Cookie` header line.
pub open spec fn spec_parse_cookie_header(line: Seq<char>) -> Seq<CookieView> {
    spec_req_cookies(spec_split(line, ';'))
}

fn get_attribute(attributes: &Vec<String>, attribute: &str) -> (r: Option<String>)
    ensures
        match r {
            Some(a) => spec_attr(attributes@.map_values(|s: String| s@), attribute@) == Some(a@),
            None => spec_attr(attributes@.map_values(|s: String| s@), attribute@) is None,
        },
{
    let ghost attrs = attributes@.map_values(|s: String| s@);
    let n = attributes.len();
    let mut i: usize = 1;
    while i < n
        invariant
            1 <= i,
            n == attributes@.len(),
            attrs == attributes@.map_values(|s: String| s@),
            spec_attr(attrs, attribute@) == first_attr_from(attrs, attribute@, i as int),
        decreases n - i,
    {
        if starts_with(attributes[i].as_str(), attribute) {
            return Some(attributes[i].clone());
        }
        i = i + 1;
    }
    None
}

fn get_str_attribute(attributes: &Vec<String>, attribute: &str) -> (r: Option<String>)
    ensures
        match r {
            Some(v) => spec_str_attr(attributes@.map_values(|s: String| s@), attribute@) == Some(
                v@,
            ),
            None => spec_str_attr(attributes@.map_values(|s: String| s@), attribute@) is None,
        },
{
    match get_attribute(attributes, attribute) {
        Some(a) => match split_once(a.as_str(), '=') {
            Some((_, v)) => Some(v.to_owned()),
            None => None,
        },
        None => None,
    }
}

fn get_bool_attribute(attributes: &Vec<String>, attribute: &str) -> (r: bool)
    ensures
        r == (spec_attr(attributes@.map_values(|s: String| s@), attribute@) is Some),
{
    match get_attribute(attributes, attribute) {
        Some(_) => true,
        None => false,
    }
}

impl HttpCookie {
    /// Parses one request `Cookie` header line into its cookies. Pieces
    /// without an `=` are skipped; the call itself always succeeds.
    pub fn from_req_header_cookie_line(line: &str) -> (r: Result<Vec<HttpCookie>, CookieError>)
        ensures
            r is Ok,
            r matches Ok(cs) ==> cs@.map_values(|c: HttpCookie| c@) == spec_parse_cookie_header(
                line@,
            ),
    {
        let defs = split_str(line, ';');
        let ghost ds = defs@.map_values(|x: String| x@);
        let n = defs.len();
        let mut cookies: Vec<HttpCookie> = Vec::new();
        let mut k: usize = 0;
        proof {
            assert(ds.skip(0) == ds);
        }
        while k < n
            invariant
                k <= n,
                n == defs@.len(),
                ds == defs@.map_values(|x: String| x@),
                cookies@.map_values(|c: HttpCookie| c@) + spec_req_cookies(ds.skip(k as int))
                    == spec_req_cookies(ds),
            decreases n - k,
        {
            let ghost pre = cookies@.map_values(|c: HttpCookie| c@);
            proof {
                assert(ds.skip(k as int)[0] == ds[k as int]);
                assert(ds.skip(k as int).drop_first() =~= ds.skip(k + 1));
            }
            let td = trim(defs[k].as_str());
            match split_once(td, '=') {
                Some((rn, rv)) => {
                    let c = HttpCookie::new(trim(rn), trim(rv));
                    cookies.push(c);
                    proof {
                        assert(cookies@.map_values(|c: HttpCookie| c@) =~= pre.push(
                            basic_cookie_view(
                                spec_trim_ws(spec_split_once(spec_trim_ws(ds[k as int]), '=')->Some_0.0),
                                spec_trim_ws(spec_split_once(spec_trim_ws(ds[k as int]), '=')->Some_0.1),
                            ),
                        ));
                        assert(cookies@.map_values(|c: HttpCookie| c@) + spec_req_cookies(
                            ds.skip(k + 1),
                        ) =~= pre + spec_req_cookies(ds.skip(k as int)));
                    }
                },
                None => {
                    proof {
                        assert(spec_req_cookies(ds.skip(k as int)) == spec_req_cookies(
                            ds.skip(k + 1),
                        ));
                    }
                },
            }
            k = k + 1;
        }
        proof {
            assert(ds.skip(n as int).len() == 0);
            assert(cookies@.map_values(|c: HttpCookie| c@) + spec_req_cookies(ds.skip(n as int))
                =~= cookies@.map_values(|c: HttpCookie| c@));
        }
        Ok(cookies)
    }

    /// Parses one `Set-Cookie` line. The first directive must be
    /// `name=value`; `Expires`, `Max-Age` and `SameSite` must parse when
    /// present; unknown directives are ignored.
    pub fn from_set_cookie_header_line(line: &str) -> (r: Result<HttpCookie, CookieError>)
        ensures
            r is Ok <==> spec_parse_set_cookie(line@) is Ok,
            r matches Ok(c) ==> spec_parse_set_cookie(line@) == Ok::<CookieView, CookieError>(c@),
            r matches Err(e) ==> spec_parse_set_cookie(line@) == Err::<CookieView, CookieError>(e),
    {
        let raw = split_str(line, ';');
        let ghost pieces = raw@.map_values(|x: String| x@);
        let n = raw.len();
        let mut attributes: Vec<String> = Vec::new();
        let mut k: usize = 0;
        while k < n
            invariant
                k <= n,
                n == raw@.len(),
                pieces == raw@.map_values(|x: String| x@),
                attributes@.map_values(|s: String| s@) =~= pieces.map_values(
                    |a: Seq<char>| spec_trim_ws(a),
                ).take(k as int),
            decreases n - k,
        {
            let ghost pre = attributes@.map_values(|s: String| s@);
            let t = trim(raw[k].as_str());
            attributes.push(t.to_owned());
            proof {
                assert(attributes@.map_values(|s: String| s@) =~= pre.push(
                    spec_trim_ws(pieces[k as int]),
                ));
                assert(attributes@.map_values(|s: String| s@) =~= pieces.map_values(
                    |a: Seq<char>| spec_trim_ws(a),
                ).take(k + 1));
            }
            k = k + 1;
        }
        let ghost attrs = trimmed_attrs(line@);
        proof {
            assert(pieces.map_values(|a: Seq<char>| spec_trim_ws(a)).take(n as int) =~= attrs);
        }
        let first = attributes[0].clone();
        let (name, value) = match split_once(first.as_str(), '=') {
            Some((rn, rv)) => (rn.to_owned(), rv.to_owned()),
            None => {
                return Err(CookieError::MissingNameValue);
            },
        };
        let domain = get_str_attribute(&attributes, "Domain");
        let expires = match get_str_attribute(&attributes, "Expires") {
            Some(sv) => match parse_rfc2822(sv.as_str()) {
                Some(t) => Some(t),
                None => {
                    return Err(CookieError::BadExpires);
                },
            },
            None => None,
        };
        let http_only = get_bool_attribute(&attributes, "HttpOnly");
        let max_age = match get_str_attribute(&attributes, "Max-Age") {
            Some(sv) => match parse_i32(sv.as_str()) {
                Some(m) => Some(m),
                None => {
                    return Err(CookieError::BadMaxAge);
                },
            },
            None => None,
        };
        let partitioned = get_bool_attribute(&attributes, "Partitioned");
        let path = get_str_attribute(&attributes, "Path");
        let same_site = match get_str_attribute(&attributes, "SameSite") {
            Some(sv) => match SameSitePolicy::from_str(sv.as_str()) {
                Some(p) => Some(p),
                None => {
                    return Err(CookieError::BadSameSite);
                },
            },
            None => None,
        };
        let secure = get_bool_attribute(&attributes, "Secure");
        let c = HttpCookie {
            name,
            value,
            domain,
            expires,
            http_only,
            max_age,
            partitioned,
            path,
            same_site,
            secure,
        };
        proof {
            assert(c@ =~= spec_parse_set_cookie(line@)->Ok_0);
        }
        Ok(c)
    }
}

/// The round-trip law for plain cookies: a valid cookie with no attributes
/// serializes to exactly `name=value`, and parsing that text as a
/// `Set-Cookie` line yields the cookie back.
pub proof fn lemma_cookie_round_trip(c: CookieView)
    requires
        c.domain is None,
        c.expires is None,
        !c.http_only,
        c.max_age is None,
        !c.partitioned,
        c.path is None,
        c.same_site is None,
        !c.secure,
        spec_name_valid(c.name),
        spec_value_valid(c.value),
    ensures
        cookie_serializable(c),
        cookie_wire(c) == c.name + "="@ + c.value,
        spec_parse_set_cookie(cookie_wire(c)) == Ok::<CookieView, CookieError>(c),
{
    reveal_strlit("=");
    assert("="@.len() == 1 && "="@[0] == '=');
    assert(cookie_wire(c) =~= c.name + "="@ + c.value);
    let line = c.name + "="@ + c.value;
    assert forall|k: int| 0 <= k < c.value.len() implies #[trigger] c.value[k] != ';'
        && !is_space_char(c.value[k]) && c.value[k] != ' ' by {
        let u = unquoted(c.value);
        if c.value.len() >= 2 && c.value[0] == '"' && c.value.last() == '"' {
            if k == 0 || k == c.value.len() - 1 {
            } else {
                assert(u[k - 1] == c.value[k]);
                assert(33 <= u[k - 1] as u32 <= 126 && !banned_value_char(u[k - 1]));
            }
        } else {
            assert(u[k] == c.value[k]);
            assert(33 <= u[k] as u32 <= 126 && !banned_value_char(u[k]));
        }
    }
    assert forall|k: int| 0 <= k < line.len() implies #[trigger] line[k] != ';' && !trims(
        line[k],
        true,
        ' ',
    ) by {
        if k < c.name.len() {
            assert(line[k] == c.name[k]);
            assert(33 <= c.name[k] as u32 <= 126 && !banned_name_char(c.name[k]));
        } else if k == c.name.len() {
            assert(line[k] == '=');
        } else {
            assert(line[k] == c.value[k - c.name.len() - 1]);
        }
    }
    lemma_split_no_sep(line, ';');
    assert(spec_split(line, ';') == seq![line]);
    crate::strutil::lemma_trim_none(line, true, ' ');
    assert(spec_trim_ws(line) == line);
    let attrs = trimmed_attrs(line);
    assert(attrs =~= seq![line]);
    assert forall|k: int| 0 <= k < c.name.len() implies #[trigger] line[k] != '=' by {
        assert(line[k] == c.name[k]);
        assert(!banned_name_char(c.name[k]));
    }
    crate::strutil::lemma_first_idx_is(line, '=', c.name.len() as int);
    let nv = spec_split_once(line, '=')->Some_0;
    assert(nv.0 =~= c.name);
    assert(nv.1 =~= c.value);
    assert(attrs.len() == 1);
    assert(spec_attr(attrs, "Expires"@) is None);
    assert(spec_attr(attrs, "Max-Age"@) is None);
    assert(spec_attr(attrs, "SameSite"@) is None);
    assert(spec_attr(attrs, "Domain"@) is None);
    assert(spec_attr(attrs, "HttpOnly"@) is None);
    assert(spec_attr(attrs, "Partitioned"@) is None);
    assert(spec_attr(attrs, "Path"@) is None);
    assert(spec_attr(attrs, "Secure"@) is None);
    assert(spec_parse_set_cookie(line)->Ok_0 =~= c);
}

/// The `SameSite=None` law: without `Secure` such a cookie cannot be
/// serialized at all; with `Secure`, its wire text ends in
/// `; SameSite=None; Secure`.
pub proof fn lemma_same_site_none_needs_secure(c: CookieView)
    ensures
        c.same_site == Some(SameSitePolicy::NonePolicy) && !c.secure ==> !cookie_serializable(c),
        cookie_serializable(c) && c.same_site == Some(SameSitePolicy::NonePolicy) ==> c.secure
            && exists|p: Seq<char>| cookie_wire(c) == p + "; SameSite=None; Secure"@,
{
    if cookie_serializable(c) && c.same_site == Some(SameSitePolicy::NonePolicy) {
        reveal_strlit("; SameSite=");
        reveal_strlit("None");
        reveal_strlit("; Secure");
        reveal_strlit("; SameSite=None; Secure");
        let pre = c.name + "="@ + c.value + (match c.domain {
            Some(d) => "; Domain="@ + d,
            None => Seq::<char>::empty(),
        }) + (match c.expires {
            Some(t) => "; Expires="@ + rfc2822_string_of(t),
            None => Seq::<char>::empty(),
        }) + (if c.http_only {
            "; HttpOnly"@
        } else {
            Seq::<char>::empty()
        }) + (match c.max_age {
            Some(m) => "; Max-Age="@ + spec_dec_signed(m),
            None => Seq::<char>::empty(),
        }) + (if c.partitioned {
            "; Partitioned"@
        } else {
            Seq::<char>::empty()
        }) + (match c.path {
            Some(p) => "; Path="@ + p,
            None => Seq::<char>::empty(),
        });
        assert(("; SameSite="@ + "None"@) + "; Secure"@ =~= "; SameSite=None; Secure"@);
        assert(cookie_wire(c) =~= pre + "; SameSite=None; Secure"@);
    }
}

} // verus!

