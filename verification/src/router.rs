//! The router: registered routes with literal and dynamic path segments,
//! per-method catch-all handlers, an optional file server, and the
//! elimination-based matching algorithm that picks the one route a request
//! fits.
use vstd::prelude::*;

use crate::file_server::{mounts_of, spec_resolve, FileServer};
use crate::method::HttpMethod;
use crate::request::HttpRequest;
use crate::response::{HttpResponse, sorted_insert_hv};
use crate::response_builder::{header_views, with_body_headers, HttpResponseBuilder};
use crate::strmap::StrMap;
use crate::strutil::{
    dec_val, parse_u64, spec_contains_char, spec_split, spec_split_once, spec_trim_char,
    split_once, split_str, str_eq, trim_char, unsigned_digits, unsigned_grammar,
};
use crate::datetime::{http_date_of, rfc2822_representable};

verus! {

/// Why routing failed.
#[derive(Debug, PartialEq, Eq, Clone)]
pub enum RouterError {
    /// A route segment held a `:` beyond the leading marker.
    NestedColon,
    /// A route of the same method and segment structure is registered.
    DuplicateRoute,
    /// A catch-all for that method is registered.
    DuplicateCatcher,
    /// More than one registered route fits the request.
    AmbiguousMatch,
    /// A route description did not look like `METHOD path`.
    BadRequestRoute,
    /// The routing data holds no parameter of that name.
    UnknownParameter,
    /// A parameter's captured text did not parse as a number.
    BadParameterValue,
    /// The matched handler itself failed, with its message.
    Handler(String),
}

/// One segment of a stored route: a literal name, or a named dynamic
/// placeholder that matches any single request segment.
#[derive(Debug, PartialEq, Eq, Hash, Clone)]
pub struct RoutePart {
    pub is_dynamic: bool,
    pub name: String,
}

/// The mathematical shape of a route segment.
#[verifier::ext_equal]
pub ghost struct PartView {
    pub is_dynamic: bool,
    pub name: Seq<char>,
}

impl View for RoutePart {
    type V = PartView;

    open spec fn view(&self) -> PartView {
        PartView { is_dynamic: self.is_dynamic, name: self.name@ }
    }
}

/// A registered route: a method and the segments of its path template.
#[derive(Debug, PartialEq, Eq, Hash, Clone)]
pub struct StoredRoute {
    pub method: HttpMethod,
    pub path: String,
    pub parts: Vec<RoutePart>,
}

/// The mathematical shape of a stored route.
#[verifier::ext_equal]
pub ghost struct RouteView {
    pub method: HttpMethod,
    pub path: Seq<char>,
    pub parts: Seq<PartView>,
}

impl View for StoredRoute {
    type V = RouteView;

    open spec fn view(&self) -> RouteView {
        RouteView {
            method: self.method,
            path: self.path@,
            parts: self.parts@.map_values(|p: RoutePart| p@),
        }
    }
}

/// The segments that the pieces `pieces[0..i)` of a route path declare: a
/// leading `:` marks a dynamic segment; a further `:` in a segment fails.
pub open spec fn spec_route_parts(pieces: Seq<Seq<char>>, i: int) -> Result<
    Seq<PartView>,
    RouterError,
>
    decreases i,
{
    if i <= 0 {
        Ok(Seq::empty())
    } else {
        match spec_route_parts(pieces, i - 1) {
            Err(e) => Err(e),
            Ok(ps) => {
                let p = pieces[i - 1];
                let dynamic = p.len() > 0 && p[0] == ':';
                let name = if dynamic {
                    p.skip(1)
                } else {
                    p
                };
                if spec_contains_char(name, ':') {
                    Err(RouterError::NestedColon)
                } else {
                    Ok(ps.push(PartView { is_dynamic: dynamic, name }))
                }
            },
        }
    }
}

/// What registering a route path yields: the trimmed path and its segments.
pub open spec fn spec_stored_route(method: HttpMethod, path: Seq<char>) -> Result<
    RouteView,
    RouterError,
> {
    let t = spec_trim_char(path, '/');
    let pieces = spec_split(t, '/');
    match spec_route_parts(pieces, pieces.len() as int) {
        Err(e) => Err(e),
        Ok(ps) => Ok(RouteView { method, path: t, parts: ps }),
    }
}

proof fn lemma_route_parts_err_propagates(pieces: Seq<Seq<char>>, i: int, n: int)
    requires
        0 <= i <= n,
        spec_route_parts(pieces, i) is Err,
    ensures
        spec_route_parts(pieces, n) == spec_route_parts(pieces, i),
    decreases n - i,
{
    if i < n {
        lemma_route_parts_err_propagates(pieces, i + 1, n);
    }
}

impl StoredRoute {
    /// Builds a stored route from a path template: the path is trimmed of
    /// surrounding slashes and split on `/`; a segment starting with `:` is
    /// dynamic under the rest of its text. Fails iff a segment holds a `:`
    /// beyond the leading marker.
    pub fn new(method: HttpMethod, path: &str) -> (r: Result<StoredRoute, RouterError>)
        ensures
            r is Ok <==> spec_stored_route(method, path@) is Ok,
            r matches Ok(sr) ==> spec_stored_route(method, path@) == Ok::<RouteView, RouterError>(
                sr@,
            ),
            r matches Err(e) ==> spec_stored_route(method, path@) == Err::<RouteView, RouterError>(
                e,
            ),
    {
        let trimmed = trim_char(path, '/');
        let pieces = split_str(trimmed, '/');
        let ghost pv = pieces@.map_values(|x: String| x@);
        let n = pieces.len();
        let mut parts: Vec<RoutePart> = Vec::new();
        let mut i: usize = 0;
        proof {
            assert(parts@.map_values(|p: RoutePart| p@) =~= Seq::<PartView>::empty());
        }
        while i < n
            invariant
                i <= n,
                n == pieces@.len(),
                pv == pieces@.map_values(|x: String| x@),
                pv == spec_split(spec_trim_char(path@, '/'), '/'),
                trimmed@ == spec_trim_char(path@, '/'),
                spec_route_parts(pv, i as int) matches Ok(ps) && ps == parts@.map_values(
                    |p: RoutePart| p@,
                ),
            decreases n - i,
        {
            let piece = &pieces[i];
            let pn = piece.as_str().unicode_len();
            let dynamic = pn > 0 && piece.as_str().get_char(0) == ':';
            let name = if dynamic {
                piece.as_str().substring_char(1, pn)
            } else {
                piece.as_str().substring_char(0, pn)
            };
            proof {
                assert(pv[i as int] == pieces@[i as int]@);
                if dynamic {
                    assert(name@ =~= pv[i as int].skip(1));
                } else {
                    assert(name@ =~= pv[i as int]);
                }
            }
            if crate::strutil::contains_char(name, ':') {
                proof {
                    assert(spec_route_parts(pv, i + 1) == Err::<Seq<PartView>, RouterError>(
                        RouterError::NestedColon,
                    ));
                    lemma_route_parts_err_propagates(pv, i + 1, pv.len() as int);
                }
                return Err(RouterError::NestedColon);
            }
            let ghost pre = parts@.map_values(|p: RoutePart| p@);
            parts.push(RoutePart { is_dynamic: dynamic, name: name.to_owned() });
            proof {
                assert(parts@.map_values(|p: RoutePart| p@) =~= pre.push(
                    PartView {
                        is_dynamic: dynamic,
                        name: if dynamic {
                            pv[i as int].skip(1)
                        } else {
                            pv[i as int]
                        },
                    },
                ));
            }
            i = i + 1;
        }
        Ok(StoredRoute { method, path: trimmed.to_owned(), parts })
    }

    /// Whether the request segments from position `i` on fit this route:
    /// every request segment must meet a segment of the route, literally
    /// equal unless dynamic.
    pub open spec fn matches_from(rv: RouteView, req_parts: Seq<Seq<char>>, i: int) -> bool
        decreases req_parts.len() - i,
    {
        if i < 0 || i >= req_parts.len() {
            true
        } else {
            i < rv.parts.len() && (rv.parts[i].is_dynamic || rv.parts[i].name == req_parts[i])
                && Self::matches_from(rv, req_parts, i + 1)
        }
    }

    /// Whether the request segments fit this route.
    pub open spec fn spec_matches(rv: RouteView, req_parts: Seq<Seq<char>>) -> bool {
        Self::matches_from(rv, req_parts, 0)
    }

    /// Decides whether the request segments fit this route.
    pub fn matches_request(&self, req_parts: &Vec<String>) -> (r: bool)
        ensures
            r == Self::spec_matches(self@, req_parts@.map_values(|x: String| x@)),
    {
        let ghost rp = req_parts@.map_values(|x: String| x@);
        let n = req_parts.len();
        let mut idx: usize = 0;
        while idx < n
            invariant
                idx <= n,
                n == req_parts@.len(),
                rp == req_parts@.map_values(|x: String| x@),
                rp.len() == n,
                self@.parts.len() == self.parts@.len(),
                Self::spec_matches(self@, rp) == Self::matches_from(self@, rp, idx as int),
            decreases n - idx,
        {
            proof {
                assert(rp[idx as int] == req_parts@[idx as int]@);
            }
            if idx >= self.parts.len() {
                assert(!Self::matches_from(self@, rp, idx as int));
                return false;
            }
            let part = &self.parts[idx];
            proof {
                assert(self@.parts[idx as int] == self.parts@[idx as int]@);
            }
            if !part.is_dynamic && !str_eq(part.name.as_str(), req_parts[idx].as_str()) {
                assert(!Self::matches_from(self@, rp, idx as int));
                return false;
            }
            idx = idx + 1;
        }
        assert(Self::matches_from(self@, rp, idx as int));
        true
    }

    /// Whether two routes collide at registration: same method, same number
    /// of segments, dynamic exactly where the other is, and equal literal
    /// names — dynamic names are not compared.
    pub open spec fn spec_conflicts(a: RouteView, b: RouteView) -> bool {
        &&& a.method == b.method
        &&& a.parts.len() == b.parts.len()
        &&& forall|k: int|
            0 <= k < a.parts.len() ==> (#[trigger] a.parts[k]).is_dynamic == (
            #[trigger] b.parts[k]).is_dynamic && (!a.parts[k].is_dynamic ==> a.parts[k].name
                == b.parts[k].name)
    }

    /// Decides whether this route collides with another.
    pub fn conflicts_with(&self, other: &StoredRoute) -> (r: bool)
        ensures
            r == Self::spec_conflicts(self@, other@),
    {
        if self.method != other.method {
            return false;
        }
        let n = self.parts.len();
        if n != other.parts.len() {
            return false;
        }
        let mut k: usize = 0;
        while k < n
            invariant
                k <= n,
                n == self.parts@.len(),
                n == other.parts@.len(),
                self.method == other.method,
                forall|j: int|
                    0 <= j < k ==> (#[trigger] self@.parts[j]).is_dynamic == (
                    #[trigger] other@.parts[j]).is_dynamic && (!self@.parts[j].is_dynamic
                        ==> self@.parts[j].name == other@.parts[j].name),
            decreases n - k,
        {
            let a = &self.parts[k];
            let b = &other.parts[k];
            proof {
                assert(self@.parts[k as int] == self.parts@[k as int]@);
                assert(other@.parts[k as int] == other.parts@[k as int]@);
            }
            if a.is_dynamic != b.is_dynamic {
                return false;
            }
            if !a.is_dynamic && !str_eq(a.name.as_str(), b.name.as_str()) {
                return false;
            }
            k = k + 1;
        }
        true
    }

    /// Extracts the captured routing data: for each dynamic segment, the
    /// request's segment at the same position, or nothing where the request
    /// is shorter.
    pub fn extract_routing_data(&self, request_url: &str) -> (r: Result<RoutingData, RouterError>)
        ensures
            r is Ok,
            r matches Ok(rd) ==> rd.wf() && rd.params_view() == spec_routing_data(
                self@.parts,
                filter_nonempty(spec_split(request_url@, '/')),
                self@.parts.len() as int,
            ),
    {
        let pieces = split_str(request_url, '/');
        let ghost all = pieces@.map_values(|x: String| x@);
        let n = pieces.len();
        let mut request_parts: Vec<String> = Vec::new();
        let mut k: usize = 0;
        proof {
            assert(all.skip(0) == all);
        }
        while k < n
            invariant
                k <= n,
                n == pieces@.len(),
                all == pieces@.map_values(|x: String| x@),
                request_parts@.map_values(|x: String| x@) + filter_nonempty(all.skip(k as int))
                    == filter_nonempty(all),
            decreases n - k,
        {
            let ghost pre = request_parts@.map_values(|x: String| x@);
            proof {
                assert(all.skip(k as int)[0] == all[k as int]);
                assert(all.skip(k as int).drop_first() =~= all.skip(k + 1));
            }
            if pieces[k].as_str().unicode_len() > 0 {
                request_parts.push(pieces[k].clone());
                proof {
                    assert(request_parts@.map_values(|x: String| x@) =~= pre.push(all[k as int]));
                    assert(request_parts@.map_values(|x: String| x@) + filter_nonempty(
                        all.skip(k + 1),
                    ) =~= pre + filter_nonempty(all.skip(k as int)));
                }
            }
            k = k + 1;
        }
        proof {
            assert(all.skip(n as int) =~= Seq::<Seq<char>>::empty());
            assert(request_parts@.map_values(|x: String| x@) + filter_nonempty(all.skip(n as int))
                =~= request_parts@.map_values(|x: String| x@));
        }
        let ghost rp = request_parts@.map_values(|x: String| x@);
        let mut params: StrMap<Option<String>> = StrMap::new();
        let m = self.parts.len();
        let mut i: usize = 0;
        proof {
            assert(params@.map_values(|v: Option<String>| option_view(v)) =~= Map::<
                Seq<char>,
                Option<Seq<char>>,
            >::empty());
        }
        while i < m
            invariant
                i <= m,
                m == self.parts@.len(),
                rp == request_parts@.map_values(|x: String| x@),
                params.wf(),
                params@.map_values(|v: Option<String>| option_view(v)) == spec_routing_data(
                    self@.parts,
                    rp,
                    i as int,
                ),
            decreases m - i,
        {
            let part = &self.parts[i];
            proof {
                assert(self@.parts[i as int] == self.parts@[i as int]@);
            }
            if part.is_dynamic {
                let ghost pre = params@.map_values(|v: Option<String>| option_view(v));
                let value: Option<String> = if i < request_parts.len() {
                    proof {
                        assert(rp[i as int] == request_parts@[i as int]@);
                    }
                    Some(request_parts[i].clone())
                } else {
                    None
                };
                params.insert(part.name.as_str(), value);
                proof {
                    assert(params@.map_values(|v: Option<String>| option_view(v)) =~= pre.insert(
                        self@.parts[i as int].name,
                        if i < rp.len() {
                            Some(rp[i as int])
                        } else {
                            None
                        },
                    ));
                }
            }
            i = i + 1;
        }
        Ok(RoutingData { params })
    }
}

/// The view of an optional captured value.
pub open spec fn option_view(v: Option<String>) -> Option<Seq<char>> {
    match v {
        Some(s) => Some(s@),
        None => None,
    }
}

/// The pieces of `pieces` that are nonempty, in order.
pub open spec fn filter_nonempty(pieces: Seq<Seq<char>>) -> Seq<Seq<char>>
    decreases pieces.len(),
{
    if pieces.len() == 0 {
        Seq::empty()
    } else {
        (if pieces[0].len() > 0 {
            seq![pieces[0]]
        } else {
            Seq::empty()
        }) + filter_nonempty(pieces.drop_first())
    }
}

/// The parameter map that the first `i` route segments capture from the
/// request segments `req`: each dynamic segment's name is bound to the
/// request segment at its position, or to nothing where the request is
/// shorter.
pub open spec fn spec_routing_data(
    parts: Seq<PartView>,
    req: Seq<Seq<char>>,
    i: int,
) -> Map<Seq<char>, Option<Seq<char>>>
    decreases i,
{
    if i <= 0 {
        Map::empty()
    } else {
        let m = spec_routing_data(parts, req, i - 1);
        if parts[i - 1].is_dynamic {
            m.insert(
                parts[i - 1].name,
                if i - 1 < req.len() {
                    Some(req[i - 1])
                } else {
                    None
                },
            )
        } else {
            m
        }
    }
}

/// The values a matched route captured from the request path, by dynamic
/// segment name. A name can be bound to nothing: the route had more segments
/// than the request.
#[derive(Debug, PartialEq, Eq)]
pub struct RoutingData {
    params: StrMap<Option<String>>,
}

impl Default for RoutingData {
    /// Routing data with no parameters.
    fn default() -> (r: RoutingData)
        ensures
            r.wf(),
            r.params_view() == Map::<Seq<char>, Option<Seq<char>>>::empty(),
    {
        RoutingData::new()
    }
}

impl RoutingData {
    /// The captured parameters, at the view level.
    pub closed spec fn params_view(&self) -> Map<Seq<char>, Option<Seq<char>>> {
        self.params@.map_values(|v: Option<String>| option_view(v))
    }

    /// The map invariant.
    pub closed spec fn wf(&self) -> bool {
        self.params.wf()
    }

    /// Routing data with no parameters, as a catch-all handler receives.
    pub fn new() -> (r: RoutingData)
        ensures
            r.wf(),
            r.params_view() == Map::<Seq<char>, Option<Seq<char>>>::empty(),
    {
        let r = RoutingData { params: StrMap::new() };
        proof {
            assert(r.params_view() =~= Map::<Seq<char>, Option<Seq<char>>>::empty());
        }
        r
    }

    /// The text captured for a parameter. Fails iff the route declares no
    /// such parameter; a declared parameter that the request left out yields
    /// `None`.
    pub fn get_str_value(&self, param_name: &str) -> (r: Result<Option<String>, RouterError>)
        requires
            self.wf(),
        ensures
            r is Ok <==> self.params_view().contains_key(param_name@),
            r matches Ok(v) ==> option_view(v) == self.params_view()[param_name@],
            r matches Err(e) ==> e == RouterError::UnknownParameter,
    {
        match self.params.get(param_name) {
            Some(v) => match v {
                Some(s) => Ok(Some(s.clone())),
                None => Ok(None),
            },
            None => Err(RouterError::UnknownParameter),
        }
    }

    /// The captured text of a parameter read as an unsigned number. Fails
    /// iff the parameter is unknown or its text is not such a number.
    pub fn get_value(&self, param_name: &str) -> (r: Result<Option<u64>, RouterError>)
        requires
            self.wf(),
        ensures
            r matches Ok(v) ==> self.params_view().contains_key(param_name@) && (match v {
                Some(n) => self.params_view()[param_name@] matches Some(s) && unsigned_grammar(s)
                    && n == dec_val(unsigned_digits(s)),
                None => self.params_view()[param_name@] is None,
            }),
            !self.params_view().contains_key(param_name@) ==> r == Err::<
                Option<u64>,
                RouterError,
            >(RouterError::UnknownParameter),
    {
        match self.get_str_value(param_name) {
            Ok(Some(s)) => match parse_u64(s.as_str()) {
                Some(n) => Ok(Some(n)),
                None => Err(RouterError::BadParameterValue),
            },
            Ok(None) => Ok(None),
            Err(e) => Err(e),
        }
    }
}

/// A request's routing key: its method and its path trimmed of surrounding
/// slashes.
#[derive(Debug, PartialEq, Eq, Hash, Clone)]
pub struct RequestRoute {
    pub method: HttpMethod,
    pub path: String,
}

impl RequestRoute {
    /// Builds a request route, trimming the path.
    pub fn new(method: HttpMethod, path: &str) -> (r: RequestRoute)
        ensures
            r.method == method,
            r.path@ == spec_trim_char(path@, '/'),
    {
        RequestRoute { method, path: trim_char(path, '/').to_owned() }
    }

    /// Parses a `METHOD path` description. Fails iff there is no space or the
    /// method token is unknown.
    pub fn from_str(s: &str) -> (r: Result<RequestRoute, RouterError>)
        ensures
            r is Ok <==> (spec_split_once(s@, ' ') matches Some(p)
                && crate::method::spec_method_from(p.0) is Some),
            r matches Ok(rr) ==> (spec_split_once(s@, ' ') matches Some(p)
                && crate::method::spec_method_from(p.0) == Some(rr.method) && rr.path@
                == spec_trim_char(p.1, '/')),
            r matches Err(e) ==> e == RouterError::BadRequestRoute,
    {
        let (mtok, ptok) = match split_once(s, ' ') {
            Some(p) => p,
            None => {
                return Err(RouterError::BadRequestRoute);
            },
        };
        let method = match HttpMethod::from_str(mtok) {
            Some(m) => m,
            None => {
                return Err(RouterError::BadRequestRoute);
            },
        };
        Ok(RequestRoute::new(method, ptok))
    }
}


/// What a matched route's handler returns or why it failed. Handlers are the
/// server's business logic: this crate calls them and passes their answer or
/// failure through.
pub trait Handler: Sized {
    /// Answers one request with the routing data its route captured, or
    /// fails with a message.
    fn call(&self, request: &HttpRequest, routing_data: &RoutingData) -> Result<
        HttpResponse,
        String,
    >;
}

/// What the router decided for one request: a handler's or catch-all's
/// response, a resolved file for the caller to read and serve, or nothing.
#[derive(Debug, PartialEq, Eq)]
pub enum RouterOutcome {
    /// A route or catch-all handler answered.
    Response(HttpResponse),
    /// No route matched and the file server resolved this filesystem path to
    /// an existing regular file; the caller reads it and serves its bytes.
    File(String),
    /// Nothing matched and no catch-all stands for the method.
    NotFound,
}

/// The route views of a router's registered routes.
pub open spec fn route_views<H>(r: &Router<H>) -> Seq<RouteView> {
    r.routes@.map_values(|p: (StoredRoute, H)| p.0@)
}

/// The methods of a router's catch-all handlers.
pub open spec fn catcher_methods<H>(r: &Router<H>) -> Seq<HttpMethod> {
    r.catcher_routes@.map_values(|p: (HttpMethod, H)| p.0)
}

/// Whether a catch-all stands for `m`.
pub open spec fn has_catcher<H>(r: &Router<H>, m: HttpMethod) -> bool {
    exists|k: int| 0 <= k < catcher_methods(r).len() && catcher_methods(r)[k] == m
}

/// Whether the route at `j` is registered for `m` and fits the request
/// segments.
pub open spec fn is_match(rvs: Seq<RouteView>, j: int, m: HttpMethod, rp: Seq<Seq<char>>) -> bool {
    rvs[j].method == m && StoredRoute::spec_matches(rvs[j], rp)
}

/// The router: registered routes with their handlers, per-method catch-all
/// handlers, and an optional file server, consulted in that order.
#[derive(Debug)]
pub struct Router<H> {
    pub routes: Vec<(StoredRoute, H)>,
    pub catcher_routes: Vec<(HttpMethod, H)>,
    pub file_server: Option<FileServer>,
}

/// Two routes of one method with the same segment structure collide, however
/// their dynamic segments are named.
pub proof fn lemma_same_structure_conflicts(a: RouteView, b: RouteView)
    requires
        a.method == b.method,
        a.parts.len() == b.parts.len(),
        forall|k: int|
            0 <= k < a.parts.len() ==> (#[trigger] a.parts[k]).is_dynamic == b.parts[k].is_dynamic,
        forall|k: int|
            0 <= k < a.parts.len() ==> ((#[trigger] a.parts[k]).is_dynamic || a.parts[k].name
                == b.parts[k].name),
    ensures
        StoredRoute::spec_conflicts(a, b),
{
}

/// Colliding is mutual.
pub proof fn lemma_conflicts_symmetric(a: RouteView, b: RouteView)
    requires
        StoredRoute::spec_conflicts(a, b),
    ensures
        StoredRoute::spec_conflicts(b, a),
{
    assert forall|k: int|
        0 <= k < b.parts.len() implies (#[trigger] b.parts[k]).is_dynamic == (
    #[trigger] a.parts[k]).is_dynamic && (!b.parts[k].is_dynamic ==> b.parts[k].name
        == a.parts[k].name) by {
        assert((a.parts[k]).is_dynamic == (b.parts[k]).is_dynamic && (!a.parts[k].is_dynamic
            ==> a.parts[k].name == b.parts[k].name));
    }
}

impl<H: Handler> Router<H> {
    /// The registration invariant: no two routes collide and no two
    /// catch-alls share a method.
    pub open spec fn wf(&self) -> bool {
        &&& forall|i: int, j: int|
            0 <= i < j < route_views(self).len() ==> !StoredRoute::spec_conflicts(
                #[trigger] route_views(self)[i],
                #[trigger] route_views(self)[j],
            )
        &&& forall|i: int, j: int|
            0 <= i < j < catcher_methods(self).len() ==> #[trigger] catcher_methods(self)[i]
                != #[trigger] catcher_methods(self)[j]
    }

    /// A router with nothing registered.
    pub fn new() -> (r: Router<H>)
        ensures
            route_views(&r) == Seq::<RouteView>::empty(),
            catcher_methods(&r) == Seq::<HttpMethod>::empty(),
            r.file_server is None,
            r.wf(),
    {
        let r = Router { routes: Vec::new(), catcher_routes: Vec::new(), file_server: None };
        proof {
            assert(route_views(&r) =~= Seq::<RouteView>::empty());
            assert(catcher_methods(&r) =~= Seq::<HttpMethod>::empty());
        }
        r
    }

    /// Gives the router a file server to fall back on.
    pub fn set_file_server(self, file_server: FileServer) -> (r: Router<H>)
        ensures
            r.routes == self.routes,
            r.catcher_routes == self.catcher_routes,
            r.file_server == Some(file_server),
            self.wf() ==> r.wf(),
    {
        let Router { routes, catcher_routes, file_server: _ } = self;
        let r = Router { routes, catcher_routes, file_server: Some(file_server) };
        proof {
            assert(route_views(&r) =~= route_views(&self));
            assert(catcher_methods(&r) =~= catcher_methods(&self));
        }
        r
    }

    /// Registers a handler for a route path. Fails iff the path is no valid
    /// template or a registered route collides with it.
    pub fn add_route(&mut self, method: HttpMethod, path: &str, callback: H) -> (r: Result<
        (),
        RouterError,
    >)
        ensures
            r is Ok <==> (spec_stored_route(method, path@) matches Ok(rv) && (forall|k: int|
                0 <= k < route_views(old(self)).len() ==> !StoredRoute::spec_conflicts(
                    rv,
                    #[trigger] route_views(old(self))[k],
                ))),
            r is Ok ==> route_views(final(self)) == route_views(old(self)).push(
                spec_stored_route(method, path@)->Ok_0,
            ) && final(self).catcher_routes == old(self).catcher_routes && final(self).file_server
                == old(self).file_server,
            r is Err ==> *final(self) == *old(self),
            r matches Err(e) ==> (spec_stored_route(method, path@) matches Err(e2) && e == e2) || (
            spec_stored_route(method, path@) is Ok && e == RouterError::DuplicateRoute),
            old(self).wf() && r is Ok ==> final(self).wf(),
    {
        let route = match StoredRoute::new(method, path) {
            Ok(sr) => sr,
            Err(e) => {
                return Err(e);
            },
        };
        let ghost rvs = route_views(self);
        let n = self.routes.len();
        let mut k: usize = 0;
        while k < n
            invariant
                k <= n,
                n == self.routes@.len(),
                *self == *old(self),
                rvs == route_views(self),
                spec_stored_route(method, path@) is Ok,
                route@ == spec_stored_route(method, path@)->Ok_0,
                forall|j: int|
                    0 <= j < k ==> !StoredRoute::spec_conflicts(route@, #[trigger] rvs[j]),
            decreases n - k,
        {
            proof {
                assert(rvs[k as int] == self.routes@[k as int].0@);
            }
            if route.conflicts_with(&self.routes[k].0) {
                return Err(RouterError::DuplicateRoute);
            }
            k = k + 1;
        }
        let ghost pre = route_views(self);
        self.routes.push((route, callback));
        proof {
            assert(route_views(self) =~= pre.push(spec_stored_route(method, path@)->Ok_0));
            assert(catcher_methods(self) =~= catcher_methods(old(self)));
            if old(self).wf() {
                let now = route_views(self);
                assert forall|i: int, j: int|
                    0 <= i < j < now.len() implies !StoredRoute::spec_conflicts(
                    #[trigger] now[i],
                    #[trigger] now[j],
                ) by {
                    if j < now.len() - 1 {
                        assert(now[i] == pre[i] && now[j] == pre[j]);
                    } else {
                        assert(now[i] == pre[i] && now[j] == route@);
                        assert(!StoredRoute::spec_conflicts(route@, pre[i]));
                        if StoredRoute::spec_conflicts(pre[i], route@) {
                            lemma_conflicts_symmetric(pre[i], route@);
                        }
                    }
                }
            }
        }
        Ok(())
    }

    /// Registers a per-method catch-all handler. Fails iff one stands for
    /// that method already.
    pub fn add_catcher_route(&mut self, method: HttpMethod, callback: H) -> (r: Result<
        (),
        RouterError,
    >)
        ensures
            r is Ok <==> !has_catcher(old(self), method),
            r is Ok ==> catcher_methods(final(self)) == catcher_methods(old(self)).push(method)
                && final(self).routes == old(self).routes && final(self).file_server == old(
                self,
            ).file_server,
            r is Err ==> *final(self) == *old(self),
            r matches Err(e) ==> e == RouterError::DuplicateCatcher,
            old(self).wf() && r is Ok ==> final(self).wf(),
    {
        let ghost cms = catcher_methods(self);
        let n = self.catcher_routes.len();
        let mut k: usize = 0;
        while k < n
            invariant
                k <= n,
                n == self.catcher_routes@.len(),
                cms == catcher_methods(self),
                forall|j: int| 0 <= j < k ==> #[trigger] cms[j] != method,
            decreases n - k,
        {
            proof {
                assert(cms[k as int] == self.catcher_routes@[k as int].0);
            }
            if self.catcher_routes[k].0 == method {
                return Err(RouterError::DuplicateCatcher);
            }
            k = k + 1;
        }
        let ghost pre = catcher_methods(self);
        self.catcher_routes.push((method, callback));
        proof {
            assert(catcher_methods(self) =~= pre.push(method));
            assert(route_views(self) =~= route_views(old(self)));
            if old(self).wf() {
                let now = catcher_methods(self);
                assert forall|i: int, j: int|
                    0 <= i < j < now.len() implies #[trigger] now[i] != #[trigger] now[j] by {
                    if j < now.len() - 1 {
                        assert(now[i] == pre[i] && now[j] == pre[j]);
                    } else {
                        assert(now[i] == pre[i] && now[j] == method);
                    }
                }
            }
        }
        Ok(())
    }


    /// Registers a handler for a `GET` route, chainably.
    pub fn get(self, path: &str, callback: H) -> (r: Result<Router<H>, RouterError>)
        ensures
            r is Ok <==> (spec_stored_route(HttpMethod::GET, path@) matches Ok(rv) && (forall|
                k: int,
            |
                0 <= k < route_views(&self).len() ==> !StoredRoute::spec_conflicts(
                    rv,
                    #[trigger] route_views(&self)[k],
                ))),
            r matches Ok(rt) ==> route_views(&rt) == route_views(&self).push(
                spec_stored_route(HttpMethod::GET, path@)->Ok_0,
            ) && rt.catcher_routes == self.catcher_routes && rt.file_server == self.file_server && (
            self.wf() ==> rt.wf()),
    {
        let mut rt = self;
        match rt.add_route(HttpMethod::GET, path, callback) {
            Ok(_) => Ok(rt),
            Err(e) => Err(e),
        }
    }

    /// Registers a handler for a `HEAD` route, chainably.
    pub fn head(self, path: &str, callback: H) -> (r: Result<Router<H>, RouterError>)
        ensures
            r is Ok <==> (spec_stored_route(HttpMethod::HEAD, path@) matches Ok(rv) && (forall|
                k: int,
            |
                0 <= k < route_views(&self).len() ==> !StoredRoute::spec_conflicts(
                    rv,
                    #[trigger] route_views(&self)[k],
                ))),
            r matches Ok(rt) ==> route_views(&rt) == route_views(&self).push(
                spec_stored_route(HttpMethod::HEAD, path@)->Ok_0,
            ) && rt.catcher_routes == self.catcher_routes && rt.file_server == self.file_server && (
            self.wf() ==> rt.wf()),
    {
        let mut rt = self;
        match rt.add_route(HttpMethod::HEAD, path, callback) {
            Ok(_) => Ok(rt),
            Err(e) => Err(e),
        }
    }

    /// Registers a handler for a `POST` route, chainably.
    pub fn post(self, path: &str, callback: H) -> (r: Result<Router<H>, RouterError>)
        ensures
            r is Ok <==> (spec_stored_route(HttpMethod::POST, path@) matches Ok(rv) && (forall|
                k: int,
            |
                0 <= k < route_views(&self).len() ==> !StoredRoute::spec_conflicts(
                    rv,
                    #[trigger] route_views(&self)[k],
                ))),
            r matches Ok(rt) ==> route_views(&rt) == route_views(&self).push(
                spec_stored_route(HttpMethod::POST, path@)->Ok_0,
            ) && rt.catcher_routes == self.catcher_routes && rt.file_server == self.file_server && (
            self.wf() ==> rt.wf()),
    {
        let mut rt = self;
        match rt.add_route(HttpMethod::POST, path, callback) {
            Ok(_) => Ok(rt),
            Err(e) => Err(e),
        }
    }

    /// Registers a handler for a `PUT` route, chainably.
    pub fn put(self, path: &str, callback: H) -> (r: Result<Router<H>, RouterError>)
        ensures
            r is Ok <==> (spec_stored_route(HttpMethod::PUT, path@) matches Ok(rv) && (forall|
                k: int,
            |
                0 <= k < route_views(&self).len() ==> !StoredRoute::spec_conflicts(
                    rv,
                    #[trigger] route_views(&self)[k],
                ))),
            r matches Ok(rt) ==> route_views(&rt) == route_views(&self).push(
                spec_stored_route(HttpMethod::PUT, path@)->Ok_0,
            ) && rt.catcher_routes == self.catcher_routes && rt.file_server == self.file_server && (
            self.wf() ==> rt.wf()),
    {
        let mut rt = self;
        match rt.add_route(HttpMethod::PUT, path, callback) {
            Ok(_) => Ok(rt),
            Err(e) => Err(e),
        }
    }

    /// Registers a handler for a `DELETE` route, chainably.
    pub fn delete(self, path: &str, callback: H) -> (r: Result<Router<H>, RouterError>)
        ensures
            r is Ok <==> (spec_stored_route(HttpMethod::DELETE, path@) matches Ok(rv) && (forall|
                k: int,
            |
                0 <= k < route_views(&self).len() ==> !StoredRoute::spec_conflicts(
                    rv,
                    #[trigger] route_views(&self)[k],
                ))),
            r matches Ok(rt) ==> route_views(&rt) == route_views(&self).push(
                spec_stored_route(HttpMethod::DELETE, path@)->Ok_0,
            ) && rt.catcher_routes == self.catcher_routes && rt.file_server == self.file_server && (
            self.wf() ==> rt.wf()),
    {
        let mut rt = self;
        match rt.add_route(HttpMethod::DELETE, path, callback) {
            Ok(_) => Ok(rt),
            Err(e) => Err(e),
        }
    }

    /// Registers a handler for a `CONNECT` route, chainably.
    pub fn connect(self, path: &str, callback: H) -> (r: Result<Router<H>, RouterError>)
        ensures
            r is Ok <==> (spec_stored_route(HttpMethod::CONNECT, path@) matches Ok(rv) && (forall|
                k: int,
            |
                0 <= k < route_views(&self).len() ==> !StoredRoute::spec_conflicts(
                    rv,
                    #[trigger] route_views(&self)[k],
                ))),
            r matches Ok(rt) ==> route_views(&rt) == route_views(&self).push(
                spec_stored_route(HttpMethod::CONNECT, path@)->Ok_0,
            ) && rt.catcher_routes == self.catcher_routes && rt.file_server == self.file_server && (
            self.wf() ==> rt.wf()),
    {
        let mut rt = self;
        match rt.add_route(HttpMethod::CONNECT, path, callback) {
            Ok(_) => Ok(rt),
            Err(e) => Err(e),
        }
    }

    /// Registers a handler for a `OPTIONS` route, chainably.
    pub fn options(self, path: &str, callback: H) -> (r: Result<Router<H>, RouterError>)
        ensures
            r is Ok <==> (spec_stored_route(HttpMethod::OPTIONS, path@) matches Ok(rv) && (forall|
                k: int,
            |
                0 <= k < route_views(&self).len() ==> !StoredRoute::spec_conflicts(
                    rv,
                    #[trigger] route_views(&self)[k],
                ))),
            r matches Ok(rt) ==> route_views(&rt) == route_views(&self).push(
                spec_stored_route(HttpMethod::OPTIONS, path@)->Ok_0,
            ) && rt.catcher_routes == self.catcher_routes && rt.file_server == self.file_server && (
            self.wf() ==> rt.wf()),
    {
        let mut rt = self;
        match rt.add_route(HttpMethod::OPTIONS, path, callback) {
            Ok(_) => Ok(rt),
            Err(e) => Err(e),
        }
    }

    /// Registers a handler for a `TRACE` route, chainably.
    pub fn trace(self, path: &str, callback: H) -> (r: Result<Router<H>, RouterError>)
        ensures
            r is Ok <==> (spec_stored_route(HttpMethod::TRACE, path@) matches Ok(rv) && (forall|
                k: int,
            |
                0 <= k < route_views(&self).len() ==> !StoredRoute::spec_conflicts(
                    rv,
                    #[trigger] route_views(&self)[k],
                ))),
            r matches Ok(rt) ==> route_views(&rt) == route_views(&self).push(
                spec_stored_route(HttpMethod::TRACE, path@)->Ok_0,
            ) && rt.catcher_routes == self.catcher_routes && rt.file_server == self.file_server && (
            self.wf() ==> rt.wf()),
    {
        let mut rt = self;
        match rt.add_route(HttpMethod::TRACE, path, callback) {
            Ok(_) => Ok(rt),
            Err(e) => Err(e),
        }
    }

    /// Registers a handler for a `PATCH` route, chainably.
    pub fn patch(self, path: &str, callback: H) -> (r: Result<Router<H>, RouterError>)
        ensures
            r is Ok <==> (spec_stored_route(HttpMethod::PATCH, path@) matches Ok(rv) && (forall|
                k: int,
            |
                0 <= k < route_views(&self).len() ==> !StoredRoute::spec_conflicts(
                    rv,
                    #[trigger] route_views(&self)[k],
                ))),
            r matches Ok(rt) ==> route_views(&rt) == route_views(&self).push(
                spec_stored_route(HttpMethod::PATCH, path@)->Ok_0,
            ) && rt.catcher_routes == self.catcher_routes && rt.file_server == self.file_server && (
            self.wf() ==> rt.wf()),
    {
        let mut rt = self;
        match rt.add_route(HttpMethod::PATCH, path, callback) {
            Ok(_) => Ok(rt),
            Err(e) => Err(e),
        }
    }

    /// Registers a per-method catch-all handler, chainably.
    pub fn catch_all(self, method: HttpMethod, callback: H) -> (r: Result<Router<H>, RouterError>)
        ensures
            r is Ok <==> !has_catcher(&self, method),
            r matches Ok(rt) ==> catcher_methods(&rt) == catcher_methods(&self).push(method)
                && rt.routes == self.routes && rt.file_server == self.file_server && (self.wf()
                ==> rt.wf()),
            r matches Err(e) ==> e == RouterError::DuplicateCatcher,
    {
        let mut rt = self;
        match rt.add_catcher_route(method, callback) {
            Ok(_) => Ok(rt),
            Err(e) => Err(e),
        }
    }

    fn find_matching_route(&self, method: HttpMethod, parts: &Vec<String>) -> (r: Result<
        Option<usize>,
        RouterError,
    >)
        ensures
            ({
                let rvs = route_views(self);
                let rp = parts@.map_values(|x: String| x@);
                &&& (r == Ok::<Option<usize>, RouterError>(None) ==> forall|j: int|
                    0 <= j < rvs.len() ==> !is_match(rvs, j, method, rp))
                &&& (r matches Ok(o) ==> (o matches Some(i) ==> 0 <= i < rvs.len() && is_match(
                    rvs,
                    i as int,
                    method,
                    rp,
                ) && forall|j: int|
                    0 <= j < rvs.len() && j != i ==> !is_match(rvs, j, method, rp)))
                &&& (r is Err <==> exists|i: int, j: int|
                    0 <= i < j < rvs.len() && is_match(rvs, i, method, rp) && is_match(
                        rvs,
                        j,
                        method,
                        rp,
                    ))
                &&& (r matches Err(e) ==> e == RouterError::AmbiguousMatch)
            }),
    {
        let ghost rvs = route_views(self);
        let ghost rp = parts@.map_values(|x: String| x@);
        let n = self.routes.len();
        let mut found: Option<usize> = None;
        let mut k: usize = 0;
        while k < n
            invariant
                k <= n,
                n == self.routes@.len(),
                rvs == route_views(self),
                rp == parts@.map_values(|x: String| x@),
                match found {
                    Some(i) => 0 <= i < k && is_match(rvs, i as int, method, rp) && (forall|j: int|
                        0 <= j < k && j != i ==> !is_match(rvs, j, method, rp)),
                    None => forall|j: int| 0 <= j < k ==> !is_match(rvs, j, method, rp),
                },
            decreases n - k,
        {
            let candidate = &self.routes[k].0;
            proof {
                assert(rvs[k as int] == self.routes@[k as int].0@);
            }
            if candidate.method == method && candidate.matches_request(parts) {
                match found {
                    Some(i) => {
                        proof {
                            assert(is_match(rvs, i as int, method, rp) && is_match(
                                rvs,
                                k as int,
                                method,
                                rp,
                            ));
                            assert(0 <= (i as int) && (i as int) < (k as int) && (k as int) < rvs.len());
                            assert(exists|a: int, b: int|
                                0 <= a < b < rvs.len() && is_match(rvs, a, method, rp)
                                    && is_match(rvs, b, method, rp));
                        }
                        return Err(RouterError::AmbiguousMatch);
                    },
                    None => {
                        found = Some(k);
                    },
                }
            }
            k = k + 1;
        }
        proof {
            if exists|i: int, j: int|
                0 <= i < j < rvs.len() && is_match(rvs, i, method, rp) && is_match(
                    rvs,
                    j,
                    method,
                    rp,
                ) {
                let (wi, wj) = choose|i: int, j: int|
                    0 <= i < j < rvs.len() && is_match(rvs, i, method, rp) && is_match(
                        rvs,
                        j,
                        method,
                        rp,
                    );
                match found {
                    Some(i) => {
                        assert(!(wi == i as int && wj == i as int));
                        assert(false);
                    },
                    None => {
                        assert(!is_match(rvs, wi, method, rp));
                        assert(false);
                    },
                }
            }
        }
        Ok(found)
    }

    /// Answers a request, trying the stages in priority order: the one
    /// matching route's handler decides; with no match, a file the file
    /// server resolves is handed back for serving; then a catch-all for the
    /// method; and with nothing left, the not-found outcome. Two matching
    /// routes are an ambiguity error, a failing handler's message is passed
    /// through, and no other error arises.
    pub fn handle_request(&self, request: &HttpRequest) -> (r: Result<RouterOutcome, RouterError>)
        ensures
            ({
                let rvs = route_views(self);
                let rp = spec_split(spec_trim_char(request.url@, '/'), '/');
                // Two matching routes are exactly the ambiguity error.
                &&& (r == Err::<RouterOutcome, RouterError>(RouterError::AmbiguousMatch) <==> exists|
                    i: int,
                    j: int,
                |
                    0 <= i < j < rvs.len() && is_match(rvs, i, request.method, rp) && is_match(
                        rvs,
                        j,
                        request.method,
                        rp,
                    ))
                // No error but ambiguity and a handler's own failure escapes.
                &&& (r matches Err(e) ==> e == RouterError::AmbiguousMatch || e is Handler)
                // A handler failure comes only from a dispatched stage.
                &&& (r matches Err(e) ==> (e is Handler ==> (exists|i: int|
                    0 <= i < rvs.len() && is_match(rvs, i, request.method, rp)) || has_catcher(
                    self,
                    request.method,
                )))
                // The one matching route is dispatched: its handler answers
                // or its failure is passed through.
                &&& ((exists|i: int| 0 <= i < rvs.len() && is_match(rvs, i, request.method, rp))
                    && !(exists|i: int, j: int|
                    0 <= i < j < rvs.len() && is_match(rvs, i, request.method, rp) && is_match(
                        rvs,
                        j,
                        request.method,
                        rp,
                    )) ==> (r matches Ok(o) && o matches RouterOutcome::Response(_)) || (
                r matches Err(e) && e is Handler))
                // A served file is only ever the resolver's answer, and only
                // when no route matched.
                &&& (r matches Ok(o) ==> (o matches RouterOutcome::File(p) ==> (forall|j: int|
                    0 <= j < rvs.len() ==> !is_match(rvs, j, request.method, rp)) && (
                self.file_server matches Some(fs) && spec_resolve(
                    mounts_of(&fs),
                    spec_trim_char(request.url@, '/'),
                ) == Ok::<Seq<char>, crate::file_server::FileError>(p@))))
                // The not-found outcome arises only with nothing to dispatch.
                &&& (r == Ok::<RouterOutcome, RouterError>(RouterOutcome::NotFound) ==> (forall|
                    j: int,
                |
                    0 <= j < rvs.len() ==> !is_match(rvs, j, request.method, rp)) && !has_catcher(
                    self,
                    request.method,
                ))
                // A response comes only from a matched route or a catch-all.
                &&& (r matches Ok(o) ==> (o matches RouterOutcome::Response(_) ==> (exists|i: int|
                    0 <= i < rvs.len() && is_match(rvs, i, request.method, rp)) || has_catcher(
                    self,
                    request.method,
                )))
                // With nothing to dispatch and no file server, not-found is
                // the outcome.
                &&& ((forall|j: int| 0 <= j < rvs.len() ==> !is_match(rvs, j, request.method, rp))
                    && !has_catcher(self, request.method) && self.file_server is None ==> r == Ok::<
                    RouterOutcome,
                    RouterError,
                >(RouterOutcome::NotFound))
                // With nothing to dispatch but a file server, either the
                // resolved file is served or the outcome is not-found (the
                // disk has the last word on an existing regular file).
                &&& ((forall|j: int| 0 <= j < rvs.len() ==> !is_match(rvs, j, request.method, rp))
                    && !has_catcher(self, request.method) && self.file_server is Some ==> r == Ok::<
                    RouterOutcome,
                    RouterError,
                >(RouterOutcome::NotFound) || (r matches Ok(o) && o matches RouterOutcome::File(p)
                    && spec_resolve(
                    mounts_of(&self.file_server->Some_0),
                    spec_trim_char(request.url@, '/'),
                ) == Ok::<Seq<char>, crate::file_server::FileError>(p@)))
                // With no match and a catch-all, the catch-all is dispatched
                // whenever the file stage cannot possibly serve.
                &&& ((forall|j: int| 0 <= j < rvs.len() ==> !is_match(rvs, j, request.method, rp))
                    && has_catcher(self, request.method) && (self.file_server is None
                    || spec_resolve(
                    mounts_of(&self.file_server->Some_0),
                    spec_trim_char(request.url@, '/'),
                ) is Err) ==> (r matches Ok(o) && o matches RouterOutcome::Response(_)) || (
                r matches Err(e) && e is Handler))
            }),
    {
        let route = RequestRoute::new(request.method, request.url.as_str());
        let parts = split_str(route.path.as_str(), '/');
        let ghost rp = spec_split(spec_trim_char(request.url@, '/'), '/');
        proof {
            assert(parts@.map_values(|x: String| x@) == rp);
        }
        match self.find_matching_route(request.method, &parts) {
            Err(e) => {
                proof {
                    let rvs = route_views(self);
                    let (a, b) = choose|a: int, b: int|
                        0 <= a < b < rvs.len() && is_match(rvs, a, request.method, rp) && is_match(
                            rvs,
                            b,
                            request.method,
                            rp,
                        );
                    assert(is_match(rvs, a, request.method, rp));
                }
                Err(e)
            },
            Ok(Some(i)) => {
                proof {
                    let rvs = route_views(self);
                    if exists|a: int, b: int|
                        0 <= a < b < rvs.len() && is_match(rvs, a, request.method, rp)
                            && is_match(rvs, b, request.method, rp) {
                        let (a, b) = choose|a: int, b: int|
                            0 <= a < b < rvs.len() && is_match(rvs, a, request.method, rp)
                                && is_match(rvs, b, request.method, rp);
                        assert(a != i as int || b != i as int);
                        assert(false);
                    }
                }
                let routing_data = match self.routes[i].0.extract_routing_data(
                    request.url.as_str(),
                ) {
                    Ok(rd) => rd,
                    Err(_) => {
                        proof {
                            assert(false);
                        }
                        unreached()
                    },
                };
                proof {
                    assert(is_match(route_views(self), i as int, request.method, rp));
                }
                match self.routes[i].1.call(request, &routing_data) {
                    Ok(resp) => Ok(RouterOutcome::Response(resp)),
                    Err(msg) => Err(RouterError::Handler(msg)),
                }
            },
            Ok(None) => {
                proof {
                    let rvs = route_views(self);
                    if exists|a: int, b: int|
                        0 <= a < b < rvs.len() && is_match(rvs, a, request.method, rp)
                            && is_match(rvs, b, request.method, rp) {
                        let (a, b) = choose|a: int, b: int|
                            0 <= a < b < rvs.len() && is_match(rvs, a, request.method, rp)
                                && is_match(rvs, b, request.method, rp);
                        assert(!is_match(rvs, a, request.method, rp));
                        assert(false);
                    }
                }
                match &self.file_server {
                    Some(fs) => {
                        match fs.handle_file_access(route.path.as_str()) {
                            Ok(p) => {
                                return Ok(RouterOutcome::File(p));
                            },
                            Err(_) => {},
                        }
                    },
                    None => {},
                }
                let n = self.catcher_routes.len();
                let mut k: usize = 0;
                while k < n
                    invariant
                        k <= n,
                        n == self.catcher_routes@.len(),
                        forall|j: int|
                            0 <= j < k ==> #[trigger] catcher_methods(self)[j] != request.method,
                        forall|j: int|
                            0 <= j < route_views(self).len() ==> !is_match(
                                route_views(self),
                                j,
                                request.method,
                                spec_split(spec_trim_char(request.url@, '/'), '/'),
                            ),
                    decreases n - k,
                {
                    proof {
                        assert(catcher_methods(self)[k as int] == self.catcher_routes@[k as int].0);
                    }
                    if self.catcher_routes[k].0 == request.method {
                        proof {
                            assert(has_catcher(self, request.method));
                        }
                        let rd = RoutingData::new();
                        match self.catcher_routes[k].1.call(request, &rd) {
                            Ok(resp) => {
                                return Ok(RouterOutcome::Response(resp));
                            },
                            Err(msg) => {
                                return Err(RouterError::Handler(msg));
                            },
                        }
                    }
                    k = k + 1;
                }
                proof {
                    if has_catcher(self, request.method) {
                        let w = choose|j: int|
                            0 <= j < catcher_methods(self).len() && catcher_methods(self)[j]
                                == request.method;
                        assert(catcher_methods(self)[w] != request.method);
                        assert(false);
                    }
                }
                Ok(RouterOutcome::NotFound)
            },
        }
    }
}

/// The content type that the lookup table infers for a file path's
/// extension, `application/octet-stream` when it knows none.
pub uninterp spec fn mime_type_of(path: Seq<char>) -> Seq<char>;

/// Relies on `mime_guess::from_path` and `MimeGuess::first_or_octet_stream`:
/// the content type inferred from the path's extension by a fixed lookup
/// table. The result depends on the path alone.
#[verifier::external_body]
fn guess_mime_type(path: &str) -> (r: String)
    ensures
        r@ == mime_type_of(path@),
{
    mime_guess::from_path(path).first_or_octet_stream().as_ref().to_owned()
}

/// Builds the response that serves a resolved file: a `200 OK` whose body is
/// the file's bytes, under the content type inferred from the path.
pub fn file_response(fs_path: &str, content: Vec<u8>) -> (r: HttpResponse)
    ensures
        r.status@ == "200 OK"@,
        r.body@ == content@,
        r.wf(),
        exists|t: int|
            rfc2822_representable(t) && header_views(&r) == sorted_insert_hv(
                with_body_headers(
                    seq![("Date"@, http_date_of(t))],
                    "application/octet-stream"@,
                    content@.len(),
                ),
                ("Content-Type"@, mime_type_of(fs_path@)),
            ),
{
    let mime = guess_mime_type(fs_path);
    let built = HttpResponseBuilder::new().set_raw_body(content).set_content_type(
        mime.as_str(),
    ).build();
    match built {
        Ok(resp) => {
            proof {
                reveal_strlit("200 OK");
            }
            resp
        },
        Err(_) => {
            proof {
                reveal_strlit("200 OK");
                assert("200 OK"@.len() == 6);
                assert(false);
            }
            unreached()
        },
    }
}

} // verus!
