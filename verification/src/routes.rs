//! The route table of the telemetry server: which handler serves a request,
//! by method and percent-decoded path. Each method has a `matchit` router
//! that takes every path as it stands. The built-in routes are inserted
//! before any custom route; on a collision the route inserted first wins.

use vstd::prelude::*;
use vstd::string::StringExecFns;
use vstd::utf8::{decode_utf8, encode_utf8, valid_utf8};
use crate::traceparent::hex_value;

verus! {

/// A method and a path, as values.
pub type RouteKey = (Seq<char>, Seq<char>);

/// `percent_decode`: each `%` followed by two hexadecimal digits becomes the
/// byte they spell; every other byte stays as it is.
pub open spec fn percent_decoded(b: Seq<u8>) -> Seq<u8>
    decreases b.len(),
{
    if b.len() == 0 {
        Seq::empty()
    } else if b[0] == 0x25 && b.len() >= 3 && hex_value(b[1]) is Some && hex_value(b[2]) is Some {
        seq![(hex_value(b[1])->0 * 16 + hex_value(b[2])->0) as u8] + percent_decoded(
            b.subrange(3, b.len() as int),
        )
    } else {
        seq![b[0]] + percent_decoded(b.subrange(1, b.len() as int))
    }
}

/// `percent_decode_str(raw).decode_utf8()` of `percent_encoding`: the
/// percent-decoded bytes of `raw` as text, or `None` when they are not valid
/// UTF-8.
#[verifier::external_body]
fn percent_decode_utf8(raw: &str) -> (r: Option<String>)
    ensures
        r is Some <==> valid_utf8(percent_decoded(encode_utf8(raw@))),
        r matches Some(s) ==> s@ == decode_utf8(percent_decoded(encode_utf8(raw@))),
{
    match percent_encoding::percent_decode_str(raw).decode_utf8() {
        Ok(path) => Some(path.into_owned()),
        Err(_) => None,
    }
}

/// A route that the telemetry server serves by itself.
#[derive(Clone, Copy, Debug, PartialEq, Eq, Structural)]
pub enum BuiltInRoute {
    /// `/health`.
    Health,
    /// `/metrics`.
    Metrics,
    /// `/pprof/heap`.
    PprofHeap,
    /// `/pprof/heap_stats`.
    PprofHeapStats,
    /// `/pprof/symbol`.
    PprofSymbol,
    /// `/debug/traces`.
    DebugTraces,
}

impl BuiltInRoute {
    /// The route's path.
    pub open spec fn spec_path(self) -> Seq<char> {
        match self {
            BuiltInRoute::Health => "/health"@,
            BuiltInRoute::Metrics => "/metrics"@,
            BuiltInRoute::PprofHeap => "/pprof/heap"@,
            BuiltInRoute::PprofHeapStats => "/pprof/heap_stats"@,
            BuiltInRoute::PprofSymbol => "/pprof/symbol"@,
            BuiltInRoute::DebugTraces => "/debug/traces"@,
        }
    }

    /// The route's methods: `GET`, and also `POST` for `/pprof/symbol`.
    pub open spec fn spec_methods(self) -> Seq<Seq<char>> {
        match self {
            BuiltInRoute::PprofSymbol => seq!["GET"@, "POST"@],
            _ => seq!["GET"@],
        }
    }

    /// The content type of the route's successful responses.
    pub open spec fn spec_content_type(self) -> Seq<char> {
        match self {
            BuiltInRoute::Health => "text/plain"@,
            BuiltInRoute::Metrics => "application/openmetrics-text; version=1.0.0; charset=utf-8"@,
            BuiltInRoute::PprofHeap => "application/x-gperftools-profile"@,
            BuiltInRoute::PprofHeapStats => "text/plain; charset=utf-8"@,
            BuiltInRoute::PprofSymbol => "text/plain; charset=utf-8"@,
            BuiltInRoute::DebugTraces => "application/json; charset=utf-8"@,
        }
    }

    /// The route's path.
    pub fn path(self) -> (r: &'static str)
        ensures
            r@ == self.spec_path(),
    {
        match self {
            BuiltInRoute::Health => "/health",
            BuiltInRoute::Metrics => "/metrics",
            BuiltInRoute::PprofHeap => "/pprof/heap",
            BuiltInRoute::PprofHeapStats => "/pprof/heap_stats",
            BuiltInRoute::PprofSymbol => "/pprof/symbol",
            BuiltInRoute::DebugTraces => "/debug/traces",
        }
    }

    /// The route's methods.
    pub fn methods(self) -> (r: Vec<String>)
        ensures
            r@.map_values(|m: String| m@) == self.spec_methods(),
    {
        let mut r: Vec<String> = Vec::new();
        r.push("GET".to_owned());
        if self == BuiltInRoute::PprofSymbol {
            r.push("POST".to_owned());
        }
        assert(r@.map_values(|m: String| m@) =~= self.spec_methods());
        r
    }

    /// The content type of the route's successful responses.
    pub fn content_type(self) -> (r: &'static str)
        ensures
            r@ == self.spec_content_type(),
    {
        match self {
            BuiltInRoute::Health => "text/plain",
            BuiltInRoute::Metrics => "application/openmetrics-text; version=1.0.0; charset=utf-8",
            BuiltInRoute::PprofHeap => "application/x-gperftools-profile",
            BuiltInRoute::PprofHeapStats => "text/plain; charset=utf-8",
            BuiltInRoute::PprofSymbol => "text/plain; charset=utf-8",
            BuiltInRoute::DebugTraces => "application/json; charset=utf-8",
        }
    }
}

/// The features the server was built with, which decide its built-in routes.
#[derive(Clone, Copy, Debug, PartialEq, Eq, Structural)]
pub struct ServerFeatures {
    /// Metrics: `/metrics`.
    pub metrics: bool,
    /// Memory profiling: `/pprof/symbol`, and on Linux the heap routes.
    pub memory_profiling: bool,
    /// Running on Linux.
    pub linux: bool,
    /// Tracing: `/debug/traces`.
    pub tracing: bool,
}

/// The built-in routes of a server with the given features, in the order
/// they are inserted.
pub open spec fn built_in_routes(f: ServerFeatures) -> Seq<BuiltInRoute> {
    seq![BuiltInRoute::Health] + (if f.metrics {
        seq![BuiltInRoute::Metrics]
    } else {
        Seq::empty()
    }) + (if f.memory_profiling && f.linux {
        seq![BuiltInRoute::PprofHeap, BuiltInRoute::PprofHeapStats]
    } else {
        Seq::empty()
    }) + (if f.memory_profiling {
        seq![BuiltInRoute::PprofSymbol]
    } else {
        Seq::empty()
    }) + (if f.tracing {
        seq![BuiltInRoute::DebugTraces]
    } else {
        Seq::empty()
    })
}

/// What serves a route.
#[derive(Clone, Copy, Debug, PartialEq, Eq, Structural)]
pub enum RouteHandler {
    /// A built-in route.
    BuiltIn(BuiltInRoute),
    /// The custom route at this position in the list the server was given.
    Custom(usize),
}

/// A custom route: its path and methods; its handler is known by its
/// position in the list of custom routes.
#[derive(Clone, Debug)]
pub struct RouteSpec {
    pub path: String,
    pub methods: Vec<String>,
}

/// The methods of a route, as values.
pub open spec fn method_views(methods: Seq<String>) -> Seq<Seq<char>> {
    methods.map_values(|m: String| m@)
}

/// `path` with every brace doubled: the form in which the router takes a
/// path as it stands, without parameters.
pub open spec fn escape_braces(path: Seq<char>) -> Seq<char>
    decreases path.len(),
{
    if path.len() == 0 {
        Seq::empty()
    } else if path[0] == '{' || path[0] == '}' {
        seq![path[0], path[0]] + escape_braces(path.drop_first())
    } else {
        seq![path[0]] + escape_braces(path.drop_first())
    }
}

/// The path that the router reads from a route: from the left, a doubled
/// brace stands for one brace.
pub open spec fn unescape_braces(route: Seq<char>) -> Seq<char>
    decreases route.len(),
{
    if route.len() == 0 {
        Seq::empty()
    } else if route.len() >= 2 && (route[0] == '{' || route[0] == '}') && route[1] == route[0] {
        seq![route[0]] + unescape_braces(route.subrange(2, route.len() as int))
    } else {
        seq![route[0]] + unescape_braces(route.drop_first())
    }
}

/// A route without parameters: every brace in it is doubled.
pub open spec fn is_literal_route(route: Seq<char>) -> bool {
    escape_braces(unescape_braces(route)) == route
}

proof fn lemma_unescape_escape(path: Seq<char>)
    ensures
        unescape_braces(escape_braces(path)) == path,
        is_literal_route(escape_braces(path)),
    decreases path.len(),
{
    if path.len() > 0 {
        let rest = path.drop_first();
        lemma_unescape_escape(rest);
        let e = escape_braces(path);
        if path[0] == '{' || path[0] == '}' {
            assert(e.subrange(2, e.len() as int) =~= escape_braces(rest));
        } else {
            assert(e.drop_first() =~= escape_braces(rest));
            assert(unescape_braces(e) =~= seq![path[0]] + unescape_braces(escape_braces(rest)));
        }
        assert(unescape_braces(e) =~= path);
    } else {
        assert(escape_braces(path) =~= path);
    }
}

/// Doubles every brace of `path`.
fn escape_path(path: &String) -> (r: String)
    ensures
        r@ == escape_braces(path@),
{
    let chars = crate::text::chars_of(path.as_str());
    let mut out: Vec<char> = Vec::new();
    let mut i: usize = 0;
    assert(chars@.subrange(0, chars@.len() as int) =~= chars@);
    assert(Seq::<char>::empty() + escape_braces(chars@) =~= escape_braces(chars@));
    while i < chars.len()
        invariant
            chars@ == path@,
            i <= chars@.len(),
            out@ + escape_braces(chars@.subrange(i as int, chars@.len() as int)) == escape_braces(
                chars@,
            ),
        decreases chars@.len() - i,
    {
        let c = chars[i];
        let ghost rest = chars@.subrange(i as int, chars@.len() as int);
        let ghost rest1 = chars@.subrange(i + 1, chars@.len() as int);
        let ghost before = out@;
        proof {
            assert(rest.drop_first() =~= rest1);
            assert(rest[0] == c);
        }
        out.push(c);
        if c == '{' || c == '}' {
            out.push(c);
        }
        proof {
            if c == '{' || c == '}' {
                assert(out@ =~= before + seq![c, c]);
                assert(escape_braces(rest) == seq![c, c] + escape_braces(rest1));
            } else {
                assert(out@ =~= before + seq![c]);
                assert(escape_braces(rest) == seq![c] + escape_braces(rest1));
            }
            assert(out@ + escape_braces(rest1) =~= before + escape_braces(rest));
        }
        i = i + 1;
    }
    assert(chars@.subrange(chars@.len() as int, chars@.len() as int) =~= Seq::<char>::empty());
    assert(out@ + Seq::<char>::empty() =~= out@);
    crate::formatting::string_from_chars(out)
}

#[verifier::external_type_specification]
#[verifier::external_body]
#[verifier::reject_recursive_types(T)]
pub struct ExRouter<T>(matchit::Router<T>);

/// The routes that a router holds: the value of each path, the path read
/// without escapes.
pub uninterp spec fn router_routes(router: matchit::Router<RouteHandler>) -> Map<Seq<char>, RouteHandler>;

/// Whether all the routes a router holds are literal paths, without
/// parameters.
pub uninterp spec fn router_is_literal(router: matchit::Router<RouteHandler>) -> bool;

/// `matchit::Router::new`: a router without routes.
#[verifier::external_body]
fn router_new() -> (created: matchit::Router<RouteHandler>)
    ensures
        router_routes(created).dom() == Set::<Seq<char>>::empty(),
        router_is_literal(created),
{
    matchit::Router::new()
}

/// `matchit::Router::insert` of a literal route into a router of literal
/// routes. The router reads the path `p` of the route, each doubled brace as
/// one brace. A router whose only route is the empty path is rebuilt with
/// the new route alone. Otherwise a path it holds already is refused as a
/// conflict with that path, `p` itself, and the router keeps its routes; a
/// new path is added.
#[verifier::external_body]
fn router_insert(
    router: &mut matchit::Router<RouteHandler>,
    route: String,
    handler: RouteHandler,
) -> (r: Result<(), Option<String>>)
    requires
        router_is_literal(*old(router)),
        is_literal_route(route@),
    ensures
        router_is_literal(*final(router)),
        ({
            let p = unescape_braces(route@);
            let m = router_routes(*old(router));
            if m.dom() == set![Seq::<char>::empty()] {
                &&& r is Ok
                &&& router_routes(*final(router)) == Map::<Seq<char>, RouteHandler>::empty().insert(
                    p,
                    handler,
                )
            } else if m.dom().contains(p) {
                &&& r matches Err(Some(with)) && with@ == p
                &&& router_routes(*final(router)) == m
            } else {
                &&& r is Ok
                &&& router_routes(*final(router)) == m.insert(p, handler)
            }
        }),
{
    match router.insert(route, handler) {
        Ok(()) => Ok(()),
        Err(matchit::InsertError::Conflict { with }) => Err(Some(with)),
        Err(_) => Err(None),
    }
}

/// `matchit::Router::at` on a router of literal routes: the value of the
/// route whose path is `path`, if there is one.
#[verifier::external_body]
fn router_at(router: &matchit::Router<RouteHandler>, path: &str) -> (r: Option<RouteHandler>)
    requires
        router_is_literal(*router),
    ensures
        r == if router_routes(*router).dom().contains(path@) {
            Some(router_routes(*router)[path@])
        } else {
            None
        },
{
    match router.at(path) {
        Ok(matched) => Some(*matched.value),
        Err(_) => None,
    }
}

/// The method's only route is at the empty path.
pub open spec fn only_empty_path(m: Map<RouteKey, RouteHandler>, method: Seq<char>) -> bool {
    &&& m.dom().contains((method, Seq::<char>::empty()))
    &&& forall|p: Seq<char>| #[trigger] m.dom().contains((method, p)) ==> p == Seq::<char>::empty()
}

/// The table after adding a route for `method` at `path`, as the router of
/// the method does it: a method whose only route is at the empty path gets
/// the new route in its place; a method and path that have a route already
/// keep it, the first route inserted winning; otherwise the route is added.
pub open spec fn add_method_route(
    m: Map<RouteKey, RouteHandler>,
    method: Seq<char>,
    path: Seq<char>,
    handler: RouteHandler,
) -> Map<RouteKey, RouteHandler> {
    if only_empty_path(m, method) {
        m.remove((method, Seq::<char>::empty())).insert((method, path), handler)
    } else if m.dom().contains((method, path)) {
        m
    } else {
        m.insert((method, path), handler)
    }
}

/// The table after adding a route for each of `methods` at `path`, in order.
pub open spec fn add_route(
    m: Map<RouteKey, RouteHandler>,
    methods: Seq<Seq<char>>,
    path: Seq<char>,
    handler: RouteHandler,
) -> Map<RouteKey, RouteHandler>
    decreases methods.len(),
{
    if methods.len() == 0 {
        m
    } else {
        add_method_route(add_route(m, methods.drop_last(), path, handler), methods.last(), path, handler)
    }
}

/// The table after adding the built-in routes `routes`, in order.
pub open spec fn add_built_ins(m: Map<RouteKey, RouteHandler>, routes: Seq<BuiltInRoute>) -> Map<
    RouteKey,
    RouteHandler,
>
    decreases routes.len(),
{
    if routes.len() == 0 {
        m
    } else {
        let r = routes.last();
        add_route(
            add_built_ins(m, routes.drop_last()),
            r.spec_methods(),
            r.spec_path(),
            RouteHandler::BuiltIn(r),
        )
    }
}

/// The table after adding the custom routes `routes`, in order, each served
/// by its position.
pub open spec fn add_customs(m: Map<RouteKey, RouteHandler>, routes: Seq<RouteSpec>) -> Map<
    RouteKey,
    RouteHandler,
>
    decreases routes.len(),
{
    if routes.len() == 0 {
        m
    } else {
        let r = routes.last();
        add_route(
            add_customs(m, routes.drop_last()),
            method_views(r.methods@),
            r.path@,
            RouteHandler::Custom((routes.len() - 1) as usize),
        )
    }
}

/// The table of the built-in routes of a server with the given features.
pub open spec fn built_in_table(features: ServerFeatures) -> Map<RouteKey, RouteHandler> {
    add_built_ins(Map::empty(), built_in_routes(features))
}

/// The table of a server with the given features and custom routes.
pub open spec fn route_table(features: ServerFeatures, custom: Seq<RouteSpec>) -> Map<
    RouteKey,
    RouteHandler,
> {
    add_customs(built_in_table(features), custom)
}

/// A route that a router refuses: the route as given to the router and the
/// other route it conflicts with.
#[derive(Clone, Debug)]
pub struct RouteConflict {
    pub route: String,
    pub with: String,
}

impl RouteConflict {
    /// The error's message.
    pub fn message(&self) -> (r: String)
        ensures
            r@ == "tried to insert route `"@ + self.route@
                + "`, but Insertion failed due to conflict with previously registered route: "@
                + self.with@,
    {
        let mut s = "tried to insert route `".to_owned();
        s.append(self.route.as_str());
        s.append("`, but Insertion failed due to conflict with previously registered route: ");
        s.append(self.with.as_str());
        s
    }
}

/// The router of one method.
struct MethodRouter {
    method: String,
    router: matchit::Router<RouteHandler>,
}

/// The routes of the telemetry server: a router for each method.
pub struct Routes {
    routers: Vec<MethodRouter>,
}

/// The index of a router with the given method and path.
spec fn serves(rs: Seq<MethodRouter>, k: RouteKey, i: int) -> bool {
    &&& 0 <= i < rs.len()
    &&& rs[i].method@ == k.0
    &&& router_routes(rs[i].router).dom().contains(k.1)
}

/// The table that the routers make.
spec fn routers_table(rs: Seq<MethodRouter>) -> Map<RouteKey, RouteHandler> {
    Map::new(
        |k: RouteKey| exists|i: int| serves(rs, k, i),
        |k: RouteKey| router_routes(rs[choose|i: int| serves(rs, k, i)].router)[k.1],
    )
}

spec fn methods_unique(rs: Seq<MethodRouter>) -> bool {
    forall|i: int, j: int|
        0 <= i < rs.len() && 0 <= j < rs.len() && i != j ==> #[trigger] rs[i].method@
            != #[trigger] rs[j].method@
}

spec fn routers_literal(rs: Seq<MethodRouter>) -> bool {
    forall|i: int| 0 <= i < rs.len() ==> router_is_literal(#[trigger] rs[i].router)
}

impl View for Routes {
    type V = Map<RouteKey, RouteHandler>;

    closed spec fn view(&self) -> Map<RouteKey, RouteHandler> {
        routers_table(self.routers@)
    }
}

/// The routes a router at index `i` serves make the table's entries of its
/// method.
proof fn lemma_routers_table_at(rs: Seq<MethodRouter>, i: int, p: Seq<char>)
    requires
        methods_unique(rs),
        0 <= i < rs.len(),
    ensures
        routers_table(rs).dom().contains((rs[i].method@, p)) == router_routes(
            rs[i].router,
        ).dom().contains(p),
        router_routes(rs[i].router).dom().contains(p) ==> routers_table(rs)[(rs[i].method@, p)]
            == router_routes(rs[i].router)[p],
{
    let k = (rs[i].method@, p);
    if routers_table(rs).dom().contains(k) {
        let j = choose|j: int| serves(rs, k, j);
        assert(serves(rs, k, j));
        assert(j == i);
    }
    if router_routes(rs[i].router).dom().contains(p) {
        assert(serves(rs, k, i));
        let j = choose|j: int| serves(rs, k, j);
        assert(j == i);
    }
}

/// A method without a router has no entry in the table.
proof fn lemma_routers_table_absent(rs: Seq<MethodRouter>, method: Seq<char>, p: Seq<char>)
    requires
        forall|i: int| 0 <= i < rs.len() ==> (#[trigger] rs[i]).method@ != method,
    ensures
        !routers_table(rs).dom().contains((method, p)),
{
    if routers_table(rs).dom().contains((method, p)) {
        let j = choose|j: int| serves(rs, (method, p), j);
        assert(rs[j].method@ != method);
    }
}

/// Replacing the router at `i` with one of the same method leaves the
/// entries of every other method.
proof fn lemma_routers_table_other(
    rs: Seq<MethodRouter>,
    i: int,
    e: MethodRouter,
    k: RouteKey,
)
    requires
        methods_unique(rs),
        0 <= i < rs.len(),
        e.method@ == rs[i].method@,
        k.0 != rs[i].method@,
    ensures
        routers_table(rs.update(i, e)).dom().contains(k) == routers_table(rs).dom().contains(k),
        routers_table(rs).dom().contains(k) ==> routers_table(rs.update(i, e))[k]
            == routers_table(rs)[k],
{
    let rs2 = rs.update(i, e);
    if routers_table(rs).dom().contains(k) {
        let j = choose|j: int| serves(rs, k, j);
        assert(serves(rs, k, j));
        assert(j != i);
        assert(serves(rs2, k, j));
        let j2 = choose|j: int| serves(rs2, k, j);
        assert(serves(rs2, k, j2));
        if j2 != j {
            assert(rs2[j2].method@ == rs2[j].method@);
            assert(rs[j2].method@ == rs[j].method@);
        }
    }
    if routers_table(rs2).dom().contains(k) {
        let j = choose|j: int| serves(rs2, k, j);
        assert(serves(rs2, k, j));
        assert(j != i);
        assert(serves(rs, k, j));
    }
}

/// Adding a router of a new method leaves the entries of every other method.
proof fn lemma_routers_table_push(rs: Seq<MethodRouter>, e: MethodRouter, k: RouteKey)
    requires
        methods_unique(rs),
        forall|i: int| 0 <= i < rs.len() ==> (#[trigger] rs[i]).method@ != e.method@,
        k.0 != e.method@,
    ensures
        routers_table(rs.push(e)).dom().contains(k) == routers_table(rs).dom().contains(k),
        routers_table(rs).dom().contains(k) ==> routers_table(rs.push(e))[k] == routers_table(rs)[k],
{
    let rs2 = rs.push(e);
    if routers_table(rs).dom().contains(k) {
        let j = choose|j: int| serves(rs, k, j);
        assert(serves(rs, k, j));
        assert(serves(rs2, k, j));
        let j2 = choose|j: int| serves(rs2, k, j);
        assert(serves(rs2, k, j2));
        if j2 != j {
            assert(j2 < rs.len());
            assert(rs[j2].method@ == rs[j].method@);
        }
    }
    if routers_table(rs2).dom().contains(k) {
        let j = choose|j: int| serves(rs2, k, j);
        assert(serves(rs2, k, j));
        assert(j < rs.len());
        assert(serves(rs, k, j));
    }
}

fn same_text(a: &str, b: &str) -> (r: bool)
    ensures
        r == (a@ == b@),
{
    a.to_owned() == b.to_owned()
}

impl Routes {
    #[verifier::type_invariant]
    spec fn well_formed(self) -> bool {
        &&& methods_unique(self.routers@)
        &&& routers_literal(self.routers@)
    }

    /// No router.
    fn empty() -> (r: Self)
        ensures
            r@ == Map::<RouteKey, RouteHandler>::empty(),
    {
        let r = Routes { routers: Vec::new() };
        assert(r@ =~= Map::<RouteKey, RouteHandler>::empty());
        r
    }

    /// The index of the router of `method`, if there is one.
    fn router_index(&self, method: &str) -> (r: Option<usize>)
        ensures
            match r {
                Some(i) => i < self.routers@.len() && self.routers@[i as int].method@ == method@,
                None => forall|i: int|
                    0 <= i < self.routers@.len() ==> (#[trigger] self.routers@[i]).method@
                        != method@,
            },
    {
        let mut i: usize = 0;
        while i < self.routers.len()
            invariant
                i <= self.routers@.len(),
                forall|j: int| 0 <= j < i ==> (#[trigger] self.routers@[j]).method@ != method@,
            decreases self.routers@.len() - i,
        {
            if same_text(self.routers[i].method.as_str(), method) {
                return Some(i);
            }
            i = i + 1;
        }
        None
    }

    /// The handler of a method and path, if there is one.
    pub fn handler(&self, method: &str, path: &str) -> (r: Option<RouteHandler>)
        ensures
            r == if self@.dom().contains((method@, path@)) {
                Some(self@[(method@, path@)])
            } else {
                None
            },
    {
        proof {
            use_type_invariant(self);
        }
        match self.router_index(method) {
            Some(i) => {
                proof {
                    lemma_routers_table_at(self.routers@, i as int, path@);
                }
                router_at(&self.routers[i].router, path)
            },
            None => {
                proof {
                    lemma_routers_table_absent(self.routers@, method@, path@);
                }
                None
            },
        }
    }

    /// Adds a route for `method` at the path that the literal route `route`
    /// stands for, in the router of the method.
    fn insert_route(&mut self, method: &String, route: &String, handler: RouteHandler) -> (r: Result<
        (),
        Option<String>,
    >)
        requires
            is_literal_route(route@),
        ensures
            ({
                let p = unescape_braces(route@);
                let m = old(self)@;
                if only_empty_path(m, method@) {
                    r is Ok && final(self)@ == m.remove((method@, Seq::<char>::empty())).insert(
                        (method@, p),
                        handler,
                    )
                } else if m.dom().contains((method@, p)) {
                    r matches Err(Some(with)) && with@ == p && final(self)@ == m
                } else {
                    r is Ok && final(self)@ == m.insert((method@, p), handler)
                }
            }),
    {
        proof {
            use_type_invariant(&*self);
        }
        let ghost p = unescape_braces(route@);
        let ghost m = self@;
        let ghost rs = self.routers@;
        let found = self.router_index(method.as_str());
        let mut routers: Vec<MethodRouter> = Vec::new();
        std::mem::swap(&mut routers, &mut self.routers);
        assert(routers@ == rs);
        match found {
            Some(i) => {
                let mut entry = routers.remove(i);
                let ghost before = router_routes(entry.router);
                proof {
                    assert(entry == rs[i as int]);
                    assert forall|q: Seq<char>|
                        #![trigger before.dom().contains(q)]
                        m.dom().contains((method@, q)) == before.dom().contains(q) by {
                        lemma_routers_table_at(rs, i as int, q);
                    }
                }
                let r = router_insert(&mut entry.router, route.clone(), handler);
                let ghost after = router_routes(entry.router);
                routers.insert(i, entry);
                proof {
                    let rs2 = routers@;
                    assert(rs2 =~= rs.update(i as int, entry));
                    assert(methods_unique(rs2)) by {
                        assert forall|a: int, b: int|
                            0 <= a < rs2.len() && 0 <= b < rs2.len() && a != b implies #[trigger] rs2[a].method@
                            != #[trigger] rs2[b].method@ by {
                            assert(rs[a].method@ != rs[b].method@);
                        }
                    }
                    let expected = if only_empty_path(m, method@) {
                        m.remove((method@, Seq::<char>::empty())).insert((method@, p), handler)
                    } else if m.dom().contains((method@, p)) {
                        m
                    } else {
                        m.insert((method@, p), handler)
                    };
                    if before.dom() == set![Seq::<char>::empty()] {
                        assert(only_empty_path(m, method@)) by {
                            assert(before.dom().contains(Seq::<char>::empty()));
                            assert forall|q: Seq<char>| #[trigger]
                                m.dom().contains((method@, q)) implies q == Seq::<char>::empty() by {
                                assert(before.dom().contains(q));
                            }
                        }
                    } else if only_empty_path(m, method@) {
                        assert(before.dom() =~= set![Seq::<char>::empty()]) by {
                            assert forall|q: Seq<char>| before.dom().contains(q) implies q
                                == Seq::<char>::empty() by {
                                assert(m.dom().contains((method@, q)));
                            }
                        }
                    }
                    assert forall|k: RouteKey| #[trigger]
                        routers_table(rs2).dom().contains(k) == expected.dom().contains(k) by {
                        if k.0 == method@ {
                            lemma_routers_table_at(rs2, i as int, k.1);
                            lemma_routers_table_at(rs, i as int, k.1);
                        } else {
                            lemma_routers_table_other(rs, i as int, entry, k);
                        }
                    }
                    assert forall|k: RouteKey| #[trigger]
                        routers_table(rs2).dom().contains(k) implies routers_table(rs2)[k]
                        == expected[k] by {
                        if k.0 == method@ {
                            lemma_routers_table_at(rs2, i as int, k.1);
                            lemma_routers_table_at(rs, i as int, k.1);
                        } else {
                            lemma_routers_table_other(rs, i as int, entry, k);
                        }
                    }
                    assert(routers_table(rs2) =~= expected);
                    assert(routers_literal(rs2));
                }
                self.routers = routers;
                r
            },
            None => {
                let mut router = router_new();
                let r = router_insert(&mut router, route.clone(), handler);
                let entry = MethodRouter { method: method.clone(), router };
                routers.push(entry);
                proof {
                    let rs2 = routers@;
                    assert(rs2 =~= rs.push(entry));
                    assert(Map::<Seq<char>, RouteHandler>::empty().dom() != set![
                        Seq::<char>::empty(),
                    ]) by {
                        assert(set![Seq::<char>::empty()].contains(Seq::<char>::empty()));
                    }
                    assert(!only_empty_path(m, method@)) by {
                        lemma_routers_table_absent(rs, method@, Seq::<char>::empty());
                    }
                    assert(!m.dom().contains((method@, p))) by {
                        lemma_routers_table_absent(rs, method@, p);
                    }
                    assert(methods_unique(rs2)) by {
                        assert forall|a: int, b: int|
                            0 <= a < rs2.len() && 0 <= b < rs2.len() && a != b implies #[trigger] rs2[a].method@
                            != #[trigger] rs2[b].method@ by {
                            if a < rs.len() && b < rs.len() {
                                assert(rs[a].method@ != rs[b].method@);
                            } else if a < rs.len() {
                                assert(rs[a].method@ != method@);
                            } else {
                                assert(rs[b].method@ != method@);
                            }
                        }
                    }
                    let expected = m.insert((method@, p), handler);
                    let last = rs.len() as int;
                    assert forall|k: RouteKey| #[trigger]
                        routers_table(rs2).dom().contains(k) == expected.dom().contains(k) by {
                        if k.0 == method@ {
                            lemma_routers_table_at(rs2, last, k.1);
                            lemma_routers_table_absent(rs, method@, k.1);
                        } else {
                            lemma_routers_table_push(rs, entry, k);
                        }
                    }
                    assert forall|k: RouteKey| #[trigger]
                        routers_table(rs2).dom().contains(k) implies routers_table(rs2)[k]
                        == expected[k] by {
                        if k.0 == method@ {
                            lemma_routers_table_at(rs2, last, k.1);
                        } else {
                            lemma_routers_table_push(rs, entry, k);
                        }
                    }
                    assert(routers_table(rs2) =~= expected);
                    assert(routers_literal(rs2));
                }
                self.routers = routers;
                r
            },
        }
    }

    /// Adds a route for each of `methods` at `path`. A method and path that
    /// have a route already keep it: the router reports the repeated path as
    /// a conflict with itself, which is ignored. A conflict with another route
    /// would be an error, which literal paths never meet.
    fn set(&mut self, path: &String, methods: &Vec<String>, handler: RouteHandler) -> (r: Result<
        (),
        RouteConflict,
    >)
        ensures
            r is Ok,
            final(self)@ == add_route(old(self)@, method_views(methods@), path@, handler),
    {
        let route = escape_path(path);
        proof {
            lemma_unescape_escape(path@);
        }
        let ghost ms = method_views(methods@);
        let ghost start = self@;
        let mut i: usize = 0;
        assert(ms.take(0) =~= Seq::<Seq<char>>::empty());
        while i < methods.len()
            invariant
                i <= methods@.len(),
                ms == method_views(methods@),
                route@ == escape_braces(path@),
                unescape_braces(route@) == path@,
                is_literal_route(route@),
                start == old(self)@,
                add_route(start, ms.take(i as int), path@, handler) == self@,
            decreases methods@.len() - i,
        {
            proof {
                let t = ms.take(i + 1);
                assert(t.drop_last() =~= ms.take(i as int));
                assert(t.last() == methods@[i as int]@);
            }
            match self.insert_route(&methods[i], &route, handler) {
                Ok(()) => {},
                Err(Some(with)) => {
                    if !same_text(with.as_str(), path.as_str()) {
                        return Err(RouteConflict { route, with });
                    }
                },
                Err(None) => {
                    return Err(RouteConflict { route, with: String::new() });
                },
            }
            i = i + 1;
        }
        assert(ms.take(methods@.len() as int) =~= ms);
        Ok(())
    }
}

impl Routes {
    /// The routes of a server with the given features: the built-in routes,
    /// then `custom`, each custom route served by its position in the list.
    /// The routers take every route, all paths being literal, so this never
    /// fails.
    pub fn new(custom: &Vec<RouteSpec>, features: ServerFeatures) -> (r: Result<Self, RouteConflict>)
        ensures
            r matches Ok(routes) && routes@ == route_table(features, custom@),
    {
        let mut routes = Routes::empty();
        let built_ins = built_in_route_list(features);
        let mut i: usize = 0;
        assert(built_ins@.take(0) =~= Seq::<BuiltInRoute>::empty());
        while i < built_ins.len()
            invariant
                i <= built_ins@.len(),
                built_ins@ == built_in_routes(features),
                add_built_ins(Map::empty(), built_ins@.take(i as int)) == routes@,
            decreases built_ins@.len() - i,
        {
            let b = built_ins[i];
            let path = b.path().to_owned();
            let methods = b.methods();
            proof {
                let t = built_ins@.take(i + 1);
                assert(t.drop_last() =~= built_ins@.take(i as int));
                assert(t.last() == b);
                assert(method_views(methods@) == b.spec_methods());
            }
            let taken = routes.set(&path, &methods, RouteHandler::BuiltIn(b));
            assert(taken is Ok);
            i = i + 1;
        }
        assert(built_ins@.take(built_ins@.len() as int) =~= built_ins@);
        let ghost base = routes@;
        assert(base == built_in_table(features));
        let mut i: usize = 0;
        assert(custom@.take(0) =~= Seq::<RouteSpec>::empty());
        while i < custom.len()
            invariant
                i <= custom@.len(),
                base == built_in_table(features),
                add_customs(base, custom@.take(i as int)) == routes@,
            decreases custom@.len() - i,
        {
            let c = &custom[i];
            proof {
                let t = custom@.take(i + 1);
                assert(t.drop_last() =~= custom@.take(i as int));
                assert(t.last() == *c);
            }
            let taken = routes.set(&c.path, &c.methods, RouteHandler::Custom(i));
            assert(taken is Ok);
            i = i + 1;
        }
        assert(custom@.take(custom@.len() as int) =~= custom@);
        Ok(routes)
    }
}

/// No built-in path is empty.
proof fn lemma_built_in_path_plain(b: BuiltInRoute)
    ensures
        b.spec_path().len() > 0,
{
    reveal_strlit("/health");
    reveal_strlit("/metrics");
    reveal_strlit("/pprof/heap");
    reveal_strlit("/pprof/heap_stats");
    reveal_strlit("/pprof/symbol");
    reveal_strlit("/debug/traces");
}

fn built_in_route_list(features: ServerFeatures) -> (r: Vec<BuiltInRoute>)
    ensures
        r@ == built_in_routes(features),
{
    let mut r: Vec<BuiltInRoute> = Vec::new();
    r.push(BuiltInRoute::Health);
    if features.metrics {
        r.push(BuiltInRoute::Metrics);
    }
    if features.memory_profiling && features.linux {
        r.push(BuiltInRoute::PprofHeap);
        r.push(BuiltInRoute::PprofHeapStats);
    }
    if features.memory_profiling {
        r.push(BuiltInRoute::PprofSymbol);
    }
    if features.tracing {
        r.push(BuiltInRoute::DebugTraces);
    }
    assert(r@ =~= built_in_routes(features));
    r
}

/// How the server answers a request.
#[derive(Clone, Copy, Debug, PartialEq, Eq, Structural)]
pub enum RouteOutcome {
    /// 400: the path does not percent-decode to valid UTF-8.
    BadRequest,
    /// 404: no route for the method and path.
    NotFound,
    /// The handler that serves the request.
    Handle(RouteHandler),
}

/// The outcome of a request with the given method and raw (percent-encoded)
/// path: a bad request when the path does not decode to valid UTF-8,
/// otherwise the handler of the method and decoded path, or not found.
pub fn route_request(routes: &Routes, method: &str, raw_path: &str) -> (r: RouteOutcome)
    ensures
        ({
            let decoded = percent_decoded(encode_utf8(raw_path@));
            if !valid_utf8(decoded) {
                r == RouteOutcome::BadRequest
            } else if routes@.dom().contains((method@, decode_utf8(decoded))) {
                r == RouteOutcome::Handle(routes@[(method@, decode_utf8(decoded))])
            } else {
                r == RouteOutcome::NotFound
            }
        }),
{
    match percent_decode_utf8(raw_path) {
        None => RouteOutcome::BadRequest,
        Some(path) => match routes.handler(method, path.as_str()) {
            Some(h) => RouteOutcome::Handle(h),
            None => RouteOutcome::NotFound,
        },
    }
}

/// The first route inserted wins: adding routes never changes the handler of
/// a method and path that already had one.

/// One added method route keeps a route whose method has a route at a
/// non-empty path `q`.
proof fn lemma_method_route_keeps(
    m: Map<RouteKey, RouteHandler>,
    method: Seq<char>,
    path: Seq<char>,
    handler: RouteHandler,
    key: RouteKey,
    q: Seq<char>,
)
    requires
        m.dom().contains(key),
        m.dom().contains((key.0, q)),
        q != Seq::<char>::empty(),
    ensures
        add_method_route(m, method, path, handler).dom().contains(key),
        add_method_route(m, method, path, handler)[key] == m[key],
        add_method_route(m, method, path, handler).dom().contains((key.0, q)),
{
    if only_empty_path(m, method) && method == key.0 {
        assert(m.dom().contains((method, q)));
    }
}

/// Adding routes keeps a route whose method has a route at a non-empty path.
proof fn lemma_add_route_keeps(
    m: Map<RouteKey, RouteHandler>,
    methods: Seq<Seq<char>>,
    path: Seq<char>,
    handler: RouteHandler,
    key: RouteKey,
    q: Seq<char>,
)
    requires
        m.dom().contains(key),
        m.dom().contains((key.0, q)),
        q != Seq::<char>::empty(),
    ensures
        add_route(m, methods, path, handler).dom().contains(key),
        add_route(m, methods, path, handler)[key] == m[key],
        add_route(m, methods, path, handler).dom().contains((key.0, q)),
    decreases methods.len(),
{
    if methods.len() > 0 {
        lemma_add_route_keeps(m, methods.drop_last(), path, handler, key, q);
        let m1 = add_route(m, methods.drop_last(), path, handler);
        lemma_method_route_keeps(m1, methods.last(), path, handler, key, q);
    }
}

/// A method with a route at a non-empty path has more than the empty path.
proof fn lemma_non_empty_witness(m: Map<RouteKey, RouteHandler>, key: RouteKey) -> (q: Seq<char>)
    requires
        m.dom().contains(key),
        !only_empty_path(m, key.0),
    ensures
        m.dom().contains((key.0, q)),
        q != Seq::<char>::empty(),
{
    if key.1 != Seq::<char>::empty() {
        assert((key.0, key.1) == key);
        key.1
    } else {
        assert(m.dom().contains((key.0, Seq::<char>::empty())));
        let q = choose|q: Seq<char>| #[trigger]
            m.dom().contains((key.0, q)) && q != Seq::<char>::empty();
        q
    }
}

/// The first route inserted wins: adding routes never
/// changes the handler of a method and path that already had one, unless
/// the empty path is the method's only route.
pub proof fn lemma_first_route_wins(
    m: Map<RouteKey, RouteHandler>,
    methods: Seq<Seq<char>>,
    path: Seq<char>,
    handler: RouteHandler,
    key: RouteKey,
)
    requires
        m.dom().contains(key),
        !only_empty_path(m, key.0),
    ensures
        add_route(m, methods, path, handler).dom().contains(key),
        add_route(m, methods, path, handler)[key] == m[key],
{
    let q = lemma_non_empty_witness(m, key);
    lemma_add_route_keeps(m, methods, path, handler, key, q);
}

proof fn lemma_customs_keep(
    m: Map<RouteKey, RouteHandler>,
    routes: Seq<RouteSpec>,
    key: RouteKey,
    q: Seq<char>,
)
    requires
        m.dom().contains(key),
        m.dom().contains((key.0, q)),
        q != Seq::<char>::empty(),
    ensures
        add_customs(m, routes).dom().contains(key),
        add_customs(m, routes)[key] == m[key],
        add_customs(m, routes).dom().contains((key.0, q)),
    decreases routes.len(),
{
    if routes.len() > 0 {
        lemma_customs_keep(m, routes.drop_last(), key, q);
        let r = routes.last();
        lemma_add_route_keeps(
            add_customs(m, routes.drop_last()),
            method_views(r.methods@),
            r.path@,
            RouteHandler::Custom((routes.len() - 1) as usize),
            key,
            q,
        );
    }
}

/// A key that adding routes puts in the table has the added handler.
proof fn lemma_add_route_new_keys(
    m: Map<RouteKey, RouteHandler>,
    methods: Seq<Seq<char>>,
    path: Seq<char>,
    handler: RouteHandler,
    key: RouteKey,
)
    requires
        !m.dom().contains(key),
        add_route(m, methods, path, handler).dom().contains(key),
    ensures
        add_route(m, methods, path, handler)[key] == handler,
    decreases methods.len(),
{
    if methods.len() > 0 {
        let m1 = add_route(m, methods.drop_last(), path, handler);
        if m1.dom().contains(key) {
            lemma_add_route_new_keys(m, methods.drop_last(), path, handler, key);
        }
    }
}

/// Adding routes for `methods` at a non-empty path serves each method there;
/// with the added handler when the table had no route for it.
proof fn lemma_add_route_serves(
    m: Map<RouteKey, RouteHandler>,
    methods: Seq<Seq<char>>,
    path: Seq<char>,
    handler: RouteHandler,
    i: int,
)
    requires
        0 <= i < methods.len(),
        path != Seq::<char>::empty(),
    ensures
        add_route(m, methods, path, handler).dom().contains((methods[i], path)),
        !m.dom().contains((methods[i], path)) ==> add_route(m, methods, path, handler)[(
            methods[i],
            path,
        )] == handler,
    decreases methods.len(),
{
    let key = (methods[i], path);
    let m1 = add_route(m, methods.drop_last(), path, handler);
    if i < methods.len() - 1 {
        lemma_add_route_serves(m, methods.drop_last(), path, handler, i);
        assert(methods.drop_last()[i] == methods[i]);
        lemma_method_route_keeps(m1, methods.last(), path, handler, key, path);
    } else {
        if !m.dom().contains(key) && m1.dom().contains(key) {
            lemma_add_route_new_keys(m, methods.drop_last(), path, handler, key);
        }
    }
}

/// The keys that adding routes puts in the table are at the added path.
proof fn lemma_add_route_keys(
    m: Map<RouteKey, RouteHandler>,
    methods: Seq<Seq<char>>,
    path: Seq<char>,
    handler: RouteHandler,
    key: RouteKey,
)
    requires
        add_route(m, methods, path, handler).dom().contains(key),
    ensures
        m.dom().contains(key) || key.1 == path,
    decreases methods.len(),
{
    if methods.len() > 0 {
        let m1 = add_route(m, methods.drop_last(), path, handler);
        if m1.dom().contains(key) {
            lemma_add_route_keys(m, methods.drop_last(), path, handler, key);
        }
    }
}

proof fn lemma_built_ins_keys(m: Map<RouteKey, RouteHandler>, rs: Seq<BuiltInRoute>, key: RouteKey)
    requires
        add_built_ins(m, rs).dom().contains(key),
    ensures
        m.dom().contains(key) || exists|j: int| 0 <= j < rs.len() && (#[trigger] rs[j]).spec_path() == key.1,
    decreases rs.len(),
{
    if rs.len() > 0 {
        let rest = rs.drop_last();
        let r = rs.last();
        let a = add_built_ins(m, rest);
        lemma_add_route_keys(a, r.spec_methods(), r.spec_path(), RouteHandler::BuiltIn(r), key);
        if a.dom().contains(key) {
            lemma_built_ins_keys(m, rest, key);
            if exists|j: int| 0 <= j < rest.len() && (#[trigger] rest[j]).spec_path() == key.1 {
                let j = choose|j: int| 0 <= j < rest.len() && (#[trigger] rest[j]).spec_path() == key.1;
                assert(rs[j] == rest[j]);
            }
        } else {
            assert(rs[rs.len() - 1] == r);
        }
    }
}

proof fn lemma_built_ins_serve(
    m: Map<RouteKey, RouteHandler>,
    rs: Seq<BuiltInRoute>,
    b: BuiltInRoute,
    i: int,
)
    requires
        rs.contains(b),
        0 <= i < b.spec_methods().len(),
        forall|k: RouteKey| m.dom().contains(k) ==> k.1 != b.spec_path(),
    ensures
        add_built_ins(m, rs).dom().contains((b.spec_methods()[i], b.spec_path())),
        add_built_ins(m, rs)[(b.spec_methods()[i], b.spec_path())] == RouteHandler::BuiltIn(b),
    decreases rs.len(),
{
    lemma_built_in_path_plain(b);
    let rest = rs.drop_last();
    let r = rs.last();
    let a = add_built_ins(m, rest);
    let key = (b.spec_methods()[i], b.spec_path());
    if rest.contains(b) {
        lemma_built_ins_serve(m, rest, b, i);
        lemma_add_route_keeps(a, r.spec_methods(), r.spec_path(), RouteHandler::BuiltIn(r), key, key.1);
    } else {
        let j = choose|j: int| 0 <= j < rs.len() && rs[j] == b;
        if j < rs.len() - 1 {
            assert(rest[j] == b);
        }
        assert(r == b);
        if a.dom().contains(key) {
            lemma_built_ins_keys(m, rest, key);
            let k = choose|k: int| 0 <= k < rest.len() && (#[trigger] rest[k]).spec_path() == key.1;
            lemma_built_in_paths_distinct(rest[k], b);
            assert(rest.contains(b));
        }
        lemma_add_route_serves(a, b.spec_methods(), b.spec_path(), RouteHandler::BuiltIn(b), i);
    }
}

/// Built-in routes win over custom ones: in the table of a server, every
/// method of every built-in route at its path is served by that built-in
/// route, whatever custom routes were given.
pub proof fn lemma_built_in_routes_win(
    features: ServerFeatures,
    custom: Seq<RouteSpec>,
    b: BuiltInRoute,
    i: int,
)
    requires
        built_in_routes(features).contains(b),
        0 <= i < b.spec_methods().len(),
    ensures
        route_table(features, custom).dom().contains((b.spec_methods()[i], b.spec_path())),
        route_table(features, custom)[(b.spec_methods()[i], b.spec_path())]
            == RouteHandler::BuiltIn(b),
{
    let rs = built_in_routes(features);
    let k = (b.spec_methods()[i], b.spec_path());
    lemma_built_ins_serve(Map::empty(), rs, b, i);
    lemma_built_in_path_plain(b);
    lemma_customs_keep(built_in_table(features), custom, k, k.1);
}

proof fn lemma_built_in_paths_distinct(a: BuiltInRoute, b: BuiltInRoute)
    requires
        a.spec_path() == b.spec_path(),
    ensures
        a == b,
{
    reveal_strlit("/health");
    reveal_strlit("/metrics");
    reveal_strlit("/pprof/heap");
    reveal_strlit("/pprof/heap_stats");
    reveal_strlit("/pprof/symbol");
    reveal_strlit("/debug/traces");
    let p = |r: BuiltInRoute| r.spec_path();
    assert(p(a).len() == p(b).len());
    assert(p(a) =~= p(b));
    match a {
        BuiltInRoute::PprofHeap => {
            assert(p(a).len() == 11);
        },
        _ => {},
    }
    if a != b {
        match a {
            BuiltInRoute::Health => assert(p(a)[1] == 'h'),
            BuiltInRoute::Metrics => assert(p(a)[1] == 'm'),
            BuiltInRoute::PprofHeap => assert(p(a).len() == 11),
            BuiltInRoute::PprofHeapStats => assert(p(a).len() == 17),
            BuiltInRoute::PprofSymbol => assert(p(a).len() == 13),
            BuiltInRoute::DebugTraces => assert(p(a)[1] == 'd'),
        }
        match b {
            BuiltInRoute::Health => assert(p(b)[1] == 'h'),
            BuiltInRoute::Metrics => assert(p(b)[1] == 'm'),
            BuiltInRoute::PprofHeap => assert(p(b).len() == 11),
            BuiltInRoute::PprofHeapStats => assert(p(b).len() == 17),
            BuiltInRoute::PprofSymbol => assert(p(b).len() == 13),
            BuiltInRoute::DebugTraces => assert(p(b)[1] == 'd'),
        }
    }
}


/// Each built-in route is present exactly under its feature: `/health`
/// always, `/metrics` with metrics, `/pprof/heap` and `/pprof/heap_stats`
/// with memory profiling on Linux, `/pprof/symbol` with memory profiling, and
/// `/debug/traces` with tracing.
pub proof fn lemma_built_in_routes_follow_features(f: ServerFeatures)
    ensures
        built_in_routes(f).contains(BuiltInRoute::Health),
        built_in_routes(f).contains(BuiltInRoute::Metrics) <==> f.metrics,
        built_in_routes(f).contains(BuiltInRoute::PprofHeap) <==> f.memory_profiling && f.linux,
        built_in_routes(f).contains(BuiltInRoute::PprofHeapStats) <==> f.memory_profiling && f.linux,
        built_in_routes(f).contains(BuiltInRoute::PprofSymbol) <==> f.memory_profiling,
        built_in_routes(f).contains(BuiltInRoute::DebugTraces) <==> f.tracing,
{
    let rs = built_in_routes(f);
    let a: Seq<BuiltInRoute> = seq![BuiltInRoute::Health];
    let b: Seq<BuiltInRoute> = if f.metrics { seq![BuiltInRoute::Metrics] } else { Seq::empty() };
    let c: Seq<BuiltInRoute> = if f.memory_profiling && f.linux {
        seq![BuiltInRoute::PprofHeap, BuiltInRoute::PprofHeapStats]
    } else {
        Seq::empty()
    };
    let d: Seq<BuiltInRoute> = if f.memory_profiling { seq![BuiltInRoute::PprofSymbol] } else { Seq::empty() };
    let e: Seq<BuiltInRoute> = if f.tracing { seq![BuiltInRoute::DebugTraces] } else { Seq::empty() };
    assert(rs == a + b + c + d + e);
    assert forall|r: BuiltInRoute| rs.contains(r) <==> (a.contains(r) || b.contains(r) || c.contains(r)
        || d.contains(r) || e.contains(r)) by {
        if rs.contains(r) {
            let i = choose|i: int| 0 <= i < rs.len() && rs[i] == r;
            let n1 = a.len() as int;
            let n2 = n1 + b.len();
            let n3 = n2 + c.len();
            let n4 = n3 + d.len();
            if i < n1 {
                assert(a[i] == r);
            } else if i < n2 {
                assert(b[i - n1] == r);
            } else if i < n3 {
                assert(c[i - n2] == r);
            } else if i < n4 {
                assert(d[i - n3] == r);
            } else {
                assert(e[i - n4] == r);
            }
        } else {
            let n1 = a.len() as int;
            let n2 = n1 + b.len();
            let n3 = n2 + c.len();
            let n4 = n3 + d.len();
            if a.contains(r) {
                let i = choose|i: int| 0 <= i < a.len() && a[i] == r;
                assert(rs[i] == r);
            }
            if b.contains(r) {
                let i = choose|i: int| 0 <= i < b.len() && b[i] == r;
                assert(rs[n1 + i] == r);
            }
            if c.contains(r) {
                let i = choose|i: int| 0 <= i < c.len() && c[i] == r;
                assert(rs[n2 + i] == r);
            }
            if d.contains(r) {
                let i = choose|i: int| 0 <= i < d.len() && d[i] == r;
                assert(rs[n3 + i] == r);
            }
            if e.contains(r) {
                let i = choose|i: int| 0 <= i < e.len() && e[i] == r;
                assert(rs[n4 + i] == r);
            }
        }
    }
    assert(a[0] == BuiltInRoute::Health);
    if f.metrics {
        assert(b[0] == BuiltInRoute::Metrics);
    }
    if f.memory_profiling && f.linux {
        assert(c[0] == BuiltInRoute::PprofHeap);
        assert(c[1] == BuiltInRoute::PprofHeapStats);
    }
    if f.memory_profiling {
        assert(d[0] == BuiltInRoute::PprofSymbol);
    }
    if f.tracing {
        assert(e[0] == BuiltInRoute::DebugTraces);
    }
}

/// The heap profile is served on Linux with memory profiling, whatever custom
/// routes a server has: `GET /pprof/heap` goes to the heap profile and
/// `GET /pprof/heap_stats` to the heap statistics; without those features
/// the built-in table has no route at either path.
pub proof fn lemma_heap_routes_served(f: ServerFeatures, custom: Seq<RouteSpec>)
    ensures
        f.memory_profiling && f.linux ==> {
            &&& route_table(f, custom).dom().contains(("GET"@, "/pprof/heap"@))
            &&& route_table(f, custom)[("GET"@, "/pprof/heap"@)] == RouteHandler::BuiltIn(
                BuiltInRoute::PprofHeap,
            )
            &&& route_table(f, custom).dom().contains(("GET"@, "/pprof/heap_stats"@))
            &&& route_table(f, custom)[("GET"@, "/pprof/heap_stats"@)] == RouteHandler::BuiltIn(
                BuiltInRoute::PprofHeapStats,
            )
        },
        !(f.memory_profiling && f.linux) ==> forall|m: Seq<char>|
            !built_in_table(f).dom().contains((m, "/pprof/heap"@)) && !built_in_table(
                f,
            ).dom().contains((m, "/pprof/heap_stats"@)),
{
    lemma_built_in_routes_follow_features(f);
    if f.memory_profiling && f.linux {
        lemma_built_in_routes_win(f, custom, BuiltInRoute::PprofHeap, 0);
        lemma_built_in_routes_win(f, custom, BuiltInRoute::PprofHeapStats, 0);
    } else {
        let rs = built_in_routes(f);
        assert forall|m: Seq<char>|
            !built_in_table(f).dom().contains((m, "/pprof/heap"@)) && !built_in_table(
                f,
            ).dom().contains((m, "/pprof/heap_stats"@)) by {
            if built_in_table(f).dom().contains((m, "/pprof/heap"@)) {
                lemma_built_ins_keys(Map::empty(), rs, (m, "/pprof/heap"@));
                let j = choose|j: int| 0 <= j < rs.len() && (#[trigger] rs[j]).spec_path() == "/pprof/heap"@;
                lemma_built_in_paths_distinct(rs[j], BuiltInRoute::PprofHeap);
                assert(rs.contains(BuiltInRoute::PprofHeap));
            }
            if built_in_table(f).dom().contains((m, "/pprof/heap_stats"@)) {
                lemma_built_ins_keys(Map::empty(), rs, (m, "/pprof/heap_stats"@));
                let j = choose|j: int|
                    0 <= j < rs.len() && (#[trigger] rs[j]).spec_path() == "/pprof/heap_stats"@;
                lemma_built_in_paths_distinct(rs[j], BuiltInRoute::PprofHeapStats);
                assert(rs.contains(BuiltInRoute::PprofHeapStats));
            }
        }
    }
}

} // verus!
