//! The server core: an exact-match router from (path, method) keys to
//! handlers, a single middleware slot, and the request cycle run once
//! per connection — parse, transform, route, dispatch, serialize. The
//! embedding program owns the sockets: it reads a request's bytes,
//! calls [`HttpServer::handle_request`], writes whatever bytes come
//! back, and closes the connection either way.

use vstd::prelude::*;

use crate::method::{HttpMethod, MethodView};
use crate::request::{Request, RequestView, parse_request};
use crate::response::{HttpResponse, Response, ResponseView, text_response};
use crate::string_map::{entries_insert, entries_map, entries_unique, lemma_entries_insert_append,
    lemma_entries_insert_found, lemma_entries_insert_map, lemma_entries_map_index};

verus! {

/// The handler capability: a value that takes a request and returns
/// something convertible to a response. Implementors state what they
/// return in `spec_call` and prove `call` against it.
pub trait HandlerFn: Send + Sync {
    /// The value this handler returns.
    type Output: Response;

    /// The response this handler produces, as a function of the
    /// request it is given.
    spec fn spec_call(&self, req: RequestView) -> ResponseView;

    /// Handles one request.
    fn call(&self, req: Request) -> (out: Self::Output)
        requires
            req.wf(),
        ensures
            out.response_view() == self.spec_call(req@),
    ;
}

/// The middleware capability: a total transform of requests, applied
/// once between parsing and routing. It has no error channel: any
/// exceptional condition must be encoded into the returned request,
/// for instance by rewriting the path.
pub trait Middleware: Send + Sync {
    /// The transformed request, as a function of the parsed one.
    spec fn spec_transform(&self, req: RequestView) -> RequestView;

    /// Transforms one request.
    fn transform(&self, req: Request) -> (out: Request)
        requires
            req.wf(),
        ensures
            out.wf(),
            out@ == self.spec_transform(req@),
    ;
}

/// What can go wrong around a connection. The embedding program maps
/// its socket and decoding failures onto these; either aborts the one
/// connection and nothing else.
#[derive(Debug, Clone, Copy, PartialEq, Eq, Structural)]
pub enum ServerError {
    /// The bytes read were not valid UTF-8.
    Utf8Conversion,
    /// Binding, reading, or writing failed.
    IoError,
}

/// The request the router sees: the parsed one, transformed by the
/// middleware when one is set.
pub open spec fn transformed_view<M: Middleware>(mw: Option<M>, rv: RequestView) -> RequestView {
    match mw {
        Some(m) => m.spec_transform(rv),
        None => rv,
    }
}

/// The fixed response of a route miss: a defined outcome, never an
/// error.
pub open spec fn fallback_response() -> ResponseView {
    text_response("no method found"@)
}

/// The bytes a request cycle writes back: what `handle_request`
/// returns for a buffer that parses, given the routing table and the
/// middleware.
pub open spec fn cycle_output<H: HandlerFn, M: Middleware>(
    routes: Map<(Seq<char>, MethodView), H>,
    mw: Option<M>,
    rv: RequestView,
) -> Seq<u8> {
    let tv = transformed_view(mw, rv);
    let key = (tv.path, tv.method);
    vstd::utf8::encode_utf8(
        crate::response::serialize_view(
            if routes.contains_key(key) {
                routes[key].spec_call(tv)
            } else {
                fallback_response()
            },
        ),
    )
}

/// The server core: the routing table and the middleware slot, built
/// by the registration calls before serving starts and read-only
/// afterwards.
pub struct HttpServer<H, M> {
    routes: Vec<(String, HttpMethod, H)>,
    middleware: Option<M>,
}

impl<H: HandlerFn, M: Middleware> HttpServer<H, M> {
    /// The route entries, in registration order, each a
    /// ((path, method), handler) pair.
    pub closed spec fn routes_view(&self) -> Seq<((Seq<char>, MethodView), H)> {
        Seq::new(
            self.routes@.len(),
            |i: int| ((self.routes@[i].0@, self.routes@[i].1@), self.routes@[i].2),
        )
    }

    /// The routing table as a map from (path, method) keys to
    /// handlers.
    pub open spec fn routes_map(&self) -> Map<(Seq<char>, MethodView), H> {
        entries_map(self.routes_view())
    }

    /// The middleware slot.
    pub closed spec fn middleware_view(&self) -> Option<M> {
        self.middleware
    }

    /// Well-formed: no (path, method) key is registered twice.
    pub open spec fn wf(&self) -> bool {
        entries_unique(self.routes_view())
    }

    /// A server with no routes and no middleware.
    pub fn new() -> (r: Self)
        ensures
            r.wf(),
            r.routes_view() == Seq::<((Seq<char>, MethodView), H)>::empty(),
            r.routes_map() == Map::<(Seq<char>, MethodView), H>::empty(),
            r.middleware_view() is None,
    {
        let r = HttpServer { routes: Vec::new(), middleware: None };
        proof {
            assert(r.routes_view() =~= Seq::<((Seq<char>, MethodView), H)>::empty());
        }
        r
    }

    /// Registers a handler under a (path, method) key, overwriting
    /// any handler registered earlier under that exact key.
    pub fn route(self, path: &str, method: HttpMethod, f: H) -> (r: Self)
        requires
            self.wf(),
        ensures
            r.wf(),
            r.routes_view() == entries_insert(self.routes_view(), (path@, method@), f),
            r.routes_map() == self.routes_map().insert((path@, method@), f),
            r.middleware_view() == self.middleware_view(),
    {
        let ghost es = self.routes_view();
        let ghost key = (path@, method@);
        let path_string = String::from_str(path);
        let HttpServer { mut routes, middleware } = self;
        let n = routes.len();
        let mut i: usize = 0;
        let mut found: Option<usize> = None;
        while i < n && found.is_none()
            invariant
                n == routes@.len() == es.len(),
                i <= n,
                path_string@ == key.0,
                method@ == key.1,
                forall|j: int|
                    0 <= j < es.len() ==> #[trigger] es[j] == ((routes@[j].0@, routes@[j].1@),
                    routes@[j].2),
                match found {
                    Some(k) => k < n && i == k && es[k as int].0 == key && (forall|j: int|
                        0 <= j < k ==> es[j].0 != key),
                    None => forall|j: int| 0 <= j < i ==> es[j].0 != key,
                },
            decreases n - i + if found.is_none() {
                1int
            } else {
                0int
            },
        {
            if routes[i].0.eq(&path_string) && routes[i].1.eq(&method) {
                found = Some(i);
            } else {
                i = i + 1;
            }
        }
        proof {
            lemma_entries_insert_map(es, key, f);
        }
        match found {
            Some(k) => {
                proof {
                    lemma_entries_insert_found(es, key, f, k as int);
                }
                let ghost pre = routes@;
                routes.set(k, (path_string, method, f));
                let r = HttpServer { routes, middleware };
                proof {
                    let fin = r.routes_view();
                    let ins = entries_insert(es, key, f);
                    assert forall|j: int| 0 <= j < fin.len() implies fin[j] == ins[j] by {
                        if j != k {
                            assert(routes@[j] == pre[j]);
                        }
                    }
                    assert(fin =~~= ins);
                }
                r
            },
            None => {
                proof {
                    lemma_entries_insert_append(es, key, f);
                }
                let ghost pre = routes@;
                routes.push((path_string, method, f));
                let r = HttpServer { routes, middleware };
                proof {
                    let fin = r.routes_view();
                    let ins = entries_insert(es, key, f);
                    assert(fin.len() == ins.len());
                    assert forall|j: int| 0 <= j < fin.len() implies fin[j] == ins[j] by {
                        if j < es.len() {
                            assert(routes@[j] == pre[j]);
                        }
                    }
                    assert(fin =~~= ins);
                }
                r
            },
        }
    }

    /// Registers a handler for `Get` requests on a path.
    pub fn get(self, path: &str, f: H) -> (r: Self)
        requires
            self.wf(),
        ensures
            r.wf(),
            r.routes_map() == self.routes_map().insert((path@, MethodView::Get), f),
            r.middleware_view() == self.middleware_view(),
    {
        self.route(path, HttpMethod::Get, f)
    }

    /// Registers a handler for `Post` requests on a path.
    pub fn post(self, path: &str, f: H) -> (r: Self)
        requires
            self.wf(),
        ensures
            r.wf(),
            r.routes_map() == self.routes_map().insert((path@, MethodView::Post), f),
            r.middleware_view() == self.middleware_view(),
    {
        self.route(path, HttpMethod::Post, f)
    }

    /// Registers a handler for `Delete` requests on a path.
    pub fn delete(self, path: &str, f: H) -> (r: Self)
        requires
            self.wf(),
        ensures
            r.wf(),
            r.routes_map() == self.routes_map().insert((path@, MethodView::Delete), f),
            r.middleware_view() == self.middleware_view(),
    {
        self.route(path, HttpMethod::Delete, f)
    }

    /// Registers a handler for `Update` requests on a path.
    pub fn update(self, path: &str, f: H) -> (r: Self)
        requires
            self.wf(),
        ensures
            r.wf(),
            r.routes_map() == self.routes_map().insert((path@, MethodView::Update), f),
            r.middleware_view() == self.middleware_view(),
    {
        self.route(path, HttpMethod::Update, f)
    }

    /// Registers a handler for `Put` requests on a path.
    pub fn put(self, path: &str, f: H) -> (r: Self)
        requires
            self.wf(),
        ensures
            r.wf(),
            r.routes_map() == self.routes_map().insert((path@, MethodView::Put), f),
            r.middleware_view() == self.middleware_view(),
    {
        self.route(path, HttpMethod::Put, f)
    }

    /// Registers a handler for `Patch` requests on a path.
    pub fn patch(self, path: &str, f: H) -> (r: Self)
        requires
            self.wf(),
        ensures
            r.wf(),
            r.routes_map() == self.routes_map().insert((path@, MethodView::Patch), f),
            r.middleware_view() == self.middleware_view(),
    {
        self.route(path, HttpMethod::Patch, f)
    }

    /// Registers a handler for `Head` requests on a path.
    pub fn head(self, path: &str, f: H) -> (r: Self)
        requires
            self.wf(),
        ensures
            r.wf(),
            r.routes_map() == self.routes_map().insert((path@, MethodView::Head), f),
            r.middleware_view() == self.middleware_view(),
    {
        self.route(path, HttpMethod::Head, f)
    }

    /// Registers a handler for `Options` requests on a path.
    pub fn options(self, path: &str, f: H) -> (r: Self)
        requires
            self.wf(),
        ensures
            r.wf(),
            r.routes_map() == self.routes_map().insert((path@, MethodView::Options), f),
            r.middleware_view() == self.middleware_view(),
    {
        self.route(path, HttpMethod::Options, f)
    }

    /// Sets the middleware, replacing any previously configured one:
    /// a single slot, not a chain.
    pub fn add_middleware(self, m: M) -> (r: Self)
        ensures
            r.wf() == self.wf(),
            r.routes_view() == self.routes_view(),
            r.routes_map() == self.routes_map(),
            r.middleware_view() == Some(m),
    {
        let HttpServer { routes, middleware: _ } = self;
        let r = HttpServer { routes, middleware: Some(m) };
        proof {
            assert(r.routes_view() =~~= self.routes_view());
        }
        r
    }

    /// Looks the handler for an exact (path, method) key up.
    fn find_route(&self, path: &String, method: &HttpMethod) -> (r: Option<&H>)
        requires
            self.wf(),
        ensures
            match r {
                Some(h) => self.routes_map().contains_key((path@, method@)) && *h
                    == self.routes_map()[(path@, method@)],
                None => !self.routes_map().contains_key((path@, method@)),
            },
    {
        proof {
            lemma_entries_map_index(self.routes_view(), (path@, method@));
        }
        let ghost es = self.routes_view();
        let ghost key = (path@, method@);
        let n = self.routes.len();
        let mut i: usize = 0;
        while i < n
            invariant
                n == self.routes@.len() == es.len(),
                es == self.routes_view(),
                entries_unique(es),
                key == (path@, method@),
                i <= n,
                forall|j: int|
                    0 <= j < es.len() ==> #[trigger] es[j] == ((self.routes@[j].0@,
                    self.routes@[j].1@), self.routes@[j].2),
                forall|j: int| 0 <= j < i ==> es[j].0 != key,
            decreases n - i,
        {
            if self.routes[i].0.eq(path) && self.routes[i].1.eq(method) {
                assert(es[i as int].0 == key);
                proof {
                    lemma_entries_map_index(self.routes_view(), (path@, method@));
                }
                return Some(&self.routes[i].2);
            }
            i = i + 1;
        }
        None
    }

    /// One full request cycle on a raw buffer: parse it, transform the
    /// request through the middleware if one is set, look the handler
    /// up by the transformed (path, method), and serialize what it
    /// returns — or the fixed fallback response when no route matches.
    /// A buffer whose first line is malformed yields nothing: the
    /// connection is aborted with no bytes written.
    pub fn handle_request(&self, raw: &str) -> (out: Option<Vec<u8>>)
        requires
            self.wf(),
        ensures
            match parse_request(raw@) {
                Err(_) => out is None,
                Ok(rv) => out matches Some(bytes) && bytes@ == cycle_output(
                    self.routes_map(),
                    self.middleware_view(),
                    rv,
                ),
            },
    {
        let req = match Request::from_str(raw) {
            Ok(req) => req,
            Err(_) => {
                return None;
            },
        };
        let req = match &self.middleware {
            Some(m) => m.transform(req),
            None => req,
        };
        let path = req.path.clone();
        let method = req.method.clone();
        match self.find_route(&path, &method) {
            Some(h) => {
                let resp = h.call(req).to_response();
                Some(resp.into_bytes())
            },
            None => {
                let resp = HttpResponse::new().set_body("no method found");
                proof {
                    assert(resp@.headers =~~= fallback_response().headers);
                    assert(resp@ =~~= fallback_response());
                }
                Some(resp.into_bytes())
            },
        }
    }
}

/// Law: registering a handler twice under the same (path, method) key
/// keeps only the second registration.
pub proof fn lemma_route_overwrite<H>(
    routes: Map<(Seq<char>, MethodView), H>,
    path: Seq<char>,
    method: MethodView,
    first: H,
    second: H,
)
    ensures
        routes.insert((path, method), first).insert((path, method), second) == routes.insert(
            (path, method),
            second,
        ),
{
    assert(routes.insert((path, method), first).insert((path, method), second) =~= routes.insert(
        (path, method),
        second,
    ));
}

/// A handler that returns fixed text, whatever the request.
pub struct TextHandler {
    /// The body every response of this handler carries.
    pub body: String,
}

impl TextHandler {
    /// A handler that always answers with `body`.
    pub fn new(body: &str) -> (r: Self)
        ensures
            r.body@ == body@,
    {
        TextHandler { body: String::from_str(body) }
    }
}

impl HandlerFn for TextHandler {
    type Output = String;

    open spec fn spec_call(&self, req: RequestView) -> ResponseView {
        text_response(self.body@)
    }

    fn call(&self, req: Request) -> (out: String) {
        self.body.clone()
    }
}

/// A handler that echoes the request's path as the response body.
pub struct EchoPathHandler {}

impl HandlerFn for EchoPathHandler {
    type Output = String;

    open spec fn spec_call(&self, req: RequestView) -> ResponseView {
        text_response(req.path)
    }

    fn call(&self, req: Request) -> (out: String) {
        let Request { path, .. } = req;
        path
    }
}

/// Middleware that rewrites one exact path to another and leaves every
/// other request untouched — the way a transform may steer a request
/// to a different route.
pub struct PathRewrite {
    /// The path to rewrite.
    pub from: String,
    /// The path it becomes.
    pub to: String,
}

impl PathRewrite {
    /// Middleware that rewrites requests for `from` to `to`.
    pub fn new(from: &str, to: &str) -> (r: Self)
        ensures
            r.from@ == from@,
            r.to@ == to@,
    {
        PathRewrite { from: String::from_str(from), to: String::from_str(to) }
    }
}

impl Middleware for PathRewrite {
    open spec fn spec_transform(&self, req: RequestView) -> RequestView {
        if req.path == self.from@ {
            RequestView { path: self.to@, ..req }
        } else {
            req
        }
    }

    fn transform(&self, req: Request) -> (out: Request) {
        if req.path.eq(&self.from) {
            let Request { path: _, method, query, headers, body } = req;
            Request { method, path: self.to.clone(), query, headers, body }
        } else {
            req
        }
    }
}

} // verus!
