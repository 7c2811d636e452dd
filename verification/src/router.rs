//! Routing: handlers registered by path and method, and the response sent
//! when no handler fits a request.
use vstd::prelude::*;

use crate::request::Request;
use crate::response::{reason_phrase, response_head, Response};
use crate::text::{chars_eq, chars_of, str_eq};
use vstd::utf8::encode_utf8;

verus! {

/// Why no handler serves a request.
#[derive(Clone, Copy, Debug, PartialEq, Eq, Structural)]
pub enum HandlerNotFound {
    /// A handler exists for the path, but not for the method.
    NoMethod,
    /// No handler exists for the path.
    NoPath,
}

/// The handlers of one path, by method.
pub struct Route<H> {
    path: String,
    get: Option<H>,
    post: Option<H>,
}

/// The handlers of a route, keyed by method name.
pub open spec fn method_map<H>(get: Option<H>, post: Option<H>) -> Map<Seq<char>, H> {
    let m0 = Map::<Seq<char>, H>::empty();
    let m1 = match get {
        Some(h) => m0.insert("get"@, h),
        None => m0,
    };
    match post {
        Some(h) => m1.insert("post"@, h),
        None => m1,
    }
}

proof fn lemma_method_map<H>(get: Option<H>, post: Option<H>)
    ensures
        forall|k: Seq<char>|
            #[trigger] method_map(get, post).dom().contains(k) <==> ((k == "get"@ && get is Some)
                || (k == "post"@ && post is Some)),
        get matches Some(g) ==> method_map(get, post)["get"@] == g,
        post matches Some(q) ==> method_map(get, post)["post"@] == q,
        "get"@ != "post"@,
{
    reveal_strlit("get");
    reveal_strlit("post");
    assert("get"@ != "post"@) by {
        assert("get"@.len() != "post"@.len());
    }
}

/// `route` with `h` registered for `get` (or `post`) unless a handler is
/// already registered for that method.
fn with_handler<H>(route: Route<H>, is_get: bool, h: H) -> (r: Route<H>)
    ensures
        r.path_view() == route.path_view(),
        ({
            let m = if is_get {
                "get"@
            } else {
                "post"@
            };
            r.methods() == if route.methods().dom().contains(m) {
                route.methods()
            } else {
                route.methods().insert(m, h)
            }
        }),
{
    proof {
        lemma_method_map(route.get, route.post);
    }
    let Route { path, get, post } = route;
    if is_get {
        match get {
            Some(g) => Route { path, get: Some(g), post },
            None => {
                let r = Route { path, get: Some(h), post };
                proof {
                    lemma_method_map(r.get, r.post);
                    assert(r.methods() =~= method_map(get, post).insert("get"@, h));
                }
                r
            },
        }
    } else {
        match post {
            Some(q) => Route { path, get, post: Some(q) },
            None => {
                let r = Route { path, get, post: Some(h) };
                proof {
                    lemma_method_map(r.get, r.post);
                    assert(r.methods() =~= method_map(get, post).insert("post"@, h));
                }
                r
            },
        }
    }
}

impl<H> Route<H> {
    pub closed spec fn path_view(&self) -> Seq<char> {
        self.path@
    }

    pub closed spec fn methods(&self) -> Map<Seq<char>, H> {
        method_map(self.get, self.post)
    }
}

/// The handler table of a list of routes: path, then method.
pub open spec fn table_of<H>(rs: Seq<Route<H>>) -> Map<Seq<char>, Map<Seq<char>, H>>
    decreases rs.len(),
{
    if rs.len() == 0 {
        Map::empty()
    } else {
        table_of(rs.drop_last()).insert(rs.last().path_view(), rs.last().methods())
    }
}

/// No path occurs twice.
pub open spec fn distinct_paths<H>(rs: Seq<Route<H>>) -> bool {
    forall|i: int, j: int|
        0 <= i < rs.len() && 0 <= j < rs.len() && i != j ==> (#[trigger] rs[i]).path_view() != (
        #[trigger] rs[j]).path_view()
}

/// The table after registering `h` for `method` at `path`: a handler
/// already registered there stays.
pub open spec fn register<H>(
    t: Map<Seq<char>, Map<Seq<char>, H>>,
    path: Seq<char>,
    method: Seq<char>,
    h: H,
) -> Map<Seq<char>, Map<Seq<char>, H>> {
    if t.dom().contains(path) {
        if t[path].dom().contains(method) {
            t
        } else {
            t.insert(path, t[path].insert(method, h))
        }
    } else {
        t.insert(path, Map::empty().insert(method, h))
    }
}

/// The handler for `method` at `path`, or why there is none.
pub open spec fn route_lookup<H>(
    t: Map<Seq<char>, Map<Seq<char>, H>>,
    method: Seq<char>,
    path: Seq<char>,
) -> Result<H, HandlerNotFound> {
    if !t.dom().contains(path) {
        Err(HandlerNotFound::NoPath)
    } else if !t[path].dom().contains(method) {
        Err(HandlerNotFound::NoMethod)
    } else {
        Ok(t[path][method])
    }
}

proof fn lemma_table_of<H>(rs: Seq<Route<H>>)
    requires
        distinct_paths(rs),
    ensures
        forall|p: Seq<char>|
            #[trigger] table_of(rs).dom().contains(p) <==> exists|i: int|
                0 <= i < rs.len() && (#[trigger] rs[i]).path_view() == p,
        forall|i: int|
            0 <= i < rs.len() ==> #[trigger] table_of(rs)[rs[i].path_view()] == rs[i].methods(),
    decreases rs.len(),
{
    if rs.len() > 0 {
        let init = rs.drop_last();
        assert(distinct_paths(init)) by {
            assert forall|i: int, j: int|
                0 <= i < init.len() && 0 <= j < init.len() && i != j implies (
            #[trigger] init[i]).path_view() != (#[trigger] init[j]).path_view() by {
                assert(init[i] == rs[i]);
                assert(init[j] == rs[j]);
            }
        }
        lemma_table_of(init);
        assert forall|p: Seq<char>|
            #[trigger] table_of(rs).dom().contains(p) implies exists|i: int|
                0 <= i < rs.len() && (#[trigger] rs[i]).path_view() == p by {
            if p == rs.last().path_view() {
                assert(rs[rs.len() - 1].path_view() == p);
            } else {
                assert(table_of(init).dom().contains(p));
                let i = choose|i: int| 0 <= i < init.len() && (#[trigger] init[i]).path_view() == p;
                assert(rs[i] == init[i]);
            }
        }
        assert forall|p: Seq<char>|
            (exists|i: int| 0 <= i < rs.len() && (#[trigger] rs[i]).path_view() == p)
                implies #[trigger] table_of(rs).dom().contains(p) by {
            let i = choose|i: int| 0 <= i < rs.len() && (#[trigger] rs[i]).path_view() == p;
            if i < rs.len() - 1 {
                assert(init[i] == rs[i]);
                assert(init[i].path_view() == p);
                assert(table_of(init).dom().contains(p));
            }
        }
        assert forall|i: int| 0 <= i < rs.len() implies #[trigger] table_of(rs)[rs[i].path_view()]
            == rs[i].methods() by {
            if i < rs.len() - 1 {
                assert(init[i] == rs[i]);
                assert(rs[i].path_view() != rs[rs.len() - 1].path_view());
                assert(table_of(init)[init[i].path_view()] == init[i].methods());
            }
        }
    }
}

/// Handlers of type `H`, registered by path and method (`get` or `post`).
pub struct Router<H> {
    routes: Vec<Route<H>>,
}

impl<H> Router<H> {
    /// No path is registered twice, and each registered path has a handler.
    #[verifier::type_invariant]
    pub closed spec fn routes_well_formed(self) -> bool {
        distinct_paths(self.routes@)
    }

    /// The handler table: path, then method name.
    pub closed spec fn table(&self) -> Map<Seq<char>, Map<Seq<char>, H>> {
        table_of(self.routes@)
    }

    /// A router with no handler.
    pub fn new() -> (r: Router<H>)
        ensures
            r.table() == Map::<Seq<char>, Map<Seq<char>, H>>::empty(),
    {
        Router { routes: Vec::new() }
    }

    /// The position of the route for `path`.
    fn position(&self, path: &str) -> (r: Option<usize>)
        ensures
            distinct_paths(self.routes@),
            match r {
                Some(i) => i < self.routes@.len() && self.routes@[i as int].path_view() == path@,
                None => forall|i: int|
                    0 <= i < self.routes@.len() ==> (#[trigger] self.routes@[i]).path_view()
                        != path@,
            },
    {
        proof {
            use_type_invariant(self);
        }
        let p = chars_of(path);
        let mut i: usize = 0;
        while i < self.routes.len()
            invariant
                i <= self.routes@.len(),
                p@ == path@,
                distinct_paths(self.routes@),
                forall|k: int| 0 <= k < i ==> (#[trigger] self.routes@[k]).path_view() != path@,
            decreases self.routes@.len() - i,
        {
            let q = chars_of(self.routes[i].path.as_str());
            if chars_eq(&q, &p) {
                return Some(i);
            }
            i = i + 1;
        }
        None
    }

    /// Registers `h` for `method` at `path`, unless a handler is already
    /// registered there.
    fn add(&mut self, method_is_get: bool, path: &str, h: H)
        ensures
            final(self).table() == register(
                old(self).table(),
                path@,
                if method_is_get {
                    "get"@
                } else {
                    "post"@
                },
                h,
            ),
    {
        proof {
            use_type_invariant(&*self);
            reveal_strlit("get");
            reveal_strlit("post");
            lemma_table_of(self.routes@);
        }
        let ghost m: Seq<char> = if method_is_get {
            "get"@
        } else {
            "post"@
        };
        let pos = self.position(path);
        let mut taken = Router { routes: Vec::new() };
        std::mem::swap(self, &mut taken);
        let Router { routes: mut routes } = taken;
        let ghost old_routes = routes@;
        match pos {
            Some(i) => {
                let route = routes.remove(i);
                let ghost old_methods = route.methods();
                let updated = with_handler(route, method_is_get, h);
                routes.insert(i, updated);
                proof {
                    let new_routes = routes@;
                    assert(new_routes == old_routes.update(i as int, new_routes[i as int]));
                    assert(distinct_paths(new_routes)) by {
                        assert forall|a: int, b: int|
                            0 <= a < new_routes.len() && 0 <= b < new_routes.len() && a != b
                                implies (#[trigger] new_routes[a]).path_view() != (
                        #[trigger] new_routes[b]).path_view() by {
                            assert(old_routes[a].path_view() == new_routes[a].path_view());
                            assert(old_routes[b].path_view() == new_routes[b].path_view());
                        }
                    }
                    lemma_table_of(new_routes);
                    let t0 = table_of(old_routes);
                    let t1 = table_of(new_routes);
                    assert(t0.dom().contains(path@));
                    assert(t0[path@] == old_methods);
                    assert(t1.dom() =~= t0.dom()) by {
                        assert forall|p: Seq<char>| t1.dom().contains(p) implies t0.dom().contains(
                            p,
                        ) by {
                            let k = choose|k: int|
                                0 <= k < new_routes.len() && (#[trigger] new_routes[k]).path_view()
                                    == p;
                            assert(old_routes[k].path_view() == p);
                        }
                        assert forall|p: Seq<char>| t0.dom().contains(p) implies t1.dom().contains(
                            p,
                        ) by {
                            let k = choose|k: int|
                                0 <= k < old_routes.len() && (#[trigger] old_routes[k]).path_view()
                                    == p;
                            assert(new_routes[k].path_view() == p);
                        }
                    }
                    assert forall|p: Seq<char>| t1.dom().contains(p) && p != path@ implies t1[p]
                        == t0[p] by {
                        let k = choose|k: int|
                            0 <= k < new_routes.len() && (#[trigger] new_routes[k]).path_view()
                                == p;
                        assert(k != i);
                        assert(new_routes[k] == old_routes[k]);
                    }
                    assert(t1[path@] == new_routes[i as int].methods());
                    let reg = register(t0, path@, m, h);
                    if old_methods.dom().contains(m) {
                        assert(t1 =~= t0);
                    } else {
                        assert(t1 =~= reg);
                    }
                }
                *self = Router { routes };
            },
            None => {
                let (get, post) = if method_is_get {
                    (Some(h), None)
                } else {
                    (None, Some(h))
                };
                routes.push(Route { path: path.to_string(), get, post });
                proof {
                    let new_routes = routes@;
                    assert(new_routes.drop_last() =~= old_routes);
                    assert(new_routes.last().methods() =~= Map::<Seq<char>, H>::empty().insert(m, h));
                    assert(distinct_paths(new_routes)) by {
                        assert forall|a: int, b: int|
                            0 <= a < new_routes.len() && 0 <= b < new_routes.len() && a != b
                                implies (#[trigger] new_routes[a]).path_view() != (
                        #[trigger] new_routes[b]).path_view() by {
                            if a < old_routes.len() {
                                assert(new_routes[a] == old_routes[a]);
                            }
                            if b < old_routes.len() {
                                assert(new_routes[b] == old_routes[b]);
                            }
                        }
                    }
                    assert(!table_of(old_routes).dom().contains(path@));
                }
                *self = Router { routes };
            },
        }
    }

    /// Registers `h` for GET requests to `path`; a GET handler already
    /// registered there stays.
    pub fn get(&mut self, path: &str, h: H) -> (r: &mut Self)
        ensures
            r.table() == register(old(self).table(), path@, "get"@, h),
            *final(self) == *final(r),
    {
        self.add(true, path, h);
        self
    }

    /// Registers `h` for POST requests to `path`; a POST handler already
    /// registered there stays.
    pub fn post(&mut self, path: &str, h: H) -> (r: &mut Self)
        ensures
            r.table() == register(old(self).table(), path@, "post"@, h),
            *final(self) == *final(r),
    {
        self.add(false, path, h);
        self
    }

    /// The handler for method `m` (lowercase) at path `p`, or why there is
    /// none.
    pub fn find_handler(&self, m: &str, p: &str) -> (r: Result<&H, HandlerNotFound>)
        ensures
            match r {
                Ok(h) => route_lookup(self.table(), m@, p@) == Ok::<H, HandlerNotFound>(*h),
                Err(e) => route_lookup(self.table(), m@, p@) == Err::<H, HandlerNotFound>(e),
            },
    {
        proof {
            reveal_strlit("get");
            reveal_strlit("post");
        }
        match self.position(p) {
            None => {
                proof {
                    lemma_table_of(self.routes@);
                    assert(!self.table().dom().contains(p@));
                }
                Err(HandlerNotFound::NoPath)
            },
            Some(i) => {
                proof {
                    lemma_table_of(self.routes@);
                }
                let route = &self.routes[i];
                proof {
                    lemma_method_map(route.get, route.post);
                    assert(self.routes@[i as int].path_view() == p@);
                    assert(self.table().dom().contains(p@));
                    assert(self.table()[p@] == route.methods());
                }
                if str_eq(m, "get") {
                    match &route.get {
                        Some(h) => Ok(h),
                        None => {
                            assert(!self.table()[p@].dom().contains(m@));
                            Err(HandlerNotFound::NoMethod)
                        },
                    }
                } else if str_eq(m, "post") {
                    match &route.post {
                        Some(h) => Ok(h),
                        None => {
                            assert(!self.table()[p@].dom().contains(m@));
                            Err(HandlerNotFound::NoMethod)
                        },
                    }
                } else {
                    assert(!self.table()[p@].dom().contains(m@));
                    Err(HandlerNotFound::NoMethod)
                }
            },
        }
    }
}

/// The status of the response sent when no handler fits.
pub open spec fn refusal_status(err: HandlerNotFound) -> int {
    match err {
        HandlerNotFound::NoPath => 404,
        HandlerNotFound::NoMethod => 405,
    }
}

/// The body of the response sent when no handler fits: its reason phrase.
pub open spec fn refusal_text(err: HandlerNotFound) -> Seq<char> {
    match err {
        HandlerNotFound::NoPath => "Not Found"@,
        HandlerNotFound::NoMethod => "Method Not Allowed"@,
    }
}

/// The head and body of the response sent when no handler fits.
pub open spec fn refusal_response(err: HandlerNotFound) -> (Seq<char>, Seq<u8>) {
    let body = encode_utf8(refusal_text(err));
    (
        response_head(
            refusal_status(err),
            reason_phrase(refusal_status(err)),
            body.len(),
            Seq::<(Seq<char>, Seq<char>)>::empty(),
        ),
        body,
    )
}

/// The response sent when no handler fits: 404 when no handler exists for
/// the path, 405 when none exists for the method; the body repeats the
/// reason phrase.
pub fn refusal(err: HandlerNotFound) -> (r: (String, Vec<u8>))
    ensures
        (r.0@, r.1@) == refusal_response(err),
{
    match err {
        HandlerNotFound::NoPath => {
            let mut res = Response::new(None);
            res.status(404);
            res.end("Not Found")
        },
        HandlerNotFound::NoMethod => {
            let mut res = Response::new(None);
            res.status(405);
            res.end("Method Not Allowed")
        },
    }
}

impl<H: Fn(Request, Response) -> (String, Vec<u8>)> Router<H> {
    /// Calls the handler for method `m` at path `p` with the request and the
    /// response, or says why there is none.
    pub fn invoke_handler(&self, m: &str, p: &str, req: Request, res: Response) -> (r: Result<
        (String, Vec<u8>),
        HandlerNotFound,
    >)
        requires
            route_lookup(self.table(), m@, p@) matches Ok(h) ==> call_requires(h, (req, res)),
        ensures
            match r {
                Ok(out) => route_lookup(self.table(), m@, p@) matches Ok(h) && call_ensures(
                    h,
                    (req, res),
                    out,
                ),
                Err(e) => route_lookup(self.table(), m@, p@) == Err::<H, HandlerNotFound>(e),
            },
    {
        match self.find_handler(m, p) {
            Ok(h) => Ok(h(req, res)),
            Err(e) => Err(e),
        }
    }

    /// The response to a request: the handler's, or the refusal when no
    /// handler fits.
    pub fn respond(&self, m: &str, p: &str, req: Request, res: Response) -> (r: (String, Vec<u8>))
        requires
            route_lookup(self.table(), m@, p@) matches Ok(h) ==> call_requires(h, (req, res)),
        ensures
            match route_lookup(self.table(), m@, p@) {
                Ok(h) => call_ensures(h, (req, res), r),
                Err(e) => (r.0@, r.1@) == refusal_response(e),
            },
    {
        match self.invoke_handler(m, p, req, res) {
            Ok(out) => out,
            Err(e) => refusal(e),
        }
    }
}

impl<H> Default for Router<H> {
    fn default() -> (r: Router<H>)
        ensures
            r.table() == Map::<Seq<char>, Map<Seq<char>, H>>::empty(),
    {
        Router::new()
    }
}

} // verus!
