//! The router tree and request detection.

use vstd::prelude::*;
use crate::filter::{self, Filter, IntoBoxedFilter, BoxedFilter, MethodFilter, SchemeFilter, PortFilter, FnFilter, behaves_as, host_decide, tagged, total_and_deterministic};
use crate::handler::WhenHoop;
use crate::path_filter::{PathFilter, path_decide, path_tag_text};
use crate::pattern::{PathError, parse_pattern, WispView};
use crate::request::{Method, Scheme};
use crate::path_state::{PathState, PathStateView, spec_ended};
use crate::request::{Request, RequestView};
use vstd::std_specs::convert::FromSpec;

verus! {

/// A node of the routing tree: filters that a request must pass, middleware
/// (hoops) that run for it and its descendants, an optional handler, and
/// child routers tried in order.
pub struct Router<H> {
    pub routers: Vec<Router<H>>,
    pub filters: Vec<BoxedFilter>,
    pub hoops: Vec<H>,
    pub handler: Option<H>,
}

/// The result of a successful detection: the middleware chain, from the
/// root down, and the handler of the matched router.
pub struct DetectMatched<'a, H> {
    pub hoops: Vec<&'a H>,
    pub handler: &'a H,
}

/// The mathematical value of a detection result: the hoops and the handler.
pub type Match<H> = (Seq<H>, H);

/// The handler that a reference points to.
pub open spec fn deref_one<H>(h: &H) -> H {
    *h
}

/// The handlers that a sequence of references points to.
pub open spec fn deref_seq<H>(s: Seq<&H>) -> Seq<H> {
    s.map_values(|h: &H| deref_one(h))
}

/// The mathematical value of an optional detection result.
pub open spec fn matched_view<'a, H>(m: Option<DetectMatched<'a, H>>) -> Option<Match<H>> {
    match m {
        Some(dm) => Some((deref_seq(dm.hoops@), deref_one(dm.handler))),
        None => None,
    }
}

/// Runs the filters `fs[i..]` in order, stopping at the first that rejects.
pub open spec fn run_filters(
    fs: Seq<BoxedFilter>,
    i: int,
    req: RequestView,
    st: PathStateView,
) -> (bool, RequestView, PathStateView)
    decreases fs.len() - i,
{
    if i < 0 || i >= fs.len() {
        (true, req, st)
    } else {
        let (ok, req2, st2) = fs[i].0.decide(req, st);
        if ok {
            run_filters(fs, i + 1, req2, st2)
        } else {
            (false, req2, st2)
        }
    }
}

/// Detection on a router: its filters, then its children in order (the
/// cursor is put back after each child that fails), then its own handler if
/// the path has been consumed.
pub open spec fn detect_spec<H>(r: Router<H>, req: RequestView, st: PathStateView) -> (
    Option<Match<H>>,
    RequestView,
    PathStateView,
)
    decreases r, r.routers@.len() + 1,
{
    let (ok, req1, st1) = run_filters(r.filters@, 0, req, st);
    if !ok {
        (None, req1, st1)
    } else {
        let (found, req2, st2) = try_children(r, 0, req1, st1, st1.cursor);
        match found {
            Some(m) => (Some((r.hoops@ + m.0, m.1)), req2, st2),
            None => match r.handler {
                Some(h) => if spec_ended(st2) {
                    (Some((r.hoops@, h)), req2, st2)
                } else {
                    (None, req2, st2)
                },
                None => (None, req2, st2),
            },
        }
    }
}

/// Tries the children `r.routers[i..]` in order; after a child fails the
/// cursor is put back to `cursor`.
pub open spec fn try_children<H>(
    r: Router<H>,
    i: int,
    req: RequestView,
    st: PathStateView,
    cursor: (usize, usize),
) -> (Option<Match<H>>, RequestView, PathStateView)
    decreases r, r.routers@.len() - i,
{
    if i < 0 || i >= r.routers@.len() {
        (None, req, st)
    } else {
        proof {
            assert(decreases_to!(r => r.routers));
        }
        let (found, req2, st2) = detect_spec(r.routers@[i], req, st);
        match found {
            Some(m) => (Some(m), req2, st2),
            None => try_children(r, i + 1, req2, PathStateView { cursor: cursor, ..st2 }, cursor),
        }
    }
}

/// References to each handler of `v`, in order.
fn refs_of<'a, H>(v: &'a Vec<H>) -> (r: Vec<&'a H>)
    ensures
        deref_seq(r@) == v@,
{
    let mut r: Vec<&'a H> = Vec::new();
    let mut k: usize = 0;
    while k < v.len()
        invariant
            k <= v@.len(),
            r@.len() == k,
            forall|j: int| 0 <= j < k ==> *r@[j] == v@[j],
        decreases v@.len() - k,
    {
        r.push(&v[k]);
        k += 1;
    }
    assert(deref_seq(r@) =~= v@);
    r
}

impl<H> Router<H> {
    /// Detects whether this router, or one of its descendants, matches the
    /// request and the path state.
    pub fn detect<'a>(&'a self, req: &mut Request, path_state: &mut PathState) -> (r: Option<DetectMatched<'a, H>>)
        ensures
            (matched_view(r), final(req)@, final(path_state)@) == detect_spec(*self, old(req)@, old(path_state)@),
        decreases self,
    {
        let mut i: usize = 0;
        while i < self.filters.len()
            invariant
                i <= self.filters@.len(),
                run_filters(self.filters@, 0, old(req)@, old(path_state)@) == run_filters(self.filters@, i as int, req@, path_state@),
            decreases self.filters@.len() - i,
        {
            if !self.filters[i].0.filter(req, path_state) {
                return None;
            }
            i += 1;
        }
        let ghost req1 = req@;
        let ghost st1 = path_state@;
        let original_cursor = path_state.cursor;
        let mut j: usize = 0;
        while j < self.routers.len()
            invariant
                j <= self.routers@.len(),
                path_state.cursor == original_cursor,
                original_cursor == st1.cursor,
                run_filters(self.filters@, 0, old(req)@, old(path_state)@) == (true, req1, st1),
                try_children(*self, 0, req1, st1, original_cursor) == try_children(*self, j as int, req@, path_state@, original_cursor),
            decreases self.routers@.len() - j,
        {
            let child = &self.routers[j];
            proof {
                assert(decreases_to!(*self => self.routers));
            }
            let ghost req_b = req@;
            let ghost st_b = path_state@;
            let res = child.detect(req, path_state);
            match res {
                Some(dm) => {
                    let mut hoops = refs_of(&self.hoops);
                    let ghost base = hoops@;
                    let mut l: usize = 0;
                    while l < dm.hoops.len()
                        invariant
                            l <= dm.hoops@.len(),
                            hoops@ == base + dm.hoops@.take(l as int),
                        decreases dm.hoops@.len() - l,
                    {
                        hoops.push(dm.hoops[l]);
                        l += 1;
                        assert(hoops@ =~= base + dm.hoops@.take(l as int));
                    }
                    assert(dm.hoops@.take(dm.hoops@.len() as int) =~= dm.hoops@);
                    assert(deref_seq(hoops@) =~= self.hoops@ + deref_seq(dm.hoops@));
                    assert(try_children(*self, j as int, req_b, st_b, original_cursor) == (Some((deref_seq(dm.hoops@), deref_one(dm.handler))), req@, path_state@));
                    let r = Some(DetectMatched { hoops, handler: dm.handler });
                    return r;
                },
                None => {
                    path_state.cursor = original_cursor;
                },
            }
            j += 1;
        }
        match &self.handler {
            Some(handler) => {
                if path_state.ended() {
                    return Some(DetectMatched { hoops: refs_of(&self.hoops), handler });
                }
                None
            },
            None => None,
        }
    }
}


/// A router without children, filters, hoops or handler.
pub open spec fn is_bare<H>(r: Router<H>) -> bool {
    &&& r.routers@.len() == 0
    &&& r.filters@.len() == 0
    &&& r.hoops@.len() == 0
    &&& r.handler is None
}

/// `r` is `old` with one more filter, last in order.
pub open spec fn adds_filter<H>(r: Router<H>, old: Router<H>) -> bool {
    &&& r.routers == old.routers
    &&& r.hoops == old.hoops
    &&& r.handler == old.handler
    &&& r.filters@.len() == old.filters@.len() + 1
    &&& r.filters@.take(old.filters@.len() as int) == old.filters@
}

/// The last filter of `r` is the path filter of the pattern `path`.
pub open spec fn last_filter_is_path<H>(r: Router<H>, path: Seq<char>) -> bool {
    &&& r.filters@.len() > 0
    &&& forall|q: RequestView, s: PathStateView| #[trigger] r.filters@.last().0.decide(q, s) == path_decide(parse_pattern(path)->Ok_0, q, s)
    &&& r.filters@.last().0.spec_info() == path_tag_text(path)
}

/// `r` is `old` with one more child, last in order, that has only the
/// method filter `m` and the handler `h`.
pub open spec fn adds_method_child<H>(r: Router<H>, old: Router<H>, m: Method, h: H) -> bool {
    &&& r.filters == old.filters
    &&& r.hoops == old.hoops
    &&& r.handler == old.handler
    &&& r.routers@.len() == old.routers@.len() + 1
    &&& r.routers@.take(old.routers@.len() as int) == old.routers@
    &&& r.routers@.last().routers@.len() == 0
    &&& r.routers@.last().hoops@.len() == 0
    &&& r.routers@.last().handler == Some(h)
    &&& r.routers@.last().filters@.len() == 1
    &&& behaves_as(r.routers@.last().filters@[0], MethodFilter(m))
}

impl<H> Router<H> {
    /// A router without children, filters, hoops or handler.
    pub fn new() -> (r: Router<H>)
        ensures
            is_bare(r),
    {
        Router { routers: Vec::new(), filters: Vec::new(), hoops: Vec::new(), handler: None }
    }

    /// The children.
    pub fn routers(&self) -> (r: &Vec<Router<H>>)
        ensures
            *r == self.routers,
    {
        &self.routers
    }

    /// The children, to change in place.
    pub fn routers_mut(&mut self) -> (r: &mut Vec<Router<H>>)
        ensures
            *r == old(self).routers,
            final(self).routers == *final(r),
            final(self).filters == old(self).filters,
            final(self).hoops == old(self).hoops,
            final(self).handler == old(self).handler,
    {
        &mut self.routers
    }

    /// The middleware.
    pub fn hoops(&self) -> (r: &Vec<H>)
        ensures
            *r == self.hoops,
    {
        &self.hoops
    }

    /// The middleware, to change in place.
    pub fn hoops_mut(&mut self) -> (r: &mut Vec<H>)
        ensures
            *r == old(self).hoops,
            final(self).hoops == *final(r),
            final(self).routers == old(self).routers,
            final(self).filters == old(self).filters,
            final(self).handler == old(self).handler,
    {
        &mut self.hoops
    }

    /// The filters.
    pub fn filters(&self) -> (r: &Vec<BoxedFilter>)
        ensures
            *r == self.filters,
    {
        &self.filters
    }

    /// The filters, to change in place.
    pub fn filters_mut(&mut self) -> (r: &mut Vec<BoxedFilter>)
        ensures
            *r == old(self).filters,
            final(self).filters == *final(r),
            final(self).routers == old(self).routers,
            final(self).hoops == old(self).hoops,
            final(self).handler == old(self).handler,
    {
        &mut self.filters
    }

    /// Adds `router` as the last child.
    pub fn push(self, router: Router<H>) -> (r: Router<H>)
        ensures
            r.routers@ == self.routers@.push(router),
            r.filters == self.filters,
            r.hoops == self.hoops,
            r.handler == self.handler,
    {
        let mut r = self;
        r.routers.push(router);
        r
    }

    /// Adds all of `others` as the last children, in their order.
    pub fn append(self, others: Vec<Router<H>>) -> (r: Router<H>)
        ensures
            r.routers@ == self.routers@ + others@,
            r.filters == self.filters,
            r.hoops == self.hoops,
            r.handler == self.handler,
    {
        let mut r = self;
        let mut others = others;
        r.routers.append(&mut others);
        r
    }

    /// A new router with `handler` as its middleware.
    pub fn with_hoop(handler: H) -> (r: Router<H>)
        ensures
            r.hoops@ == seq![handler],
            r.routers@.len() == 0,
            r.filters@.len() == 0,
            r.handler is None,
    {
        Router::new().hoop(handler)
    }

    /// A new router with middleware that runs `handler` for the requests
    /// that `filter` accepts.
    pub fn with_hoop_when<D, F: Fn(&Request, &D) -> bool>(handler: H, filter: F) -> (r: Router<H>)
        where H: From<WhenHoop<H, F>>,
        ensures
            r.hoops@.len() == 1,
            <H as FromSpec<WhenHoop<H, F>>>::obeys_from_spec() ==> r.hoops@[0] == <H as FromSpec<WhenHoop<H, F>>>::from_spec(WhenHoop { inner: handler, filter }),
            r.routers@.len() == 0,
            r.filters@.len() == 0,
            r.handler is None,
    {
        Router::new().hoop_when::<D, F>(handler, filter)
    }

    /// Adds `handler` as the last middleware.
    pub fn hoop(self, handler: H) -> (r: Router<H>)
        ensures
            r.hoops@ == self.hoops@.push(handler),
            r.routers == self.routers,
            r.filters == self.filters,
            r.handler == self.handler,
    {
        let mut r = self;
        r.hoops.push(handler);
        r
    }

    /// Adds, as the last middleware, `handler` guarded by `filter`.
    pub fn hoop_when<D, F: Fn(&Request, &D) -> bool>(self, handler: H, filter: F) -> (r: Router<H>)
        where H: From<WhenHoop<H, F>>,
        ensures
            r.hoops@.len() == self.hoops@.len() + 1,
            r.hoops@.take(self.hoops@.len() as int) == self.hoops@,
            <H as FromSpec<WhenHoop<H, F>>>::obeys_from_spec() ==> r.hoops@.last() == <H as FromSpec<WhenHoop<H, F>>>::from_spec(WhenHoop { inner: handler, filter }),
            r.routers == self.routers,
            r.filters == self.filters,
            r.handler == self.handler,
    {
        let hoop = H::from(WhenHoop { inner: handler, filter });
        let r = self.hoop(hoop);
        assert(r.hoops@.take(self.hoops@.len() as int) =~= self.hoops@);
        r
    }

    /// A new router whose filter is the path filter of `path`.
    pub fn with_path(path: &str) -> (r: Router<H>)
        requires
            parse_pattern(path@) is Ok,
        ensures
            r.filters@.len() == 1,
            last_filter_is_path(r, path@),
            r.routers@.len() == 0,
            r.hoops@.len() == 0,
            r.handler is None,
    {
        Router::new().path(path)
    }

    /// A new router with the path filter of `path`, or why `path` is refused.
    pub fn try_with_path(path: &str) -> (r: Result<Router<H>, PathError>)
        ensures
            match r {
                Ok(router) => parse_pattern(path@) is Ok && router.filters@.len() == 1 && last_filter_is_path(router, path@)
                    && router.routers@.len() == 0 && router.hoops@.len() == 0 && router.handler is None,
                Err(e) => parse_pattern(path@) == Err::<Seq<Seq<WispView>>, PathError>(e),
            },
    {
        match PathFilter::parse(path) {
            Ok(_) => Ok(Router::with_path(path)),
            Err(e) => Err(e),
        }
    }

    /// Adds the path filter of `path` as the last filter.
    pub fn path(self, path: &str) -> (r: Router<H>)
        requires
            parse_pattern(path@) is Ok,
        ensures
            adds_filter(r, self),
            last_filter_is_path(r, path@),
    {
        let b = PathFilter::new(path).boxed();
        let mut r = self;
        r.filters.push(b);
        assert(r.filters@.take(self.filters@.len() as int) =~= self.filters@);
        r
    }

    /// Adds the path filter of `path` as the last filter, or says why `path`
    /// is refused.
    pub fn try_path(self, path: &str) -> (r: Result<Router<H>, PathError>)
        ensures
            match r {
                Ok(router) => parse_pattern(path@) is Ok && adds_filter(router, self) && last_filter_is_path(router, path@),
                Err(e) => parse_pattern(path@) == Err::<Seq<Seq<WispView>>, PathError>(e),
            },
    {
        match PathFilter::parse(path) {
            Ok(_) => Ok(self.path(path)),
            Err(e) => Err(e),
        }
    }

    /// A new router with `filter` as its filter.
    pub fn with_filter<F: IntoBoxedFilter>(filter: F) -> (r: Router<H>)
        ensures
            r.filters@.len() == 1,
            behaves_as(r.filters@[0], filter),
            r.routers@.len() == 0,
            r.hoops@.len() == 0,
            r.handler is None,
    {
        Router::new().filter(filter)
    }

    /// Adds `filter` as the last filter.
    pub fn filter<F: IntoBoxedFilter>(self, filter: F) -> (r: Router<H>)
        ensures
            adds_filter(r, self),
            behaves_as(r.filters@.last(), filter),
    {
        let b = filter.boxed();
        let mut r = self;
        r.filters.push(b);
        assert(r.filters@.take(self.filters@.len() as int) =~= self.filters@);
        r
    }

    /// A new router whose filter is the function `func`.
    pub fn with_filter_fn<T: Fn(&Request, &PathState) -> bool + 'static>(func: T) -> (r: Router<H>)
        requires
            total_and_deterministic(func),
        ensures
            r.filters@.len() == 1,
            forall|q: RequestView, s: PathStateView| #[trigger] r.filters@[0].0.decide(q, s) == (filter::fn_answer(func, q, s), q, s),
            r.routers@.len() == 0,
            r.hoops@.len() == 0,
            r.handler is None,
    {
        let r = Router::new().filter_fn(func);
        assert(r.filters@.last() == r.filters@[0]);
        r
    }

    /// Adds the function `func` as the last filter.
    pub fn filter_fn<T: Fn(&Request, &PathState) -> bool + 'static>(self, func: T) -> (r: Router<H>)
        requires
            total_and_deterministic(func),
        ensures
            adds_filter(r, self),
            forall|q: RequestView, s: PathStateView| #[trigger] r.filters@.last().0.decide(q, s) == (filter::fn_answer(func, q, s), q, s),
    {
        self.filter(FnFilter::new(func))
    }

    /// Sets the handler.
    pub fn handle(self, handler: H) -> (r: Router<H>)
        ensures
            r.handler == Some(handler),
            r.routers == self.routers,
            r.filters == self.filters,
            r.hoops == self.hoops,
    {
        let mut r = self;
        r.handler = Some(handler);
        r
    }

    /// Hands the router to `func` and returns what it returns, to keep a
    /// chain of builder calls going.
    pub fn then_apply<F: FnOnce(Router<H>) -> Router<H>>(self, func: F) -> (r: Router<H>)
        requires
            call_requires(func, (self,)),
        ensures
            call_ensures(func, (self,), r),
    {
        func(self)
    }

    /// Adds a scheme filter as the last filter.
    pub fn scheme(self, scheme: Scheme, default: bool) -> (r: Router<H>)
        ensures
            adds_filter(r, self),
            behaves_as(r.filters@.last(), SchemeFilter { scheme: scheme, lack: default }),
    {
        let b = filter::scheme(scheme, default).boxed();
        let mut r = self;
        r.filters.push(b);
        assert(r.filters@.take(self.filters@.len() as int) =~= self.filters@);
        r
    }

    /// Adds a host filter as the last filter.
    pub fn host(self, host: &str, default: bool) -> (r: Router<H>)
        ensures
            adds_filter(r, self),
            forall|q: RequestView, s: PathStateView| #[trigger] r.filters@.last().0.decide(q, s) == host_decide(host@, default, q, s),
            r.filters@.last().0.spec_info() == tagged(seq!['h', 'o', 's', 't'], host@),
    {
        let b = filter::host(host, default).boxed();
        let mut r = self;
        r.filters.push(b);
        assert(r.filters@.take(self.filters@.len() as int) =~= self.filters@);
        r
    }

    /// Adds a port filter as the last filter.
    pub fn port(self, port: u16, default: bool) -> (r: Router<H>)
        ensures
            adds_filter(r, self),
            behaves_as(r.filters@.last(), PortFilter { port: port, lack: default }),
    {
        let b = filter::port(port, default).boxed();
        let mut r = self;
        r.filters.push(b);
        assert(r.filters@.take(self.filters@.len() as int) =~= self.filters@);
        r
    }

    /// Adds a child for `method` with `handler`.
    fn method_child(self, method: Method, handler: H) -> (r: Router<H>)
        ensures
            adds_method_child(r, self, method, handler),
    {
        let mut child = Router::new();
        child.filters.push(MethodFilter::new(method).boxed());
        let child = child.handle(handler);
        let r = self.push(child);
        assert(r.routers@.take(self.routers@.len() as int) =~= self.routers@);
        r
    }

    /// Adds a child that handles GET requests with `handler`.
    pub fn get(self, handler: H) -> (r: Router<H>)
        ensures
            adds_method_child(r, self, Method::Get, handler),
    {
        self.method_child(Method::Get, handler)
    }

    /// Adds a child that handles POST requests with `handler`.
    pub fn post(self, handler: H) -> (r: Router<H>)
        ensures
            adds_method_child(r, self, Method::Post, handler),
    {
        self.method_child(Method::Post, handler)
    }

    /// Adds a child that handles PUT requests with `handler`.
    pub fn put(self, handler: H) -> (r: Router<H>)
        ensures
            adds_method_child(r, self, Method::Put, handler),
    {
        self.method_child(Method::Put, handler)
    }

    /// Adds a child that handles DELETE requests with `handler`.
    pub fn delete(self, handler: H) -> (r: Router<H>)
        ensures
            adds_method_child(r, self, Method::Delete, handler),
    {
        self.method_child(Method::Delete, handler)
    }

    /// Adds a child that handles PATCH requests with `handler`.
    pub fn patch(self, handler: H) -> (r: Router<H>)
        ensures
            adds_method_child(r, self, Method::Patch, handler),
    {
        self.method_child(Method::Patch, handler)
    }

    /// Adds a child that handles HEAD requests with `handler`.
    pub fn head(self, handler: H) -> (r: Router<H>)
        ensures
            adds_method_child(r, self, Method::Head, handler),
    {
        self.method_child(Method::Head, handler)
    }

    /// Adds a child that handles OPTIONS requests with `handler`.
    pub fn options(self, handler: H) -> (r: Router<H>)
        ensures
            adds_method_child(r, self, Method::Options, handler),
    {
        self.method_child(Method::Options, handler)
    }
}

impl<H> Default for Router<H> {
    fn default() -> (r: Router<H>)
        ensures
            is_bare(r),
    {
        Router::new()
    }
}

} // verus!
