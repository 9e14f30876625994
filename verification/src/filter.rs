//! Filters: the tests a router puts a request and its path state through.

use vstd::prelude::*;
use vstd::string::*;
use crate::request::{Request, RequestView, Method, Scheme, method_name, scheme_name};
use crate::path_state::{PathState, PathStateView};
use crate::text::{push_all, push_decimal, decimal, chars_of};

verus! {

/// A test on a request and the path state. A filter may consume part of the
/// path (move the cursor) and capture parameters.
pub trait Filter {
    /// What the filter decides and leaves behind for a request and a state.
    spec fn decide(&self, req: RequestView, state: PathStateView) -> (bool, RequestView, PathStateView);

    /// The description of the filter that the router tree listing shows.
    spec fn spec_info(&self) -> Seq<char>;

    fn filter(&self, req: &mut Request, state: &mut PathState) -> (passed: bool)
        ensures
            (passed, final(req)@, final(state)@) == self.decide(old(req)@, old(state)@),
    ;

    fn info(&self) -> (r: String)
        ensures
            r@ == self.spec_info(),
    ;
}


/// A filter held as a trait object, as routers hold their filters.
pub struct BoxedFilter(pub Box<dyn Filter>);

/// Whether the boxed filter decides and describes itself as `f` does.
pub open spec fn behaves_as<F: Filter>(b: BoxedFilter, f: F) -> bool {
    &&& forall|r: RequestView, s: PathStateView| #[trigger] b.0.decide(r, s) == f.decide(r, s)
    &&& b.0.spec_info() == f.spec_info()
}

/// A filter that can be held as a trait object, as routers hold their
/// filters.
pub trait IntoBoxedFilter: Filter + Sized + 'static {
    /// The filter as a trait object, which decides and describes itself as
    /// this filter does.
    fn boxed(self) -> (b: BoxedFilter)
        ensures
            behaves_as(b, self),
    ;
}

/// `tag + ":" + text`.
pub open spec fn tagged(tag: Seq<char>, text: Seq<char>) -> Seq<char> {
    tag + seq![':'] + text
}

/// A string `tag + ":" + text`.
fn tagged_string(tag: &[char], text: &[char]) -> (r: String)
    ensures
        r@ == tagged(tag@, text@),
{
    let mut out = String::new();
    push_all(&mut out, tag);
    push_all(&mut out, &[':']);
    push_all(&mut out, text);
    assert(out@ =~= tagged(tag@, text@));
    out
}

/// Passes requests with the given method.
pub struct MethodFilter(pub Method);

impl MethodFilter {
    pub fn new(method: Method) -> (r: MethodFilter)
        ensures
            r.0 == method,
    {
        MethodFilter(method)
    }
}

impl Filter for MethodFilter {
    open spec fn decide(&self, req: RequestView, state: PathStateView) -> (bool, RequestView, PathStateView) {
        (req.method == self.0, req, state)
    }

    open spec fn spec_info(&self) -> Seq<char> {
        tagged(seq!['m', 'e', 't', 'h', 'o', 'd'], method_name(self.0))
    }

    fn filter(&self, req: &mut Request, state: &mut PathState) -> (passed: bool) {
        req.method == self.0
    }

    fn info(&self) -> (r: String) {
        let tag = ['m', 'e', 't', 'h', 'o', 'd'];
        assert(tag@ =~= seq!['m', 'e', 't', 'h', 'o', 'd']);
        tagged_string(&tag, self.0.name_chars().as_slice())
    }
}

impl IntoBoxedFilter for MethodFilter {
    fn boxed(self) -> (b: BoxedFilter) {
        BoxedFilter(Box::new(self))
    }
}

/// Passes requests whose URI has the given scheme; a request whose URI has
/// no scheme passes when `lack` is set.
pub struct SchemeFilter {
    pub scheme: Scheme,
    pub lack: bool,
}

impl Filter for SchemeFilter {
    open spec fn decide(&self, req: RequestView, state: PathStateView) -> (bool, RequestView, PathStateView) {
        let passed = match req.scheme {
            Some(s) => s == scheme_name(self.scheme),
            None => self.lack,
        };
        (passed, req, state)
    }

    open spec fn spec_info(&self) -> Seq<char> {
        tagged(seq!['s', 'c', 'h', 'e', 'm', 'e'], scheme_name(self.scheme))
    }

    fn filter(&self, req: &mut Request, state: &mut PathState) -> (passed: bool) {
        match &req.scheme {
            Some(s) => {
                let want = crate::text::string_of(self.scheme.name_chars().as_slice());
                *s == want
            },
            None => self.lack,
        }
    }

    fn info(&self) -> (r: String) {
        let tag = ['s', 'c', 'h', 'e', 'm', 'e'];
        assert(tag@ =~= seq!['s', 'c', 'h', 'e', 'm', 'e']);
        tagged_string(&tag, self.scheme.name_chars().as_slice())
    }
}

impl IntoBoxedFilter for SchemeFilter {
    fn boxed(self) -> (b: BoxedFilter) {
        BoxedFilter(Box::new(self))
    }
}

/// Passes requests whose URI has the given host; a request whose URI has
/// no host passes when `lack` is set.
pub struct HostFilter {
    pub host: String,
    pub lack: bool,
}

/// What a host filter for `host` decides.
pub open spec fn host_decide(host: Seq<char>, lack: bool, req: RequestView, state: PathStateView) -> (bool, RequestView, PathStateView) {
    let passed = match req.host {
        Some(h) => h == host,
        None => lack,
    };
    (passed, req, state)
}

impl Filter for HostFilter {
    open spec fn decide(&self, req: RequestView, state: PathStateView) -> (bool, RequestView, PathStateView) {
        host_decide(self.host@, self.lack, req, state)
    }

    open spec fn spec_info(&self) -> Seq<char> {
        tagged(seq!['h', 'o', 's', 't'], self.host@)
    }

    fn filter(&self, req: &mut Request, state: &mut PathState) -> (passed: bool) {
        match &req.host {
            Some(h) => *h == self.host,
            None => self.lack,
        }
    }

    fn info(&self) -> (r: String) {
        let tag = ['h', 'o', 's', 't'];
        assert(tag@ =~= seq!['h', 'o', 's', 't']);
        tagged_string(&tag, chars_of(self.host.as_str()).as_slice())
    }
}

impl IntoBoxedFilter for HostFilter {
    fn boxed(self) -> (b: BoxedFilter) {
        BoxedFilter(Box::new(self))
    }
}

/// Passes requests whose URI has the given port; a request whose URI has
/// no port passes when `lack` is set.
pub struct PortFilter {
    pub port: u16,
    pub lack: bool,
}

impl Filter for PortFilter {
    open spec fn decide(&self, req: RequestView, state: PathStateView) -> (bool, RequestView, PathStateView) {
        let passed = match req.port {
            Some(p) => p == self.port,
            None => self.lack,
        };
        (passed, req, state)
    }

    open spec fn spec_info(&self) -> Seq<char> {
        tagged(seq!['p', 'o', 'r', 't'], decimal(self.port as nat))
    }

    fn filter(&self, req: &mut Request, state: &mut PathState) -> (passed: bool) {
        match req.port {
            Some(p) => p == self.port,
            None => self.lack,
        }
    }

    fn info(&self) -> (r: String) {
        let mut out = String::new();
        push_all(&mut out, &['p', 'o', 'r', 't', ':']);
        push_decimal(&mut out, self.port);
        assert(out@ =~= tagged(seq!['p', 'o', 'r', 't'], decimal(self.port as nat)));
        out
    }
}

impl IntoBoxedFilter for PortFilter {
    fn boxed(self) -> (b: BoxedFilter) {
        BoxedFilter(Box::new(self))
    }
}

/// Whether `f` accepts every request and state, and its answer depends only
/// on their values.
pub open spec fn total_and_deterministic<F: Fn(&Request, &PathState) -> bool>(f: F) -> bool {
    &&& forall|r: Request, s: PathState| #[trigger] call_requires(f, (&r, &s))
    &&& forall|r1: Request, s1: PathState, b1: bool, r2: Request, s2: PathState, b2: bool|
        #![trigger call_ensures(f, (&r1, &s1), b1), call_ensures(f, (&r2, &s2), b2)]
        r1@ == r2@ && s1@ == s2@ && call_ensures(f, (&r1, &s1), b1) && call_ensures(f, (&r2, &s2), b2) ==> b1 == b2
}

/// What `f` answers for a request and a state with the given values.
pub open spec fn fn_answer<F: Fn(&Request, &PathState) -> bool>(f: F, req: RequestView, state: PathStateView) -> bool {
    let t = choose|b: bool, r: Request, s: PathState| r@ == req && s@ == state && #[trigger] call_ensures(f, (&r, &s), b);
    t.0
}

/// A filter made of a function of the request and the path state. The
/// function cannot change either.
pub struct FnFilter<F: Fn(&Request, &PathState) -> bool> {
    func: F,
}

impl<F: Fn(&Request, &PathState) -> bool> FnFilter<F> {
    #[verifier::type_invariant]
    spec fn inv(self) -> bool {
        total_and_deterministic(self.func)
    }

    pub closed spec fn func(self) -> F {
        self.func
    }

    pub fn new(func: F) -> (r: FnFilter<F>)
        requires
            total_and_deterministic(func),
        ensures
            r.func() == func,
    {
        FnFilter { func }
    }
}

impl<F: Fn(&Request, &PathState) -> bool> Filter for FnFilter<F> {
    open spec fn decide(&self, req: RequestView, state: PathStateView) -> (bool, RequestView, PathStateView) {
        (fn_answer(self.func(), req, state), req, state)
    }

    open spec fn spec_info(&self) -> Seq<char> {
        seq!['f', 'n', ':', 'f', 'n']
    }

    fn filter(&self, req: &mut Request, state: &mut PathState) -> (passed: bool) {
        proof {
            use_type_invariant(self);
        }
        let b = (self.func)(&*req, &*state);
        proof {
            let r0 = *req;
            let s0 = *state;
            assert(call_ensures(self.func, (&r0, &s0), b));
            assert(exists|b2: bool, r: Request, s: PathState| r@ == req@ && s@ == state@ && #[trigger] call_ensures(self.func, (&r, &s), b2));
            let t = choose|b2: bool, r: Request, s: PathState| r@ == req@ && s@ == state@ && #[trigger] call_ensures(self.func, (&r, &s), b2);
            assert(call_ensures(self.func, (&t.1, &t.2), t.0));
            assert(t.0 == b);
        }
        b
    }

    fn info(&self) -> (r: String) {
        let mut out = String::new();
        push_all(&mut out, &['f', 'n', ':', 'f', 'n']);
        assert(out@ =~= seq!['f', 'n', ':', 'f', 'n']);
        out
    }
}

impl<F: Fn(&Request, &PathState) -> bool + 'static> IntoBoxedFilter for FnFilter<F> {
    fn boxed(self) -> (b: BoxedFilter) {
        BoxedFilter(Box::new(self))
    }
}

/// A filter for the GET method.
pub fn get() -> (r: MethodFilter)
    ensures
        r.0 == Method::Get,
{
    MethodFilter(Method::Get)
}

/// A filter for the POST method.
pub fn post() -> (r: MethodFilter)
    ensures
        r.0 == Method::Post,
{
    MethodFilter(Method::Post)
}

/// A filter for the PUT method.
pub fn put() -> (r: MethodFilter)
    ensures
        r.0 == Method::Put,
{
    MethodFilter(Method::Put)
}

/// A filter for the DELETE method.
pub fn delete() -> (r: MethodFilter)
    ensures
        r.0 == Method::Delete,
{
    MethodFilter(Method::Delete)
}

/// A filter for the PATCH method.
pub fn patch() -> (r: MethodFilter)
    ensures
        r.0 == Method::Patch,
{
    MethodFilter(Method::Patch)
}

/// A filter for the HEAD method.
pub fn head() -> (r: MethodFilter)
    ensures
        r.0 == Method::Head,
{
    MethodFilter(Method::Head)
}

/// A filter for the OPTIONS method.
pub fn options() -> (r: MethodFilter)
    ensures
        r.0 == Method::Options,
{
    MethodFilter(Method::Options)
}

/// A filter for a scheme.
pub fn scheme(value: Scheme, lack: bool) -> (r: SchemeFilter)
    ensures
        r.scheme == value,
        r.lack == lack,
{
    SchemeFilter { scheme: value, lack }
}

/// A filter for a host.
pub fn host(value: &str, lack: bool) -> (r: HostFilter)
    ensures
        r.host@ == value@,
        r.lack == lack,
{
    HostFilter { host: String::from_str(value), lack }
}

/// A filter for a port.
pub fn port(value: u16, lack: bool) -> (r: PortFilter)
    ensures
        r.port == value,
        r.lack == lack,
{
    PortFilter { port: value, lack }
}

} // verus!
